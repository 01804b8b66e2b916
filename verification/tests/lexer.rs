use sqlparse::{parse_no_grouping, Token};

fn show(tokens: &[Token]) -> String {
    let mut parts: Vec<String> = Vec::new();
    for t in tokens {
        assert!(t.children.is_empty());
        let value = t.value.replace('\n', "\\n").replace('\r', "\\r").replace('\t', "\\t");
        parts.push(format!("{:?}({})", t.typ, value));
    }
    parts.join(" ")
}

fn check(sql: &str, expected: &str) {
    let tokens = parse_no_grouping(sql);
    assert_eq!(tokens.iter().map(|t| t.value.as_str()).collect::<String>(), sql);
    assert_eq!(show(&tokens), expected);
}

#[test]
fn test_lex_numbers() {
    check(
        "1 1.5 1. .5 1e5 1.5E-3 1e+2 0x1f 0x 1a 1_ 3.x",
        "LiteralNumberInteger(1) Whitespace( ) LiteralNumberFloat(1.5) Whitespace( ) LiteralNumberFloat(1.) Whitespace( ) LiteralNumberFloat(.5) Whitespace( ) LiteralNumberFloat(1e5) Whitespace( ) LiteralNumberFloat(1.5E-3) Whitespace( ) LiteralNumberFloat(1e+2) Whitespace( ) LiteralNumberHexadecimal(0x1f) Whitespace( ) Name(0x) Whitespace( ) Name(1a) Whitespace( ) Name(1_) Whitespace( ) Name(3) Punctuation(.) Name(x)",
    );
}

#[test]
fn test_lex_quotes() {
    check(
        "'a''b' 'c\\'d' 'e\\\\' \"f\"\"g\" `h``i` 'open",
        "LiteralString('a''b') Whitespace( ) LiteralString('c\\'d') Whitespace( ) LiteralString('e\\\\') Whitespace( ) LiteralStringSymbol(\"f\"\"g\") Whitespace( ) Name(`h``i`) Whitespace( ) Error(') Keyword(open)",
    );
}

#[test]
fn test_lex_backslash_before_the_last_quote() {
    check(
        "'abc\\'",
        "LiteralString('abc\\')",
    );
}

#[test]
fn test_lex_placeholders() {
    check(
        "? %s %(name)s :name $1 a:b a$1 ::x :=y %x",
        "Placeholder(?) Whitespace( ) Placeholder(%s) Whitespace( ) Placeholder(%(name)s) Whitespace( ) Placeholder(:name) Whitespace( ) Placeholder($1) Whitespace( ) Name(a) Punctuation(:) Name(b) Whitespace( ) Name(a$1) Whitespace( ) Punctuation(::) Name(x) Whitespace( ) Punctuation(:=) Name(y) Whitespace( ) Operator(%) Name(x)",
    );
}

#[test]
fn test_lex_dollar_quotes() {
    check(
        "$$a $ b$$ $tag$ x $$ y $tag$ $t$open a$$b$$",
        "Literal($$a $ b$$) Whitespace( ) Literal($tag$ x $$ y $tag$) Whitespace( ) Placeholder($t) Error($) Keyword(open) Whitespace( ) Name(a$$b$$)",
    );
}

#[test]
fn test_lex_comments() {
    check(
        "a --x\r\nb # y\nc #z /* m /* n */ o */ /* open",
        "Name(a) Whitespace( ) CommentSingle(--x\\r\\n) Name(b) Whitespace( ) CommentSingle(# y\\n) Name(c) Whitespace( ) Operator(#) Name(z) Whitespace( ) CommentMultiline(/* m /* n */) Whitespace( ) Name(o) Whitespace( ) Wildcard(*) Operator(/) Whitespace( ) Operator(/) Wildcard(*) Whitespace( ) Keyword(open)",
    );
}

#[test]
fn test_lex_names_with_sigils() {
    check(
        "@ab @a #tmp ##tmp #t [a b] x[1] [] a.b.c",
        "Name(@ab) Whitespace( ) Operator(@) Name(a) Whitespace( ) Name(#tmp) Whitespace( ) Name(##tmp) Whitespace( ) Operator(#) Name(t) Whitespace( ) Name([a b]) Whitespace( ) Name(x) Punctuation([) LiteralNumberInteger(1) Punctuation(]) Whitespace( ) Punctuation([) Punctuation(]) Whitespace( ) Name(a) Punctuation(.) Name(b) Punctuation(.) Name(c)",
    );
}

#[test]
fn test_lex_operators() {
    check(
        "a<=b<>c!=d~e a||b&&c +-/ ^ | & %",
        "Name(a) OperatorComparison(<=) Name(b) OperatorComparison(<>) Name(c) OperatorComparison(!=) Name(d) OperatorComparison(~) Name(e) Whitespace( ) Name(a) Operator(||) Name(b) Operator(&&) Name(c) Whitespace( ) Operator(+-/) Whitespace( ) Operator(^) Whitespace( ) Operator(|) Whitespace( ) Operator(&) Whitespace( ) Operator(%)",
    );
}

#[test]
fn test_lex_keywords_of_several_words() {
    check(
        "GROUP BY group  by ORDER BYE left outer join x END IF; end iffy not null",
        "Keyword(GROUP BY) Whitespace( ) Keyword(group) Whitespace(  ) Keyword(by) Whitespace( ) Keyword(ORDER) Whitespace( ) Name(BYE) Whitespace( ) Keyword(left outer join) Whitespace( ) Name(x) Whitespace( ) Keyword(END IF) Punctuation(;) Whitespace( ) Keyword(end) Whitespace( ) Name(iffy) Whitespace( ) Keyword(not null)",
    );
}

#[test]
fn test_lex_keywords_before_parenthesis() {
    check(
        "in(1) VALUES(1) as(x) case(a) using(b) from(c) where(d) coalesce(e) int(4)",
        "Keyword(in) Punctuation(() LiteralNumberInteger(1) Punctuation()) Whitespace( ) Keyword(VALUES) Punctuation(() LiteralNumberInteger(1) Punctuation()) Whitespace( ) Keyword(as) Punctuation(() Name(x) Punctuation()) Whitespace( ) Keyword(case) Punctuation(() Name(a) Punctuation()) Whitespace( ) Keyword(using) Punctuation(() Name(b) Punctuation()) Whitespace( ) Keyword(from) Punctuation(() Name(c) Punctuation()) Whitespace( ) Name(where) Punctuation(() Name(d) Punctuation()) Whitespace( ) Name(coalesce) Punctuation(() Name(e) Punctuation()) Whitespace( ) Name(int) Punctuation(() LiteralNumberInteger(4) Punctuation())",
    );
}

#[test]
fn test_lex_other_characters() {
    check(
        "a\\b \\cmd {x} é€ ñ_1 ´",
        "Name(a) Command(\\b) Whitespace( ) Command(\\cmd) Whitespace( ) Error({) Name(x) Error(}) Whitespace( ) Name(é€) Whitespace( ) Name(ñ_1) Whitespace( ) Name(´)",
    );
}

#[test]
fn test_lex_blank_space() {
    check(
        " \t\r\n\u{b}\u{c} a  b",
        "Whitespace( \\t\\r\\n\u{b}\u{c} ) Name(a) Whitespace(  ) Name(b)",
    );
}

#[test]
fn test_lex_blank_space_outside_ascii_is_a_name_character() {
    check(
        "a \u{a0}b \u{2003}",
        "Name(a) Whitespace( ) Name(\u{a0}b) Whitespace( ) Name(\u{2003})",
    );
}
