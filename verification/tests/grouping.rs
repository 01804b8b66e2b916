use sqlparse::{parse, Token};

fn show(tokens: &[Token]) -> String {
    let mut parts: Vec<String> = Vec::new();
    for t in tokens {
        if t.children.is_empty() {
            parts.push(format!("{:?}({})", t.typ, t.value));
        } else {
            assert_eq!(t.value, t.children.iter().map(|c| c.value.as_str()).collect::<String>());
            parts.push(format!("{:?}[{}]", t.typ, show(&t.children)));
        }
    }
    parts.join(" ")
}

fn check(sql: &str, expected: &str) {
    let tokens = parse(sql);
    assert_eq!(tokens.iter().map(|t| t.value.as_str()).collect::<String>(), sql);
    assert_eq!(show(&tokens), expected);
}

#[test]
fn test_group_parentheses_and_brackets() {
    check(
        "a(b[c](d)) ) ( e",
        "Function[Identifier[Name(a)] Parenthesis[Punctuation(() Identifier[Name(b)] SquareBrackets[Punctuation([) Identifier[Name(c)] Punctuation(])] Parenthesis[Punctuation(() Identifier[Name(d)] Punctuation())] Punctuation())]] Whitespace( ) Punctuation()) Whitespace( ) Punctuation(() Whitespace( ) Identifier[Name(e)]",
    );
}

#[test]
fn test_group_case() {
    check(
        "case when a then case b when 1 then 2 end else 3 end end",
        "Case[Keyword(case) Whitespace( ) Keyword(when) Whitespace( ) Identifier[Name(a)] Whitespace( ) Keyword(then) Whitespace( ) Case[Keyword(case) Whitespace( ) Identifier[Name(b)] Whitespace( ) Keyword(when) Whitespace( ) LiteralNumberInteger(1) Whitespace( ) Keyword(then) Whitespace( ) LiteralNumberInteger(2) Whitespace( ) Keyword(end)] Whitespace( ) Keyword(else) Whitespace( ) LiteralNumberInteger(3) Whitespace( ) Keyword(end)] Whitespace( ) Keyword(end)",
    );
}

#[test]
fn test_group_blocks_in_create() {
    check(
        "create procedure p() begin if a then b; end if; end",
        "KeywordDDL(create) Whitespace( ) Keyword(procedure) Whitespace( ) Function[Identifier[Name(p)] Parenthesis[Punctuation(() Punctuation())]] Whitespace( ) Begin[Keyword(begin) Whitespace( ) If[Keyword(if) Whitespace( ) Identifier[Name(a)] Whitespace( ) Keyword(then) Whitespace( ) Identifier[Name(b)] Punctuation(;) Whitespace( ) Keyword(end if)] Punctuation(;) Whitespace( ) Keyword(end)]",
    );
}

#[test]
fn test_group_no_blocks_without_create() {
    check(
        "begin if a then b; end if; end",
        "Keyword(begin) Whitespace( ) Keyword(if) Whitespace( ) Identifier[Name(a)] Whitespace( ) Keyword(then) Whitespace( ) Identifier[Name(b)] Punctuation(;) Whitespace( ) Keyword(end if) Punctuation(;) Whitespace( ) Keyword(end)",
    );
}

#[test]
fn test_group_typed_literal() {
    check(
        "select date '2020-01-01', timestamp 'x', int 5",
        "KeywordDML(select) Whitespace( ) IdentifierList[TypedLiteral[NameBuiltin(date) Whitespace( ) LiteralString('2020-01-01')] Punctuation(,) Whitespace( ) TypedLiteral[NameBuiltin(timestamp) Whitespace( ) LiteralString('x')] Punctuation(,) Whitespace( ) NameBuiltin(int)] Whitespace( ) LiteralNumberInteger(5)",
    );
}

#[test]
fn test_group_functions_and_over() {
    check(
        "sum(a) over (partition by b), max (c), in (1), coalesce(d)",
        "IdentifierList[Function[Identifier[Name(sum)] Parenthesis[Punctuation(() Identifier[Name(a)] Punctuation())] Whitespace( ) Over[Keyword(over) Whitespace( ) Parenthesis[Punctuation(() Keyword(partition) Whitespace( ) Keyword(by) Whitespace( ) Identifier[Name(b)] Punctuation())]]] Punctuation(,) Whitespace( ) Keyword(max)] Whitespace( ) Parenthesis[Punctuation(() Identifier[Name(c)] Punctuation())] Punctuation(,) Whitespace( ) Keyword(in) Whitespace( ) Parenthesis[Punctuation(() LiteralNumberInteger(1) Punctuation())] Punctuation(,) Whitespace( ) Function[Identifier[Name(coalesce)] Parenthesis[Punctuation(() Identifier[Name(d)] Punctuation())]]",
    );
}

#[test]
fn test_group_qualified_names() {
    check(
        "a.b.c, \"d\".e, f . g, h.*, i.1",
        "IdentifierList[Identifier[Name(a) Punctuation(.) Name(b) Punctuation(.) Name(c)] Punctuation(,) Whitespace( ) Identifier[LiteralStringSymbol(\"d\") Punctuation(.) Name(e)] Punctuation(,) Whitespace( ) Identifier[Name(f) Whitespace( ) Punctuation(.) Whitespace( ) Name(g)] Punctuation(,) Whitespace( ) Identifier[Name(h) Punctuation(.) Wildcard(*)] Punctuation(,) Whitespace( ) Identifier[Name(i)]] LiteralNumberFloat(.1)",
    );
}

#[test]
fn test_group_order() {
    check(
        "order by a desc, 2 asc, b",
        "Keyword(order by) Whitespace( ) IdentifierList[Identifier[Identifier[Name(a)] Whitespace( ) Keyword(desc)] Punctuation(,) Whitespace( ) Identifier[LiteralNumberInteger(2) Whitespace( ) Keyword(asc)] Punctuation(,) Whitespace( ) Identifier[Name(b)]]",
    );
}

#[test]
fn test_group_typecast() {
    check(
        "a::int + b :: text",
        "Operation[TypeCast[Identifier[Name(a)] Punctuation(::) NameBuiltin(int)] Whitespace( ) Operator(+) Whitespace( ) TypeCast[Identifier[Name(b)] Whitespace( ) Punctuation(::) Whitespace( ) NameBuiltin(text)]]",
    );
}

#[test]
fn test_group_operations() {
    check(
        "a + b * c - (d / e) || 'x' + 1, * from, select a * b, c.* ",
        "IdentifierList[Operation[Operation[Operation[Operation[Operation[Identifier[Name(a)] Whitespace( ) Operator(+) Whitespace( ) Identifier[Name(b)]] Whitespace( ) Operator(*) Whitespace( ) Identifier[Name(c)]] Whitespace( ) Operator(-) Whitespace( ) Parenthesis[Punctuation(() Operation[Identifier[Name(d)] Whitespace( ) Operator(/) Whitespace( ) Identifier[Name(e)]] Punctuation())]] Whitespace( ) Operator(||) Whitespace( ) LiteralString('x')] Whitespace( ) Operator(+) Whitespace( ) LiteralNumberInteger(1)] Punctuation(,) Whitespace( ) Wildcard(*)] Whitespace( ) IdentifierList[Keyword(from) Punctuation(,) Whitespace( ) KeywordDML(select)] Whitespace( ) IdentifierList[Operation[Identifier[Name(a)] Whitespace( ) Operator(*) Whitespace( ) Identifier[Name(b)]] Punctuation(,) Whitespace( ) Identifier[Name(c) Punctuation(.) Wildcard(*)]] Whitespace( )",
    );
}

#[test]
fn test_group_comparisons() {
    check(
        "a = 1 and b <> c + d or e like 'x' and f is null and g = null",
        "Comparison[Identifier[Name(a)] Whitespace( ) OperatorComparison(=) Whitespace( ) LiteralNumberInteger(1)] Whitespace( ) Keyword(and) Whitespace( ) Comparison[Identifier[Name(b)] Whitespace( ) OperatorComparison(<>) Whitespace( ) Operation[Identifier[Name(c)] Whitespace( ) Operator(+) Whitespace( ) Identifier[Name(d)]]] Whitespace( ) Keyword(or) Whitespace( ) Comparison[Identifier[Name(e)] Whitespace( ) OperatorComparison(like) Whitespace( ) LiteralString('x')] Whitespace( ) Keyword(and) Whitespace( ) Identifier[Name(f)] Whitespace( ) Keyword(is) Whitespace( ) Keyword(null) Whitespace( ) Keyword(and) Whitespace( ) Comparison[Identifier[Name(g)] Whitespace( ) OperatorComparison(=) Whitespace( ) Keyword(null)]",
    );
}

#[test]
fn test_group_aliases() {
    check(
        "select a as b, c d, (select 1) e, f(x) as g, 1 h, null as i from t j",
        "KeywordDML(select) Whitespace( ) IdentifierList[Identifier[Name(a) Whitespace( ) Keyword(as) Whitespace( ) Identifier[Name(b)]] Punctuation(,) Whitespace( ) Identifier[Name(c) Whitespace( ) Identifier[Name(d)]] Punctuation(,) Whitespace( ) Identifier[Parenthesis[Punctuation(() KeywordDML(select) Whitespace( ) LiteralNumberInteger(1) Punctuation())] Whitespace( ) Identifier[Name(e)]] Punctuation(,) Whitespace( ) Identifier[Function[Identifier[Name(f)] Parenthesis[Punctuation(() Identifier[Name(x)] Punctuation())]] Whitespace( ) Keyword(as) Whitespace( ) Identifier[Name(g)]] Punctuation(,) Whitespace( ) Identifier[LiteralNumberInteger(1) Whitespace( ) Identifier[Name(h)]] Punctuation(,) Whitespace( ) Identifier[Keyword(null) Whitespace( ) Keyword(as) Whitespace( ) Identifier[Name(i)]]] Whitespace( ) Keyword(from) Whitespace( ) Identifier[Name(t) Whitespace( ) Identifier[Name(j)]]",
    );
}

#[test]
fn test_group_assignment() {
    check(
        "a := b + 1; c := 2",
        "Assignment[Identifier[Name(a)] Whitespace( ) Punctuation(:=) Whitespace( ) Operation[Identifier[Name(b)] Whitespace( ) Operator(+) Whitespace( ) LiteralNumberInteger(1)] Punctuation(;)] Whitespace( ) Assignment[Identifier[Name(c)] Whitespace( ) Punctuation(:=) Whitespace( ) LiteralNumberInteger(2)]",
    );
}

#[test]
fn test_group_lists() {
    check(
        "a, b, 1, 'x', null, *, f(c), case when d then e end, g = 1",
        "IdentifierList[Identifier[Name(a)] Punctuation(,) Whitespace( ) Identifier[Name(b)] Punctuation(,) Whitespace( ) LiteralNumberInteger(1) Punctuation(,) Whitespace( ) LiteralString('x') Punctuation(,) Whitespace( ) Keyword(null) Punctuation(,) Whitespace( ) Wildcard(*) Punctuation(,) Whitespace( ) Function[Identifier[Name(f)] Parenthesis[Punctuation(() Identifier[Name(c)] Punctuation())]] Punctuation(,) Whitespace( ) Case[Keyword(case) Whitespace( ) Keyword(when) Whitespace( ) Identifier[Name(d)] Whitespace( ) Keyword(then) Whitespace( ) Identifier[Name(e)] Whitespace( ) Keyword(end)] Punctuation(,) Whitespace( ) Comparison[Identifier[Name(g)] Whitespace( ) OperatorComparison(=) Whitespace( ) LiteralNumberInteger(1)]]",
    );
}

#[test]
fn test_group_no_list_in_case() {
    check(
        "case when a then b, c end, d",
        "IdentifierList[Case[Keyword(case) Whitespace( ) Keyword(when) Whitespace( ) Identifier[Name(a)] Whitespace( ) Keyword(then) Whitespace( ) Identifier[Name(b)] Punctuation(,) Whitespace( ) Identifier[Name(c)] Whitespace( ) Keyword(end)] Punctuation(,) Whitespace( ) Identifier[Name(d)]]",
    );
}

#[test]
fn test_group_values() {
    check(
        "insert into t values (1, 2), (3, 4) returning a",
        "KeywordDML(insert) Whitespace( ) Keyword(into) Whitespace( ) Identifier[Name(t)] Whitespace( ) Values[Keyword(values) Whitespace( ) Parenthesis[Punctuation(() IdentifierList[LiteralNumberInteger(1) Punctuation(,) Whitespace( ) LiteralNumberInteger(2)] Punctuation())] Punctuation(,) Whitespace( ) Parenthesis[Punctuation(() IdentifierList[LiteralNumberInteger(3) Punctuation(,) Whitespace( ) LiteralNumberInteger(4)] Punctuation())]] Whitespace( ) Keyword(returning) Whitespace( ) Identifier[Name(a)]",
    );
}

#[test]
fn test_group_where_and_having() {
    check(
        "select a from t where b = 1 group by a having c > 1 order by a limit 1; x",
        "KeywordDML(select) Whitespace( ) Identifier[Name(a)] Whitespace( ) Keyword(from) Whitespace( ) Identifier[Name(t)] Whitespace( ) Where[Keyword(where) Whitespace( ) Comparison[Identifier[Name(b)] Whitespace( ) OperatorComparison(=) Whitespace( ) LiteralNumberInteger(1)]] Whitespace( ) Keyword(group by) Whitespace( ) Identifier[Name(a)] Whitespace( ) Having[Keyword(having) Whitespace( ) Comparison[Identifier[Name(c)] Whitespace( ) OperatorComparison(>) Whitespace( ) LiteralNumberInteger(1)]] Whitespace( ) Keyword(order by) Whitespace( ) Identifier[Name(a)] Whitespace( ) Keyword(limit) Whitespace( ) LiteralNumberInteger(1) Punctuation(;) Whitespace( ) Identifier[Name(x)]",
    );
}

#[test]
fn test_group_where_to_the_end() {
    check(
        "delete from t where a in (select b from u where c)",
        "KeywordDML(delete) Whitespace( ) Keyword(from) Whitespace( ) Identifier[Name(t)] Whitespace( ) Where[Keyword(where) Whitespace( ) Identifier[Name(a)] Whitespace( ) Keyword(in) Whitespace( ) Parenthesis[Punctuation(() KeywordDML(select) Whitespace( ) Identifier[Name(b)] Whitespace( ) Keyword(from) Whitespace( ) Identifier[Name(u)] Whitespace( ) Where[Keyword(where) Whitespace( ) Identifier[Name(c)]] Punctuation())]]",
    );
}

#[test]
fn test_star_without_left_neighbour_is_an_operator() {
    let first = parse("* from t");
    assert_eq!(format!("{:?}({})", first[0].typ, first[0].value), "Operator(*)");
    let blank = parse("  * from t");
    assert_eq!(format!("{:?}({})", blank[1].typ, blank[1].value), "Operator(*)");
    let kept = parse("select * from t");
    assert_eq!(format!("{:?}({})", kept[2].typ, kept[2].value), "Wildcard(*)");
}

#[test]
fn test_group_tokenlist_groups_in_place() {
    let sql = "select a, b from t where c = 1";
    let mut list = sqlparse::TokenList::new(sqlparse::parse_no_grouping(sql));
    sqlparse::group_tokenlist(&mut list);
    assert_eq!(show(&list.tokens), show(&parse(sql)));
    assert_eq!(list.tokens.len(), 9);
}
