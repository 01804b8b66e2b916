use sqlparse::{parse, parse_multi, parse_no_grouping, Parser, Token, TokenType};
use std::time::Instant;

#[test]
fn test_parse() {
    let sql = "select * from users where id > 1 order by id;";
    let tokens = parse(sql);
    for token in tokens {
        println!("{:?}", token);
    }
}

#[test]
fn test_parse_identifier() {
    let sql = "select * from sch.users;";
    let tokens = parse(sql);
    for token in tokens {
        println!("{:?} {}", token.typ, token.value);
    }
}

#[test]
fn test_parser1() {
    let sql = "SELECT article, MAX(price) AS price FROM shop GROUP BY article ORDER BY article;";
    let p = Parser::default();
    let now = Instant::now();
    let _tokens = p.parse(sql);
    let elapsed = now.elapsed();
    println!("elapsed: {}ms", elapsed.as_millis());
}

#[test]
fn test_parser2() {
    let sql = "s";
    let p = Parser::default();
    let tokens = p.parse(sql);
    assert_eq!(tokens.len(), 1);
    assert_eq!(tokens[0].typ, TokenType::Identifier);
    println!("{:?}", tokens);
}

#[test]
fn test_parser3() {
    let sql = "SELECT COUNT(CustomerID), Country FROM Customers GROUP BY Country HAVING COUNT(CustomerID) > 5 ORDER BY COUNT(CustomerID) DESC;";
    let p = Parser::default();
    let now = Instant::now();
    let _tokens = p.parse(sql);
    let elapsed = now.elapsed();
    println!("elapsed: {}ms", elapsed.as_millis());
}

fn text(tokens: &[Token]) -> String {
    tokens.iter().map(|t| t.value.as_str()).collect()
}

fn kinds(tokens: &[Token]) -> Vec<TokenType> {
    tokens.iter().map(|t| t.typ).collect()
}

fn check_tree(tokens: &[Token]) {
    for t in tokens {
        if t.children.is_empty() {
            assert!(!t.typ.is_group());
        } else {
            assert!(t.typ.is_group());
            assert_eq!(t.value, text(&t.children));
            check_tree(&t.children);
        }
    }
}

#[test]
fn test_round_trip_of_parse() {
    let inputs = vec![
        "",
        " ",
        "select * from users where id > 1 order by id;",
        "select a.*, \"b\".c, `d` from t1 x join (select 1) y on x.a = y.a -- done\n",
        "insert into foo(a, b) values (1, 'two''s'), (0x1F, 2.5e-3);",
        "select case when a = 1 then 'x' else $tag$ y $tag$ end /* c */ from t where b in (?, :n, %s)",
        "sélect ünï 'unterminated",
        "a::int := b[1] || c",
    ];
    for sql in inputs {
        let tokens = parse(sql);
        assert_eq!(text(&tokens), sql);
        check_tree(&tokens);
        let flat = parse_no_grouping(sql);
        assert_eq!(text(&flat), sql);
        for t in &flat {
            assert!(t.children.is_empty());
            assert!(!t.value.is_empty());
        }
    }
}

#[test]
fn test_round_trip_of_parse_multi() {
    let sql = "select 1; select 2 ;\n-- c\nselect (3;4); create function f() begin a; end; x";
    let stmts = parse_multi(sql);
    assert_eq!(stmts.len(), 5);
    let all: String = stmts.iter().map(|s| text(s)).collect();
    assert_eq!(all, sql);
    for s in &stmts {
        check_tree(s);
    }
    assert_eq!(parse_multi("  \n ").len(), 0);
    assert_eq!(parse_multi("").len(), 0);
    let p = Parser::new();
    let flat = p.parse_multi_no_grouping(sql);
    assert_eq!(flat.len(), 5);
    assert_eq!(text(&flat[0]), "select 1; ");
    assert_eq!(text(&p.parse_no_grouping("a b")), "a b");
    assert_eq!(p.parse_multi("a;b").len(), 2);
}

#[test]
fn test_lexer_kinds() {
    let flat = parse_no_grouping("select a1, 12 3.5 1e5 0xFF 'x' \"y\" `z` -- c");
    assert_eq!(
        kinds(&flat),
        vec![
            TokenType::KeywordDML,
            TokenType::Whitespace,
            TokenType::Name,
            TokenType::Punctuation,
            TokenType::Whitespace,
            TokenType::LiteralNumberInteger,
            TokenType::Whitespace,
            TokenType::LiteralNumberFloat,
            TokenType::Whitespace,
            TokenType::LiteralNumberFloat,
            TokenType::Whitespace,
            TokenType::LiteralNumberHexadecimal,
            TokenType::Whitespace,
            TokenType::LiteralString,
            TokenType::Whitespace,
            TokenType::LiteralStringSymbol,
            TokenType::Whitespace,
            TokenType::Name,
            TokenType::Whitespace,
            TokenType::CommentSingle,
        ]
    );
    let flat = parse_no_grouping("a<=b||c*d/* x */end if;group by left outer join");
    assert_eq!(
        kinds(&flat),
        vec![
            TokenType::Name,
            TokenType::OperatorComparison,
            TokenType::Name,
            TokenType::Operator,
            TokenType::Name,
            TokenType::Wildcard,
            TokenType::Name,
            TokenType::CommentMultiline,
            TokenType::Keyword,
            TokenType::Punctuation,
            TokenType::Keyword,
            TokenType::Whitespace,
            TokenType::Keyword,
        ]
    );
    assert_eq!(flat[8].value, "end if");
    assert_eq!(flat[10].value, "group by");
    assert_eq!(flat[12].value, "left outer join");
}

#[test]
fn test_lexer_words_before_parenthesis_and_period() {
    let flat = parse_no_grouping("max(a) from(b) table.c select.d");
    assert_eq!(flat[0].typ, TokenType::Name);
    assert_eq!(flat[5].typ, TokenType::Keyword);
    assert_eq!(flat[5].value, "from");
    assert_eq!(flat[10].typ, TokenType::Name);
    assert_eq!(flat[10].value, "table");
    assert_eq!(flat[12].typ, TokenType::Name);
    assert_eq!(flat[14].typ, TokenType::Name);
    assert_eq!(flat[16].typ, TokenType::Name);
}

#[test]
fn test_grouping_shapes() {
    let tokens = parse("select count(*), a.b as c from t where x = 1 and y");
    assert_eq!(
        kinds(&tokens),
        vec![
            TokenType::KeywordDML,
            TokenType::Whitespace,
            TokenType::IdentifierList,
            TokenType::Whitespace,
            TokenType::Keyword,
            TokenType::Whitespace,
            TokenType::Identifier,
            TokenType::Whitespace,
            TokenType::Where,
        ]
    );
    let list = &tokens[2].children;
    assert_eq!(list[0].typ, TokenType::Function);
    assert_eq!(list[0].value, "count(*)");
    assert_eq!(list[0].children[1].typ, TokenType::Parenthesis);
    assert_eq!(list[0].children[1].children[1].typ, TokenType::Wildcard);
    assert_eq!(list[3].typ, TokenType::Identifier);
    assert_eq!(list[3].value, "a.b as c");
    let clause = &tokens[8].children;
    assert_eq!(clause[2].typ, TokenType::Comparison);
    assert_eq!(clause[2].value, "x = 1");
}

#[test]
fn test_grouping_wildcard_and_multiplication() {
    let tokens = parse("select a*b, * from t");
    let list = &tokens[2].children;
    assert_eq!(list[0].typ, TokenType::Operation);
    assert_eq!(list[0].children[1].typ, TokenType::Operator);
    assert_eq!(list[3].typ, TokenType::Wildcard);
}
