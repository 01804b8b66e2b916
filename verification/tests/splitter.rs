use sqlparse::{parse_no_grouping, StatementSplitter, Token, TokenType};

#[test]
fn test_parse_splitter() {
    let sql = "select 'one'; select 'two'; select 'two';";
    let tokens = parse_no_grouping(sql);
    let mut splitter = StatementSplitter::default();
    let stmts = splitter.process(tokens);
    assert_eq!(stmts.len(), 3);
}

#[test]
fn test_parse_splitter_function() {
    let sql = r#"   CREATE FUNCTION a(x VARCHAR(20)) RETURNS VARCHAR(20)
        BEGIN
         DECLARE y VARCHAR(20);
         RETURN x;
        END;
        SELECT * FROM a.b;"#;
    let tokens = parse_no_grouping(sql);
    let mut splitter = StatementSplitter::default();
    let stmts = splitter.process(tokens);
    assert_eq!(stmts.len(), 2);
}

#[test]
fn test_parse_splitter_function1() {
    let sql = r#"   CREATE FUNCTION a(x VARCHAR(20)) RETURNS VARCHAR(20)
        BEGIN
         DECLARE y VARCHAR(20);
         IF (1 = 1) THEN
         SET x = y;
         END IF;
         RETURN x;
        END;
        SELECT * FROM a.b;"#;
    let tokens = parse_no_grouping(sql);
    let mut splitter = StatementSplitter::default();
    let stmts = splitter.process(tokens);
    assert_eq!(stmts.len(), 2);
}

#[test]
fn test_parse_splitter_multi() {
    let sql = r#"CREATE OR REPLACE RULE ruled_tab_2rules AS ON INSERT
TO public.ruled_tab
DO instead (
select 1;
select 2;
);"#;
    let tokens = parse_no_grouping(sql);
    let mut splitter = StatementSplitter::default();
    let stmts = splitter.process(tokens);
    assert_eq!(stmts.len(), 1);
}

#[test]
fn test_parse_splitting_at_and_backticks() {
    let sql = "grant foo to user1@`myhost`; grant bar to user1@`myhost`;";
    let tokens = parse_no_grouping(sql);
    let mut splitter = StatementSplitter::default();
    let stmts = splitter.process(tokens);
    assert_eq!(stmts.len(), 2);
}

fn values(stmt: &[Token]) -> Vec<String> {
    stmt.iter().map(|t| t.value.clone()).collect()
}

#[test]
fn test_splitter_keeps_every_token_in_order() {
    let tokens = vec![
        Token::new(TokenType::KeywordDML, "select"),
        Token::new(TokenType::Whitespace, " "),
        Token::new(TokenType::LiteralNumberInteger, "1"),
        Token::new(TokenType::Punctuation, ";"),
        Token::new(TokenType::Whitespace, " "),
        Token::new(TokenType::CommentSingle, "-- one\n"),
        Token::new(TokenType::KeywordDML, "select"),
        Token::new(TokenType::Whitespace, " "),
        Token::new(TokenType::LiteralNumberInteger, "2"),
    ];
    let mut splitter = StatementSplitter::default();
    let stmts = splitter.process(tokens);
    assert_eq!(stmts.len(), 2);
    assert_eq!(values(&stmts[0]), vec!["select", " ", "1", ";", " ", "-- one\n"]);
    assert_eq!(values(&stmts[1]), vec!["select", " ", "2"]);
}

#[test]
fn test_splitter_drops_a_list_of_blank_tokens() {
    let tokens = vec![Token::new(TokenType::Whitespace, " "), Token::new(TokenType::Whitespace, "\n")];
    let mut splitter = StatementSplitter::default();
    assert_eq!(splitter.process(tokens).len(), 0);
    let mut splitter = StatementSplitter::default();
    assert_eq!(splitter.process(vec![]).len(), 0);
    let mut splitter = StatementSplitter::default();
    assert_eq!(splitter.process(vec![Token::new(TokenType::Newline, "\n")]).len(), 1);
}

#[test]
fn test_splitter_semicolon_inside_parentheses() {
    let tokens = vec![
        Token::new(TokenType::Punctuation, "("),
        Token::new(TokenType::Punctuation, ";"),
        Token::new(TokenType::Punctuation, ")"),
        Token::new(TokenType::Punctuation, ";"),
        Token::new(TokenType::Name, "a"),
    ];
    let mut splitter = StatementSplitter::default();
    let stmts = splitter.process(tokens);
    assert_eq!(stmts.len(), 2);
    assert_eq!(values(&stmts[0]), vec!["(", ";", ")", ";"]);
    assert_eq!(values(&stmts[1]), vec!["a"]);
}

#[test]
fn test_splitter_state_is_kept_between_calls() {
    let mut splitter = StatementSplitter::default();
    let first = splitter.process(vec![
        Token::new(TokenType::Name, "a"),
        Token::new(TokenType::Punctuation, ";"),
    ]);
    assert_eq!(first.len(), 1);
    let second = splitter.process(vec![Token::new(TokenType::Name, "b")]);
    assert_eq!(second.len(), 2);
    assert_eq!(second[0].len(), 0);
    assert_eq!(values(&second[1]), vec!["b"]);
}

#[test]
fn test_splitter_keyword_case_does_not_matter() {
    let tokens = vec![
        Token::new(TokenType::KeywordDDL, "create"),
        Token::new(TokenType::Keyword, "begin"),
        Token::new(TokenType::Name, "a"),
        Token::new(TokenType::Punctuation, ";"),
        Token::new(TokenType::Keyword, "end"),
        Token::new(TokenType::Punctuation, ";"),
        Token::new(TokenType::Name, "b"),
    ];
    let mut splitter = StatementSplitter::default();
    let stmts = splitter.process(tokens);
    assert_eq!(stmts.len(), 2);
    assert_eq!(stmts[0].len(), 6);
}
