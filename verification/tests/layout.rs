use sqlparse::filters::edit::{drop_blank, feed_tokens, one_blank, put_blank, LineState};
use sqlparse::filters::layout::{
    branch_start, find_kind, find_punct, find_split, find_word, get_cases, get_identifiers, is_by,
    is_join, next_token, splits_line,
};
use sqlparse::{Token, TokenType};

fn flat(sql: &str) -> Vec<Token> {
    sqlparse::parse_no_grouping(sql)
}

fn values(tokens: &[Token]) -> Vec<&str> {
    tokens.iter().map(|t| t.value.as_str()).collect()
}

#[test]
fn test_find_word_gives_first_keyword_or_length() {
    let tokens = flat("select a from b where c from d");
    assert_eq!(values(&tokens)[4], "from");
    assert_eq!(find_word(&tokens, "FROM", 0), 4);
    assert_eq!(find_word(&tokens, "FROM", 4), 4);
    assert_eq!(find_word(&tokens, "FROM", 5), 12);
    assert_eq!(find_word(&tokens, "FROM", 13), tokens.len());
    assert_eq!(find_word(&tokens, "HAVING", 0), tokens.len());
    assert_eq!(find_word(&tokens, "FROM", 1000), tokens.len());
}

#[test]
fn test_find_word_passes_over_names() {
    let tokens = vec![
        Token::new(TokenType::Name, "from"),
        Token::new(TokenType::Whitespace, " "),
        Token::new(TokenType::Keyword, "FrOm"),
    ];
    assert_eq!(find_word(&tokens, "FROM", 0), 2);
}

#[test]
fn test_find_punct_and_kind() {
    let tokens = flat("f(a, b), (c)");
    assert_eq!(find_punct(&tokens, "(", 0), 1);
    assert_eq!(find_punct(&tokens, ",", 0), 3);
    assert_eq!(find_punct(&tokens, ",", 4), 7);
    assert_eq!(find_punct(&tokens, ";", 0), tokens.len());
    assert_eq!(find_kind(&tokens, TokenType::Punctuation, TokenType::Whitespace, 2), 3);
    assert_eq!(find_kind(&tokens, TokenType::Whitespace, TokenType::Whitespace, 0), 4);
    assert_eq!(
        find_kind(&tokens, TokenType::KeywordDML, TokenType::KeywordDDL, 0),
        tokens.len()
    );
    let stmt = flat("x; create table t");
    assert_eq!(find_kind(&stmt, TokenType::KeywordDML, TokenType::KeywordDDL, 0), 3);
}

#[test]
fn test_is_join_and_is_by() {
    assert!(is_join(&Token::new(TokenType::Keyword, "left outer join")));
    assert!(is_join(&Token::new(TokenType::Keyword, "JOIN")));
    assert!(!is_join(&Token::new(TokenType::Name, "join")));
    assert!(!is_join(&Token::new(TokenType::Keyword, "joins")));
    assert!(is_by(&Token::new(TokenType::Keyword, "group by")));
    assert!(is_by(&Token::new(TokenType::Keyword, "ORDER BY")));
    assert!(!is_by(&Token::new(TokenType::Keyword, "by")));
    assert!(!is_by(&Token::new(TokenType::Name, "group by")));
}

#[test]
fn test_splits_line_by_style() {
    let from = Token::new(TokenType::Keyword, "from");
    let on = Token::new(TokenType::Keyword, "on");
    let wh = Token::new(TokenType::Keyword, "where");
    let having = Token::new(TokenType::Keyword, "having");
    let select = Token::new(TokenType::KeywordDML, "select");
    assert!(splits_line(&from, false));
    assert!(splits_line(&from, true));
    assert!(!splits_line(&on, false));
    assert!(splits_line(&on, true));
    assert!(!splits_line(&wh, false));
    assert!(splits_line(&wh, true));
    assert!(!splits_line(&having, false));
    assert!(splits_line(&having, true));
    assert!(!splits_line(&select, false));
    assert!(!splits_line(&select, true));
    assert!(splits_line(&Token::new(TokenType::Keyword, "inner join"), false));
    assert!(splits_line(&Token::new(TokenType::Keyword, "union all"), false));
}

#[test]
fn test_next_token_passes_over_between_and_its_and() {
    let tokens = flat("a between 1 and 2 and b or c");
    let v = values(&tokens);
    assert_eq!(v[2], "between");
    assert_eq!(v[6], "and");
    assert_eq!(v[10], "and");
    assert_eq!(find_split(&tokens, 0, false), 2);
    assert_eq!(next_token(&tokens, 0, false), 10);
    assert_eq!(next_token(&tokens, 11, false), 14);
    assert_eq!(next_token(&tokens, 15, false), tokens.len());
}

#[test]
fn test_next_token_between_without_and() {
    let tokens = flat("a between 1 or b");
    assert_eq!(values(&tokens)[6], "or");
    assert_eq!(next_token(&tokens, 0, false), 6);
    let open = flat("a between 1");
    assert_eq!(next_token(&open, 0, false), open.len());
}

#[test]
fn test_get_identifiers_leaves_out_blanks_and_commas() {
    let tokens = flat("a, b ,c");
    assert_eq!(values(&tokens), vec!["a", ",", " ", "b", " ", ",", "c"]);
    assert_eq!(get_identifiers(&tokens), vec![0, 3, 6]);
    assert_eq!(get_identifiers(&flat(" , ")), Vec::<usize>::new());
    assert_eq!(get_identifiers(&Vec::new()), Vec::<usize>::new());
}

#[test]
fn test_get_cases_splits_conditions_and_values() {
    let tokens = flat("case when a then b else c end");
    let v = values(&tokens);
    assert_eq!(v, vec!["case", " ", "when", " ", "a", " ", "then", " ", "b", " ", "else", " ", "c", " ", "end"]);
    let cases = get_cases(&tokens, true);
    assert_eq!(cases.len(), 2);
    assert!(cases[0].has_condition);
    assert_eq!(cases[0].condition, vec![2, 4]);
    assert_eq!(cases[0].value, vec![6, 8]);
    assert!(!cases[1].has_condition);
    assert_eq!(cases[1].condition, Vec::<usize>::new());
    assert_eq!(cases[1].value, vec![10, 12]);
    assert_eq!(branch_start(&cases[0]), Some(2));
    assert_eq!(branch_start(&cases[1]), Some(10));
}

#[test]
fn test_get_cases_keeps_blanks_without_skip() {
    let tokens = flat("case when a then b end");
    let cases = get_cases(&tokens, false);
    assert_eq!(cases.len(), 2);
    assert_eq!(cases[0].condition, vec![1]);
    assert_eq!(cases[0].value, Vec::<usize>::new());
    assert_eq!(cases[1].condition, vec![2, 3, 4, 5]);
    assert_eq!(cases[1].value, vec![6, 7, 8, 9]);
    assert_eq!(branch_start(&cases[1]), Some(2));
}

#[test]
fn test_get_cases_operand_before_first_when() {
    let tokens = flat("case x when 1 then 2 end");
    let cases = get_cases(&tokens, true);
    assert_eq!(cases.len(), 2);
    assert!(cases[0].has_condition);
    assert_eq!(cases[0].condition, vec![2]);
    assert_eq!(cases[0].value, Vec::<usize>::new());
    assert_eq!(cases[1].condition, vec![4, 6]);
    assert_eq!(cases[1].value, vec![8, 10]);
}

#[test]
fn test_branch_start_of_empty_branches() {
    let tokens = flat("case end");
    let cases = get_cases(&tokens, true);
    assert_eq!(cases.len(), 0);
    let only_else = get_cases(&flat("else"), true);
    assert_eq!(only_else.len(), 1);
    assert_eq!(branch_start(&only_else[0]), Some(0));
}

#[test]
fn test_put_blank_inserts_or_appends() {
    let mut tokens = flat("a b");
    put_blank(&mut tokens, 0, one_blank());
    assert_eq!(values(&tokens), vec![" ", "a", " ", "b"]);
    put_blank(&mut tokens, 100, Token::new(TokenType::Whitespace, "\n"));
    assert_eq!(values(&tokens), vec![" ", "a", " ", "b", "\n"]);
    put_blank(&mut tokens, 2, Token::new(TokenType::Whitespace, "\t"));
    assert_eq!(values(&tokens), vec![" ", "a", "\t", " ", "b", "\n"]);
}

#[test]
fn test_drop_blank_takes_only_blank_space() {
    let mut tokens = flat("a b");
    assert!(!drop_blank(&mut tokens, 0));
    assert_eq!(values(&tokens), vec!["a", " ", "b"]);
    assert!(drop_blank(&mut tokens, 1));
    assert_eq!(values(&tokens), vec!["a", "b"]);
    assert!(!drop_blank(&mut tokens, 2));
    assert!(!drop_blank(&mut tokens, 99));
    assert_eq!(values(&tokens), vec!["a", "b"]);
}

#[test]
fn test_feed_tokens_measures_last_line() {
    let tokens = flat("select a\nfrom b");
    let v = values(&tokens);
    assert_eq!(v, vec!["select", " ", "a", "\n", "from", " ", "b"]);
    let start = LineState::start();
    assert_eq!(feed_tokens(start, &tokens, 0).last_len(), 0);
    assert_eq!(feed_tokens(start, &tokens, 3).last_len(), 8);
    assert_eq!(feed_tokens(start, &tokens, 4).last_len(), 8);
    assert_eq!(feed_tokens(start, &tokens, 5).last_len(), 4);
    assert_eq!(feed_tokens(start, &tokens, 7).last_len(), 6);
    assert_eq!(feed_tokens(start, &tokens, 700).last_len(), 6);
}
