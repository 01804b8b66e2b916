use sqlparse::filters::{
    SpacesAroundOperatorsFilter, StripBeforeNewline, StripCommentsFilter, StripWhitespaceFilter,
};
use sqlparse::{Token, TokenList, TokenType};

fn show(tokens: &[Token]) -> String {
    let mut parts: Vec<String> = Vec::new();
    for t in tokens {
        if t.children.is_empty() {
            let value = t.value.replace('\n', "\\n").replace('\r', "\\r").replace('\t', "\\t");
            parts.push(format!("{:?}({})", t.typ, value));
        } else {
            assert_eq!(t.value, t.children.iter().map(|c| c.value.as_str()).collect::<String>());
            parts.push(format!("{:?}[{}]", t.typ, show(&t.children)));
        }
    }
    parts.join(" ")
}

#[test]
fn test_stripws_default_blank_values() {
    let mut tokens = vec![
        Token::new(TokenType::Whitespace, "  "),
        Token::new(TokenType::Name, "a"),
        Token::new(TokenType::Whitespace, "\n"),
        Token::new(TokenType::Whitespace, "\t"),
        Token::new(TokenType::Name, "b"),
        Token::new(TokenType::Newline, "\n"),
        Token::new(TokenType::Name, "c"),
        Token::new(TokenType::Whitespace, " "),
    ];
    StripWhitespaceFilter::stripws_default(&mut tokens);
    assert_eq!(
        show(&tokens),
        "Whitespace() Name(a) Whitespace( ) Whitespace() Name(b) Newline( ) Name(c) Whitespace()"
    );
}

#[test]
fn test_stripws_default_single_blank() {
    let mut tokens = vec![
        Token::new(TokenType::Whitespace, "   "),
    ];
    StripWhitespaceFilter::stripws_default(&mut tokens);
    assert_eq!(
        show(&tokens),
        "Whitespace()"
    );
}

#[test]
fn test_stripws_newline_takes_blank_space_behind_newline() {
    let mut tokens = vec![
        Token::new(TokenType::Whitespace, " "),
        Token::new(TokenType::Newline, "\n"),
        Token::new(TokenType::Whitespace, " "),
        Token::new(TokenType::Newline, "\n"),
        Token::new(TokenType::Whitespace, " "),
        Token::new(TokenType::Name, "a"),
        Token::new(TokenType::Whitespace, " "),
        Token::new(TokenType::Newline, "\n"),
        Token::new(TokenType::Name, "b"),
        Token::new(TokenType::Whitespace, " "),
        Token::new(TokenType::Whitespace, " "),
    ];
    StripWhitespaceFilter::stripws_newline(&mut tokens);
    assert_eq!(
        show(&tokens),
        "Whitespace( ) Newline(\\n) Name(a) Whitespace( ) Newline(\\n) Name(b) Whitespace( ) Whitespace( )"
    );
}

#[test]
fn test_stripws_newline_without_newline() {
    let mut tokens = vec![
        Token::new(TokenType::Whitespace, "\n"),
        Token::new(TokenType::Whitespace, " "),
        Token::new(TokenType::Name, "a"),
    ];
    StripWhitespaceFilter::stripws_newline(&mut tokens);
    assert_eq!(
        show(&tokens),
        "Whitespace(\\n) Whitespace( ) Name(a)"
    );
}

#[test]
fn test_strip_whitespace_in_groups() {
    let mut tokens = vec![
        Token::new(TokenType::Whitespace, " "),
        Token::new(TokenType::Keyword, "select"),
        Token::new(TokenType::Whitespace, "  "),
        Token::group(TokenType::Parenthesis, vec![
            Token::new(TokenType::Punctuation, "("),
            Token::new(TokenType::Whitespace, " "),
            Token::new(TokenType::Name, "a"),
            Token::new(TokenType::Whitespace, " "),
            Token::new(TokenType::Whitespace, " "),
            Token::new(TokenType::Punctuation, ","),
            Token::new(TokenType::Whitespace, " "),
            Token::new(TokenType::Name, "b"),
            Token::new(TokenType::Whitespace, " "),
            Token::new(TokenType::Punctuation, ")"),
        ]),
        Token::new(TokenType::Whitespace, " "),
        Token::group(TokenType::Identifier, vec![
            Token::new(TokenType::Whitespace, " "),
            Token::new(TokenType::Name, "x"),
            Token::new(TokenType::Whitespace, " "),
        ]),
        Token::new(TokenType::Whitespace, "\n"),
    ];
    StripWhitespaceFilter {}.process(&mut tokens);
    assert_eq!(
        show(&tokens),
        "Whitespace() Keyword(select) Whitespace( ) Parenthesis[Punctuation(() Name(a) Whitespace( ) Whitespace() Punctuation(,) Whitespace( ) Name(b) Punctuation())] Whitespace( ) Identifier[Whitespace() Name(x) Whitespace()] Whitespace()"
    );
}

#[test]
fn test_strip_whitespace_short_parenthesis() {
    let mut tokens = vec![
        Token::group(TokenType::Parenthesis, vec![
            Token::new(TokenType::Punctuation, "("),
            Token::new(TokenType::Whitespace, " "),
        ]),
        Token::group(TokenType::Parenthesis, vec![
            Token::new(TokenType::Punctuation, "("),
            Token::new(TokenType::Whitespace, " "),
            Token::new(TokenType::Punctuation, ")"),
        ]),
        Token::group(TokenType::Parenthesis, vec![
            Token::new(TokenType::Punctuation, "("),
            Token::new(TokenType::Whitespace, " "),
            Token::new(TokenType::Whitespace, " "),
            Token::new(TokenType::Punctuation, ")"),
        ]),
    ];
    StripWhitespaceFilter {}.process(&mut tokens);
    assert_eq!(
        show(&tokens),
        "Parenthesis[Punctuation(()] Parenthesis[Punctuation(() Punctuation())] Parenthesis[Punctuation(() Punctuation())]"
    );
}

#[test]
fn test_strip_whitespace_is_not_idempotent_on_blank_pairs() {
    let mut tokens = vec![
        Token::new(TokenType::Name, "a"),
        Token::new(TokenType::Newline, "\n"),
        Token::new(TokenType::Whitespace, " "),
    ];
    StripWhitespaceFilter {}.process(&mut tokens);
    assert_eq!(
        show(&tokens),
        "Name(a) Newline( )"
    );
}

#[test]
fn test_strip_whitespace_twice_on_blank_pairs() {
    let mut tokens = vec![
        Token::new(TokenType::Name, "a"),
        Token::new(TokenType::Newline, "\n"),
        Token::new(TokenType::Whitespace, " "),
    ];
    StripWhitespaceFilter {}.process(&mut tokens);
    StripWhitespaceFilter {}.process(&mut tokens);
    assert_eq!(
        show(&tokens),
        "Name(a) Newline()"
    );
}

#[test]
fn test_strip_comments_list() {
    let mut tokens = vec![
        Token::new(TokenType::CommentMultiline, "/* c */"),
        Token::new(TokenType::Whitespace, " "),
        Token::new(TokenType::Whitespace, "\n"),
        Token::new(TokenType::CommentSingle, "-- c\n"),
        Token::new(TokenType::CommentSingle, "-- d"),
        Token::new(TokenType::Whitespace, " "),
        Token::new(TokenType::Name, "a"),
        Token::new(TokenType::CommentSingle, "-- e\r\n"),
        Token::new(TokenType::Name, "b"),
        Token::new(TokenType::Whitespace, " "),
        Token::new(TokenType::CommentMultiline, "/* f */\n\n  "),
        Token::new(TokenType::Punctuation, "("),
        Token::new(TokenType::CommentMultiline, "/* c */"),
        Token::new(TokenType::Whitespace, " "),
        Token::new(TokenType::Name, "c"),
        Token::new(TokenType::CommentMultiline, "/* c */"),
        Token::new(TokenType::Punctuation, ")"),
    ];
    StripCommentsFilter::default().process_internal(&mut tokens);
    assert_eq!(
        show(&tokens),
        "Name(a) Newline(\\r\\n) Name(b) Whitespace( ) Newline(\\n\\n) Punctuation(() Name(c) Whitespace( ) Punctuation())"
    );
}

#[test]
fn test_strip_comments_only_comments() {
    let mut tokens = vec![
        Token::new(TokenType::CommentSingle, "-- c\n"),
        Token::new(TokenType::Whitespace, " "),
        Token::new(TokenType::CommentMultiline, "/* c */"),
    ];
    StripCommentsFilter::default().process_internal(&mut tokens);
    assert_eq!(
        show(&tokens),
        ""
    );
}

#[test]
fn test_strip_comments_statement_at_every_depth() {
    let mut tokens = vec![
        Token::new(TokenType::Name, "a"),
        Token::group(TokenType::Parenthesis, vec![
            Token::new(TokenType::Punctuation, "("),
            Token::new(TokenType::CommentMultiline, "/* c */"),
            Token::new(TokenType::Whitespace, " "),
            Token::new(TokenType::Name, "b"),
            Token::group(TokenType::Parenthesis, vec![
                Token::new(TokenType::Punctuation, "("),
                Token::new(TokenType::CommentMultiline, "/* c */"),
                Token::new(TokenType::Name, "c"),
                Token::new(TokenType::Punctuation, ")"),
            ]),
            Token::new(TokenType::Punctuation, ")"),
        ]),
        Token::group(TokenType::Identifier, vec![
            Token::new(TokenType::CommentMultiline, "/* c */"),
        ]),
        Token::new(TokenType::CommentMultiline, "/* c */"),
    ];
    let mut list = TokenList::new(tokens);
    StripCommentsFilter::default().process(&mut list);
    let tokens = list.tokens;
    assert_eq!(
        show(&tokens),
        "Name(a) Parenthesis[Punctuation(() Name(b) Parenthesis[Punctuation(() Name(c) Punctuation())] Punctuation())] Whitespace( )"
    );
}

#[test]
fn test_spaces_around_operators_list() {
    let mut tokens = vec![
        Token::new(TokenType::Operator, "-"),
        Token::new(TokenType::Name, "a"),
        Token::new(TokenType::Operator, "+"),
        Token::new(TokenType::Operator, "*"),
        Token::new(TokenType::Name, "b"),
        Token::new(TokenType::Whitespace, " "),
        Token::new(TokenType::OperatorComparison, "="),
        Token::new(TokenType::Newline, "\n"),
        Token::new(TokenType::Name, "c"),
        Token::new(TokenType::Operator, "/"),
        Token::new(TokenType::Newline, "\n"),
        Token::new(TokenType::Whitespace, " "),
        Token::new(TokenType::Operator, "%"),
    ];
    SpacesAroundOperatorsFilter {}.process_internal(&mut tokens);
    assert_eq!(
        show(&tokens),
        "Operator(-) Whitespace( ) Name(a) Whitespace( ) Operator(+) Whitespace( ) Operator(*) Whitespace( ) Name(b) Whitespace( ) OperatorComparison(=) Whitespace( ) Newline(\\n) Name(c) Whitespace( ) Operator(/) Whitespace( ) Newline(\\n) Whitespace( ) Operator(%)"
    );
}

#[test]
fn test_spaces_around_operators_blank_directly_behind_the_operator() {
    let mut tokens = vec![
        Token::new(TokenType::Name, "a"),
        Token::new(TokenType::Operator, "+"),
        Token::new(TokenType::Newline, "\n"),
    ];
    SpacesAroundOperatorsFilter {}.process_internal(&mut tokens);
    assert_eq!(
        show(&tokens),
        "Name(a) Whitespace( ) Operator(+) Whitespace( ) Newline(\\n)"
    );
}

#[test]
fn test_spaces_around_operators_in_groups() {
    let mut tokens = vec![
        Token::group(TokenType::Parenthesis, vec![
            Token::new(TokenType::Punctuation, "("),
            Token::group(TokenType::Operation, vec![
                Token::new(TokenType::Name, "a"),
                Token::new(TokenType::Operator, "+"),
                Token::new(TokenType::Name, "b"),
            ]),
            Token::new(TokenType::Operator, "-"),
            Token::new(TokenType::Name, "c"),
            Token::new(TokenType::Punctuation, ")"),
        ]),
        Token::new(TokenType::Operator, "*"),
        Token::new(TokenType::Name, "d"),
    ];
    let mut list = TokenList::new(tokens);
    SpacesAroundOperatorsFilter {}.process(&mut list);
    let tokens = list.tokens;
    assert_eq!(
        show(&tokens),
        "Parenthesis[Punctuation(() Operation[Name(a) Whitespace( ) Operator(+) Whitespace( ) Name(b)] Whitespace( ) Operator(-) Whitespace( ) Name(c) Punctuation())] Whitespace( ) Operator(*) Whitespace( ) Name(d)"
    );
}

#[test]
fn test_strip_before_newline() {
    let mut tokens = vec![
        Token::new(TokenType::Whitespace, " "),
        Token::new(TokenType::Whitespace, "\n"),
        Token::new(TokenType::Name, "a"),
        Token::new(TokenType::Whitespace, " "),
        Token::new(TokenType::Whitespace, " "),
        Token::new(TokenType::Newline, "\n"),
        Token::new(TokenType::Name, "b"),
        Token::new(TokenType::Whitespace, " "),
        Token::new(TokenType::Name, "\nc"),
        Token::group(TokenType::Where, vec![
            Token::new(TokenType::Keyword, "where"),
            Token::new(TokenType::Whitespace, " "),
            Token::new(TokenType::Name, "x"),
            Token::new(TokenType::Whitespace, " "),
        ]),
        Token::new(TokenType::Whitespace, "\r\n  "),
        Token::group(TokenType::Identifier, vec![
            Token::new(TokenType::Whitespace, " "),
        ]),
        Token::new(TokenType::Newline, "\n"),
        Token::group(TokenType::Parenthesis, vec![
            Token::new(TokenType::Punctuation, "("),
            Token::new(TokenType::Name, "a"),
            Token::new(TokenType::Whitespace, " "),
            Token::new(TokenType::Whitespace, "\n"),
            Token::new(TokenType::Punctuation, ")"),
        ]),
        Token::new(TokenType::Name, "a"),
    ];
    StripBeforeNewline {}.process(&mut tokens);
    assert_eq!(
        show(&tokens),
        "Whitespace(\\n) Name(a) Whitespace( ) Newline(\\n) Name(b) Name(\\nc) Where[Keyword(where) Whitespace( ) Name(x)] Whitespace(\\r\\n  ) Newline(\\n) Parenthesis[Punctuation(() Name(a) Whitespace(\\n) Punctuation())] Name(a)"
    );
}
#[test]
fn test_get_insert_token() {
    let filter = StripCommentsFilter::default();
    let token = Token::new(TokenType::CommentSingle, "-- comment \n\n ");
    let t = filter.get_insert_token(&token);
    assert_eq!(t.typ, TokenType::Newline);
    assert_eq!(t.value, "\n\n");

    let token = Token::new(TokenType::CommentSingle, "-- comment ");
    let t = filter.get_insert_token(&token);
    assert_eq!(t.typ, TokenType::Whitespace);
    assert_eq!(t.value, " ");
}

#[test]
fn test_get_insert_token_takes_the_last_run_of_line_breaks() {
    let filter = StripCommentsFilter::default();
    let token = Token::new(TokenType::CommentMultiline, "/* a\n b */\r\n\r    ");
    let t = filter.get_insert_token(&token);
    assert_eq!(t.typ, TokenType::Newline);
    assert_eq!(t.value, "\r\n\r");
    let token = Token::new(TokenType::CommentMultiline, "/* a\n b */\n x");
    let t = filter.get_insert_token(&token);
    assert_eq!(t.typ, TokenType::Whitespace);
    assert_eq!(t.value, " ");
}

#[test]
fn test_strip_whitespace_twice_on_parsed_statements() {
    let texts = [
        "select  a ,\n\n  b   from ( t )  where   x =  1 ",
        "  select f( a , b ) ,  case  when c  then d  end\nfrom t\n",
        "insert  into t  values ( 1 , 2 ) ,\n( 3 , 4 )",
        "\n\n",
        "",
    ];
    for text in texts {
        for statement in sqlparse::parse_multi(text) {
            let mut once = statement;
            StripWhitespaceFilter {}.process(&mut once);
            let first = show(&once);
            StripWhitespaceFilter {}.process(&mut once);
            assert_eq!(show(&once), first, "{:?}", text);
        }
    }
}

#[test]
fn test_parsed_statements_hold_no_blank_pairs() {
    fn settled(tokens: &[Token]) -> bool {
        tokens.windows(2).all(|w| !(w[0].is_whitespace() && w[1].is_whitespace()))
            && tokens.iter().all(|t| settled(&t.children))
    }
    let text = "select  a ,\n\n  b   from ( t )  where   x =  1 ; \n\t create table u ( v int ) ;";
    let statements = sqlparse::parse_multi(text);
    assert_eq!(statements.len(), 2);
    for statement in statements {
        assert!(settled(&statement));
    }
}

#[test]
fn test_spaces_around_operators_twice_adds_nothing() {
    let texts = [
        "select a+b*c, d||e from t where f<>g",
        "a+\nb-\n c = d",
        "a*b*c",
        "-a+ -b",
        "(a+b)*(c-(d/e))",
        "+",
        "",
    ];
    for text in texts {
        let mut list = TokenList::new(sqlparse::parse(text));
        SpacesAroundOperatorsFilter {}.process(&mut list);
        let first = show(&list.tokens);
        SpacesAroundOperatorsFilter {}.process(&mut list);
        assert_eq!(show(&list.tokens), first, "{:?}", text);
    }
    let mut list = TokenList::new(sqlparse::parse_no_grouping("a+b-c"));
    SpacesAroundOperatorsFilter {}.process(&mut list);
    assert_eq!(
        show(&list.tokens),
        "Name(a) Whitespace( ) Operator(+) Whitespace( ) Name(b) Whitespace( ) Operator(-) Whitespace( ) Name(c)"
    );
    let mut list = TokenList::new(sqlparse::parse("a*b*c"));
    SpacesAroundOperatorsFilter {}.process(&mut list);
    let text: String = list.tokens.iter().map(|t| t.value.as_str()).collect();
    assert_eq!(text, "a * b * c");
}

#[test]
fn test_strip_comments_leaves_no_comment() {
    fn clean(tokens: &[Token]) -> bool {
        tokens.iter().all(|t| {
            t.typ != TokenType::CommentSingle
                && t.typ != TokenType::CommentMultiline
                && clean(&t.children)
        })
    }
    let texts = [
        "select (a, (b /* x */, (c -- y\n, /* z */ d))) from t",
        "/* a */ /* b */ -- c\n select /* d *//* e */ 1",
        "select f(/* a */ g(/* b */ h(/* c */)))",
        "select case when a /* x */ then (b -- y\n) end",
        "/* only */",
    ];
    for text in texts {
        let mut list = TokenList::new(sqlparse::parse(text));
        StripCommentsFilter::default().process(&mut list);
        assert!(clean(&list.tokens), "{:?}", text);
        show(&list.tokens);
    }
    let mut list = TokenList::new(sqlparse::parse("select ((/* c */ 1))"));
    StripCommentsFilter::default().process(&mut list);
    let text: String = list.tokens.iter().map(|t| t.value.as_str()).collect();
    assert_eq!(text, "select ((1))");
}
