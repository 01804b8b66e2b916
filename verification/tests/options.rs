use sqlparse::engine::FilterStack;
use sqlparse::filters::{Filter, StmtFilter, TokenListFilter};
use sqlparse::{build_filter_stack, validate_options, FormatOption, Formatter};

#[test]
fn test_default_options() {
    let o = FormatOption::default();
    assert_eq!(o.keyword_case, "");
    assert_eq!(o.identifier_case, "");
    assert_eq!(o.output_format, "");
    assert_eq!(o.indent_char, "");
    assert!(!o.strip_comments && !o.use_space_around_operators && !o.strip_whitespace);
    assert!(!o.reindent && !o.reindent_aligned && !o.indent_columns && !o.indent_after_first);
    assert!(!o.indent_tabs && !o.comma_first && !o.grouping);
    assert_eq!((o.indent_width, o.wrap_after, o.right_margin), (0, 0, 0));
}

#[test]
fn test_default_reindent_options() {
    let o = FormatOption::default_reindent();
    assert!(o.reindent);
    assert!(!o.reindent_aligned);
    assert_eq!(o.indent_width, 2);
    assert_eq!(o.indent_char, " ");
    assert!(!o.strip_whitespace);
    let o = FormatOption::default_reindent_aligned();
    assert!(o.reindent_aligned);
    assert!(!o.reindent);
    assert_eq!(o.indent_width, 0);
    assert_eq!(o.indent_char, "");
}

#[test]
fn test_validate_options() {
    let mut o = FormatOption::default();
    validate_options(&mut o);
    assert!(!o.strip_whitespace);
    assert_eq!(o.indent_char, " ");
    assert_eq!(o.indent_width, 2);

    let mut o = FormatOption::default();
    o.reindent = true;
    o.indent_tabs = true;
    o.indent_width = 7;
    o.indent_char = "x";
    validate_options(&mut o);
    assert!(o.strip_whitespace);
    assert_eq!(o.indent_char, "\t");
    assert_eq!(o.indent_width, 7);
    assert!(o.reindent && o.indent_tabs);

    let mut o = FormatOption::default();
    o.reindent_aligned = true;
    o.indent_width = 2;
    validate_options(&mut o);
    assert!(o.strip_whitespace);
    assert_eq!(o.indent_width, 2);
    assert!(!o.grouping);
}

#[test]
fn test_build_filter_stack_without_options() {
    let mut stack = FilterStack::new();
    let mut o = FormatOption::default();
    build_filter_stack(&mut stack, &mut o);
    assert_eq!(stack.preprocess.len(), 0);
    assert_eq!(stack.stmtprocess.len(), 0);
    assert_eq!(stack.tlistprocess.len(), 0);
    assert_eq!(stack.postprocess.len(), 1);
    assert!(matches!(stack.postprocess[0], StmtFilter::StripBeforeNewline(_)));
    assert!(!o.grouping);
}

#[test]
fn test_build_filter_stack_order() {
    let mut stack = FilterStack::new();
    let mut o = FormatOption::default();
    o.keyword_case = "UPPER";
    o.identifier_case = "lower";
    o.use_space_around_operators = true;
    o.strip_comments = true;
    o.reindent = true;
    o.reindent_aligned = true;
    build_filter_stack(&mut stack, &mut o);
    assert_eq!(stack.preprocess.len(), 2);
    assert!(matches!(stack.preprocess[0], Filter::KeywordCase(_)));
    assert!(matches!(stack.preprocess[1], Filter::IdentifierCase(_)));
    assert_eq!(stack.stmtprocess.len(), 1);
    assert!(matches!(stack.stmtprocess[0], StmtFilter::StripWhitespace(_)));
    assert_eq!(stack.tlistprocess.len(), 4);
    assert!(matches!(stack.tlistprocess[0], TokenListFilter::SpacesAroundOperators(_)));
    assert!(matches!(stack.tlistprocess[1], TokenListFilter::StripComments(_)));
    assert!(matches!(stack.tlistprocess[2], TokenListFilter::Reindent(_)));
    assert!(matches!(stack.tlistprocess[3], TokenListFilter::AlignedIndent(_)));
    assert_eq!(stack.postprocess.len(), 1);
    assert!(o.grouping);
    assert!(!o.strip_whitespace);
}

#[test]
fn test_build_filter_stack_adds_to_what_is_there() {
    let mut stack = FilterStack::new();
    let mut o = FormatOption::default();
    o.strip_whitespace = true;
    build_filter_stack(&mut stack, &mut o);
    build_filter_stack(&mut stack, &mut o);
    assert_eq!(stack.stmtprocess.len(), 2);
    assert_eq!(stack.postprocess.len(), 2);
    assert!(o.grouping);
}

#[test]
fn test_formatter_build_filters_and_format_sql() {
    let mut f = Formatter::default();
    let mut o = FormatOption::default_reindent();
    o.keyword_case = "upper";
    f.build_filters(&mut o);
    assert!(o.strip_whitespace);
    assert!(o.grouping);
    assert_eq!(f.stack.preprocess.len(), 1);
    assert_eq!(f.format_sql("select a, b from t", &o), "SELECT a,\n       b\nFROM t");
    assert_eq!(f.format_sql("select 1", &o), "SELECT 1");
}

#[test]
fn test_formatter_format_sql_splits_each_text_from_the_start() {
    let mut f = Formatter::default();
    let mut o = FormatOption::default();
    f.build_filters(&mut o);
    assert_eq!(f.format_sql("select 1;", &o), "select 1;");
    assert_eq!(f.format_sql("select 2", &o), "select 2");
    assert_eq!(f.format_sql("create procedure p() begin select 1;", &o), "create procedure p() begin select 1;");
    assert_eq!(f.format_sql("select 3; select 4", &o), "select 3; \nselect 4");
}

#[test]
fn test_formatter_format_adds_filters_each_time() {
    let mut f = Formatter::new(FilterStack::new());
    let mut o = FormatOption::default();
    o.keyword_case = "upper";
    assert_eq!(f.format("select a from t", &mut o), "SELECT a FROM t");
    assert_eq!(f.stack.preprocess.len(), 1);
    let mut o = FormatOption::default();
    o.identifier_case = "upper";
    assert_eq!(f.format("select a from t", &mut o), "SELECT A FROM T");
    assert_eq!(f.stack.preprocess.len(), 2);
    assert_eq!(f.stack.postprocess.len(), 2);
}

#[test]
fn test_stack_format_returns_the_statements() {
    let mut stack = FilterStack::new();
    let stmts = stack.format("select 1; select 2", false);
    assert_eq!(stmts.len(), 2);
    assert_eq!(stmts[0].len(), 5);
    assert_eq!(stmts[1].len(), 3);
    let stmts = stack.run_multi("select (1;2); a", true);
    assert_eq!(stmts.len(), 2);
    let tokens = stack.run("select (1;2); a", true);
    assert_eq!(tokens.len(), 6);
}

#[test]
fn test_formatter_with_both_kinds_of_indent() {
    let sql = "SELECT a, b, 123, myfunc(b) \
               FROM table_1 \
               WHERE a > b AND b < 100 \
               ORDER BY a DESC";
    let mut f = Formatter::default();
    let mut options = FormatOption::default();
    options.reindent = true;
    options.reindent_aligned = true;
    let formatted = f.format(sql, &mut options);
    assert_eq!(
        formatted,
        [
            "SELECT a,",
            "       b,",
            "       123,",
            "       myfunc(b)",
            "  FROM table_1",
            " WHERE a > b",
            "   AND b < 100",
            " ORDER BY a DESC",
        ]
        .join("\n")
    );
}

#[test]
fn test_reindent_starts_each_statement_afresh() {
    let mut f = Formatter::default();
    let mut o = FormatOption::default_reindent();
    o.wrap_after = 10;
    f.build_filters(&mut o);
    let alone = f.format_sql("insert into t values (1, 2, 3, 4, 5, 6, 7)", &o);
    let after = f.format_sql(
        "select a_long_function_name(a, b) from t; insert into t values (1, 2, 3, 4, 5, 6, 7)",
        &o,
    );
    assert!(after.ends_with(&alone), "{:?} {:?}", after, alone);
    assert_eq!(f.format_sql("insert into t values (1, 2, 3, 4, 5, 6, 7)", &o), alone);
}
