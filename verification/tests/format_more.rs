use sqlparse::FormatOption;

fn check(sql: &str, options: &mut FormatOption, expected: &str) {
    assert_eq!(sqlparse::format(sql, options), expected);
}

#[test]
fn test_reindent_subquery_in_where() {
    let mut options = FormatOption::default();
    options.reindent = true;
    check("select a,b from t where x=1 and y in (select z from u where z>2) order by a desc, b", &mut options, "select a,\n       b\nfrom t\nwhere x=1\n  and y in\n    (select z\n     from u\n     where z>2)\norder by a desc,\n         b");
}

#[test]
fn test_aligned_subquery_in_where() {
    let mut options = FormatOption::default();
    options.reindent_aligned = true;
    check("select a,b from t where x=1 and y in (select z from u where z>2) order by a desc, b", &mut options, "select a,\n       b\n  from t\n where x=1\n   and y in (\n        select z\n          from u\n         where z>2\n       )\n order by a desc,\n          b");
}

#[test]
fn test_reindent_with_tabs() {
    let mut options = FormatOption::default();
    options.reindent = true;
    options.indent_tabs = true;
    check("select a, b from t", &mut options, "select a,\n\tb\nfrom t");
}

#[test]
fn test_reindent_indent_width() {
    let mut options = FormatOption::default();
    options.reindent = true;
    options.indent_width = 4;
    check("select a, b from t where c = 1 and d = 2", &mut options, "select a,\n       b\nfrom t\nwhere c = 1\n    and d = 2");
}

#[test]
fn test_reindent_indent_width_is_at_least_two() {
    let mut options = FormatOption::default();
    options.reindent = true;
    options.indent_width = 1;
    check("select a from t where c = 1 and d = 2", &mut options, "select a\nfrom t\nwhere c = 1\n  and d = 2");
}

#[test]
fn test_reindent_indent_columns() {
    let mut options = FormatOption::default();
    options.reindent = true;
    options.indent_columns = true;
    check("select a, b, c from t", &mut options, "select\n  a,\n  b,\n  c\nfrom t");
}

#[test]
fn test_reindent_indent_after_first() {
    let mut options = FormatOption::default();
    options.reindent = true;
    options.indent_after_first = true;
    check("select a, b from t where x = 1", &mut options, "select a,\n       b\n  from t\n  where x = 1");
}

#[test]
fn test_reindent_wrap_after_in_function() {
    let mut options = FormatOption::default();
    options.reindent = true;
    options.wrap_after = 5;
    check("select f(a, b, c), d from t", &mut options, "select f(\n         a,\n         b,\n         c),\n       d\nfrom t");
}

#[test]
fn test_reindent_wrap_after_with_comma_first() {
    let mut options = FormatOption::default();
    options.reindent = true;
    options.wrap_after = 8;
    options.comma_first = true;
    check("select a, b, c, d, e from t", &mut options, "select a\n     , b\n     , c\n     , d\n     , e\nfrom t");
}

#[test]
fn test_reindent_several_statements() {
    let mut options = FormatOption::default();
    options.reindent = true;
    check("select * from a; select * from b where c = 1;  update t set x = 1 where y = 2", &mut options, "select *\nfrom a;\nselect *\nfrom b\nwhere c = 1;\nupdate t\nset x = 1\nwhere y = 2");
}

#[test]
fn test_reindent_case_in_list() {
    let mut options = FormatOption::default();
    options.reindent = true;
    check("select case when a = 1 then 'x' when a = 2 then 'y' else 'z' end as v, b from t", &mut options, "select case\n           when a = 1 then 'x'\n           when a = 2 then 'y'\n           else 'z'\n       end as v,\n       b\nfrom t");
}

#[test]
fn test_reindent_having() {
    let mut options = FormatOption::default();
    options.reindent = true;
    check("select * from t having count(x) > 1 and sum(y) < 3 limit 5", &mut options, "select *\nfrom t\nhaving count(x) > 1\n  and sum(y) < 3\nlimit 5");
}

#[test]
fn test_aligned_insert_values() {
    let mut options = FormatOption::default();
    options.reindent_aligned = true;
    check("insert into t (a, b) values (1, 2), (3, 4)", &mut options, "insert into t (a, b)\nvalues (1, 2), (3, 4)");
}

#[test]
fn test_aligned_having() {
    let mut options = FormatOption::default();
    options.reindent_aligned = true;
    check("select a from t group by a having a > 1 or a < 0", &mut options, "select a\n  from t\n group by a\nhaving a > 1\n    or a < 0");
}

#[test]
fn test_aligned_long_join_words() {
    let mut options = FormatOption::default();
    options.reindent_aligned = true;
    check("select a from t1 natural join t2 left outer join t3 on t1.x = t3.x", &mut options, "select a\n  from t1\nnatural join t2\n  left outer join t3\n    on t1.x = t3.x");
}

#[test]
fn test_space_around_all_operators() {
    let mut options = FormatOption::default();
    options.use_space_around_operators = true;
    check("select a+b*c, d||e from t where f<>g", &mut options, "select a + b * c, d || e from t where f <> g");
}

#[test]
fn test_strip_comments_keeps_blank_space() {
    let mut options = FormatOption::default();
    options.strip_comments = true;
    check("select a /* c1 */ , b -- c2\n from t /* c3 */", &mut options, "select a , b\n from t  ");
}

#[test]
fn test_strip_ws_in_parenthesis() {
    let mut options = FormatOption::default();
    options.strip_whitespace = true;
    check("select (  a  ,  b  ) from   t\n\n where x =\t1  ", &mut options, "select (a , b) from t where x = 1");
}

#[test]
fn test_keyword_and_identifier_case() {
    let mut options = FormatOption::default();
    options.keyword_case = "lower";
    options.identifier_case = "upper";
    check("Select A, b FROM t Where x = 'Abc'", &mut options, "select A, B from T where X = 'Abc'");
}

#[test]
fn test_case_option_in_any_case() {
    let mut options = FormatOption::default();
    options.keyword_case = "Upper";
    check("select a from t", &mut options, "SELECT a FROM t");
}

#[test]
fn test_unknown_case_changes_nothing() {
    let mut options = FormatOption::default();
    options.keyword_case = "capitalize";
    check("select a from t", &mut options, "select a from t");
}

#[test]
fn test_identifier_case_outside_ascii() {
    let mut options = FormatOption::default();
    options.identifier_case = "upper";
    check("select é from `T` where \"q\" = x", &mut options, "select É from `T` where \"q\" = X");
}

#[test]
fn test_strip_whitespace_trims_the_text() {
    let mut options = FormatOption::default();
    options.strip_whitespace = true;
    check("  \n select 1 ;\n\n ", &mut options, "select 1 ;");
}

#[test]
fn test_strip_comments_and_reindent() {
    let mut options = FormatOption::default();
    options.strip_comments = true;
    options.reindent = true;
    check("select a -- x\n, b from t", &mut options, "select a , b\nfrom t");
}

#[test]
fn test_aligned_between() {
    let mut options = FormatOption::default();
    options.reindent_aligned = true;
    check("select a from t where b between 1 and 2 and c = 3 or d = 4", &mut options, "select a\n  from t\n where b between 1 and 2\n   and c = 3\n    or d = 4");
}

#[test]
fn test_reindent_subquery_in_list() {
    let mut options = FormatOption::default();
    options.reindent = true;
    check("select a, (select max(x) from u) as m from t", &mut options, "select a,\n  (select max(x)\n   from u) as m\nfrom t");
}

#[test]
fn test_reindent_create_table() {
    let mut options = FormatOption::default();
    options.reindent = true;
    check("create table t (a int, b varchar(10)); select 1", &mut options, "create table t (a int,\n                  b varchar(10));\nselect 1");
}

#[test]
fn test_reindent_union_all() {
    let mut options = FormatOption::default();
    options.reindent = true;
    check("select * from t where a = 1 union all select * from u", &mut options, "select *\nfrom t\nwhere a = 1\nunion all\nselect *\nfrom u");
}

#[test]
fn test_reindent_typecasts() {
    let mut options = FormatOption::default();
    options.reindent = true;
    check("select a::int, b::text from t", &mut options, "select a::int,\n       b::text\nfrom t");
}

#[test]
fn test_reindent_window() {
    let mut options = FormatOption::default();
    options.reindent = true;
    check("select count(*) over (partition by a order by b) from t", &mut options, "select count(*) over (partition by a\n                      order by b)\nfrom t");
}

#[test]
fn test_format_empty_text() {
    let mut options = FormatOption::default();
    options.reindent = true;
    check("", &mut options, "");
}

#[test]
fn test_format_blank_text() {
    let mut options = FormatOption::default();
    options.reindent_aligned = true;
    check("   ", &mut options, "");
}

#[test]
fn test_format_lonely_semicolon() {
    let mut options = FormatOption::default();
    options.reindent = true;
    check(";", &mut options, ";");
}

#[test]
fn test_format_without_options() {
    let mut options = FormatOption::default();
    check("select a from t;", &mut options, "select a from t;");
}

#[test]
fn test_reindent_is_idempotent_on_a_simple_query() {
    let mut options = FormatOption::default();
    options.reindent = true;
    check("select a,\n       b\nfrom t\nwhere x = 1\n  and y = 2", &mut options, "select a,\n       b\nfrom t\nwhere x = 1\n  and y = 2");
}

#[test]
fn test_aligned_is_idempotent_on_a_simple_query() {
    let mut options = FormatOption::default();
    options.reindent_aligned = true;
    check("select a,\n       b\n  from t\n where x = 1\n   and y = 2", &mut options, "select a,\n       b\n  from t\n where x = 1\n   and y = 2");
}

#[test]
fn test_both_kinds_of_indent() {
    let mut options = FormatOption::default();
    options.reindent = true;
    options.reindent_aligned = true;
    check("select a, b from t where x = 1", &mut options, "select a,\n       b\n  from t\n where x = 1");
}
