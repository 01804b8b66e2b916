use sqlparse::{parse, Token};

fn show(tokens: &[Token]) -> String {
    let mut parts: Vec<String> = Vec::new();
    for t in tokens {
        if t.children.is_empty() {
            let value = t.value.replace('\n', "\\n").replace('\r', "\\r").replace('\t', "\\t");
            parts.push(format!("{:?}({})", t.typ, value));
        } else {
            assert_eq!(t.value, t.children.iter().map(|c| c.value.as_str()).collect::<String>());
            parts.push(format!("{:?}[{}]", t.typ, show(&t.children)));
        }
    }
    parts.join(" ")
}

fn check(sql: &str, expected: &str) {
    let tokens = parse(sql);
    assert_eq!(tokens.iter().map(|t| t.value.as_str()).collect::<String>(), sql);
    assert_eq!(show(&tokens), expected, "{}", sql);
}

#[test]
fn test_group_matrix_1() {
    check("select a, b, c from t where x = 1 and y = 2 or z = 3", "KeywordDML(select) Whitespace( ) IdentifierList[Identifier[Name(a)] Punctuation(,) Whitespace( ) Identifier[Name(b)] Punctuation(,) Whitespace( ) Identifier[Name(c)]] Whitespace( ) Keyword(from) Whitespace( ) Identifier[Name(t)] Whitespace( ) Where[Keyword(where) Whitespace( ) Comparison[Identifier[Name(x)] Whitespace( ) OperatorComparison(=) Whitespace( ) LiteralNumberInteger(1)] Whitespace( ) Keyword(and) Whitespace( ) Comparison[Identifier[Name(y)] Whitespace( ) OperatorComparison(=) Whitespace( ) LiteralNumberInteger(2)] Whitespace( ) Keyword(or) Whitespace( ) Comparison[Identifier[Name(z)] Whitespace( ) OperatorComparison(=) Whitespace( ) LiteralNumberInteger(3)]]");
    check("select a,b,c,d,e,f from t1, t2 where a in (1, 2, 3)", "KeywordDML(select) Whitespace( ) IdentifierList[Identifier[Name(a)] Punctuation(,) Identifier[Name(b)] Punctuation(,) Identifier[Name(c)] Punctuation(,) Identifier[Name(d)] Punctuation(,) Identifier[Name(e)] Punctuation(,) Identifier[Name(f)]] Whitespace( ) Keyword(from) Whitespace( ) IdentifierList[Identifier[Name(t1)] Punctuation(,) Whitespace( ) Identifier[Name(t2)]] Whitespace( ) Where[Keyword(where) Whitespace( ) Identifier[Name(a)] Whitespace( ) Keyword(in) Whitespace( ) Parenthesis[Punctuation(() IdentifierList[LiteralNumberInteger(1) Punctuation(,) Whitespace( ) LiteralNumberInteger(2) Punctuation(,) Whitespace( ) LiteralNumberInteger(3)] Punctuation())]]");
    check("select f(a, b, c), g(d, e), h from t", "KeywordDML(select) Whitespace( ) IdentifierList[Function[Identifier[Name(f)] Parenthesis[Punctuation(() IdentifierList[Identifier[Name(a)] Punctuation(,) Whitespace( ) Identifier[Name(b)] Punctuation(,) Whitespace( ) Identifier[Name(c)]] Punctuation())]] Punctuation(,) Whitespace( ) Function[Identifier[Name(g)] Parenthesis[Punctuation(() IdentifierList[Identifier[Name(d)] Punctuation(,) Whitespace( ) Identifier[Name(e)]] Punctuation())]] Punctuation(,) Whitespace( ) Identifier[Name(h)]] Whitespace( ) Keyword(from) Whitespace( ) Identifier[Name(t)]");
    check("select count(*), max(a), min(b) from t group by c having count(*) > 1 order by c desc limit 10", "KeywordDML(select) Whitespace( ) IdentifierList[Function[Identifier[Name(count)] Parenthesis[Punctuation(() Wildcard(*) Punctuation())]] Punctuation(,) Whitespace( ) Function[Identifier[Name(max)] Parenthesis[Punctuation(() Identifier[Name(a)] Punctuation())]] Punctuation(,) Whitespace( ) Function[Identifier[Name(min)] Parenthesis[Punctuation(() Identifier[Name(b)] Punctuation())]]] Whitespace( ) Keyword(from) Whitespace( ) Identifier[Name(t)] Whitespace( ) Keyword(group by) Whitespace( ) Identifier[Name(c)] Whitespace( ) Having[Keyword(having) Whitespace( ) Comparison[Function[Identifier[Name(count)] Parenthesis[Punctuation(() Wildcard(*) Punctuation())]] Whitespace( ) OperatorComparison(>) Whitespace( ) LiteralNumberInteger(1)]] Whitespace( ) Keyword(order by) Whitespace( ) Identifier[Identifier[Name(c)] Whitespace( ) Keyword(desc)] Whitespace( ) Keyword(limit) Whitespace( ) LiteralNumberInteger(10)");
    check("select case when a = 1 then 'one' when a = 2 then 'two' else 'other' end, b from t", "KeywordDML(select) Whitespace( ) IdentifierList[Case[Keyword(case) Whitespace( ) Keyword(when) Whitespace( ) Comparison[Identifier[Name(a)] Whitespace( ) OperatorComparison(=) Whitespace( ) LiteralNumberInteger(1)] Whitespace( ) Keyword(then) Whitespace( ) LiteralString('one') Whitespace( ) Keyword(when) Whitespace( ) Comparison[Identifier[Name(a)] Whitespace( ) OperatorComparison(=) Whitespace( ) LiteralNumberInteger(2)] Whitespace( ) Keyword(then) Whitespace( ) LiteralString('two') Whitespace( ) Keyword(else) Whitespace( ) LiteralString('other') Whitespace( ) Keyword(end)] Punctuation(,) Whitespace( ) Identifier[Name(b)]] Whitespace( ) Keyword(from) Whitespace( ) Identifier[Name(t)]");
    check("select case a when 1 then 2 end from t", "KeywordDML(select) Whitespace( ) Case[Keyword(case) Whitespace( ) Identifier[Name(a)] Whitespace( ) Keyword(when) Whitespace( ) LiteralNumberInteger(1) Whitespace( ) Keyword(then) Whitespace( ) LiteralNumberInteger(2) Whitespace( ) Keyword(end)] Whitespace( ) Keyword(from) Whitespace( ) Identifier[Name(t)]");
    check("select case when a then b end, case when c then d else e end from t", "KeywordDML(select) Whitespace( ) IdentifierList[Case[Keyword(case) Whitespace( ) Keyword(when) Whitespace( ) Identifier[Name(a)] Whitespace( ) Keyword(then) Whitespace( ) Identifier[Name(b)] Whitespace( ) Keyword(end)] Punctuation(,) Whitespace( ) Case[Keyword(case) Whitespace( ) Keyword(when) Whitespace( ) Identifier[Name(c)] Whitespace( ) Keyword(then) Whitespace( ) Identifier[Name(d)] Whitespace( ) Keyword(else) Whitespace( ) Identifier[Name(e)] Whitespace( ) Keyword(end)]] Whitespace( ) Keyword(from) Whitespace( ) Identifier[Name(t)]");
    check("insert into t (a, b, c) values (1, 2, 3), (4, 5, 6), (7, 8, 9)", "KeywordDML(insert) Whitespace( ) Keyword(into) Whitespace( ) Identifier[Name(t)] Whitespace( ) Parenthesis[Punctuation(() IdentifierList[Identifier[Name(a)] Punctuation(,) Whitespace( ) Identifier[Name(b)] Punctuation(,) Whitespace( ) Identifier[Name(c)]] Punctuation())] Whitespace( ) Values[Keyword(values) Whitespace( ) Parenthesis[Punctuation(() IdentifierList[LiteralNumberInteger(1) Punctuation(,) Whitespace( ) LiteralNumberInteger(2) Punctuation(,) Whitespace( ) LiteralNumberInteger(3)] Punctuation())] Punctuation(,) Whitespace( ) Parenthesis[Punctuation(() IdentifierList[LiteralNumberInteger(4) Punctuation(,) Whitespace( ) LiteralNumberInteger(5) Punctuation(,) Whitespace( ) LiteralNumberInteger(6)] Punctuation())] Punctuation(,) Whitespace( ) Parenthesis[Punctuation(() IdentifierList[LiteralNumberInteger(7) Punctuation(,) Whitespace( ) LiteralNumberInteger(8) Punctuation(,) Whitespace( ) LiteralNumberInteger(9)] Punctuation())]]");
    check("insert into t values (1, 'a'), (2, 'b')", "KeywordDML(insert) Whitespace( ) Keyword(into) Whitespace( ) Identifier[Name(t)] Whitespace( ) Values[Keyword(values) Whitespace( ) Parenthesis[Punctuation(() IdentifierList[LiteralNumberInteger(1) Punctuation(,) Whitespace( ) LiteralString('a')] Punctuation())] Punctuation(,) Whitespace( ) Parenthesis[Punctuation(() IdentifierList[LiteralNumberInteger(2) Punctuation(,) Whitespace( ) LiteralString('b')] Punctuation())]]");
}

#[test]
fn test_group_matrix_2() {
    check("update t set a = 1, b = 2 where c = 3", "KeywordDML(update) Whitespace( ) Identifier[Name(t)] Whitespace( ) Keyword(set) Whitespace( ) IdentifierList[Comparison[Identifier[Name(a)] Whitespace( ) OperatorComparison(=) Whitespace( ) LiteralNumberInteger(1)] Punctuation(,) Whitespace( ) Comparison[Identifier[Name(b)] Whitespace( ) OperatorComparison(=) Whitespace( ) LiteralNumberInteger(2)]] Whitespace( ) Where[Keyword(where) Whitespace( ) Comparison[Identifier[Name(c)] Whitespace( ) OperatorComparison(=) Whitespace( ) LiteralNumberInteger(3)]]");
    check("delete from t where a = 1 and (b = 2 or c = 3)", "KeywordDML(delete) Whitespace( ) Keyword(from) Whitespace( ) Identifier[Name(t)] Whitespace( ) Where[Keyword(where) Whitespace( ) Comparison[Identifier[Name(a)] Whitespace( ) OperatorComparison(=) Whitespace( ) LiteralNumberInteger(1)] Whitespace( ) Keyword(and) Whitespace( ) Parenthesis[Punctuation(() Comparison[Identifier[Name(b)] Whitespace( ) OperatorComparison(=) Whitespace( ) LiteralNumberInteger(2)] Whitespace( ) Keyword(or) Whitespace( ) Comparison[Identifier[Name(c)] Whitespace( ) OperatorComparison(=) Whitespace( ) LiteralNumberInteger(3)] Punctuation())]]");
    check("select * from a join b on a.x = b.x left join c on c.y = a.y where a.z > 1", "KeywordDML(select) Whitespace( ) Wildcard(*) Whitespace( ) Keyword(from) Whitespace( ) Identifier[Name(a)] Whitespace( ) Keyword(join) Whitespace( ) Identifier[Name(b)] Whitespace( ) Keyword(on) Whitespace( ) Comparison[Identifier[Name(a) Punctuation(.) Name(x)] Whitespace( ) OperatorComparison(=) Whitespace( ) Identifier[Name(b) Punctuation(.) Name(x)]] Whitespace( ) Keyword(left join) Whitespace( ) Identifier[Name(c)] Whitespace( ) Keyword(on) Whitespace( ) Comparison[Identifier[Name(c) Punctuation(.) Name(y)] Whitespace( ) OperatorComparison(=) Whitespace( ) Identifier[Name(a) Punctuation(.) Name(y)]] Whitespace( ) Where[Keyword(where) Whitespace( ) Comparison[Identifier[Name(a) Punctuation(.) Name(z)] Whitespace( ) OperatorComparison(>) Whitespace( ) LiteralNumberInteger(1)]]");
    check("select * from a, b where a.x = b.x and a.y between 1 and 5 and b.z = 3", "KeywordDML(select) Whitespace( ) Wildcard(*) Whitespace( ) Keyword(from) Whitespace( ) IdentifierList[Identifier[Name(a)] Punctuation(,) Whitespace( ) Identifier[Name(b)]] Whitespace( ) Where[Keyword(where) Whitespace( ) Comparison[Identifier[Name(a) Punctuation(.) Name(x)] Whitespace( ) OperatorComparison(=) Whitespace( ) Identifier[Name(b) Punctuation(.) Name(x)]] Whitespace( ) Keyword(and) Whitespace( ) Identifier[Name(a) Punctuation(.) Name(y)] Whitespace( ) Keyword(between) Whitespace( ) LiteralNumberInteger(1) Whitespace( ) Keyword(and) Whitespace( ) LiteralNumberInteger(5) Whitespace( ) Keyword(and) Whitespace( ) Comparison[Identifier[Name(b) Punctuation(.) Name(z)] Whitespace( ) OperatorComparison(=) Whitespace( ) LiteralNumberInteger(3)]]");
    check("select a from (select b from (select c from t) u) v where a > 1", "KeywordDML(select) Whitespace( ) Identifier[Name(a)] Whitespace( ) Keyword(from) Whitespace( ) Identifier[Parenthesis[Punctuation(() KeywordDML(select) Whitespace( ) Identifier[Name(b)] Whitespace( ) Keyword(from) Whitespace( ) Identifier[Parenthesis[Punctuation(() KeywordDML(select) Whitespace( ) Identifier[Name(c)] Whitespace( ) Keyword(from) Whitespace( ) Identifier[Name(t)] Punctuation())] Whitespace( ) Identifier[Name(u)]] Punctuation())] Whitespace( ) Identifier[Name(v)]] Whitespace( ) Where[Keyword(where) Whitespace( ) Comparison[Identifier[Name(a)] Whitespace( ) OperatorComparison(>) Whitespace( ) LiteralNumberInteger(1)]]");
    check("select a from t where b in (select c from u where d = (select max(e) from w))", "KeywordDML(select) Whitespace( ) Identifier[Name(a)] Whitespace( ) Keyword(from) Whitespace( ) Identifier[Name(t)] Whitespace( ) Where[Keyword(where) Whitespace( ) Identifier[Name(b)] Whitespace( ) Keyword(in) Whitespace( ) Parenthesis[Punctuation(() KeywordDML(select) Whitespace( ) Identifier[Name(c)] Whitespace( ) Keyword(from) Whitespace( ) Identifier[Name(u)] Whitespace( ) Where[Keyword(where) Whitespace( ) Comparison[Identifier[Name(d)] Whitespace( ) OperatorComparison(=) Whitespace( ) Parenthesis[Punctuation(() KeywordDML(select) Whitespace( ) Function[Identifier[Name(max)] Parenthesis[Punctuation(() Identifier[Name(e)] Punctuation())]] Whitespace( ) Keyword(from) Whitespace( ) Identifier[Name(w)] Punctuation())]]] Punctuation())]]");
    check("select a, b from t union select c, d from u union all select e, f from v", "KeywordDML(select) Whitespace( ) IdentifierList[Identifier[Name(a)] Punctuation(,) Whitespace( ) Identifier[Name(b)]] Whitespace( ) Keyword(from) Whitespace( ) Identifier[Name(t)] Whitespace( ) Keyword(union) Whitespace( ) KeywordDML(select) Whitespace( ) IdentifierList[Identifier[Name(c)] Punctuation(,) Whitespace( ) Identifier[Name(d)]] Whitespace( ) Keyword(from) Whitespace( ) Identifier[Name(u)] Whitespace( ) Keyword(union all) Whitespace( ) KeywordDML(select) Whitespace( ) IdentifierList[Identifier[Name(e)] Punctuation(,) Whitespace( ) Identifier[Name(f)]] Whitespace( ) Keyword(from) Whitespace( ) Identifier[Name(v)]");
    check("select a from t except select b from u", "KeywordDML(select) Whitespace( ) Identifier[Name(a)] Whitespace( ) Keyword(from) Whitespace( ) Identifier[Name(t)] Whitespace( ) Keyword(except) Whitespace( ) KeywordDML(select) Whitespace( ) Identifier[Name(b)] Whitespace( ) Keyword(from) Whitespace( ) Identifier[Name(u)]");
    check("select a as x, b y, c + d as z from t as tt", "KeywordDML(select) Whitespace( ) IdentifierList[Identifier[Name(a) Whitespace( ) Keyword(as) Whitespace( ) Identifier[Name(x)]] Punctuation(,) Whitespace( ) Identifier[Name(b) Whitespace( ) Identifier[Name(y)]] Punctuation(,) Whitespace( ) Identifier[Operation[Identifier[Name(c)] Whitespace( ) Operator(+) Whitespace( ) Identifier[Name(d)]] Whitespace( ) Keyword(as) Whitespace( ) Identifier[Name(z)]]] Whitespace( ) Keyword(from) Whitespace( ) Identifier[Name(t) Whitespace( ) Keyword(as) Whitespace( ) Identifier[Name(tt)]]");
}

#[test]
fn test_group_matrix_3() {
    check("select a.b, c.d.e, f.* from g", "KeywordDML(select) Whitespace( ) IdentifierList[Identifier[Name(a) Punctuation(.) Name(b)] Punctuation(,) Whitespace( ) Identifier[Name(c) Punctuation(.) Name(d) Punctuation(.) Name(e)] Punctuation(,) Whitespace( ) Identifier[Name(f) Punctuation(.) Wildcard(*)]] Whitespace( ) Keyword(from) Whitespace( ) Identifier[Name(g)]");
    check("select a::int, b::text, cast(c as int) from t", "KeywordDML(select) Whitespace( ) IdentifierList[TypeCast[Identifier[Name(a)] Punctuation(::) NameBuiltin(int)] Punctuation(,) Whitespace( ) TypeCast[Identifier[Name(b)] Punctuation(::) NameBuiltin(text)] Punctuation(,) Whitespace( ) Function[Identifier[Name(cast)] Parenthesis[Punctuation(() Identifier[Name(c) Whitespace( ) Keyword(as) Whitespace( ) NameBuiltin(int)] Punctuation())]]] Whitespace( ) Keyword(from) Whitespace( ) Identifier[Name(t)]");
    check("select * from t where a = 'x' and b like '%y%' and c is not null", "KeywordDML(select) Whitespace( ) Wildcard(*) Whitespace( ) Keyword(from) Whitespace( ) Identifier[Name(t)] Whitespace( ) Where[Keyword(where) Whitespace( ) Comparison[Identifier[Name(a)] Whitespace( ) OperatorComparison(=) Whitespace( ) LiteralString('x')] Whitespace( ) Keyword(and) Whitespace( ) Comparison[Identifier[Name(b)] Whitespace( ) OperatorComparison(like) Whitespace( ) LiteralString('%y%')] Whitespace( ) Keyword(and) Whitespace( ) Identifier[Name(c)] Whitespace( ) Keyword(is) Whitespace( ) Keyword(not null)]");
    check("create table t (a int, b int); insert into t values (1, 2); select * from t;", "KeywordDDL(create) Whitespace( ) Keyword(table) Whitespace( ) Identifier[Name(t)] Whitespace( ) Parenthesis[Punctuation(() Identifier[Name(a)] Whitespace( ) IdentifierList[NameBuiltin(int) Punctuation(,) Whitespace( ) Identifier[Name(b)]] Whitespace( ) NameBuiltin(int) Punctuation())] Punctuation(;) Whitespace( ) KeywordDML(insert) Whitespace( ) Keyword(into) Whitespace( ) Identifier[Name(t)] Whitespace( ) Values[Keyword(values) Whitespace( ) Parenthesis[Punctuation(() IdentifierList[LiteralNumberInteger(1) Punctuation(,) Whitespace( ) LiteralNumberInteger(2)] Punctuation())]] Punctuation(;) Whitespace( ) KeywordDML(select) Whitespace( ) Wildcard(*) Whitespace( ) Keyword(from) Whitespace( ) Identifier[Name(t)] Punctuation(;)");
    check("select a, sum(b) over (partition by c order by d) from t", "KeywordDML(select) Whitespace( ) IdentifierList[Identifier[Name(a)] Punctuation(,) Whitespace( ) Function[Identifier[Name(sum)] Parenthesis[Punctuation(() Identifier[Name(b)] Punctuation())] Whitespace( ) Over[Keyword(over) Whitespace( ) Parenthesis[Punctuation(() Keyword(partition) Whitespace( ) Keyword(by) Whitespace( ) Identifier[Name(c)] Whitespace( ) Keyword(order by) Whitespace( ) Identifier[Name(d)] Punctuation())]]]] Whitespace( ) Keyword(from) Whitespace( ) Identifier[Name(t)]");
    check("select a from t order by a asc, b desc", "KeywordDML(select) Whitespace( ) Identifier[Name(a)] Whitespace( ) Keyword(from) Whitespace( ) Identifier[Name(t)] Whitespace( ) Keyword(order by) Whitespace( ) IdentifierList[Identifier[Identifier[Name(a)] Whitespace( ) Keyword(asc)] Punctuation(,) Whitespace( ) Identifier[Identifier[Name(b)] Whitespace( ) Keyword(desc)]]");
    check("with x as (select a from t) select * from x", "KeywordCTE(with) Whitespace( ) Identifier[Name(x) Whitespace( ) Keyword(as) Whitespace( ) Parenthesis[Punctuation(() KeywordDML(select) Whitespace( ) Identifier[Name(a)] Whitespace( ) Keyword(from) Whitespace( ) Identifier[Name(t)] Punctuation())]] Whitespace( ) KeywordDML(select) Whitespace( ) Wildcard(*) Whitespace( ) Keyword(from) Whitespace( ) Identifier[Name(x)]");
    check("select a -- one\n, b /* two */ from t -- three\nwhere c = 1", "KeywordDML(select) Whitespace( ) Identifier[Name(a)] Whitespace( ) IdentifierList[CommentSingle(-- one\\n) Punctuation(,) Whitespace( ) Identifier[Name(b)]] Whitespace( ) CommentMultiline(/* two */) Whitespace( ) Keyword(from) Whitespace( ) Identifier[Name(t)] Whitespace( ) CommentSingle(-- three\\n) Where[Keyword(where) Whitespace( ) Comparison[Identifier[Name(c)] Whitespace( ) OperatorComparison(=) Whitespace( ) LiteralNumberInteger(1)]]");
    check("select   a ,  b   from   t   where  ( a = 1 )   and\n\n b = 2", "KeywordDML(select) Whitespace(   ) IdentifierList[Identifier[Name(a)] Whitespace( ) Punctuation(,) Whitespace(  ) Identifier[Name(b)]] Whitespace(   ) Keyword(from) Whitespace(   ) Identifier[Name(t)] Whitespace(   ) Where[Keyword(where) Whitespace(  ) Parenthesis[Punctuation(() Whitespace( ) Comparison[Identifier[Name(a)] Whitespace( ) OperatorComparison(=) Whitespace( ) LiteralNumberInteger(1)] Whitespace( ) Punctuation())] Whitespace(   ) Keyword(and) Whitespace(\\n\\n ) Comparison[Identifier[Name(b)] Whitespace( ) OperatorComparison(=) Whitespace( ) LiteralNumberInteger(2)]]");
}

#[test]
fn test_group_matrix_4() {
    check("select a+b, c-d, e*f, g/h, i%j, k||l from t where m<=n and o>=p and q<>r", "KeywordDML(select) Whitespace( ) IdentifierList[Operation[Identifier[Name(a)] Operator(+) Identifier[Name(b)]] Punctuation(,) Whitespace( ) Operation[Identifier[Name(c)] Operator(-) Identifier[Name(d)]] Punctuation(,) Whitespace( ) Operation[Identifier[Name(e)] Operator(*) Identifier[Name(f)]] Punctuation(,) Whitespace( ) Operation[Identifier[Name(g)] Operator(/) Identifier[Name(h)]] Punctuation(,) Whitespace( ) Operation[Identifier[Name(i)] Operator(%) Identifier[Name(j)]] Punctuation(,) Whitespace( ) Operation[Identifier[Name(k)] Operator(||) Identifier[Name(l)]]] Whitespace( ) Keyword(from) Whitespace( ) Identifier[Name(t)] Whitespace( ) Where[Keyword(where) Whitespace( ) Comparison[Identifier[Name(m)] OperatorComparison(<=) Identifier[Name(n)]] Whitespace( ) Keyword(and) Whitespace( ) Comparison[Identifier[Name(o)] OperatorComparison(>=) Identifier[Name(p)]] Whitespace( ) Keyword(and) Whitespace( ) Comparison[Identifier[Name(q)] OperatorComparison(<>) Identifier[Name(r)]]]");
    check("select distinct a, b from t inner join u using (c) cross join v natural join w", "KeywordDML(select) Whitespace( ) Keyword(distinct) Whitespace( ) IdentifierList[Identifier[Name(a)] Punctuation(,) Whitespace( ) Identifier[Name(b)]] Whitespace( ) Keyword(from) Whitespace( ) Identifier[Name(t)] Whitespace( ) Keyword(inner join) Whitespace( ) Identifier[Name(u)] Whitespace( ) Keyword(using) Whitespace( ) Parenthesis[Punctuation(() Identifier[Name(c)] Punctuation())] Whitespace( ) Keyword(cross join) Whitespace( ) Identifier[Name(v)] Whitespace( ) Keyword(natural join) Whitespace( ) Identifier[Name(w)]");
    check("select f(g(h(a, b), c), d) from t", "KeywordDML(select) Whitespace( ) Function[Identifier[Name(f)] Parenthesis[Punctuation(() IdentifierList[Function[Identifier[Name(g)] Parenthesis[Punctuation(() IdentifierList[Function[Identifier[Name(h)] Parenthesis[Punctuation(() IdentifierList[Identifier[Name(a)] Punctuation(,) Whitespace( ) Identifier[Name(b)]] Punctuation())]] Punctuation(,) Whitespace( ) Identifier[Name(c)]] Punctuation())]] Punctuation(,) Whitespace( ) Identifier[Name(d)]] Punctuation())]] Whitespace( ) Keyword(from) Whitespace( ) Identifier[Name(t)]");
    check("select a from t where exists (select 1 from u where u.a = t.a) limit 5", "KeywordDML(select) Whitespace( ) Identifier[Name(a)] Whitespace( ) Keyword(from) Whitespace( ) Identifier[Name(t)] Whitespace( ) Where[Keyword(where) Whitespace( ) Keyword(exists) Whitespace( ) Parenthesis[Punctuation(() KeywordDML(select) Whitespace( ) LiteralNumberInteger(1) Whitespace( ) Keyword(from) Whitespace( ) Identifier[Name(u)] Whitespace( ) Where[Keyword(where) Whitespace( ) Comparison[Identifier[Name(u) Punctuation(.) Name(a)] Whitespace( ) OperatorComparison(=) Whitespace( ) Identifier[Name(t) Punctuation(.) Name(a)]]] Punctuation())]] Whitespace( ) Keyword(limit) Whitespace( ) LiteralNumberInteger(5)");
    check("select (a + b) * c, -d, e from t", "KeywordDML(select) Whitespace( ) Operation[Parenthesis[Punctuation(() Operation[Identifier[Name(a)] Whitespace( ) Operator(+) Whitespace( ) Identifier[Name(b)]] Punctuation())] Whitespace( ) Operator(*) Whitespace( ) Identifier[Name(c)]] Punctuation(,) Whitespace( ) Operator(-) IdentifierList[Identifier[Name(d)] Punctuation(,) Whitespace( ) Identifier[Name(e)]] Whitespace( ) Keyword(from) Whitespace( ) Identifier[Name(t)]");
    check("select a, b, c from t where d = 1; select e, f from g; select h from i", "KeywordDML(select) Whitespace( ) IdentifierList[Identifier[Name(a)] Punctuation(,) Whitespace( ) Identifier[Name(b)] Punctuation(,) Whitespace( ) Identifier[Name(c)]] Whitespace( ) Keyword(from) Whitespace( ) Identifier[Name(t)] Whitespace( ) Where[Keyword(where) Whitespace( ) Comparison[Identifier[Name(d)] Whitespace( ) OperatorComparison(=) Whitespace( ) LiteralNumberInteger(1)]] Punctuation(;) Whitespace( ) KeywordDML(select) Whitespace( ) IdentifierList[Identifier[Name(e)] Punctuation(,) Whitespace( ) Identifier[Name(f)]] Whitespace( ) Keyword(from) Whitespace( ) Identifier[Name(g)] Punctuation(;) Whitespace( ) KeywordDML(select) Whitespace( ) Identifier[Name(h)] Whitespace( ) Keyword(from) Whitespace( ) Identifier[Name(i)]");
    check("SELECT A, B FROM T WHERE C = 1 GROUP BY A, B HAVING COUNT(*) > 2 ORDER BY A", "KeywordDML(SELECT) Whitespace( ) IdentifierList[Identifier[Name(A)] Punctuation(,) Whitespace( ) Identifier[Name(B)]] Whitespace( ) Keyword(FROM) Whitespace( ) Identifier[Name(T)] Whitespace( ) Where[Keyword(WHERE) Whitespace( ) Comparison[Identifier[Name(C)] Whitespace( ) OperatorComparison(=) Whitespace( ) LiteralNumberInteger(1)]] Whitespace( ) Keyword(GROUP BY) Whitespace( ) IdentifierList[Identifier[Name(A)] Punctuation(,) Whitespace( ) Identifier[Name(B)]] Whitespace( ) Having[Keyword(HAVING) Whitespace( ) Comparison[Function[Identifier[Name(COUNT)] Parenthesis[Punctuation(() Wildcard(*) Punctuation())]] Whitespace( ) OperatorComparison(>) Whitespace( ) LiteralNumberInteger(2)]] Whitespace( ) Keyword(ORDER BY) Whitespace( ) Identifier[Name(A)]");
    check("select a from t where b = 1 or c = 2 and d = 3 or e between 4 and 5", "KeywordDML(select) Whitespace( ) Identifier[Name(a)] Whitespace( ) Keyword(from) Whitespace( ) Identifier[Name(t)] Whitespace( ) Where[Keyword(where) Whitespace( ) Comparison[Identifier[Name(b)] Whitespace( ) OperatorComparison(=) Whitespace( ) LiteralNumberInteger(1)] Whitespace( ) Keyword(or) Whitespace( ) Comparison[Identifier[Name(c)] Whitespace( ) OperatorComparison(=) Whitespace( ) LiteralNumberInteger(2)] Whitespace( ) Keyword(and) Whitespace( ) Comparison[Identifier[Name(d)] Whitespace( ) OperatorComparison(=) Whitespace( ) LiteralNumberInteger(3)] Whitespace( ) Keyword(or) Whitespace( ) Identifier[Name(e)] Whitespace( ) Keyword(between) Whitespace( ) LiteralNumberInteger(4) Whitespace( ) Keyword(and) Whitespace( ) LiteralNumberInteger(5)]");
    check("select 'a, b', \"c, d\", `e` from t", "KeywordDML(select) Whitespace( ) IdentifierList[LiteralString('a, b') Punctuation(,) Whitespace( ) Identifier[LiteralStringSymbol(\"c, d\")] Punctuation(,) Whitespace( ) Identifier[Name(`e`)]] Whitespace( ) Keyword(from) Whitespace( ) Identifier[Name(t)]");
}

#[test]
fn test_group_matrix_5() {
    check("select x from y where z in (1,2,3) and w not in (4,5)", "KeywordDML(select) Whitespace( ) Identifier[Name(x)] Whitespace( ) Keyword(from) Whitespace( ) Identifier[Name(y)] Whitespace( ) Where[Keyword(where) Whitespace( ) Identifier[Name(z)] Whitespace( ) Keyword(in) Whitespace( ) Parenthesis[Punctuation(() IdentifierList[LiteralNumberInteger(1) Punctuation(,) LiteralNumberInteger(2) Punctuation(,) LiteralNumberInteger(3)] Punctuation())] Whitespace( ) Keyword(and) Whitespace( ) Identifier[Name(w)] Whitespace( ) Keyword(not) Whitespace( ) Keyword(in) Whitespace( ) Parenthesis[Punctuation(() IdentifierList[LiteralNumberInteger(4) Punctuation(,) LiteralNumberInteger(5)] Punctuation())]]");
    check("select coalesce(a, b, c) as d, nullif(e, f) from t group by 1, 2", "KeywordDML(select) Whitespace( ) IdentifierList[Identifier[Function[Identifier[Name(coalesce)] Parenthesis[Punctuation(() IdentifierList[Identifier[Name(a)] Punctuation(,) Whitespace( ) Identifier[Name(b)] Punctuation(,) Whitespace( ) Identifier[Name(c)]] Punctuation())]] Whitespace( ) Keyword(as) Whitespace( ) Identifier[Name(d)]] Punctuation(,) Whitespace( ) Function[Identifier[Name(nullif)] Parenthesis[Punctuation(() IdentifierList[Identifier[Name(e)] Punctuation(,) Whitespace( ) Identifier[Name(f)]] Punctuation())]]] Whitespace( ) Keyword(from) Whitespace( ) Identifier[Name(t)] Whitespace( ) Keyword(group by) Whitespace( ) IdentifierList[LiteralNumberInteger(1) Punctuation(,) Whitespace( ) LiteralNumberInteger(2)]");
    check("select a , b , c from t", "KeywordDML(select) Whitespace( ) IdentifierList[Identifier[Name(a)] Whitespace( ) Punctuation(,) Whitespace( ) Identifier[Name(b)] Whitespace( ) Punctuation(,) Whitespace( ) Identifier[Name(c)]] Whitespace( ) Keyword(from) Whitespace( ) Identifier[Name(t)]");
    check("values (1, 2), (3, 4)", "Values[Keyword(values) Whitespace( ) Parenthesis[Punctuation(() IdentifierList[LiteralNumberInteger(1) Punctuation(,) Whitespace( ) LiteralNumberInteger(2)] Punctuation())] Punctuation(,) Whitespace( ) Parenthesis[Punctuation(() IdentifierList[LiteralNumberInteger(3) Punctuation(,) Whitespace( ) LiteralNumberInteger(4)] Punctuation())]]");
    check("select a from t where b = 1 group by a order by a limit 1 offset 2", "KeywordDML(select) Whitespace( ) Identifier[Name(a)] Whitespace( ) Keyword(from) Whitespace( ) Identifier[Name(t)] Whitespace( ) Where[Keyword(where) Whitespace( ) Comparison[Identifier[Name(b)] Whitespace( ) OperatorComparison(=) Whitespace( ) LiteralNumberInteger(1)]] Whitespace( ) Keyword(group by) Whitespace( ) Identifier[Name(a)] Whitespace( ) Keyword(order by) Whitespace( ) Identifier[Name(a)] Whitespace( ) Keyword(limit) Whitespace( ) LiteralNumberInteger(1) Whitespace( ) Keyword(offset) Whitespace( ) LiteralNumberInteger(2)");
    check("select a, b from t1 left outer join t2 on t1.a = t2.a and t1.b = t2.b right join t3 on t3.c = t1.c", "KeywordDML(select) Whitespace( ) IdentifierList[Identifier[Name(a)] Punctuation(,) Whitespace( ) Identifier[Name(b)]] Whitespace( ) Keyword(from) Whitespace( ) Identifier[Name(t1)] Whitespace( ) Keyword(left outer join) Whitespace( ) Identifier[Name(t2)] Whitespace( ) Keyword(on) Whitespace( ) Comparison[Identifier[Name(t1) Punctuation(.) Name(a)] Whitespace( ) OperatorComparison(=) Whitespace( ) Identifier[Name(t2) Punctuation(.) Name(a)]] Whitespace( ) Keyword(and) Whitespace( ) Comparison[Identifier[Name(t1) Punctuation(.) Name(b)] Whitespace( ) OperatorComparison(=) Whitespace( ) Identifier[Name(t2) Punctuation(.) Name(b)]] Whitespace( ) Keyword(right join) Whitespace( ) Identifier[Name(t3)] Whitespace( ) Keyword(on) Whitespace( ) Comparison[Identifier[Name(t3) Punctuation(.) Name(c)] Whitespace( ) OperatorComparison(=) Whitespace( ) Identifier[Name(t1) Punctuation(.) Name(c)]]");
    check("* from t", "Operator(*) Whitespace( ) Keyword(from) Whitespace( ) Identifier[Name(t)]");
    check("select a * b, c.*, count(*), * from t where x * 2 = y", "KeywordDML(select) Whitespace( ) IdentifierList[Operation[Identifier[Name(a)] Whitespace( ) Operator(*) Whitespace( ) Identifier[Name(b)]] Punctuation(,) Whitespace( ) Identifier[Name(c) Punctuation(.) Wildcard(*)] Punctuation(,) Whitespace( ) Function[Identifier[Name(count)] Parenthesis[Punctuation(() Wildcard(*) Punctuation())]] Punctuation(,) Whitespace( ) Wildcard(*)] Whitespace( ) Keyword(from) Whitespace( ) Identifier[Name(t)] Whitespace( ) Where[Keyword(where) Whitespace( ) Comparison[Operation[Identifier[Name(x)] Whitespace( ) Operator(*) Whitespace( ) LiteralNumberInteger(2)] Whitespace( ) OperatorComparison(=) Whitespace( ) Identifier[Name(y)]]]");
    check("select a from t where b = 1 union select c from u where d = 2 order by 1", "KeywordDML(select) Whitespace( ) Identifier[Name(a)] Whitespace( ) Keyword(from) Whitespace( ) Identifier[Name(t)] Whitespace( ) Where[Keyword(where) Whitespace( ) Comparison[Identifier[Name(b)] Whitespace( ) OperatorComparison(=) Whitespace( ) LiteralNumberInteger(1)]] Whitespace( ) Keyword(union) Whitespace( ) KeywordDML(select) Whitespace( ) Identifier[Name(c)] Whitespace( ) Keyword(from) Whitespace( ) Identifier[Name(u)] Whitespace( ) Where[Keyword(where) Whitespace( ) Comparison[Identifier[Name(d)] Whitespace( ) OperatorComparison(=) Whitespace( ) LiteralNumberInteger(2)]] Whitespace( ) Keyword(order by) Whitespace( ) LiteralNumberInteger(1)");
}

#[test]
fn test_group_matrix_6() {
    check("select a into b from c where d = 1 returning e", "KeywordDML(select) Whitespace( ) Identifier[Name(a)] Whitespace( ) Keyword(into) Whitespace( ) Identifier[Name(b)] Whitespace( ) Keyword(from) Whitespace( ) Identifier[Name(c)] Whitespace( ) Where[Keyword(where) Whitespace( ) Comparison[Identifier[Name(d)] Whitespace( ) OperatorComparison(=) Whitespace( ) LiteralNumberInteger(1)]] Whitespace( ) Keyword(returning) Whitespace( ) Identifier[Name(e)]");
    check("create function f() returns int begin declare x int; if x then select 1; end if; while y do select 2; end while; end", "KeywordDDL(create) Whitespace( ) Keyword(function) Whitespace( ) Function[Identifier[Name(f)] Parenthesis[Punctuation(() Punctuation())]] Whitespace( ) Keyword(returns) Whitespace( ) NameBuiltin(int) Whitespace( ) Begin[Keyword(begin) Whitespace( ) Keyword(declare) Whitespace( ) Identifier[Name(x)] Whitespace( ) NameBuiltin(int) Punctuation(;) Whitespace( ) If[Keyword(if) Whitespace( ) Identifier[Name(x)] Whitespace( ) Keyword(then) Whitespace( ) KeywordDML(select) Whitespace( ) LiteralNumberInteger(1) Punctuation(;) Whitespace( ) Keyword(end if)] Punctuation(;) Whitespace( ) Keyword(while) Whitespace( ) Identifier[Name(y)] Whitespace( ) Keyword(do) Whitespace( ) KeywordDML(select) Whitespace( ) LiteralNumberInteger(2) Punctuation(;) Whitespace( ) Keyword(end while) Punctuation(;) Whitespace( ) Keyword(end)]");
    check("select a from t where b between 1 and 2 and c in (1, 2) having d > 1 and e < 2 limit 3", "KeywordDML(select) Whitespace( ) Identifier[Name(a)] Whitespace( ) Keyword(from) Whitespace( ) Identifier[Name(t)] Whitespace( ) Where[Keyword(where) Whitespace( ) Identifier[Name(b)] Whitespace( ) Keyword(between) Whitespace( ) LiteralNumberInteger(1) Whitespace( ) Keyword(and) Whitespace( ) LiteralNumberInteger(2) Whitespace( ) Keyword(and) Whitespace( ) Identifier[Name(c)] Whitespace( ) Keyword(in) Whitespace( ) Parenthesis[Punctuation(() IdentifierList[LiteralNumberInteger(1) Punctuation(,) Whitespace( ) LiteralNumberInteger(2)] Punctuation())]] Whitespace( ) Having[Keyword(having) Whitespace( ) Comparison[Identifier[Name(d)] Whitespace( ) OperatorComparison(>) Whitespace( ) LiteralNumberInteger(1)] Whitespace( ) Keyword(and) Whitespace( ) Comparison[Identifier[Name(e)] Whitespace( ) OperatorComparison(<) Whitespace( ) LiteralNumberInteger(2)]] Whitespace( ) Keyword(limit) Whitespace( ) LiteralNumberInteger(3)");
    check("select timestamp '2020-01-01', interval '1 day', a[1], b[2][3] from t", "KeywordDML(select) Whitespace( ) IdentifierList[TypedLiteral[NameBuiltin(timestamp) Whitespace( ) LiteralString('2020-01-01')] Punctuation(,) Whitespace( ) TypedLiteral[NameBuiltin(interval) Whitespace( ) LiteralString('1 day')] Punctuation(,) Whitespace( ) Identifier[Name(a)]] SquareBrackets[Punctuation([) LiteralNumberInteger(1) Punctuation(])] Punctuation(,) Whitespace( ) Identifier[Name(b)] SquareBrackets[Punctuation([) LiteralNumberInteger(2) Punctuation(])] SquareBrackets[Punctuation([) LiteralNumberInteger(3) Punctuation(])] Whitespace( ) Keyword(from) Whitespace( ) Identifier[Name(t)]");
    check("select f(a) over (order by b) as c, g(d) filter (where e) from t", "KeywordDML(select) Whitespace( ) IdentifierList[Identifier[Function[Identifier[Name(f)] Parenthesis[Punctuation(() Identifier[Name(a)] Punctuation())] Whitespace( ) Over[Keyword(over) Whitespace( ) Parenthesis[Punctuation(() Keyword(order by) Whitespace( ) Identifier[Name(b)] Punctuation())]]] Whitespace( ) Keyword(as) Whitespace( ) Identifier[Name(c)]] Punctuation(,) Whitespace( ) Function[Identifier[Name(g)] Parenthesis[Punctuation(() Identifier[Name(d)] Punctuation())]]] Whitespace( ) Keyword(filter) Whitespace( ) Parenthesis[Punctuation(() Where[Keyword(where) Whitespace( ) Identifier[Name(e)]] Punctuation())] Whitespace( ) Keyword(from) Whitespace( ) Identifier[Name(t)]");
    check("select a b, c as d, e.f g, (h) i, j(k) l from m n, o as p", "KeywordDML(select) Whitespace( ) IdentifierList[Identifier[Name(a) Whitespace( ) Identifier[Name(b)]] Punctuation(,) Whitespace( ) Identifier[Name(c) Whitespace( ) Keyword(as) Whitespace( ) Identifier[Name(d)]] Punctuation(,) Whitespace( ) Identifier[Name(e) Punctuation(.) Name(f) Whitespace( ) Identifier[Name(g)]] Punctuation(,) Whitespace( ) Identifier[Parenthesis[Punctuation(() Identifier[Name(h)] Punctuation())] Whitespace( ) Identifier[Name(i)]] Punctuation(,) Whitespace( ) Identifier[Function[Identifier[Name(j)] Parenthesis[Punctuation(() Identifier[Name(k)] Punctuation())]] Whitespace( ) Identifier[Name(l)]]] Whitespace( ) Keyword(from) Whitespace( ) IdentifierList[Identifier[Name(m) Whitespace( ) Identifier[Name(n)]] Punctuation(,) Whitespace( ) Identifier[Name(o) Whitespace( ) Keyword(as) Whitespace( ) Identifier[Name(p)]]]");
    check("x := 1, y = 2, z := a + b", "Assignment[Identifier[Name(x)] Whitespace( ) Punctuation(:=) Whitespace( ) LiteralNumberInteger(1)] Punctuation(,) Whitespace( ) Comparison[Identifier[Name(y)] Whitespace( ) OperatorComparison(=) Whitespace( ) LiteralNumberInteger(2)] Punctuation(,) Whitespace( ) Assignment[Identifier[Name(z)] Whitespace( ) Punctuation(:=) Whitespace( ) Operation[Identifier[Name(a)] Whitespace( ) Operator(+) Whitespace( ) Identifier[Name(b)]]]");
    check("select -1, +2, a - -b, not c from t", "KeywordDML(select) Whitespace( ) Operator(-) LiteralNumberInteger(1) Punctuation(,) Whitespace( ) Operator(+) IdentifierList[LiteralNumberInteger(2) Punctuation(,) Whitespace( ) Identifier[Name(a)]] Whitespace( ) Operator(-) Whitespace( ) Operator(-) IdentifierList[Identifier[Name(b)] Punctuation(,) Whitespace( ) Keyword(not)] Whitespace( ) Identifier[Name(c)] Whitespace( ) Keyword(from) Whitespace( ) Identifier[Name(t)]");
    check("select a, b from t order by a asc nulls first, b desc", "KeywordDML(select) Whitespace( ) IdentifierList[Identifier[Name(a)] Punctuation(,) Whitespace( ) Identifier[Name(b)]] Whitespace( ) Keyword(from) Whitespace( ) Identifier[Name(t)] Whitespace( ) Keyword(order by) Whitespace( ) Identifier[Identifier[Name(a)] Whitespace( ) Keyword(asc) Whitespace( ) Identifier[Name(nulls)]] Whitespace( ) IdentifierList[Keyword(first) Punctuation(,) Whitespace( ) Identifier[Identifier[Name(b)] Whitespace( ) Keyword(desc)]]");
}
