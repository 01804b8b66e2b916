use sqlparse::FormatOption;

const TEXTS: &[&str] = &[
    "select a, b, c from t where x = 1 and y = 2 or z = 3",
    "select a,b,c,d,e,f from t1, t2 where a in (1, 2, 3)",
    "select f(a, b, c), g(d, e), h from t",
    "select count(*), max(a), min(b) from t group by c having count(*) > 1 order by c desc limit 10",
    "select case when a = 1 then 'one' when a = 2 then 'two' else 'other' end, b from t",
    "select case a when 1 then 2 end from t",
    "select case when a then b end, case when c then d else e end from t",
    "insert into t (a, b, c) values (1, 2, 3), (4, 5, 6), (7, 8, 9)",
    "insert into t values (1, 'a'), (2, 'b')",
    "update t set a = 1, b = 2 where c = 3",
    "delete from t where a = 1 and (b = 2 or c = 3)",
    "select * from a join b on a.x = b.x left join c on c.y = a.y where a.z > 1",
    "select * from a, b where a.x = b.x and a.y between 1 and 5 and b.z = 3",
    "select a from (select b from (select c from t) u) v where a > 1",
    "select a from t where b in (select c from u where d = (select max(e) from w))",
    "select a, b from t union select c, d from u union all select e, f from v",
    "select a from t except select b from u",
    "select a as x, b y, c + d as z from t as tt",
    "select a.b, c.d.e, f.* from g",
    "select a::int, b::text, cast(c as int) from t",
    "select * from t where a = 'x' and b like '%y%' and c is not null",
    "create table t (a int, b int); insert into t values (1, 2); select * from t;",
    "select a, sum(b) over (partition by c order by d) from t",
    "select a from t order by a asc, b desc",
    "with x as (select a from t) select * from x",
    "select a -- one\n, b /* two */ from t -- three\nwhere c = 1",
    "select   a ,  b   from   t   where  ( a = 1 )   and\n\n b = 2",
    "select a+b, c-d, e*f, g/h, i%j, k||l from t where m<=n and o>=p and q<>r",
    "select distinct a, b from t inner join u using (c) cross join v natural join w",
    "select f(g(h(a, b), c), d) from t",
    "select a from t where exists (select 1 from u where u.a = t.a) limit 5",
    "select (a + b) * c, -d, e from t",
    "select a, b, c from t where d = 1; select e, f from g; select h from i",
    "SELECT A, B FROM T WHERE C = 1 GROUP BY A, B HAVING COUNT(*) > 2 ORDER BY A",
    "select a from t where b = 1 or c = 2 and d = 3 or e between 4 and 5",
    "select 'a, b', \"c, d\", `e` from t",
    "select x from y where z in (1,2,3) and w not in (4,5)",
    "select coalesce(a, b, c) as d, nullif(e, f) from t group by 1, 2",
    "select a , b , c from t",
    "values (1, 2), (3, 4)",
    "select a from t where b = 1 group by a order by a limit 1 offset 2",
    "select a, b from t1 left outer join t2 on t1.a = t2.a and t1.b = t2.b right join t3 on t3.c = t1.c",
    "* from t",
    "select a * b, c.*, count(*), * from t where x * 2 = y",
    "select a from t where b = 1 union select c from u where d = 2 order by 1",
    "select a into b from c where d = 1 returning e",
    "create function f() returns int begin declare x int; if x then select 1; end if; while y do select 2; end while; end",
    "select a from t where b between 1 and 2 and c in (1, 2) having d > 1 and e < 2 limit 3",
    "select timestamp '2020-01-01', interval '1 day', a[1], b[2][3] from t",
    "select f(a) over (order by b) as c, g(d) filter (where e) from t",
    "select a b, c as d, e.f g, (h) i, j(k) l from m n, o as p",
    "x := 1, y = 2, z := a + b",
    "select -1, +2, a - -b, not c from t",
    "select a, b from t order by a asc nulls first, b desc",
    "select (  a  ,  b  ) from   t\n\n where x =\t1  ",
    "  \n select 1 ;\n\n ",
    "select a;\n\nselect b ;  select c",
    "select a -- c\n\n , b",
    "select 'a  b' ,  \"c  d\"",
    "a  (  (  b  )  )",
    "select a\r\nfrom b\r\n",
    "select * from t where a = 1 and ( b = 2 or c = 3 )",
    "select a from ( select b from t where c = 1 ) u where d = 2 group by e",
    "select a from t where b = 1 ;select c from u having d > 1 limit 2",
];

fn formats_to_itself(name: &str, options: &FormatOption) {
    let mut others: Vec<String> = Vec::new();
    for text in TEXTS {
        let mut used = FormatOption { ..*options };
        let once = sqlparse::format(text, &mut used);
        let mut used = FormatOption { ..*options };
        let twice = sqlparse::format(&once, &mut used);
        if once != twice {
            others.push(format!("{:?} -> {:?} -> {:?}", text, once, twice));
        }
    }
    assert!(others.is_empty(), "{}: {} of {}\n{}", name, others.len(), TEXTS.len(), others.join("\n"));
}

#[test]
fn test_format_twice_with_strip_whitespace() {
    let mut options = FormatOption::default();
    options.strip_whitespace = true;
    formats_to_itself("strip_whitespace", &options);
}

#[test]
fn test_format_twice_with_reindent() {
    let mut options = FormatOption::default();
    options.reindent = true;
    formats_to_itself("reindent", &options);
}

#[test]
fn test_format_twice_with_reindent_aligned() {
    let mut options = FormatOption::default();
    options.reindent_aligned = true;
    formats_to_itself("reindent_aligned", &options);
}
