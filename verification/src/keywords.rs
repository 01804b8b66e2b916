//! The keyword table.

use crate::text::is_prefix_of;
use crate::tokens::TokenType;
use crate::trie::Trie;
use vstd::prelude::*;

verus! {

/// The keywords that start a statement that changes or reads data.
pub open spec fn dml_words() -> Seq<&'static str> {
    seq![
        "SELECT",
        "INSERT",
        "DELETE",
        "UPDATE",
        "UPSERT",
        "REPLACE",
        "MERGE",
    ]
}

/// The keywords that start a statement that defines data.
pub open spec fn ddl_words() -> Seq<&'static str> {
    seq![
        "CREATE",
        "CREATE OR REPLACE",
        "ALTER",
        "DROP",
        "TRUNCATE",
    ]
}

/// The keyword that starts a common table expression.
pub open spec fn cte_words() -> Seq<&'static str> {
    seq![
        "WITH",
    ]
}

/// The words that compare: `LIKE` and its kin, with and without `NOT`.
pub open spec fn comparison_words() -> Seq<&'static str> {
    seq![
        "LIKE",
        "ILIKE",
        "RLIKE",
        "REGEXP",
        "NOT LIKE",
        "NOT ILIKE",
        "NOT RLIKE",
        "NOT REGEXP",
    ]
}

/// The names of the built-in types.
pub open spec fn builtin_words() -> Seq<&'static str> {
    seq![
        "ARRAY",
        "BIGINT",
        "BINARY",
        "BIT",
        "BLOB",
        "BOOLEAN",
        "CHAR",
        "CHARACTER",
        "DATE",
        "DEC",
        "DECIMAL",
        "DOUBLE PRECISION",
        "FLOAT",
        "INT",
        "INT8",
        "INTEGER",
        "INTERVAL",
        "LONG",
        "NUMBER",
        "NUMERIC",
        "REAL",
        "ROWID",
        "ROWLABEL",
        "ROWNUM",
        "SERIAL",
        "SERIAL8",
        "SIGNED",
        "SMALLINT",
        "SYSDATE",
        "TEXT",
        "TIMESTAMP",
        "TINYINT",
        "UNSIGNED",
        "VARCHAR",
        "VARCHAR2",
        "VARYING",
    ]
}

/// All other keywords, those of several words with one blank between the words.
pub open spec fn plain_words() -> Seq<&'static str> {
    seq![
        "WHERE",
        "FROM",
        "INNER",
        "JOIN",
        "STRAIGHT_JOIN",
        "AND",
        "OR",
        "ON",
        "IN",
        "SET",
        "BY",
        "GROUP",
        "ORDER",
        "LEFT",
        "OUTER",
        "FULL",
        "RIGHT",
        "CROSS",
        "NATURAL",
        "IF",
        "END",
        "THEN",
        "LOOP",
        "AS",
        "ELSE",
        "FOR",
        "WHILE",
        "CASE",
        "WHEN",
        "MIN",
        "MAX",
        "DISTINCT",
        "GROUP BY",
        "ORDER BY",
        "LEFT JOIN",
        "RIGHT JOIN",
        "FULL JOIN",
        "INNER JOIN",
        "OUTER JOIN",
        "CROSS JOIN",
        "NATURAL JOIN",
        "STRAIGHT JOIN",
        "LEFT OUTER JOIN",
        "RIGHT OUTER JOIN",
        "FULL OUTER JOIN",
        "LEFT INNER JOIN",
        "RIGHT INNER JOIN",
        "FULL INNER JOIN",
        "END IF",
        "END LOOP",
        "END WHILE",
        "END FOR",
        "NOT NULL",
        "NULLS FIRST",
        "NULLS LAST",
        "UNION ALL",
        "HANDLER FOR",
        "ABORT",
        "ABSOLUTE",
        "ACCESS",
        "ACTION",
        "ADD",
        "AFTER",
        "AGGREGATE",
        "ALL",
        "ALLOCATE",
        "ALWAYS",
        "ANALYSE",
        "ANALYZE",
        "ANY",
        "ASC",
        "ASENSITIVE",
        "ASSERTION",
        "ASSIGNMENT",
        "ASYMMETRIC",
        "AT",
        "ATOMIC",
        "AUTHORIZATION",
        "AUTO_INCREMENT",
        "BACKWARD",
        "BEFORE",
        "BEGIN",
        "BETWEEN",
        "BOTH",
        "BREADTH",
        "CACHE",
        "CALL",
        "CALLED",
        "CASCADE",
        "CASCADED",
        "CAST",
        "CATALOG",
        "CHAIN",
        "CHARSET",
        "CHECK",
        "CHECKPOINT",
        "CLOSE",
        "CLUSTER",
        "COALESCE",
        "COLLATE",
        "COLLATION",
        "COLUMN",
        "COLUMNS",
        "COMMENT",
        "COMMIT",
        "COMMITTED",
        "CONCURRENTLY",
        "CONFLICT",
        "CONNECT",
        "CONNECTION",
        "CONSTRAINT",
        "CONSTRAINTS",
        "CONTAINS",
        "CONTINUE",
        "CONVERSION",
        "CONVERT",
        "COPY",
        "CUBE",
        "CURRENT",
        "CURRENT_DATE",
        "CURRENT_TIME",
        "CURRENT_TIMESTAMP",
        "CURRENT_USER",
        "CURSOR",
        "CYCLE",
        "DATABASE",
        "DEALLOCATE",
        "DECLARE",
        "DEFAULT",
        "DEFAULTS",
        "DEFERRABLE",
        "DEFERRED",
        "DEFINER",
        "DELIMITER",
        "DELIMITERS",
        "DESC",
        "DESCRIBE",
        "DETERMINISTIC",
        "DISABLE",
        "DISCONNECT",
        "DIV",
        "DO",
        "DOMAIN",
        "EACH",
        "ENABLE",
        "ENCODING",
        "ENCRYPTED",
        "ENGINE",
        "ESCAPE",
        "EXCEPT",
        "EXCEPTION",
        "EXCLUDING",
        "EXCLUSIVE",
        "EXEC",
        "EXECUTE",
        "EXISTS",
        "EXPLAIN",
        "EXTENSION",
        "EXTERNAL",
        "EXTRACT",
        "FALSE",
        "FETCH",
        "FILTER",
        "FINAL",
        "FIRST",
        "FOLLOWING",
        "FORCE",
        "FOREACH",
        "FOREIGN",
        "FORWARD",
        "FREEZE",
        "FUNCTION",
        "GENERATED",
        "GLOBAL",
        "GOTO",
        "GRANT",
        "GRANTED",
        "GROUPING",
        "HAVING",
        "HOLD",
        "IDENTITY",
        "IGNORE",
        "IMMEDIATE",
        "IMMUTABLE",
        "INCLUDING",
        "INCREMENT",
        "INDEX",
        "INHERITS",
        "INITIALLY",
        "INOUT",
        "INPUT",
        "INSENSITIVE",
        "INSTEAD",
        "INTERSECT",
        "INTO",
        "INVOKER",
        "IS",
        "ISNULL",
        "ISOLATION",
        "ITERATE",
        "KEY",
        "LANGUAGE",
        "LAST",
        "LATERAL",
        "LEADING",
        "LIMIT",
        "LISTEN",
        "LOAD",
        "LOCAL",
        "LOCALTIME",
        "LOCALTIMESTAMP",
        "LOCK",
        "MATCH",
        "MATERIALIZED",
        "MAXVALUE",
        "MINUS",
        "MINVALUE",
        "MOD",
        "MODE",
        "MODIFIES",
        "MODIFY",
        "NO",
        "NOT",
        "NOTHING",
        "NOTIFY",
        "NOTNULL",
        "NOWAIT",
        "NULL",
        "NULLABLE",
        "NULLIF",
        "OF",
        "OFF",
        "OFFSET",
        "OIDS",
        "ONLY",
        "OPEN",
        "OPTION",
        "OPTIONS",
        "OUT",
        "OVER",
        "OVERLAPS",
        "OVERLAY",
        "OVERRIDING",
        "OWNER",
        "PARTIAL",
        "PARTITION",
        "PIVOT",
        "PLACING",
        "PRECEDING",
        "PREPARE",
        "PRESERVE",
        "PRIMARY",
        "PRIOR",
        "PRIVILEGES",
        "PROCEDURAL",
        "PROCEDURE",
        "RANGE",
        "READ",
        "READS",
        "RECHECK",
        "RECURSIVE",
        "REFERENCES",
        "REFERENCING",
        "REINDEX",
        "RELATIVE",
        "RENAME",
        "REPEATABLE",
        "RESET",
        "RESTART",
        "RESTRICT",
        "RETURN",
        "RETURNING",
        "RETURNS",
        "REVOKE",
        "ROLLBACK",
        "ROLLUP",
        "ROUTINE",
        "ROW",
        "ROWS",
        "RULE",
        "SAVEPOINT",
        "SCHEMA",
        "SCROLL",
        "SEARCH",
        "SECURITY",
        "SENSITIVE",
        "SEPARATOR",
        "SEQUENCE",
        "SERIALIZABLE",
        "SESSION",
        "SESSION_USER",
        "SETOF",
        "SETS",
        "SHARE",
        "SHOW",
        "SIMILAR",
        "SOME",
        "STABLE",
        "START",
        "STATEMENT",
        "STATISTICS",
        "STDIN",
        "STDOUT",
        "STORAGE",
        "STRICT",
        "SYMMETRIC",
        "SYSID",
        "SYSTEM",
        "TABLE",
        "TABLESPACE",
        "TEMP",
        "TEMPLATE",
        "TEMPORARY",
        "TERMINATE",
        "THAN",
        "TO",
        "TOP",
        "TRAILING",
        "TRANSACTION",
        "TRIGGER",
        "TRUE",
        "TRUSTED",
        "UNBOUNDED",
        "UNCOMMITTED",
        "UNENCRYPTED",
        "UNION",
        "UNIQUE",
        "UNKNOWN",
        "UNLISTEN",
        "UNLOCK",
        "UNNEST",
        "UNPIVOT",
        "UNTIL",
        "USAGE",
        "USE",
        "USING",
        "VACUUM",
        "VALID",
        "VALIDATOR",
        "VALUES",
        "VARIABLE",
        "VERBOSE",
        "VIEW",
        "VOLATILE",
        "WHENEVER",
        "WINDOW",
        "WITHIN",
        "WITHOUT",
        "WORK",
        "WRITE",
        "ZONE",
    ]
}

fn dml_list() -> (words: Vec<&'static str>)
    ensures
        words@ == dml_words(),
{
    let words = vec![
        "SELECT",
        "INSERT",
        "DELETE",
        "UPDATE",
        "UPSERT",
        "REPLACE",
        "MERGE",
    ];
    assert(words@ =~= dml_words());
    words
}

fn ddl_list() -> (words: Vec<&'static str>)
    ensures
        words@ == ddl_words(),
{
    let words = vec![
        "CREATE",
        "CREATE OR REPLACE",
        "ALTER",
        "DROP",
        "TRUNCATE",
    ];
    assert(words@ =~= ddl_words());
    words
}

fn cte_list() -> (words: Vec<&'static str>)
    ensures
        words@ == cte_words(),
{
    let words = vec![
        "WITH",
    ];
    assert(words@ =~= cte_words());
    words
}

fn comparison_list() -> (words: Vec<&'static str>)
    ensures
        words@ == comparison_words(),
{
    let words = vec![
        "LIKE",
        "ILIKE",
        "RLIKE",
        "REGEXP",
        "NOT LIKE",
        "NOT ILIKE",
        "NOT RLIKE",
        "NOT REGEXP",
    ];
    assert(words@ =~= comparison_words());
    words
}

fn builtin_list() -> (words: Vec<&'static str>)
    ensures
        words@ == builtin_words(),
{
    let words = vec![
        "ARRAY",
        "BIGINT",
        "BINARY",
        "BIT",
        "BLOB",
        "BOOLEAN",
        "CHAR",
        "CHARACTER",
        "DATE",
        "DEC",
        "DECIMAL",
        "DOUBLE PRECISION",
        "FLOAT",
        "INT",
        "INT8",
        "INTEGER",
        "INTERVAL",
        "LONG",
        "NUMBER",
        "NUMERIC",
        "REAL",
        "ROWID",
        "ROWLABEL",
        "ROWNUM",
        "SERIAL",
        "SERIAL8",
        "SIGNED",
        "SMALLINT",
        "SYSDATE",
        "TEXT",
        "TIMESTAMP",
        "TINYINT",
        "UNSIGNED",
        "VARCHAR",
        "VARCHAR2",
        "VARYING",
    ];
    assert(words@ =~= builtin_words());
    words
}

fn plain_list() -> (words: Vec<&'static str>)
    ensures
        words@ == plain_words(),
{
    let words = vec![
        "WHERE",
        "FROM",
        "INNER",
        "JOIN",
        "STRAIGHT_JOIN",
        "AND",
        "OR",
        "ON",
        "IN",
        "SET",
        "BY",
        "GROUP",
        "ORDER",
        "LEFT",
        "OUTER",
        "FULL",
        "RIGHT",
        "CROSS",
        "NATURAL",
        "IF",
        "END",
        "THEN",
        "LOOP",
        "AS",
        "ELSE",
        "FOR",
        "WHILE",
        "CASE",
        "WHEN",
        "MIN",
        "MAX",
        "DISTINCT",
        "GROUP BY",
        "ORDER BY",
        "LEFT JOIN",
        "RIGHT JOIN",
        "FULL JOIN",
        "INNER JOIN",
        "OUTER JOIN",
        "CROSS JOIN",
        "NATURAL JOIN",
        "STRAIGHT JOIN",
        "LEFT OUTER JOIN",
        "RIGHT OUTER JOIN",
        "FULL OUTER JOIN",
        "LEFT INNER JOIN",
        "RIGHT INNER JOIN",
        "FULL INNER JOIN",
        "END IF",
        "END LOOP",
        "END WHILE",
        "END FOR",
        "NOT NULL",
        "NULLS FIRST",
        "NULLS LAST",
        "UNION ALL",
        "HANDLER FOR",
        "ABORT",
        "ABSOLUTE",
        "ACCESS",
        "ACTION",
        "ADD",
        "AFTER",
        "AGGREGATE",
        "ALL",
        "ALLOCATE",
        "ALWAYS",
        "ANALYSE",
        "ANALYZE",
        "ANY",
        "ASC",
        "ASENSITIVE",
        "ASSERTION",
        "ASSIGNMENT",
        "ASYMMETRIC",
        "AT",
        "ATOMIC",
        "AUTHORIZATION",
        "AUTO_INCREMENT",
        "BACKWARD",
        "BEFORE",
        "BEGIN",
        "BETWEEN",
        "BOTH",
        "BREADTH",
        "CACHE",
        "CALL",
        "CALLED",
        "CASCADE",
        "CASCADED",
        "CAST",
        "CATALOG",
        "CHAIN",
        "CHARSET",
        "CHECK",
        "CHECKPOINT",
        "CLOSE",
        "CLUSTER",
        "COALESCE",
        "COLLATE",
        "COLLATION",
        "COLUMN",
        "COLUMNS",
        "COMMENT",
        "COMMIT",
        "COMMITTED",
        "CONCURRENTLY",
        "CONFLICT",
        "CONNECT",
        "CONNECTION",
        "CONSTRAINT",
        "CONSTRAINTS",
        "CONTAINS",
        "CONTINUE",
        "CONVERSION",
        "CONVERT",
        "COPY",
        "CUBE",
        "CURRENT",
        "CURRENT_DATE",
        "CURRENT_TIME",
        "CURRENT_TIMESTAMP",
        "CURRENT_USER",
        "CURSOR",
        "CYCLE",
        "DATABASE",
        "DEALLOCATE",
        "DECLARE",
        "DEFAULT",
        "DEFAULTS",
        "DEFERRABLE",
        "DEFERRED",
        "DEFINER",
        "DELIMITER",
        "DELIMITERS",
        "DESC",
        "DESCRIBE",
        "DETERMINISTIC",
        "DISABLE",
        "DISCONNECT",
        "DIV",
        "DO",
        "DOMAIN",
        "EACH",
        "ENABLE",
        "ENCODING",
        "ENCRYPTED",
        "ENGINE",
        "ESCAPE",
        "EXCEPT",
        "EXCEPTION",
        "EXCLUDING",
        "EXCLUSIVE",
        "EXEC",
        "EXECUTE",
        "EXISTS",
        "EXPLAIN",
        "EXTENSION",
        "EXTERNAL",
        "EXTRACT",
        "FALSE",
        "FETCH",
        "FILTER",
        "FINAL",
        "FIRST",
        "FOLLOWING",
        "FORCE",
        "FOREACH",
        "FOREIGN",
        "FORWARD",
        "FREEZE",
        "FUNCTION",
        "GENERATED",
        "GLOBAL",
        "GOTO",
        "GRANT",
        "GRANTED",
        "GROUPING",
        "HAVING",
        "HOLD",
        "IDENTITY",
        "IGNORE",
        "IMMEDIATE",
        "IMMUTABLE",
        "INCLUDING",
        "INCREMENT",
        "INDEX",
        "INHERITS",
        "INITIALLY",
        "INOUT",
        "INPUT",
        "INSENSITIVE",
        "INSTEAD",
        "INTERSECT",
        "INTO",
        "INVOKER",
        "IS",
        "ISNULL",
        "ISOLATION",
        "ITERATE",
        "KEY",
        "LANGUAGE",
        "LAST",
        "LATERAL",
        "LEADING",
        "LIMIT",
        "LISTEN",
        "LOAD",
        "LOCAL",
        "LOCALTIME",
        "LOCALTIMESTAMP",
        "LOCK",
        "MATCH",
        "MATERIALIZED",
        "MAXVALUE",
        "MINUS",
        "MINVALUE",
        "MOD",
        "MODE",
        "MODIFIES",
        "MODIFY",
        "NO",
        "NOT",
        "NOTHING",
        "NOTIFY",
        "NOTNULL",
        "NOWAIT",
        "NULL",
        "NULLABLE",
        "NULLIF",
        "OF",
        "OFF",
        "OFFSET",
        "OIDS",
        "ONLY",
        "OPEN",
        "OPTION",
        "OPTIONS",
        "OUT",
        "OVER",
        "OVERLAPS",
        "OVERLAY",
        "OVERRIDING",
        "OWNER",
        "PARTIAL",
        "PARTITION",
        "PIVOT",
        "PLACING",
        "PRECEDING",
        "PREPARE",
        "PRESERVE",
        "PRIMARY",
        "PRIOR",
        "PRIVILEGES",
        "PROCEDURAL",
        "PROCEDURE",
        "RANGE",
        "READ",
        "READS",
        "RECHECK",
        "RECURSIVE",
        "REFERENCES",
        "REFERENCING",
        "REINDEX",
        "RELATIVE",
        "RENAME",
        "REPEATABLE",
        "RESET",
        "RESTART",
        "RESTRICT",
        "RETURN",
        "RETURNING",
        "RETURNS",
        "REVOKE",
        "ROLLBACK",
        "ROLLUP",
        "ROUTINE",
        "ROW",
        "ROWS",
        "RULE",
        "SAVEPOINT",
        "SCHEMA",
        "SCROLL",
        "SEARCH",
        "SECURITY",
        "SENSITIVE",
        "SEPARATOR",
        "SEQUENCE",
        "SERIALIZABLE",
        "SESSION",
        "SESSION_USER",
        "SETOF",
        "SETS",
        "SHARE",
        "SHOW",
        "SIMILAR",
        "SOME",
        "STABLE",
        "START",
        "STATEMENT",
        "STATISTICS",
        "STDIN",
        "STDOUT",
        "STORAGE",
        "STRICT",
        "SYMMETRIC",
        "SYSID",
        "SYSTEM",
        "TABLE",
        "TABLESPACE",
        "TEMP",
        "TEMPLATE",
        "TEMPORARY",
        "TERMINATE",
        "THAN",
        "TO",
        "TOP",
        "TRAILING",
        "TRANSACTION",
        "TRIGGER",
        "TRUE",
        "TRUSTED",
        "UNBOUNDED",
        "UNCOMMITTED",
        "UNENCRYPTED",
        "UNION",
        "UNIQUE",
        "UNKNOWN",
        "UNLISTEN",
        "UNLOCK",
        "UNNEST",
        "UNPIVOT",
        "UNTIL",
        "USAGE",
        "USE",
        "USING",
        "VACUUM",
        "VALID",
        "VALIDATOR",
        "VALUES",
        "VARIABLE",
        "VERBOSE",
        "VIEW",
        "VOLATILE",
        "WHENEVER",
        "WINDOW",
        "WITHIN",
        "WITHOUT",
        "WORK",
        "WRITE",
        "ZONE",
    ];
    assert(words@ =~= plain_words());
    words
}

/// The keys and kinds of `m`, and the first `n` of `words` as keys of kind
/// `kind`.
pub open spec fn with_words(
    m: Map<Seq<char>, Option<TokenType>>,
    words: Seq<&'static str>,
    kind: TokenType,
    n: nat,
) -> Map<Seq<char>, Option<TokenType>>
    decreases n,
{
    if n == 0 || n > words.len() {
        m
    } else {
        with_words(m, words, kind, (n - 1) as nat).insert(words[n - 1]@, Some(kind))
    }
}

/// Whether `p` is a prefix of one of `words`.
pub open spec fn starts_word(p: Seq<char>, words: Seq<&'static str>) -> bool {
    exists|i: int| 0 <= i < words.len() && is_prefix_of(p, #[trigger] words[i]@)
}

/// The keyword table as a map: each word with its kind.
pub open spec fn keyword_map() -> Map<Seq<char>, Option<TokenType>> {
    let dml = with_words(Map::empty(), dml_words(), TokenType::KeywordDML, dml_words().len());
    let ddl = with_words(dml, ddl_words(), TokenType::KeywordDDL, ddl_words().len());
    let cte = with_words(ddl, cte_words(), TokenType::KeywordCTE, cte_words().len());
    let comparison = with_words(
        cte,
        comparison_words(),
        TokenType::OperatorComparison,
        comparison_words().len(),
    );
    let builtin = with_words(
        comparison,
        builtin_words(),
        TokenType::NameBuiltin,
        builtin_words().len(),
    );
    with_words(builtin, plain_words(), TokenType::Keyword, plain_words().len())
}

/// Whether `p` is a prefix of a word of the keyword table.
pub open spec fn is_keyword_prefix(p: Seq<char>) -> bool {
    p.len() == 0 || starts_word(p, dml_words()) || starts_word(p, ddl_words()) || starts_word(
        p,
        cte_words(),
    ) || starts_word(p, comparison_words()) || starts_word(p, builtin_words()) || starts_word(
        p,
        plain_words(),
    )
}

/// `trie` is the keyword table: its keys and payloads are those of
/// `keyword_map`, and its paths are the prefixes of the keywords.
pub open spec fn is_keyword_table(trie: &Trie<TokenType>) -> bool {
    &&& trie.wf()
    &&& trie@ == keyword_map()
    &&& forall|p: Seq<char>| #[trigger] trie.reaches(p) <==> is_keyword_prefix(p)
}

/// The keyword table of a pipeline, built once.
pub struct KeywordTable {
    trie: Trie<TokenType>,
}

impl KeywordTable {
    #[verifier::type_invariant]
    spec fn holds_table(self) -> bool {
        is_keyword_table(&self.trie)
    }

    /// The prefix tree of the table.
    pub closed spec fn tree(&self) -> Trie<TokenType> {
        self.trie
    }

    pub fn new() -> (table: Self)
        ensures
            is_keyword_table(&table.tree()),
    {
        KeywordTable { trie: init_trie() }
    }

    /// The prefix tree of the table.
    pub fn trie(&self) -> (trie: &Trie<TokenType>)
        ensures
            *trie == self.tree(),
            is_keyword_table(trie),
    {
        proof {
            use_type_invariant(self);
        }
        &self.trie
    }
}

/// Makes each of `words` a key of the tree, with the payload `kind`.
fn add_words(trie: &mut Trie<TokenType>, words: Vec<&'static str>, kind: TokenType)
    requires
        old(trie).wf(),
    ensures
        final(trie).wf(),
        final(trie)@ == with_words(old(trie)@, words@, kind, words@.len()),
        forall|p: Seq<char>|
            #[trigger] final(trie).reaches(p) <==> old(trie).reaches(p) || starts_word(p, words@),
{
    let mut i: usize = 0;
    while i < words.len()
        invariant
            i <= words@.len(),
            trie.wf(),
            trie@ == with_words(old(trie)@, words@, kind, i as nat),
            forall|p: Seq<char>|
                #[trigger] trie.reaches(p) <==> old(trie).reaches(p) || starts_word(
                    p,
                    words@.subrange(0, i as int),
                ),
        decreases words@.len() - i,
    {
        let ghost before = *trie;
        trie.insert(words[i], kind);
        proof {
            let done = words@.subrange(0, i as int);
            let next = words@.subrange(0, i + 1);
            assert forall|p: Seq<char>| #[trigger]
                trie.reaches(p) <==> old(trie).reaches(p) || starts_word(p, next) by {
                if starts_word(p, done) {
                    let k = choose|k: int| 0 <= k < done.len() && is_prefix_of(p, #[trigger] done[k]@);
                    assert(next[k] == done[k]);
                }
                if is_prefix_of(p, words@[i as int]@) {
                    assert(next[i as int] == words@[i as int]);
                }
                if starts_word(p, next) {
                    let k = choose|k: int| 0 <= k < next.len() && is_prefix_of(p, #[trigger] next[k]@);
                    if k < i {
                        assert(done[k] == next[k]);
                    }
                }
                assert(before.reaches(p) <==> old(trie).reaches(p) || starts_word(p, done));
            }
        }
        i += 1;
    }
    proof {
        assert(words@.subrange(0, words@.len() as int) =~= words@);
    }
}

/// The keyword table: SQL keywords in upper case, those of several words
/// with one blank between the words, each with its kind.
pub fn init_trie() -> (trie: Trie<TokenType>)
    ensures
        is_keyword_table(&trie),
{
    let mut trie: Trie<TokenType> = Trie::new();
    let ghost empty = trie;
    add_words(&mut trie, dml_list(), TokenType::KeywordDML);
    let ghost dml = trie;
    add_words(&mut trie, ddl_list(), TokenType::KeywordDDL);
    let ghost ddl = trie;
    add_words(&mut trie, cte_list(), TokenType::KeywordCTE);
    let ghost cte = trie;
    add_words(&mut trie, comparison_list(), TokenType::OperatorComparison);
    let ghost comparison = trie;
    add_words(&mut trie, builtin_list(), TokenType::NameBuiltin);
    let ghost builtin = trie;
    add_words(&mut trie, plain_list(), TokenType::Keyword);
    proof {
        assert forall|p: Seq<char>| #[trigger] trie.reaches(p) <==> is_keyword_prefix(p) by {
            assert(empty.reaches(p) <==> p == Seq::<char>::empty());
            assert(p.len() == 0 <==> p =~= Seq::<char>::empty());
            assert(dml.reaches(p) <==> empty.reaches(p) || starts_word(p, dml_words()));
            assert(ddl.reaches(p) <==> dml.reaches(p) || starts_word(p, ddl_words()));
            assert(cte.reaches(p) <==> ddl.reaches(p) || starts_word(p, cte_words()));
            assert(comparison.reaches(p) <==> cte.reaches(p) || starts_word(
                p,
                comparison_words(),
            ));
            assert(builtin.reaches(p) <==> comparison.reaches(p) || starts_word(
                p,
                builtin_words(),
            ));
            assert(trie.reaches(p) <==> builtin.reaches(p) || starts_word(p, plain_words()));
        }
    }
    trie
}

} // verus!
