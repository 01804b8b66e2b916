//! Splits a flat token list into one list per SQL statement.

use crate::text::{is_prefix_of, starts_with, str_eq, to_upper, uppercase_of};
use crate::tokens::{is_keyword_type, Token, TokenType};
use vstd::prelude::*;

verus! {

/// The state of the splitter between two tokens.
pub ghost struct SplitState {
    pub in_declare: bool,
    pub is_create: bool,
    pub consume_ws: bool,
    pub begin_depth: nat,
    pub level: int,
}

/// The state at the start of a statement.
pub open spec fn initial_state() -> SplitState {
    SplitState { in_declare: false, is_create: false, consume_ws: false, begin_depth: 0, level: 0 }
}

/// The kinds that may follow the `;` of a statement and still belong to it.
pub open spec fn is_eos_type(t: TokenType) -> bool {
    t == TokenType::Whitespace || t == TokenType::CommentSingle
}

/// Whether a token of kind `typ` with value `value` is the punctuation `p`.
pub open spec fn is_punctuation(typ: TokenType, value: Seq<char>, p: Seq<char>) -> bool {
    typ == TokenType::Punctuation && value == p
}

/// `x`, or the nearest bound of the machine's signed word if `x` lies
/// outside it.
pub open spec fn clip(x: int) -> int {
    if x < isize::MIN {
        isize::MIN as int
    } else if x > isize::MAX {
        isize::MAX as int
    } else {
        x
    }
}

/// By how much a token changes the nesting level, and the state after it
/// (its level and `consume_ws` are those of `st`). The depth of `BEGIN`
/// blocks stops at the largest machine word.
pub open spec fn level_change(st: SplitState, typ: TokenType, value: Seq<char>) -> (
    int,
    SplitState,
) {
    let unified = uppercase_of(value);
    if is_punctuation(typ, value, "("@) {
        (1, st)
    } else if is_punctuation(typ, value, ")"@) {
        (-1, st)
    } else if !is_keyword_type(typ) {
        (0, st)
    } else if typ == TokenType::KeywordDDL && is_prefix_of("CREATE"@, unified) {
        (0, SplitState { is_create: true, ..st })
    } else if unified == "DECLARE"@ && st.is_create && st.begin_depth == 0 {
        (1, SplitState { in_declare: true, ..st })
    } else if unified == "BEGIN"@ {
        (
            if st.is_create {
                1
            } else {
                0
            },
            SplitState {
                begin_depth: if st.begin_depth < usize::MAX {
                    st.begin_depth + 1
                } else {
                    st.begin_depth
                },
                ..st
            },
        )
    } else if unified == "END"@ {
        (
            -1,
            SplitState {
                begin_depth: if st.begin_depth > 1 {
                    (st.begin_depth - 1) as nat
                } else {
                    0
                },
                ..st
            },
        )
    } else if (unified == "IF"@ || unified == "FOR"@ || unified == "WHILE"@ || unified == "CASE"@)
        && st.is_create && st.begin_depth > 0 {
        (1, st)
    } else if unified == "END IF"@ || unified == "END FOR"@ || unified == "END WHILE"@ {
        (-1, st)
    } else {
        (0, st)
    }
}

/// What the splitter has done after some tokens: the statements it has
/// closed, the tokens of the statement it is in, and its state.
pub ghost struct SplitRun {
    pub stmts: Seq<Seq<Token>>,
    pub buffer: Seq<Token>,
    pub state: SplitState,
}

/// One token more. If the last statement ended and the token cannot belong
/// to it, the buffer becomes a statement and the state starts afresh. The
/// token then changes the level, which stays within the machine's signed
/// word, a `;` at level 0 or below ends the statement, and the token joins
/// the buffer.
pub open spec fn split_step(run: SplitRun, token: Token) -> SplitRun {
    let flush = run.state.consume_ws && !is_eos_type(token.typ);
    let stmts = if flush {
        run.stmts.push(run.buffer)
    } else {
        run.stmts
    };
    let buffer = if flush {
        Seq::<Token>::empty()
    } else {
        run.buffer
    };
    let st = if flush {
        initial_state()
    } else {
        run.state
    };
    let (delta, after) = level_change(st, token.typ, token.value@);
    let level = clip(st.level + delta);
    let ends = level <= 0 && is_punctuation(token.typ, token.value@, ";"@);
    SplitRun {
        stmts,
        buffer: buffer.push(token),
        state: SplitState { level, consume_ws: st.consume_ws || ends, ..after },
    }
}

/// The splitter after the first `n` of `tokens`, started in `init`.
pub open spec fn split_run(init: SplitState, tokens: Seq<Token>, n: nat) -> SplitRun
    decreases n,
{
    if n == 0 {
        SplitRun { stmts: Seq::empty(), buffer: Seq::empty(), state: init }
    } else {
        split_step(split_run(init, tokens, (n - 1) as nat), tokens[n - 1])
    }
}

/// Whether some token of `tokens` is not of kind `Whitespace`.
pub open spec fn has_content(tokens: Seq<Token>) -> bool {
    exists|i: int| 0 <= i < tokens.len() && (#[trigger] tokens[i]).typ != TokenType::Whitespace
}

/// The statements of `tokens`: those that the splitter closed, and the rest
/// as a last one if it holds anything but `Whitespace` tokens.
pub open spec fn split_statements(init: SplitState, tokens: Seq<Token>) -> Seq<Seq<Token>> {
    let run = split_run(init, tokens, tokens.len());
    if has_content(run.buffer) {
        run.stmts.push(run.buffer)
    } else {
        run.stmts
    }
}

/// The tokens that belong to no statement: what follows the last closed
/// statement, if it holds nothing but `Whitespace` tokens.
pub open spec fn trailing_blank(init: SplitState, tokens: Seq<Token>) -> Seq<Token> {
    let run = split_run(init, tokens, tokens.len());
    if has_content(run.buffer) {
        Seq::<Token>::empty()
    } else {
        run.buffer
    }
}

/// The statements laid end to end.
pub open spec fn concat_all(stmts: Seq<Seq<Token>>) -> Seq<Token>
    decreases stmts.len(),
{
    if stmts.len() == 0 {
        Seq::<Token>::empty()
    } else {
        concat_all(stmts.drop_last()) + stmts.last()
    }
}

proof fn lemma_concat_all_push(stmts: Seq<Seq<Token>>, last: Seq<Token>)
    ensures
        concat_all(stmts.push(last)) == concat_all(stmts) + last,
{
    assert(stmts.push(last).drop_last() == stmts);
}

/// After `n` tokens, the closed statements followed by the buffer are the
/// first `n` tokens.
proof fn lemma_run_covers(init: SplitState, tokens: Seq<Token>, n: nat)
    requires
        n <= tokens.len(),
    ensures
        concat_all(split_run(init, tokens, n).stmts) + split_run(init, tokens, n).buffer
            == tokens.subrange(0, n as int),
    decreases n,
{
    if n > 0 {
        let prev = split_run(init, tokens, (n - 1) as nat);
        let token = tokens[n - 1];
        lemma_run_covers(init, tokens, (n - 1) as nat);
        lemma_concat_all_push(prev.stmts, prev.buffer);
        let run = split_step(prev, token);
        assert(tokens.subrange(0, n as int) == tokens.subrange(0, n - 1).push(token));
        assert(concat_all(run.stmts) + run.buffer == (concat_all(prev.stmts) + prev.buffer).push(
            token,
        ));
    } else {
        assert(concat_all(Seq::<Seq<Token>>::empty()) + Seq::<Token>::empty()
            == tokens.subrange(0, 0));
    }
}

/// The splitter neither loses a token nor makes one up nor changes their
/// order: the statements laid end to end, followed by the tokens that belong
/// to no statement, are the input; and those tokens are all of kind
/// `Whitespace`.
pub proof fn lemma_split_coverage(init: SplitState, tokens: Seq<Token>)
    ensures
        concat_all(split_statements(init, tokens)) + trailing_blank(init, tokens) == tokens,
        forall|i: int|
            0 <= i < trailing_blank(init, tokens).len() ==> (#[trigger] trailing_blank(
                init,
                tokens,
            )[i]).typ == TokenType::Whitespace,
{
    let run = split_run(init, tokens, tokens.len());
    lemma_run_covers(init, tokens, tokens.len());
    lemma_concat_all_push(run.stmts, run.buffer);
    assert(tokens.subrange(0, tokens.len() as int) == tokens);
}

/// Once the splitter has closed a statement, the statement it is in holds a
/// token that is not of kind `Whitespace`.
pub proof fn lemma_run_content(init: SplitState, tokens: Seq<Token>, n: nat)
    requires
        n <= tokens.len(),
    ensures
        split_run(init, tokens, n).stmts.len() > 0 ==> has_content(
            split_run(init, tokens, n).buffer,
        ),
    decreases n,
{
    if n > 0 {
        let prev = split_run(init, tokens, (n - 1) as nat);
        let token = tokens[n - 1];
        let run = split_step(prev, token);
        lemma_run_content(init, tokens, (n - 1) as nat);
        if prev.state.consume_ws && !is_eos_type(token.typ) {
            assert(run.buffer[0] == token);
        } else if prev.stmts.len() > 0 {
            let i = choose|i: int|
                0 <= i < prev.buffer.len() && (#[trigger] prev.buffer[i]).typ
                    != TokenType::Whitespace;
            assert(run.buffer[i] == prev.buffer[i]);
        }
    }
}

/// Where the input holds a token that is not of kind `Whitespace`, every
/// token belongs to a statement: the statements laid end to end are the
/// input. Where it holds none, there is no statement.
pub proof fn lemma_split_all_or_nothing(init: SplitState, tokens: Seq<Token>)
    ensures
        has_content(tokens) ==> concat_all(split_statements(init, tokens)) == tokens,
        !has_content(tokens) ==> !has_content(split_run(init, tokens, tokens.len()).buffer),
        !has_content(split_run(init, tokens, tokens.len()).buffer) ==> split_statements(
            init,
            tokens,
        ).len() == 0 && forall|i: int|
            0 <= i < tokens.len() ==> (#[trigger] tokens[i]).typ == TokenType::Whitespace,
{
    let run = split_run(init, tokens, tokens.len());
    lemma_split_coverage(init, tokens);
    lemma_run_content(init, tokens, tokens.len());
    lemma_run_covers(init, tokens, tokens.len());
    assert(tokens.subrange(0, tokens.len() as int) == tokens);
    if !has_content(run.buffer) {
        assert(run.stmts.len() == 0);
        assert(concat_all(run.stmts) == Seq::<Token>::empty());
        assert(run.buffer == tokens);
    } else {
        assert(concat_all(split_statements(init, tokens)) == tokens);
        let i = choose|i: int|
            0 <= i < run.buffer.len() && (#[trigger] run.buffer[i]).typ != TokenType::Whitespace;
        let k = concat_all(run.stmts).len() + i;
        assert((concat_all(run.stmts) + run.buffer)[k] == run.buffer[i]);
        assert(tokens[k].typ != TokenType::Whitespace);
    }
}

/// Cuts a token stream into statements at each `;` that stands outside
/// parentheses and outside the body of a `CREATE ... BEGIN ... END` block.
pub struct StatementSplitter {
    in_declare: bool,
    is_create: bool,
    consume_ws: bool,
    begin_depth: usize,
    level: isize,
}

impl View for StatementSplitter {
    type V = SplitState;

    closed spec fn view(&self) -> SplitState {
        SplitState {
            in_declare: self.in_declare,
            is_create: self.is_create,
            consume_ws: self.consume_ws,
            begin_depth: self.begin_depth as nat,
            level: self.level as int,
        }
    }
}

impl Default for StatementSplitter {
    fn default() -> (s: Self)
        ensures
            s@ == initial_state(),
    {
        StatementSplitter {
            in_declare: false,
            is_create: false,
            consume_ws: false,
            begin_depth: 0,
            level: 0,
        }
    }
}

impl StatementSplitter {
    /// Sets the splitter back to the start of a statement.
    pub fn reset(&mut self)
        ensures
            final(self)@ == initial_state(),
    {
        self.in_declare = false;
        self.is_create = false;
        self.consume_ws = false;
        self.begin_depth = 0;
        self.level = 0;
    }

    fn is_create(&self) -> (r: bool)
        ensures
            r == self@.is_create,
    {
        self.is_create
    }

    fn begin_depth(&self) -> (r: usize)
        ensures
            r == self@.begin_depth,
    {
        self.begin_depth
    }

    /// By how much `token` changes the nesting level; the flags and the
    /// depth of `BEGIN` blocks follow the token.
    fn change_splitlevel(&mut self, token: &Token) -> (delta: isize)
        ensures
            delta == level_change(old(self)@, token.typ, token.value@).0,
            final(self)@ == level_change(old(self)@, token.typ, token.value@).1,
            -1 <= delta <= 1,
    {
        if token.typ == TokenType::Punctuation && str_eq(token.value.as_str(), "(") {
            return 1;
        } else if token.typ == TokenType::Punctuation && str_eq(token.value.as_str(), ")") {
            return -1;
        } else if !token.is_keyword() {
            return 0;
        }
        let unified = to_upper(token.value.as_str());
        let unified = unified.as_str();
        if token.typ == TokenType::KeywordDDL && starts_with(unified, "CREATE") {
            self.is_create = true;
            return 0;
        }
        if str_eq(unified, "DECLARE") && self.is_create() && self.begin_depth() == 0 {
            self.in_declare = true;
            return 1;
        }
        if str_eq(unified, "BEGIN") {
            if self.begin_depth < usize::MAX {
                self.begin_depth = self.begin_depth + 1;
            }
            if self.is_create() {
                return 1;
            }
            return 0;
        }
        if str_eq(unified, "END") {
            self.begin_depth = if self.begin_depth() > 1 {
                self.begin_depth() - 1
            } else {
                0
            };
            return -1;
        }
        if (str_eq(unified, "IF") || str_eq(unified, "FOR") || str_eq(unified, "WHILE") || str_eq(
            unified,
            "CASE",
        )) && self.is_create() && self.begin_depth() > 0 {
            return 1;
        }
        if str_eq(unified, "END IF") || str_eq(unified, "END FOR") || str_eq(
            unified,
            "END WHILE",
        ) {
            return -1;
        }
        0
    }

    /// Cuts `tokens` into statements, starting in the state the splitter is
    /// in, and leaves the splitter in the state after the last token.
    pub fn process(&mut self, tokens: Vec<Token>) -> (stmts: Vec<Vec<Token>>)
        ensures
            statements_view(stmts@) == split_statements(old(self)@, tokens@),
            final(self)@ == split_run(old(self)@, tokens@, tokens@.len()).state,
    {
        let mut stmts: Vec<Vec<Token>> = Vec::new();
        let mut tmp_tokens: Vec<Token> = Vec::new();
        let ghost init = self@;
        let ghost all = tokens@;
        for token in it: tokens
            invariant
                it.seq() == all,
                statements_view(stmts@) == split_run(init, all, it.index() as nat).stmts,
                tmp_tokens@ == split_run(init, all, it.index() as nat).buffer,
                self@ == split_run(init, all, it.index() as nat).state,
        {
            if self.consume_ws && !(token.typ == TokenType::Whitespace || token.typ
                == TokenType::CommentSingle) {
                let mut stmt_tokens: Vec<Token> = Vec::new();
                std::mem::swap(&mut tmp_tokens, &mut stmt_tokens);
                proof {
                    assert(statements_view(stmts@.push(stmt_tokens)) == statements_view(
                        stmts@,
                    ).push(stmt_tokens@));
                }
                stmts.push(stmt_tokens);
                self.reset();
            }
            let delta = self.change_splitlevel(&token);
            self.level = if delta == 1 {
                if self.level < isize::MAX {
                    self.level + 1
                } else {
                    self.level
                }
            } else if delta == -1 {
                if self.level > isize::MIN {
                    self.level - 1
                } else {
                    self.level
                }
            } else {
                self.level
            };
            if self.level <= 0 && token.typ == TokenType::Punctuation && str_eq(
                token.value.as_str(),
                ";",
            ) {
                self.consume_ws = true;
            }
            tmp_tokens.push(token);
        }
        if has_non_whitespace(&tmp_tokens) {
            proof {
                assert(statements_view(stmts@.push(tmp_tokens)) == statements_view(stmts@).push(
                    tmp_tokens@,
                ));
            }
            stmts.push(tmp_tokens);
        }
        stmts
    }
}

/// The statements as sequences of tokens.
pub open spec fn statements_view(stmts: Seq<Vec<Token>>) -> Seq<Seq<Token>> {
    stmts.map_values(|v: Vec<Token>| v@)
}

/// Whether some token of `tokens` is not of kind `Whitespace`.
pub fn has_non_whitespace(tokens: &Vec<Token>) -> (r: bool)
    ensures
        r == has_content(tokens@),
{
    let mut i: usize = 0;
    while i < tokens.len()
        invariant
            i <= tokens@.len(),
            forall|j: int| 0 <= j < i ==> (#[trigger] tokens@[j]).typ == TokenType::Whitespace,
        decreases tokens@.len() - i,
    {
        if tokens[i].typ != TokenType::Whitespace {
            return true;
        }
        i += 1;
    }
    false
}

} // verus!
