//! The filter stack: the lexer, the splitter, the grouper and the filters,
//! run in their fixed order.

use crate::engine::grouping::group;
use crate::engine::passes::grouped;
use crate::engine::splitter::{
    concat_all, has_content, initial_state, lemma_split_all_or_nothing, split_run,
    split_statements, statements_view, StatementSplitter,
};
use crate::content::{content, lemma_view_content, reshaped, view_content, Leaf};
use crate::filters::{
    filtered_value, list_filtered, stmt_filtered, Filter, FilterView, StmtFilter, StmtFilterView,
    TokenListFilter, TokenListFilterView,
};
use crate::formatter::{filter_views, stmt_filter_views, tlist_filter_views};
use crate::keywords::{is_keyword_table, KeywordTable};
use crate::tokens::TokenList;
use crate::lexer::{is_blank, is_lexed, lexed, tokenize};
use crate::trie::Trie;
use crate::tokens::{
    all_wf, joined_text, lemma_joined_text_concat, regrouped, views, Token, TokenType, TokenView,
};
use vstd::prelude::*;

verus! {

/// The text of the statements, one after the other.
pub open spec fn statements_text(stmts: Seq<Seq<Token>>) -> Seq<char>
    decreases stmts.len(),
{
    if stmts.len() == 0 {
        Seq::<char>::empty()
    } else {
        statements_text(stmts.drop_last()) + joined_text(stmts.last())
    }
}

/// Every token of every statement is well formed.
pub open spec fn statements_wf(stmts: Seq<Vec<Token>>) -> bool {
    forall|i: int| 0 <= i < stmts.len() ==> all_wf((#[trigger] stmts[i])@)
}

/// The text of the statements is the text of their tokens laid end to end.
pub proof fn lemma_statements_text(stmts: Seq<Seq<Token>>)
    ensures
        statements_text(stmts) == joined_text(concat_all(stmts)),
    decreases stmts.len(),
{
    if stmts.len() > 0 {
        lemma_statements_text(stmts.drop_last());
        lemma_joined_text_concat(concat_all(stmts.drop_last()), stmts.last());
    }
}

/// Statements that have the same text one by one have the same text.
pub proof fn lemma_statements_text_same(a: Seq<Seq<Token>>, b: Seq<Seq<Token>>)
    requires
        a.len() == b.len(),
        forall|i: int| 0 <= i < a.len() ==> joined_text(#[trigger] a[i]) == joined_text(b[i]),
    ensures
        statements_text(a) == statements_text(b),
    decreases a.len(),
{
    if a.len() > 0 {
        assert(joined_text(a[a.len() - 1]) == joined_text(b[a.len() - 1]));
        assert forall|i: int| 0 <= i < a.drop_last().len() implies joined_text(
            #[trigger] a.drop_last()[i],
        ) == joined_text(b.drop_last()[i]) by {
            assert(a.drop_last()[i] == a[i]);
            assert(b.drop_last()[i] == b[i]);
        }
        lemma_statements_text_same(a.drop_last(), b.drop_last());
    }
}

/// Tokens from the lexer are well formed.
pub proof fn lemma_lexed_wf(tokens: Seq<Token>)
    requires
        is_lexed(tokens),
    ensures
        all_wf(tokens),
{
    assert forall|i: int| 0 <= i < tokens.len() implies (#[trigger] tokens[i]).wf() by {}
}

/// The text of tokens from the lexer that are all of kind `Whitespace` is
/// blank.
pub proof fn lemma_blank_text(tokens: Seq<Token>)
    requires
        is_lexed(tokens),
        !has_content(tokens),
    ensures
        is_blank(joined_text(tokens)),
    decreases tokens.len(),
{
    if tokens.len() > 0 {
        let front = tokens.drop_last();
        assert forall|i: int| 0 <= i < front.len() implies {
            &&& (#[trigger] front[i]).children@.len() == 0
            &&& !crate::tokens::is_group_type(front[i].typ)
            &&& front[i].value@.len() > 0
            &&& front[i].typ == TokenType::Whitespace ==> is_blank(front[i].value@)
        } by {
            assert(front[i] == tokens[i]);
        }
        if has_content(front) {
            let i = choose|i: int|
                0 <= i < front.len() && (#[trigger] front[i]).typ != TokenType::Whitespace;
            assert(tokens[i] == front[i]);
        }
        lemma_blank_text(front);
        let last = tokens.last();
        assert(tokens[tokens.len() - 1] == last);
        assert(last.typ == TokenType::Whitespace);
        let text = joined_text(tokens);
        assert forall|k: int| 0 <= k < text.len() implies crate::lexer::is_space(
            #[trigger] text[k],
        ) by {
            if k < joined_text(front).len() {
                assert(text[k] == joined_text(front)[k]);
            } else {
                assert(text[k] == last.value@[k - joined_text(front).len()]);
            }
        }
    }
}

/// The splitter and the filters of a stack, stage by stage.
pub ghost struct StackView {
    pub splitter: crate::engine::splitter::SplitState,
    pub preprocess: Seq<FilterView>,
    pub stmtprocess: Seq<StmtFilterView>,
    pub tlistprocess: Seq<TokenListFilterView>,
    pub postprocess: Seq<StmtFilterView>,
}

/// What the first `n` of the filters of flat statements, one after the
/// other, make of the statement `s`.
pub open spec fn stmts_filtered(filters: Seq<StmtFilterView>, s: Seq<TokenView>, n: int) -> Seq<
    TokenView,
>
    decreases n,
{
    if n <= 0 || n > filters.len() {
        s
    } else {
        stmt_filtered(filters[n - 1], stmts_filtered(filters, s, n - 1))
    }
}

/// What the first `n` of the filters of statement trees, one after the
/// other, make of the statement `s`, and the filters after it.
pub open spec fn lists_filtered(filters: Seq<TokenListFilterView>, s: Seq<TokenView>, n: int) -> (
    Seq<TokenListFilterView>,
    Seq<TokenView>,
)
    decreases n,
{
    if n <= 0 || n > filters.len() {
        (filters, s)
    } else {
        let front = lists_filtered(filters, s, n - 1);
        let step = list_filtered(front.0[n - 1], front.1);
        (front.0.update(n - 1, step.0), step.1)
    }
}

/// What the stack makes of one statement, and its filters of statement
/// trees after it: the statement is grouped, if `grouping` is set, and goes
/// through the filters of flat statements, the filters of statement trees
/// and the last filters of flat statements.
pub open spec fn statement_done(stack: StackView, s: Seq<TokenView>, grouping: bool) -> (
    Seq<TokenListFilterView>,
    Seq<TokenView>,
) {
    let tree = if grouping {
        grouped(s)
    } else {
        s
    };
    let flat = stmts_filtered(stack.stmtprocess, tree, stack.stmtprocess.len() as int);
    let shaped = lists_filtered(stack.tlistprocess, flat, stack.tlistprocess.len() as int);
    (shaped.0, stmts_filtered(stack.postprocess, shaped.1, stack.postprocess.len() as int))
}

/// What the stack makes of the first `n` of the statements `parts`, one
/// after the other, and its filters of statement trees after them.
pub open spec fn statements_done(
    stack: StackView,
    parts: Seq<Seq<TokenView>>,
    grouping: bool,
    n: int,
) -> (Seq<TokenListFilterView>, Seq<Seq<TokenView>>)
    decreases n,
{
    if n <= 0 || n > parts.len() {
        (stack.tlistprocess, Seq::empty())
    } else {
        let front = statements_done(stack, parts, grouping, n - 1);
        let step = statement_done(
            StackView { tlistprocess: front.0, ..stack },
            parts[n - 1],
            grouping,
        );
        (step.0, front.1.push(step.1))
    }
}

/// A stack without filters, with the splitter at the start of a statement.
pub open spec fn empty_stack() -> StackView {
    StackView {
        splitter: initial_state(),
        preprocess: Seq::empty(),
        stmtprocess: Seq::empty(),
        tlistprocess: Seq::empty(),
        postprocess: Seq::empty(),
    }
}

/// The statements as values.
pub open spec fn part_views(parts: Seq<Seq<Token>>) -> Seq<Seq<TokenView>> {
    Seq::new(parts.len(), |i: int| views(parts[i]))
}

/// The pipeline: keyword table, splitter, and the filters of the four
/// stages in the order in which they were added.
pub struct FilterStack {
    pub table: KeywordTable,
    pub spliter: StatementSplitter,
    pub preprocess: Vec<Filter>,
    pub stmtprocess: Vec<StmtFilter>,
    pub tlistprocess: Vec<TokenListFilter>,
    pub postprocess: Vec<StmtFilter>,
}

impl View for FilterStack {
    type V = StackView;

    /// The splitter and the filters of the stack.
    open spec fn view(&self) -> StackView {
        StackView {
            splitter: self.spliter@,
            preprocess: filter_views(self.preprocess@),
            stmtprocess: stmt_filter_views(self.stmtprocess@),
            tlistprocess: tlist_filter_views(self.tlistprocess@),
            postprocess: stmt_filter_views(self.postprocess@),
        }
    }
}

impl FilterStack {
    /// A stack with the keyword table, a splitter at the start of a
    /// statement, and no filter.
    pub fn new() -> (stack: Self)
        ensures
            is_keyword_table(&stack.table.tree()),
            stack@ == empty_stack(),
    {
        let stack = FilterStack {
            table: KeywordTable::new(),
            spliter: StatementSplitter::default(),
            preprocess: Vec::new(),
            stmtprocess: Vec::new(),
            postprocess: Vec::new(),
            tlistprocess: Vec::new(),
        };
        proof {
            assert(stack@.preprocess =~= Seq::<FilterView>::empty());
            assert(stack@.stmtprocess =~= Seq::<StmtFilterView>::empty());
            assert(stack@.tlistprocess =~= Seq::<TokenListFilterView>::empty());
            assert(stack@.postprocess =~= Seq::<StmtFilterView>::empty());
        }
        stack
    }

    /// The tokens that the lexer makes of `sql`, grouped if `grouping` is
    /// set. Their text is `sql`, and they say what the tokens of the lexer
    /// say.
    pub fn run(&self, sql: &str, grouping: bool) -> (tokens: Vec<Token>)
        ensures
            all_wf(tokens@),
            joined_text(tokens@) == sql@,
            content(tokens@) == view_content(lexed(sql@, &self.table.tree())),
            views(tokens@) == if grouping {
                grouped(lexed(sql@, &self.table.tree()))
            } else {
                lexed(sql@, &self.table.tree())
            },
    {
        let mut tokens = tokenize(sql, self.table.trie());
        proof {
            lemma_lexed_wf(tokens@);
            lemma_view_content(tokens@);
        }
        if grouping {
            tokens = group(tokens);
        }
        tokens
    }

    /// Runs the filters of the three stages of statements on one statement,
    /// after grouping it if `grouping` is set.
    pub fn process_statement(&mut self, stmt: Vec<Token>, grouping: bool) -> (out: Vec<Token>)
        requires
            all_wf(stmt@),
        ensures
            reshaped(stmt@, out@),
            views(out@) == statement_done(old(self)@, views(stmt@), grouping).1,
            final(self)@ == (StackView {
                tlistprocess: statement_done(old(self)@, views(stmt@), grouping).0,
                ..old(self)@
            }),
            final(self).table == old(self).table,
            final(self).spliter == old(self).spliter,
            final(self).preprocess == old(self).preprocess,
    {
        let ghost stack = self@;
        let mut tokens = if grouping {
            group(stmt)
        } else {
            stmt
        };
        let ghost tree = views(tokens@);
        let mut k: usize = 0;
        while k < self.stmtprocess.len()
            invariant
                k <= self.stmtprocess@.len(),
                reshaped(stmt@, tokens@),
                *self == *old(self),
                stack == self@,
                views(tokens@) == stmts_filtered(stack.stmtprocess, tree, k as int),
            decreases self.stmtprocess@.len() - k,
        {
            self.stmtprocess[k].process(&mut tokens);
            k += 1;
        }
        let ghost flat = views(tokens@);
        let mut token_list = TokenList::new(tokens);
        let mut k: usize = 0;
        while k < self.tlistprocess.len()
            invariant
                k <= self.tlistprocess@.len(),
                reshaped(stmt@, token_list.tokens@),
                self.table == old(self).table,
                self.spliter == old(self).spliter,
                self.preprocess == old(self).preprocess,
                self.stmtprocess == old(self).stmtprocess,
                self.postprocess == old(self).postprocess,
                self.tlistprocess@.len() == stack.tlistprocess.len(),
                stack == old(self)@,
                (tlist_filter_views(self.tlistprocess@), views(token_list.tokens@))
                    == lists_filtered(stack.tlistprocess, flat, k as int),
            decreases self.tlistprocess@.len() - k,
        {
            let ghost filters = self.tlistprocess@;
            self.tlistprocess[k].process(&mut token_list);
            proof {
                assert(self.tlistprocess@ == filters.update(k as int, self.tlistprocess@[k as int]));
                assert(tlist_filter_views(self.tlistprocess@) =~= tlist_filter_views(filters).update(
                    k as int,
                    self.tlistprocess@[k as int]@,
                ));
            }
            k += 1;
        }
        let ghost shaped = views(token_list.tokens@);
        let mut tokens = token_list.tokens;
        let mut k: usize = 0;
        while k < self.postprocess.len()
            invariant
                k <= self.postprocess@.len(),
                reshaped(stmt@, tokens@),
                self.table == old(self).table,
                self.spliter == old(self).spliter,
                self.preprocess == old(self).preprocess,
                self.stmtprocess == old(self).stmtprocess,
                self.postprocess == old(self).postprocess,
                stack == old(self)@,
                tlist_filter_views(self.tlistprocess@) == lists_filtered(
                    stack.tlistprocess,
                    flat,
                    stack.tlistprocess.len() as int,
                ).0,
                views(tokens@) == stmts_filtered(stack.postprocess, shaped, k as int),
            decreases self.postprocess@.len() - k,
        {
            self.postprocess[k].process(&mut tokens);
            k += 1;
        }
        tokens
    }

    /// Formats `sql`: cuts it into tokens, runs the filters of single
    /// tokens on each token, splits the tokens into statements, with the
    /// splitter of the stack set back to the start of a statement, and on
    /// each statement
    /// groups the tokens, if `grouping` is set, and runs the filters of flat
    /// statements, the filters of statement trees and the last filters of
    /// flat statements, each stage in the order of its filters.
    ///
    /// The statements are well formed, and together they say what the
    /// tokens of `sql` say, in the case that the filters of single tokens
    /// give them.
    pub fn format(&mut self, sql: &str, grouping: bool) -> (stmts: Vec<Vec<Token>>)
        ensures
            statements_wf(stmts@),
            formatted(
                old(self).table.tree(),
                old(self)@,
                grouping,
                sql@,
                statements_view(stmts@),
                final(self)@,
            ),
            final(self).preprocess == old(self).preprocess,
            final(self).table == old(self).table,
    {
        let ghost stack = self@;
        let mut tokens = tokenize(sql, self.table.trie());
        let ghost lexed = tokens@;
        preprocess_tokens(&self.preprocess, &mut tokens);
        let ghost cased = tokens@;
        self.spliter.reset();
        let ghost init = self.spliter@;
        let split = self.spliter.process(tokens);
        let ghost parts = statements_view(split@);
        let ghost models = part_views(parts);
        proof {
            lemma_cased_wf(filter_views(self.preprocess@), lexed, cased);
            lemma_parts_wf(init, cased);
            lemma_split_content(init, cased);
        }
        let mut stmts: Vec<Vec<Token>> = Vec::new();
        proof {
            assert(part_views(statements_view(stmts@)) =~= Seq::<Seq<TokenView>>::empty());
        }
        for stmt in it: split
            invariant
                it.seq() == split@,
                statements_view(split@) == parts,
                models == part_views(parts),
                forall|i: int| 0 <= i < parts.len() ==> all_wf(#[trigger] parts[i]),
                statements_wf(stmts@),
                stmts@.len() == it.index(),
                forall|i: int|
                    0 <= i < stmts@.len() ==> content((#[trigger] stmts@[i])@) == content(parts[i]),
                self.preprocess == old(self).preprocess,
                self.table == old(self).table,
                stack == old(self)@,
                self@ == (StackView {
                    splitter: split_run(init, cased, cased.len()).state,
                    tlistprocess: statements_done(stack, models, grouping, it.index() as int).0,
                    ..stack
                }),
                part_views(statements_view(stmts@)) == statements_done(
                    stack,
                    models,
                    grouping,
                    it.index() as int,
                ).1,
        {
            proof {
                assert(parts[it.index() as int] == stmt@);
                assert(models[it.index() as int] == views(stmt@));
            }
            let ghost now = self@;
            let tokens = self.process_statement(stmt, grouping);
            proof {
                let next = stmts@.push(tokens);
                assert forall|j: int| 0 <= j < next.len() implies all_wf((#[trigger] next[j])@) by {
                    if j < stmts@.len() {
                        assert(next[j] == stmts@[j]);
                    }
                }
                assert forall|j: int| 0 <= j < next.len() implies content((#[trigger] next[j])@)
                    == content(parts[j]) by {
                    if j < stmts@.len() {
                        assert(next[j] == stmts@[j]);
                    }
                }
                assert(statement_done(now, views(stmt@), grouping) == statement_done(
                    StackView { tlistprocess: now.tlistprocess, ..stack },
                    views(stmt@),
                    grouping,
                ));
                assert(part_views(statements_view(next)) =~= part_views(
                    statements_view(stmts@),
                ).push(views(tokens@)));
            }
            stmts.push(tokens);
        }
        proof {
            let out = statements_view(stmts@);
            assert(out.len() == parts.len());
            assert forall|i: int| 0 <= i < out.len() implies content(#[trigger] out[i]) == content(
                parts[i],
            ) by {
                assert(out[i] == stmts@[i]@);
            }
            lemma_statements_content_same(out, parts);
            assert(views(lexed) == crate::lexer::lexed(sql@, &old(self).table.tree())
                && joined_text(lexed) == sql@ && cased_by(stack.preprocess, lexed, cased)
                && formatted_from(stack, grouping, cased, out, self@));
        }
        stmts
    }

    /// The statements of `sql`, each grouped if `grouping` is set: what the
    /// splitter, at the start of a statement, makes of the tokens of `sql`.
    /// Their text, one after the other, is `sql`; only where `sql` holds
    /// nothing but blank space there is no statement.
    pub fn run_multi(&self, sql: &str, grouping: bool) -> (stmts: Vec<Vec<Token>>)
        ensures
            statements_wf(stmts@),
            statements_text(statements_view(stmts@)) == sql@ || (stmts@.len() == 0 && is_blank(
                sql@,
            )),
            parsed(self.table.tree(), sql@, grouping, statements_view(stmts@)),
    {
        let tokens = tokenize(sql, self.table.trie());
        let ghost lexed = tokens@;
        let mut splitter = StatementSplitter::default();
        let split = splitter.process(tokens);
        let ghost parts = statements_view(split@);
        proof {
            lemma_lexed_wf(lexed);
            lemma_split_all_or_nothing(initial_state(), lexed);
            lemma_statements_text(parts);
            if !has_content(lexed) {
                lemma_blank_text(lexed);
            }
            crate::engine::splitter::lemma_split_coverage(initial_state(), lexed);
            lemma_parts_wf(initial_state(), lexed);
        }
        let mut stmts: Vec<Vec<Token>> = Vec::new();
        for stmt in it: split
            invariant
                it.seq() == split@,
                statements_view(split@) == parts,
                stmts@.len() == it.index(),
                forall|i: int| 0 <= i < parts.len() ==> all_wf(#[trigger] parts[i]),
                forall|i: int|
                    0 <= i < stmts@.len() ==> all_wf((#[trigger] stmts@[i])@) && joined_text(
                        stmts@[i]@,
                    ) == joined_text(parts[i]),
                forall|i: int|
                    0 <= i < stmts@.len() ==> if grouping {
                        regrouped(parts[i], (#[trigger] stmts@[i])@) && views(stmts@[i]@)
                            == grouped(views(parts[i]))
                    } else {
                        stmts@[i]@ == parts[i]
                    },
        {
            proof {
                assert(parts[it.index() as int] == stmt@);
            }
            let done = if grouping {
                group(stmt)
            } else {
                stmt
            };
            stmts.push(done);
        }
        proof {
            let out = statements_view(stmts@);
            assert(out.len() == parts.len());
            assert forall|i: int| 0 <= i < out.len() implies joined_text(#[trigger] out[i])
                == joined_text(parts[i]) by {
                assert(out[i] == stmts@[i]@);
            }
            lemma_statements_text_same(out, parts);
            assert forall|i: int| 0 <= i < out.len() implies if grouping {
                regrouped(parts[i], #[trigger] out[i]) && views(out[i]) == grouped(views(parts[i]))
            } else {
                out[i] == parts[i]
            } by {
                assert(out[i] == stmts@[i]@);
            }
            assert(views(lexed) == crate::lexer::lexed(sql@, &self.table.tree())
                && split_parsed(lexed, grouping, out));
        }
        stmts
    }
}

/// The value that the filters of single tokens, one after the other, give
/// to a token of kind `typ` with value `value`.
pub open spec fn cased_value(filters: Seq<FilterView>, typ: TokenType, value: Seq<char>) -> Seq<
    char,
>
    decreases filters.len(),
{
    if filters.len() == 0 {
        value
    } else {
        filtered_value(filters.last(), typ, cased_value(filters.drop_last(), typ, value))
    }
}

/// `after` holds the tokens of `before`, each with the value that the
/// filters of single tokens give it.
pub open spec fn cased_by(filters: Seq<FilterView>, before: Seq<Token>, after: Seq<Token>) -> bool {
    &&& after.len() == before.len()
    &&& forall|i: int|
        0 <= i < before.len() ==> {
            &&& (#[trigger] after[i]).typ == before[i].typ
            &&& after[i].children == before[i].children
            &&& after[i].value@ == cased_value(filters, before[i].typ, before[i].value@)
        }
}

/// What the statements say, one after the other.
pub open spec fn statements_content(stmts: Seq<Seq<Token>>) -> Seq<Leaf>
    decreases stmts.len(),
{
    if stmts.len() == 0 {
        Seq::<Leaf>::empty()
    } else {
        statements_content(stmts.drop_last()) + content(stmts.last())
    }
}

/// `stmts` is what the stack makes of the tokens `cased`, and `after` is
/// the stack after them: the splitter, started at the start of a statement,
/// cuts the tokens into statements and is left in the state after the last
/// token; `stmts` holds what the stack makes of each statement, one after
/// the other, and says what the tokens say; the filters of statement trees
/// are left as the last statement leaves them.
pub open spec fn formatted_from(
    stack: StackView,
    grouping: bool,
    cased: Seq<Token>,
    stmts: Seq<Seq<Token>>,
    after: StackView,
) -> bool {
    let parts = part_views(split_statements(initial_state(), cased));
    let done = statements_done(stack, parts, grouping, parts.len() as int);
    &&& stmts.len() == parts.len()
    &&& part_views(stmts) == done.1
    &&& statements_content(stmts) == content(cased)
    &&& after == (StackView {
        splitter: split_run(initial_state(), cased, cased.len()).state,
        tlistprocess: done.0,
        ..stack
    })
}

/// `stmts` is what formatting makes of `sql`, and `after` is the stack
/// after it: the lexer makes tokens of `sql`, with `tree` as its keyword
/// table; the filters of single tokens give them their case; and the stack
/// makes `stmts` of them.
pub open spec fn formatted(
    tree: Trie<TokenType>,
    stack: StackView,
    grouping: bool,
    sql: Seq<char>,
    stmts: Seq<Seq<Token>>,
    after: StackView,
) -> bool {
    exists|tokens: Seq<Token>, cased: Seq<Token>|
        views(tokens) == lexed(sql, &tree) && joined_text(tokens) == sql && #[trigger] cased_by(
            stack.preprocess,
            tokens,
            cased,
        ) && formatted_from(stack, grouping, cased, stmts, after)
}

/// `stmts` is what the splitter, at the start of a statement, makes of
/// `tokens`: statement by statement the same tokens, or with `grouping`
/// what the grouper makes of them.
pub open spec fn split_parsed(tokens: Seq<Token>, grouping: bool, stmts: Seq<Seq<Token>>) -> bool {
    let parts = split_statements(initial_state(), tokens);
    &&& stmts.len() == parts.len()
    &&& forall|i: int|
        0 <= i < parts.len() ==> if grouping {
            regrouped(parts[i], #[trigger] stmts[i]) && views(stmts[i]) == grouped(views(parts[i]))
        } else {
            stmts[i] == parts[i]
        }
}

/// `stmts` is what parsing makes of `sql`: the lexer makes tokens of `sql`,
/// and `stmts` is what the splitter makes of them.
pub open spec fn parsed(tree: Trie<TokenType>, sql: Seq<char>, grouping: bool, stmts: Seq<
    Seq<Token>,
>) -> bool {
    exists|tokens: Seq<Token>|
        views(tokens) == lexed(sql, &tree) && #[trigger] split_parsed(tokens, grouping, stmts)
}

/// Runs the filters of single tokens on each token, one filter after the
/// other.
pub fn preprocess_tokens(filters: &Vec<Filter>, tokens: &mut Vec<Token>)
    ensures
        cased_by(filter_views(filters@), old(tokens)@, final(tokens)@),
{
    let count: usize = tokens.len();
    let ghost views = filter_views(filters@);
    let mut i: usize = 0;
    while i < count
        invariant
            i <= count,
            count == tokens@.len(),
            count == old(tokens)@.len(),
            views == filter_views(filters@),
            forall|j: int| i <= j < count ==> tokens@[j] == old(tokens)@[j],
            forall|j: int|
                0 <= j < i ==> {
                    &&& (#[trigger] tokens@[j]).typ == old(tokens)@[j].typ
                    &&& tokens@[j].children == old(tokens)@[j].children
                    &&& tokens@[j].value@ == cased_value(
                        views,
                        old(tokens)@[j].typ,
                        old(tokens)@[j].value@,
                    )
                },
        decreases count - i,
    {
        let ghost start = tokens@;
        let mut k: usize = 0;
        assert(views.subrange(0, 0) == Seq::<FilterView>::empty());
        while k < filters.len()
            invariant
                i < count,
                k <= filters@.len(),
                count == tokens@.len(),
                count == start.len(),
                views == filter_views(filters@),
                views.len() == filters@.len(),
                forall|j: int| 0 <= j < count && j != i ==> tokens@[j] == start[j],
                tokens@[i as int].typ == start[i as int].typ,
                tokens@[i as int].children == start[i as int].children,
                tokens@[i as int].value@ == cased_value(
                    views.subrange(0, k as int),
                    start[i as int].typ,
                    start[i as int].value@,
                ),
            decreases filters@.len() - k,
        {
            proof {
                let next = views.subrange(0, k + 1);
                assert(next.drop_last() == views.subrange(0, k as int));
                assert(next.last() == filters@[k as int]@);
            }
            filters[k].process(&mut tokens[i]);
            k += 1;
        }
        proof {
            assert(views.subrange(0, filters@.len() as int) == views);
            assert(start[i as int] == old(tokens)@[i as int]);
            assert forall|j: int| 0 <= j < i + 1 implies {
                &&& (#[trigger] tokens@[j]).typ == old(tokens)@[j].typ
                &&& tokens@[j].children == old(tokens)@[j].children
                &&& tokens@[j].value@ == cased_value(
                    views,
                    old(tokens)@[j].typ,
                    old(tokens)@[j].value@,
                )
            } by {
                if j < i {
                    assert(tokens@[j] == start[j]);
                    assert(start[j].typ == old(tokens)@[j].typ);
                }
            }
            assert forall|j: int| i + 1 <= j < count implies tokens@[j] == old(tokens)@[j] by {
                assert(tokens@[j] == start[j]);
            }
        }
        i += 1;
    }
}

/// Tokens from the lexer are well formed, whatever values the filters of
/// single tokens give them.
pub proof fn lemma_cased_wf(filters: Seq<FilterView>, lexed: Seq<Token>, cased: Seq<Token>)
    requires
        is_lexed(lexed),
        cased_by(filters, lexed, cased),
    ensures
        all_wf(cased),
        crate::tokens::all_leaves(cased),
{
    assert forall|i: int| 0 <= i < cased.len() implies (#[trigger] cased[i]).wf() && cased[i].children@.len()
        == 0 by {
        assert(lexed[i].children@.len() == 0);
    }
}

/// Statements that say the same one by one say the same together.
pub proof fn lemma_statements_content_same(a: Seq<Seq<Token>>, b: Seq<Seq<Token>>)
    requires
        a.len() == b.len(),
        forall|i: int| 0 <= i < a.len() ==> content(#[trigger] a[i]) == content(b[i]),
    ensures
        statements_content(a) == statements_content(b),
    decreases a.len(),
{
    if a.len() > 0 {
        assert(content(a[a.len() - 1]) == content(b[a.len() - 1]));
        assert forall|i: int| 0 <= i < a.drop_last().len() implies content(
            #[trigger] a.drop_last()[i],
        ) == content(b.drop_last()[i]) by {
            assert(a.drop_last()[i] == a[i]);
            assert(b.drop_last()[i] == b[i]);
        }
        lemma_statements_content_same(a.drop_last(), b.drop_last());
    }
}

/// What the statements say is what their tokens, laid end to end, say.
pub proof fn lemma_statements_content(stmts: Seq<Seq<Token>>)
    ensures
        statements_content(stmts) == content(concat_all(stmts)),
    decreases stmts.len(),
{
    if stmts.len() > 0 {
        lemma_statements_content(stmts.drop_last());
        crate::content::lemma_content_concat(concat_all(stmts.drop_last()), stmts.last());
    }
}

/// Tokens without children that are all of kind `Whitespace` say nothing.
pub proof fn lemma_blank_content(tokens: Seq<Token>)
    requires
        crate::tokens::all_leaves(tokens),
        forall|i: int| 0 <= i < tokens.len() ==> (#[trigger] tokens[i]).typ == TokenType::Whitespace,
    ensures
        content(tokens) == Seq::<Leaf>::empty(),
    decreases tokens.len(),
{
    if tokens.len() > 0 {
        let front = tokens.drop_last();
        assert forall|i: int| 0 <= i < front.len() implies (#[trigger] front[i]).typ
            == TokenType::Whitespace && front[i].children@.len() == 0 by {
            assert(front[i] == tokens[i]);
        }
        lemma_blank_content(front);
        crate::content::lemma_content_upto_agree(tokens, front, front.len());
        let last = tokens[tokens.len() - 1];
        assert(last.typ == TokenType::Whitespace);
        assert(last.children@.len() == 0);
        assert(crate::content::content_of(last) == Seq::<Leaf>::empty());
        assert(content(tokens) == content_upto_front(tokens) + crate::content::content_of(last));
    }
}

/// What all tokens of a list but the last say.
pub open spec fn content_upto_front(tokens: Seq<Token>) -> Seq<Leaf> {
    crate::content::content_upto(tokens, (tokens.len() - 1) as nat)
}

/// The statements that the splitter makes of tokens without children say
/// what the tokens say.
pub proof fn lemma_split_content(init: crate::engine::splitter::SplitState, tokens: Seq<Token>)
    requires
        crate::tokens::all_leaves(tokens),
    ensures
        statements_content(split_statements(init, tokens)) == content(tokens),
{
    let parts = split_statements(init, tokens);
    let rest = crate::engine::splitter::trailing_blank(init, tokens);
    crate::engine::splitter::lemma_split_coverage(init, tokens);
    lemma_statements_content(parts);
    crate::content::lemma_content_concat(concat_all(parts), rest);
    assert forall|i: int| 0 <= i < rest.len() implies (#[trigger] rest[i]).children@.len() == 0 by {
        let k = concat_all(parts).len() + i;
        assert((concat_all(parts) + rest)[k] == rest[i]);
        assert(tokens[k] == rest[i]);
    }
    lemma_blank_content(rest);
}

/// Every statement that the splitter makes of well-formed tokens is made of
/// well-formed tokens.
pub proof fn lemma_parts_wf(init: crate::engine::splitter::SplitState, tokens: Seq<Token>)
    requires
        all_wf(tokens),
    ensures
        forall|i: int|
            0 <= i < split_statements(init, tokens).len() ==> all_wf(
                #[trigger] split_statements(init, tokens)[i],
            ),
{
    lemma_run_wf(init, tokens, tokens.len());
}

proof fn lemma_run_wf(init: crate::engine::splitter::SplitState, tokens: Seq<Token>, n: nat)
    requires
        all_wf(tokens),
        n <= tokens.len(),
    ensures
        all_wf(split_run(init, tokens, n).buffer),
        forall|i: int|
            0 <= i < split_run(init, tokens, n).stmts.len() ==> all_wf(
                #[trigger] split_run(init, tokens, n).stmts[i],
            ),
    decreases n,
{
    if n > 0 {
        lemma_run_wf(init, tokens, (n - 1) as nat);
        let prev = split_run(init, tokens, (n - 1) as nat);
        let token = tokens[n - 1];
        let run = crate::engine::splitter::split_step(prev, token);
        assert(token.wf());
        assert forall|i: int| 0 <= i < run.buffer.len() implies (#[trigger] run.buffer[i]).wf() by {
            if i < run.buffer.len() - 1 {
                assert(run.buffer[i] == prev.buffer[i]);
            }
        }
        assert forall|i: int| 0 <= i < run.stmts.len() implies all_wf(#[trigger] run.stmts[i]) by {
            if i < prev.stmts.len() {
                assert(run.stmts[i] == prev.stmts[i]);
            }
        }
    }
}

} // verus!
