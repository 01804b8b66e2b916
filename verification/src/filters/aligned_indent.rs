//! The aligned-indent filter: breaks a statement into lines at its clauses
//! and sets the keywords that start them flush right in one column.

use crate::content::{
    groups_bounded, height, height_of, lemma_child_reshaped, lemma_children_bounded,
    lemma_groups_bounded, reshaped,
};
use crate::engine::grouping::{lemma_first_solid, lemma_last_solid, lemma_token_view};
use crate::filters::aligned_model::{
    aligned, aligned_break, aligned_case, aligned_children, aligned_clauses, aligned_default,
    aligned_group, aligned_list, aligned_parenthesis, branch_width, branches_aligned,
    condition_width, first_select, fresh_aligned, items_broken, widest, AlignedSettings,
    AlignedState,
};
use crate::filters::edit::{
    add_clamped, blank_token, drop_blank, mul_clamped, put_blank, sub_clamped, to_i64,
};
use crate::filters::layout::{
    branch_start, branch_views, get_cases, get_identifiers, is_by, is_join, next_split,
    next_token, BranchView, CaseBranch,
};
use crate::filters::reindent::kept;
use crate::text::{char_count, first_word_len};
use crate::tokens::{
    all_wf, lemma_text_of_views, lemma_view_children, next_from, prev_before, views, Token,
    TokenList, TokenType,
};
use vstd::prelude::*;

verus! {

/// Aligns the clauses of a statement on their keywords.
pub struct AlignedIndentFilter {
    n: String,
    offset: i64,
    indent: usize,
    chr: String,
    max_kwd_len: i64,
}

impl AlignedIndentFilter {
    /// What the filter was made with.
    pub closed spec fn settings(&self) -> AlignedSettings {
        AlignedSettings { chr: self.chr@, n: self.n@ }
    }

    /// The state the filter is in.
    pub closed spec fn state(&self) -> AlignedState {
        AlignedState { offset: self.offset, indent: self.indent, max_kwd_len: self.max_kwd_len }
    }

    /// A filter that indents with `chr` and ends lines with `n`. The column
    /// of the keywords is as wide as `SELECT`.
    pub fn new(chr: &str, n: &str) -> (filter: Self)
        ensures
            filter.settings() == (AlignedSettings { chr: chr@, n: n@ }),
            filter.state() == fresh_aligned(),
    {
        AlignedIndentFilter {
            n: String::from_str(n),
            offset: 0,
            indent: 0,
            chr: String::from_str(chr),
            max_kwd_len: 6,
        }
    }

    /// A line break and the indentation that sets what follows `offset`
    /// characters behind the column of the keywords. A statement in
    /// parentheses stands two characters and the column further right for
    /// each level.
    fn nl(&self, offset: i64) -> (token: Token)
        ensures
            token@ == aligned_break(self.settings(), self.state(), offset as int),
            crate::content::is_filler(token),
            token.typ == TokenType::Whitespace,
    {
        let width = if self.max_kwd_len > 0 {
            self.max_kwd_len
        } else {
            0
        };
        let indent = mul_clamped(to_i64(self.indent), add_clamped(2, width));
        let count = add_clamped(
            add_clamped(add_clamped(self.max_kwd_len, offset), indent),
            self.offset,
        );
        blank_token(self.n.as_str(), self.chr.as_str(), count)
    }

    /// Starts a line before each keyword that starts a clause, indented so
    /// that the keyword, or the first word of a join or of `GROUP BY` and
    /// `ORDER BY`, ends with the column.
    fn split_kwds(&self, tokens: &mut Vec<Token>, Ghost(h): Ghost<nat>)
        requires
            all_wf(old(tokens)@),
            groups_bounded(old(tokens)@, h),
        ensures
            kept(old(tokens)@, final(tokens)@, h),
            views(final(tokens)@) == aligned_clauses(
                self.settings(),
                self.state(),
                views(old(tokens)@),
                next_split(views(old(tokens)@), 0, true),
            ),
    {
        let ghost cfg = self.settings();
        let ghost st = self.state();
        let mut tidx = next_token(tokens, 0, true);
        let ghost target = aligned_clauses(cfg, st, views(tokens@), tidx as int);
        while tidx < tokens.len()
            invariant
                kept(old(tokens)@, tokens@, h),
                all_wf(tokens@),
                tidx <= tokens@.len(),
                cfg == self.settings(),
                st == self.state(),
                target == aligned_clauses(cfg, st, views(tokens@), tidx as int),
            decreases tokens@.len() - tidx,
        {
            proof {
                lemma_token_view(tokens@, tidx as int);
            }
            let word = if is_join(&tokens[tidx]) || is_by(&tokens[tidx]) {
                first_word_len(tokens[tidx].value.as_str())
            } else {
                char_count(tokens[tidx].value.as_str())
            };
            put_blank(tokens, tidx, self.nl(sub_clamped(0, to_i64(word))));
            let n: usize = tokens.len();
            tidx = next_token(tokens, tidx + 2, true);
        }
    }

    /// Aligns each group of the list; what follows `GROUP BY` or `ORDER BY`
    /// stands three characters further right.
    fn process_children(&mut self, tokens: &mut Vec<Token>, Ghost(h): Ghost<nat>)
        requires
            all_wf(old(tokens)@),
            groups_bounded(old(tokens)@, h),
        ensures
            reshaped(old(tokens)@, final(tokens)@),
            final(tokens)@.len() == old(tokens)@.len(),
            final(self).settings() == old(self).settings(),
            final(self).state() == old(self).state(),
            views(final(tokens)@) == aligned_children(
                old(self).settings(),
                old(self).state(),
                views(old(tokens)@),
                h,
                old(tokens)@.len() as int,
            ),
        decreases h, 0nat,
    {
        let ghost cfg = self.settings();
        let ghost st = self.state();
        let ghost model = views(tokens@);
        let n: usize = tokens.len();
        let mut i: usize = 0;
        while i < n
            invariant
                i <= n,
                n == tokens@.len(),
                n == old(tokens)@.len(),
                model == views(old(tokens)@),
                cfg == self.settings(),
                st == self.state(),
                reshaped(old(tokens)@, tokens@),
                forall|j: int|
                    i <= j < n && (#[trigger] tokens@[j]).children@.len() > 0 ==> height_of(
                        tokens@[j],
                    ) <= h,
                views(tokens@) == aligned_children(cfg, st, model, h, i as int),
            decreases n - i,
        {
            let ghost list = tokens@;
            proof {
                lemma_token_view(list, i as int);
            }
            if tokens[i].is_group() {
                proof {
                    assert(list[i as int].wf());
                    lemma_children_bounded(list[i as int], h);
                    lemma_view_children(list[i as int]);
                }
                let found = prev_before(tokens, i, true);
                proof {
                    lemma_last_solid(list, i as int, found);
                    if found is Some {
                        lemma_token_view(list, found->0 as int);
                    }
                }
                let after_by = match found {
                    Some(p) => is_by(&tokens[p]),
                    None => false,
                };
                let saved = self.offset;
                if after_by {
                    self.offset = add_clamped(self.offset, 3);
                }
                let kind = tokens[i].typ;
                self.process_group(&mut tokens[i].children, kind, Ghost((h - 1) as nat));
                tokens[i].update_value();
                self.offset = saved;
                proof {
                    lemma_child_reshaped(list, tokens@, i as int);
                    let t = tokens@[i as int];
                    lemma_view_children(t);
                    lemma_text_of_views(t.children@);
                    lemma_token_view(tokens@, i as int);
                    assert(views(tokens@) =~= views(list).update(
                        i as int,
                        crate::filters::model::with_children(list[i as int]@, views(t.children@)),
                    ));
                    assert forall|j: int|
                        i < j < n && (#[trigger] tokens@[j]).children@.len() > 0 implies height_of(
                        tokens@[j],
                    ) <= h by {
                        assert(tokens@[j] == list[j]);
                    }
                }
            }
            i += 1;
        }
    }

    /// Breaks the lines of the list and aligns its groups.
    fn process_default(&mut self, tokens: &mut Vec<Token>, Ghost(h): Ghost<nat>)
        requires
            all_wf(old(tokens)@),
            groups_bounded(old(tokens)@, h),
        ensures
            reshaped(old(tokens)@, final(tokens)@),
            old(tokens)@.len() > 0 ==> final(tokens)@.len() > 0,
            final(self).settings() == old(self).settings(),
            final(self).state() == old(self).state(),
            views(final(tokens)@) == aligned_default(
                old(self).settings(),
                old(self).state(),
                views(old(tokens)@),
                h,
            ),
        decreases h, 1nat,
    {
        self.split_kwds(tokens, Ghost(h));
        self.process_children(tokens, Ghost(h));
    }

    /// Aligns the children of a group of kind `kind`.
    fn process_group(&mut self, tokens: &mut Vec<Token>, kind: TokenType, Ghost(h): Ghost<nat>)
        requires
            all_wf(old(tokens)@),
            groups_bounded(old(tokens)@, h),
        ensures
            reshaped(old(tokens)@, final(tokens)@),
            old(tokens)@.len() > 0 ==> final(tokens)@.len() > 0,
            final(self).settings() == old(self).settings(),
            final(self).state() == old(self).state(),
            views(final(tokens)@) == aligned_group(
                old(self).settings(),
                old(self).state(),
                views(old(tokens)@),
                kind,
                h,
            ),
        decreases h, 3nat,
    {
        match kind {
            TokenType::Parenthesis => self.process_parenthesis(tokens, Ghost(h)),
            TokenType::IdentifierList => self.process_identifierlist(tokens, Ghost(h)),
            TokenType::Case => self.process_case(tokens, Ghost(h)),
            _ => self.process_default(tokens, Ghost(h)),
        }
    }

    /// The index of the first `SELECT`, or the length of the list if there
    /// is none.
    fn find_select(tokens: &Vec<Token>) -> (r: usize)
        ensures
            r == first_select(views(tokens@), 0),
            r <= tokens@.len(),
    {
        let n: usize = tokens.len();
        let mut i: usize = 0;
        let mut found = false;
        while i < n && !found
            invariant
                i <= n,
                n == tokens@.len(),
                first_select(views(tokens@), 0) == first_select(views(tokens@), i as int),
                found ==> i < n && crate::filters::aligned_model::is_select(views(tokens@)[i as int]),
            decreases n - i, (if found { 0int } else { 1int }),
        {
            proof {
                lemma_token_view(tokens@, i as int);
            }
            if tokens[i].typ == TokenType::KeywordDML && tokens[i].is_keyword_word("SELECT") {
                found = true;
            } else {
                i += 1;
            }
        }
        i
    }

    /// A parenthesis with a `SELECT` inside: the statement starts on a line
    /// of its own, one level deeper, and the `)` starts a line. Any other
    /// parenthesis stays as it is.
    fn process_parenthesis(&mut self, tokens: &mut Vec<Token>, Ghost(h): Ghost<nat>)
        requires
            all_wf(old(tokens)@),
            groups_bounded(old(tokens)@, h),
        ensures
            reshaped(old(tokens)@, final(tokens)@),
            old(tokens)@.len() > 0 ==> final(tokens)@.len() > 0,
            final(self).settings() == old(self).settings(),
            final(self).state() == old(self).state(),
            views(final(tokens)@) == aligned_parenthesis(
                old(self).settings(),
                old(self).state(),
                views(old(tokens)@),
                h,
            ),
        decreases h, 2nat,
    {
        let n: usize = tokens.len();
        if Self::find_select(tokens) >= n {
            return ;
        }
        let saved = self.indent;
        if self.indent < usize::MAX {
            self.indent = self.indent + 1;
        }
        let line = self.nl(-6);
        let next = next_from(tokens, 1, true);
        proof {
            lemma_first_solid(tokens@, 1, next);
        }
        match next {
            Some(next) => put_blank(tokens, next, line),
            None => put_blank(tokens, n, line),
        }
        self.process_default(tokens, Ghost(h));
        self.indent = saved;
        let len: usize = tokens.len();
        if len > 0 {
            put_blank(tokens, len - 1, self.nl(1));
        }
    }

    /// A list: each item after the first starts a line.
    fn process_identifierlist(&mut self, tokens: &mut Vec<Token>, Ghost(h): Ghost<nat>)
        requires
            all_wf(old(tokens)@),
            groups_bounded(old(tokens)@, h),
        ensures
            reshaped(old(tokens)@, final(tokens)@),
            old(tokens)@.len() > 0 ==> final(tokens)@.len() > 0,
            final(self).settings() == old(self).settings(),
            final(self).state() == old(self).state(),
            views(final(tokens)@) == aligned_list(
                old(self).settings(),
                old(self).state(),
                views(old(tokens)@),
                h,
            ),
        decreases h, 2nat,
    {
        let ghost cfg = self.settings();
        let ghost st = self.state();
        let ids = get_identifiers(tokens);
        let ghost target = items_broken(cfg, st, views(tokens@), ids@, 1, 0);
        let mut shift: usize = 0;
        let mut k: usize = 1;
        while k < ids.len()
            invariant
                kept(old(tokens)@, tokens@, h),
                all_wf(tokens@),
                cfg == self.settings(),
                st == self.state(),
                self.settings() == old(self).settings(),
                self.state() == old(self).state(),
                target == items_broken(cfg, st, views(tokens@), ids@, k as int, shift as int),
            decreases ids@.len() - k,
        {
            let orig = ids[k];
            let count: usize = tokens.len();
            k += 1;
            if orig <= usize::MAX - shift && orig + shift <= count {
                put_blank(tokens, orig + shift, self.nl(1));
                let n: usize = tokens.len();
                assert(shift < n);
                shift += 1;
            }
        }
        self.process_default(tokens, Ghost(h));
    }

    /// The width of a condition: the lengths of its tokens and one blank
    /// between each two of them.
    fn condition_width(tokens: &Vec<Token>, condition: &Vec<usize>) -> (r: i64)
        ensures
            r == condition_width(views(tokens@), condition@, condition@.len() as int),
    {
        let mut width: i64 = 0;
        let mut k: usize = 0;
        while k < condition.len()
            invariant
                k <= condition@.len(),
                width == condition_width(views(tokens@), condition@, k as int),
            decreases condition@.len() - k,
        {
            let idx = condition[k];
            if idx < tokens.len() {
                proof {
                    lemma_token_view(tokens@, idx as int);
                }
                width = add_clamped(width, to_i64(char_count(tokens[idx].value.as_str())));
            }
            if k > 0 {
                width = add_clamped(width, 1);
            }
            k += 1;
        }
        width
    }

    /// A `CASE`: each branch after the first starts a line, with its
    /// keyword flush right under the `WHEN` of the first, and so does the
    /// `END`; blank space after each condition sets the values in one
    /// column.
    fn process_case(&mut self, tokens: &mut Vec<Token>, Ghost(h): Ghost<nat>)
        requires
            all_wf(old(tokens)@),
            groups_bounded(old(tokens)@, h),
        ensures
            reshaped(old(tokens)@, final(tokens)@),
            old(tokens)@.len() > 0 ==> final(tokens)@.len() > 0,
            final(self).settings() == old(self).settings(),
            final(self).state() == old(self).state(),
            views(final(tokens)@) == aligned_case(
                old(self).settings(),
                old(self).state(),
                views(old(tokens)@),
            ),
        decreases h, 2nat,
    {
        let ghost cfg = self.settings();
        let ghost st = self.state();
        let ghost origin = views(tokens@);
        let mut cases = get_cases(tokens, true);
        let end = crate::filters::layout::find_word(tokens, "END", 0);
        if end >= tokens.len() {
            return ;
        }
        let mut last: Vec<usize> = Vec::new();
        last.push(end);
        let ghost found = branch_views(cases@);
        cases.push(CaseBranch { has_condition: false, condition: Vec::new(), value: last });
        let ghost all = branch_views(cases@);
        proof {
            assert(all =~= found.push(
                BranchView { has_condition: false, condition: Seq::empty(), value: seq![end] },
            ));
        }
        let mut widths: Vec<i64> = Vec::new();
        let mut max_width: i64 = 0;
        let mut k: usize = 0;
        while k < cases.len()
            invariant
                k <= cases@.len(),
                widths@.len() == k,
                all == branch_views(cases@),
                origin == views(tokens@),
                max_width == widest(origin, all, k as int),
                forall|j: int| 0 <= j < k ==> (#[trigger] widths@[j]) == branch_width(origin, all[j]),
            decreases cases@.len() - k,
        {
            let w = if cases[k].has_condition {
                Self::condition_width(tokens, &cases[k].condition)
            } else {
                0
            };
            if w > max_width {
                max_width = w;
            }
            widths.push(w);
            k += 1;
        }
        let ghost target = branches_aligned(cfg, st, origin, origin, all, 0, 0);
        let mut shift: usize = 0;
        let mut k: usize = 0;
        while k < cases.len()
            invariant
                kept(old(tokens)@, tokens@, h),
                all_wf(tokens@),
                cfg == self.settings(),
                st == self.state(),
                self.settings() == old(self).settings(),
                self.state() == old(self).state(),
                widths@.len() == cases@.len(),
                all == branch_views(cases@),
                max_width == widest(origin, all, all.len() as int),
                forall|j: int|
                    0 <= j < widths@.len() ==> (#[trigger] widths@[j]) == branch_width(origin, all[j]),
                target == branches_aligned(
                    cfg,
                    st,
                    views(tokens@),
                    origin,
                    all,
                    k as int,
                    shift as int,
                ),
            decreases cases@.len() - k,
        {
            let i = k;
            let count: usize = tokens.len();
            k += 1;
            let start = match branch_start(&cases[i]) {
                Some(s) => s,
                None => {
                    continue ;
                },
            };
            if start > usize::MAX - shift || start + shift >= count {
                continue ;
            }
            if i > 0 {
                let at = start + shift;
                proof {
                    lemma_token_view(tokens@, at as int);
                }
                let len = to_i64(char_count(tokens[at].value.as_str()));
                put_blank(tokens, at, self.nl(sub_clamped(10, len)));
                shift += 1;
            }
            if cases[i].has_condition && cases[i].condition.len() > 0 {
                let size = cases[i].condition.len();
                let tail = cases[i].condition[size - 1];
                let count: usize = tokens.len();
                if tail <= usize::MAX - shift && tail + shift < count {
                    let pad = blank_token("", self.chr.as_str(), sub_clamped(max_width, widths[i]));
                    proof {
                        reveal_strlit("");
                        assert(""@ =~= Seq::<char>::empty());
                    }
                    let next = next_from(tokens, tail + shift + 1, true);
                    proof {
                        lemma_first_solid(tokens@, tail + shift + 1, next);
                    }
                    match next {
                        Some(next) => put_blank(tokens, next, pad),
                        None => put_blank(tokens, count, pad),
                    }
                    shift += 1;
                }
            }
        }
    }

    /// Aligns one statement: the statement becomes what the filter makes of
    /// it. Blank space at its start goes. The filter starts each statement
    /// in the state of a filter that has seen nothing yet.
    pub fn process(&mut self, token_list: &mut TokenList)
        requires
            all_wf(old(token_list).tokens@),
        ensures
            reshaped(old(token_list).tokens@, final(token_list).tokens@),
            final(self).settings() == old(self).settings(),
            final(self).state() == fresh_aligned(),
            views(final(token_list).tokens@) == aligned(
                old(self).settings(),
                views(old(token_list).tokens@),
            ),
    {
        proof {
            lemma_groups_bounded(token_list.tokens@);
            crate::content::lemma_view_height(token_list.tokens@);
            if token_list.tokens@.len() > 0 {
                lemma_token_view(token_list.tokens@, 0);
            }
        }
        let ghost h = height(token_list.tokens@);
        self.offset = 0;
        self.indent = 0;
        self.max_kwd_len = 6;
        drop_blank(&mut token_list.tokens, 0);
        self.process_default(&mut token_list.tokens, Ghost(h));
    }
}

} // verus!
