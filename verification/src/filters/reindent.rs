//! The reindent filter: breaks a statement into lines at its clauses and
//! indents the lines by the groups they stand in.

use crate::content::{
    groups_bounded, height, height_of, lemma_child_reshaped, lemma_children_bounded,
    lemma_groups_bounded, reshaped,
};
use crate::engine::grouping::{lemma_first_solid, lemma_last_solid, lemma_token_view};
use crate::filters::edit::{
    add_clamped, blank_token, drop_blank, feed_tokens, mul_clamped, one_blank, put_blank,
    sub_clamped, to_i64, LineState,
};
use crate::filters::layout::{
    branch_start, branch_views, find_kind, find_punct, find_word, get_cases, get_identifiers,
    next_split, next_token, CaseBranch,
};
use crate::filters::reindent_model::{
    branches_broken, broken_before, case_done, children_done, clauses_broken, commas_spaced,
    deeper, default_done, fresh_state, group_done, items_wrapped, leading, line_break,
    list_done, offset_at, parenthesis_done, reindented, statements_broken, tuples_broken,
    values_done, where_done, widths_sum, ReindentState,
};
use crate::text::{char_count, str_ends_with_break, str_eq};
use crate::tokens::{
    all_wf, lemma_text_of_views, lemma_view_children, next_from, prev_before, views, Token,
    TokenList, TokenType,
};
use vstd::prelude::*;

verus! {

/// `after` says what `before` says, none of its groups is higher than `h`,
/// and it is empty only if `before` is.
pub open spec fn kept(before: Seq<Token>, after: Seq<Token>, h: nat) -> bool {
    &&& reshaped(before, after)
    &&& groups_bounded(after, h)
    &&& before.len() > 0 ==> after.len() > 0
}

/// Breaks lines at clauses and indents them.
pub struct ReindentFilter {
    n: String,
    width: usize,
    chr: String,
    indent: usize,
    offset: i64,
    wrap_after: usize,
    comma_first: bool,
    indent_after_first: bool,
    indent_columns: bool,
    last_func_len: Option<usize>,
    in_function: usize,
    in_values: usize,
}

/// What a reindent filter was made with.
pub ghost struct ReindentSettings {
    pub width: usize,
    pub chr: Seq<char>,
    pub wrap_after: usize,
    pub n: Seq<char>,
    pub comma_first: bool,
    pub indent_after_first: bool,
    pub indent_columns: bool,
}

impl ReindentFilter {
    /// What the filter was made with.
    pub closed spec fn settings(&self) -> ReindentSettings {
        ReindentSettings {
            width: self.width,
            chr: self.chr@,
            wrap_after: self.wrap_after,
            n: self.n@,
            comma_first: self.comma_first,
            indent_after_first: self.indent_after_first,
            indent_columns: self.indent_columns,
        }
    }

    /// The state the filter is in.
    pub closed spec fn state(&self) -> ReindentState {
        ReindentState {
            indent: self.indent,
            offset: self.offset,
            last_func_len: self.last_func_len,
            in_function: self.in_function,
            in_values: self.in_values,
        }
    }

    /// A filter that indents by `width` times `chr` for each level, ends
    /// lines with `n`, and wraps lists after `wrap_after` columns, or after
    /// each item where that is 0.
    pub fn new(
        width: usize,
        chr: &str,
        wrap_after: usize,
        n: &str,
        comma_first: bool,
        indent_after_first: bool,
        indent_columns: bool,
    ) -> (filter: Self)
        ensures
            filter.settings() == (ReindentSettings {
                width,
                chr: chr@,
                wrap_after,
                n: n@,
                comma_first,
                indent_after_first,
                indent_columns,
            }),
            filter.state() == fresh_state(filter.settings()),
    {
        ReindentFilter {
            n: String::from_str(n),
            width,
            chr: String::from_str(chr),
            indent: if indent_after_first {
                1
            } else {
                0
            },
            offset: 0,
            wrap_after,
            comma_first,
            indent_after_first,
            indent_columns,
            last_func_len: None,
            in_function: 0,
            in_values: 0,
        }
    }

    /// The number of indent characters at the start of a line: the offset
    /// and `width` for each level.
    fn leading_ws(&self) -> (r: i64)
        ensures
            r == leading(self.settings(), self.state()),
    {
        add_clamped(self.offset, mul_clamped(to_i64(self.indent), to_i64(self.width)))
    }

    fn indent_in(&mut self)
        ensures
            final(self).settings() == old(self).settings(),
            final(self).state() == deeper(old(self).state()),
    {
        if self.indent < usize::MAX {
            self.indent = self.indent + 1;
        }
    }

    /// How far the token at `idx` stands to the right of the indentation
    /// of its line. `before` is where the text before `tokens` ends.
    fn get_offset(&self, before: LineState, tokens: &Vec<Token>, idx: usize) -> (r: i64)
        ensures
            r == offset_at(self.settings(), self.state(), before, views(tokens@), idx as int),
    {
        let line = feed_tokens(before, tokens, idx).last_len();
        let lead = self.leading_ws();
        let lead = if lead > 0 {
            lead
        } else {
            0
        };
        sub_clamped(line, mul_clamped(to_i64(char_count(self.chr.as_str())), lead))
    }

    /// A line break and the indentation of the line, `offset` characters
    /// further to the right.
    fn nl(&self, offset: i64) -> (token: Token)
        ensures
            token@ == line_break(self.settings(), self.state(), offset as int),
            crate::content::is_filler(token),
            token.typ == TokenType::Whitespace,
    {
        blank_token(self.n.as_str(), self.chr.as_str(), add_clamped(self.leading_ws(), offset))
    }

    /// Breaks the line before the token at `tidx`: blank space directly
    /// before it goes, and a line break takes its place, unless the token is
    /// the first of the list or, where `after_break` allows it, stands
    /// after a line break already. Returns the new index of the token.
    fn break_before(&self, tokens: &mut Vec<Token>, tidx: usize, after_break: bool, Ghost(h): Ghost<
        nat,
    >) -> (at: usize)
        requires
            tidx < old(tokens)@.len(),
            all_wf(old(tokens)@),
            groups_bounded(old(tokens)@, h),
        ensures
            kept(old(tokens)@, final(tokens)@, h),
            at < final(tokens)@.len(),
            final(tokens)@.len() - at == old(tokens)@.len() - tidx,
            (views(final(tokens)@), at as int) == broken_before(
                self.settings(),
                self.state(),
                views(old(tokens)@),
                tidx as int,
                after_break,
            ),
    {
        if tidx == 0 {
            return 0;
        }
        proof {
            lemma_token_view(tokens@, tidx - 1);
        }
        let ends_break = str_ends_with_break(tokens[tidx - 1].value.as_str());
        let mut at = tidx;
        if drop_blank(tokens, tidx - 1) {
            at = tidx - 1;
        }
        if !(after_break && ends_break) {
            put_blank(tokens, at, self.nl(0));
            let n: usize = tokens.len();
            assert(at < n);
            at = at + 1;
        }
        at
    }

    /// Breaks the line before each keyword that starts a clause.
    fn split_kwds(&self, tokens: &mut Vec<Token>, Ghost(h): Ghost<nat>)
        requires
            all_wf(old(tokens)@),
            groups_bounded(old(tokens)@, h),
        ensures
            kept(old(tokens)@, final(tokens)@, h),
            views(final(tokens)@) == clauses_broken(
                self.settings(),
                self.state(),
                views(old(tokens)@),
                next_split(views(old(tokens)@), 0, false),
            ),
    {
        let ghost cfg = self.settings();
        let ghost st = self.state();
        let mut tidx = next_token(tokens, 0, false);
        let ghost target = clauses_broken(cfg, st, views(tokens@), tidx as int);
        while tidx < tokens.len()
            invariant
                kept(old(tokens)@, tokens@, h),
                all_wf(tokens@),
                tidx <= tokens@.len(),
                cfg == self.settings(),
                st == self.state(),
                target == clauses_broken(cfg, st, views(tokens@), tidx as int),
            decreases tokens@.len() - tidx,
        {
            let at = self.break_before(tokens, tidx, true, Ghost(h));
            let n: usize = tokens.len();
            assert(at < n);
            tidx = next_token(tokens, at + 1, false);
        }
    }

    /// Breaks the line before each keyword that starts a statement.
    fn split_statements(&self, tokens: &mut Vec<Token>, Ghost(h): Ghost<nat>)
        requires
            all_wf(old(tokens)@),
            groups_bounded(old(tokens)@, h),
        ensures
            kept(old(tokens)@, final(tokens)@, h),
            views(final(tokens)@) == statements_broken(
                self.settings(),
                self.state(),
                views(old(tokens)@),
                crate::filters::layout::first_of_kinds(
                    views(old(tokens)@),
                    TokenType::KeywordDML,
                    TokenType::KeywordDDL,
                    0,
                ),
            ),
    {
        let ghost cfg = self.settings();
        let ghost st = self.state();
        let mut tidx = find_kind(tokens, TokenType::KeywordDML, TokenType::KeywordDDL, 0);
        let ghost target = statements_broken(cfg, st, views(tokens@), tidx as int);
        while tidx < tokens.len()
            invariant
                kept(old(tokens)@, tokens@, h),
                all_wf(tokens@),
                tidx <= tokens@.len(),
                cfg == self.settings(),
                st == self.state(),
                target == statements_broken(cfg, st, views(tokens@), tidx as int),
            decreases tokens@.len() - tidx,
        {
            let at = self.break_before(tokens, tidx, false, Ghost(h));
            let n: usize = tokens.len();
            assert(at < n);
            tidx = find_kind(tokens, TokenType::KeywordDML, TokenType::KeywordDDL, at + 1);
        }
    }

    /// Reindents each group of the list.
    fn process_children(&mut self, tokens: &mut Vec<Token>, before: LineState, Ghost(h): Ghost<nat>)
        requires
            all_wf(old(tokens)@),
            groups_bounded(old(tokens)@, h),
        ensures
            reshaped(old(tokens)@, final(tokens)@),
            final(tokens)@.len() == old(tokens)@.len(),
            final(self).settings() == old(self).settings(),
            (final(self).state(), views(final(tokens)@)) == children_done(
                old(self).settings(),
                old(self).state(),
                views(old(tokens)@),
                before,
                h,
                old(tokens)@.len() as int,
            ),
        decreases h, 0nat,
    {
        let ghost cfg = self.settings();
        let ghost st = self.state();
        let ghost model = views(tokens@);
        let n: usize = tokens.len();
        let mut i: usize = 0;
        while i < n
            invariant
                i <= n,
                n == tokens@.len(),
                n == old(tokens)@.len(),
                model == views(old(tokens)@),
                cfg == self.settings(),
                reshaped(old(tokens)@, tokens@),
                forall|j: int|
                    i <= j < n && (#[trigger] tokens@[j]).children@.len() > 0 ==> height_of(
                        tokens@[j],
                    ) <= h,
                (self.state(), views(tokens@)) == children_done(cfg, st, model, before, h, i as int),
            decreases n - i,
        {
            let ghost list = tokens@;
            let ghost now = self.state();
            proof {
                lemma_token_view(list, i as int);
            }
            if tokens[i].is_group() {
                proof {
                    assert(list[i as int].wf());
                    lemma_children_bounded(list[i as int], h);
                    lemma_view_children(list[i as int]);
                }
                let here = feed_tokens(before, tokens, i);
                let kind = tokens[i].typ;
                self.process_group(&mut tokens[i].children, kind, here, Ghost((h - 1) as nat));
                tokens[i].update_value();
                proof {
                    lemma_child_reshaped(list, tokens@, i as int);
                    let t = tokens@[i as int];
                    lemma_view_children(t);
                    lemma_text_of_views(t.children@);
                    lemma_token_view(tokens@, i as int);
                    assert(views(tokens@) =~= views(list).update(
                        i as int,
                        crate::filters::model::with_children(list[i as int]@, views(t.children@)),
                    ));
                    assert forall|j: int|
                        i < j < n && (#[trigger] tokens@[j]).children@.len() > 0 implies height_of(
                        tokens@[j],
                    ) <= h by {
                        assert(tokens@[j] == list[j]);
                    }
                }
            }
            i += 1;
        }
    }

    /// Breaks the lines of the list and reindents its groups.
    fn process_default(
        &mut self,
        tokens: &mut Vec<Token>,
        before: LineState,
        stmts: bool,
        Ghost(h): Ghost<nat>,
    )
        requires
            all_wf(old(tokens)@),
            groups_bounded(old(tokens)@, h),
        ensures
            reshaped(old(tokens)@, final(tokens)@),
            old(tokens)@.len() > 0 ==> final(tokens)@.len() > 0,
            final(self).settings() == old(self).settings(),
            (final(self).state(), views(final(tokens)@)) == default_done(
                old(self).settings(),
                old(self).state(),
                views(old(tokens)@),
                before,
                stmts,
                h,
            ),
        decreases h, 1nat,
    {
        if stmts {
            self.split_statements(tokens, Ghost(h));
        }
        self.split_kwds(tokens, Ghost(h));
        self.process_children(tokens, before, Ghost(h));
    }

    /// Reindents the children of a group of kind `kind`.
    fn process_group(
        &mut self,
        tokens: &mut Vec<Token>,
        kind: TokenType,
        before: LineState,
        Ghost(h): Ghost<nat>,
    )
        requires
            all_wf(old(tokens)@),
            groups_bounded(old(tokens)@, h),
        ensures
            reshaped(old(tokens)@, final(tokens)@),
            old(tokens)@.len() > 0 ==> final(tokens)@.len() > 0,
            final(self).settings() == old(self).settings(),
            (final(self).state(), views(final(tokens)@)) == group_done(
                old(self).settings(),
                old(self).state(),
                views(old(tokens)@),
                kind,
                before,
                h,
            ),
        decreases h, 3nat,
    {
        match kind {
            TokenType::Where => self.process_where(tokens, before, true, Ghost(h)),
            TokenType::Having => self.process_where(tokens, before, false, Ghost(h)),
            TokenType::Parenthesis => self.process_parenthesis(tokens, before, Ghost(h)),
            TokenType::Function => {
                if tokens.len() > 0 {
                    proof {
                        lemma_token_view(tokens@, 0);
                    }
                    self.last_func_len = Some(char_count(tokens[0].value.as_str()));
                }
                let saved = self.in_function;
                if self.in_function < usize::MAX {
                    self.in_function = self.in_function + 1;
                }
                self.process_default(tokens, before, true, Ghost(h));
                self.in_function = saved;
            },
            TokenType::IdentifierList => self.process_identifierlist(tokens, before, Ghost(h)),
            TokenType::Case => self.process_case(tokens, before, Ghost(h)),
            TokenType::Values => {
                let saved = self.in_values;
                if self.in_values < usize::MAX {
                    self.in_values = self.in_values + 1;
                }
                self.process_values(tokens, before, Ghost(h));
                self.in_values = saved;
            },
            _ => self.process_default(tokens, before, true, Ghost(h)),
        }
    }

    /// A `WHERE` or `HAVING` clause: a line break before the head keyword,
    /// and the rest one level deeper.
    fn process_where(
        &mut self,
        tokens: &mut Vec<Token>,
        before: LineState,
        is_where: bool,
        Ghost(h): Ghost<nat>,
    )
        requires
            all_wf(old(tokens)@),
            groups_bounded(old(tokens)@, h),
        ensures
            reshaped(old(tokens)@, final(tokens)@),
            old(tokens)@.len() > 0 ==> final(tokens)@.len() > 0,
            final(self).settings() == old(self).settings(),
            (final(self).state(), views(final(tokens)@)) == where_done(
                old(self).settings(),
                old(self).state(),
                views(old(tokens)@),
                before,
                if is_where {
                    "WHERE"@
                } else {
                    "HAVING"@
                },
                h,
            ),
        decreases h, 2nat,
    {
        let head = if is_where {
            "WHERE"
        } else {
            "HAVING"
        };
        let i = find_word(tokens, head, 0);
        if i >= tokens.len() {
            return ;
        }
        put_blank(tokens, i, self.nl(0));
        let saved = self.indent;
        self.indent_in();
        self.process_default(tokens, before, true, Ghost(h));
        self.indent = saved;
    }

    /// A parenthesis: one with a statement inside starts on a line of its
    /// own, one level deeper; the inside is indented to stand behind the
    /// `(`.
    fn process_parenthesis(&mut self, tokens: &mut Vec<Token>, before: LineState, Ghost(h): Ghost<
        nat,
    >)
        requires
            all_wf(old(tokens)@),
            groups_bounded(old(tokens)@, h),
        ensures
            reshaped(old(tokens)@, final(tokens)@),
            old(tokens)@.len() > 0 ==> final(tokens)@.len() > 0,
            final(self).settings() == old(self).settings(),
            (final(self).state(), views(final(tokens)@)) == parenthesis_done(
                old(self).settings(),
                old(self).state(),
                views(old(tokens)@),
                before,
                h,
            ),
        decreases h, 2nat,
    {
        let n: usize = tokens.len();
        let is_dml = find_kind(tokens, TokenType::KeywordDML, TokenType::KeywordDDL, 0) < n;
        let mut first = find_punct(tokens, "(", 0);
        if first >= n {
            return ;
        }
        let saved_indent = self.indent;
        let saved_offset = self.offset;
        if is_dml {
            self.indent_in();
            put_blank(tokens, 0, self.nl(0));
            first = first + 1;
        }
        let shift = add_clamped(self.get_offset(before, tokens, first), 1);
        self.offset = add_clamped(self.offset, shift);
        self.process_default(tokens, before, !is_dml, Ghost(h));
        self.offset = saved_offset;
        self.indent = saved_indent;
    }

    /// Breaks lines before the items of a list, from the `start`th of
    /// `ids` on: an item starts a line where the line is wider with it than
    /// `wrap_after` allows.
    fn wrap_items(
        &self,
        tokens: &mut Vec<Token>,
        ids: &Vec<usize>,
        start: usize,
        shift: usize,
        in_call: bool,
        Ghost(h): Ghost<nat>,
    )
        requires
            all_wf(old(tokens)@),
            groups_bounded(old(tokens)@, h),
        ensures
            kept(old(tokens)@, final(tokens)@, h),
            views(final(tokens)@) == items_wrapped(
                self.settings(),
                self.state(),
                views(old(tokens)@),
                ids@,
                start as int,
                shift as int,
                0,
                in_call,
            ),
    {
        let ghost cfg = self.settings();
        let ghost st = self.state();
        let ghost target = items_wrapped(
            cfg,
            st,
            views(tokens@),
            ids@,
            start as int,
            shift as int,
            0,
            in_call,
        );
        let limit = sub_clamped(to_i64(self.wrap_after), self.offset);
        let mut position: i64 = 0;
        let mut shift = shift;
        let mut k: usize = start;
        while k < ids.len()
            invariant
                kept(old(tokens)@, tokens@, h),
                all_wf(tokens@),
                cfg == self.settings(),
                st == self.state(),
                limit == crate::filters::edit::clamp(
                    crate::filters::edit::clamp(cfg.wrap_after as int) - st.offset,
                ),
                target == items_wrapped(
                    cfg,
                    st,
                    views(tokens@),
                    ids@,
                    k as int,
                    shift as int,
                    position as int,
                    in_call,
                ),
            decreases ids@.len() - k,
        {
            let orig = ids[k];
            let count: usize = tokens.len();
            k += 1;
            if orig > usize::MAX - shift || orig + shift >= count {
                continue ;
            }
            let idx = orig + shift;
            let ghost list = tokens@;
            proof {
                lemma_token_view(list, idx as int);
            }
            position = add_clamped(
                position,
                add_clamped(to_i64(char_count(tokens[idx].value.as_str())), 1),
            );
            if position > limit && (self.wrap_after > 0 || !in_call) {
                if self.comma_first && !in_call {
                    let found = prev_before(tokens, idx, true);
                    proof {
                        lemma_last_solid(list, idx as int, found);
                    }
                    match found {
                        Some(comma) => {
                            put_blank(tokens, comma, self.nl(-2));
                            shift += 1;
                            let n: usize = tokens.len();
                            proof {
                                if comma + 2 < n {
                                    lemma_token_view(tokens@, comma + 2);
                                }
                            }
                            if n - comma > 2 && tokens[comma + 2].typ != TokenType::Whitespace {
                                put_blank(tokens, comma + 2, one_blank());
                                shift += 1;
                            }
                        },
                        None => {
                            continue ;
                        },
                    }
                } else {
                    put_blank(tokens, idx, self.nl(0));
                    shift += 1;
                }
                position = 0;
            }
        }
    }

    /// Puts a blank behind each comma that blank space does not follow.
    fn space_commas(tokens: &mut Vec<Token>, Ghost(h): Ghost<nat>)
        requires
            all_wf(old(tokens)@),
            groups_bounded(old(tokens)@, h),
        ensures
            kept(old(tokens)@, final(tokens)@, h),
            views(final(tokens)@) == commas_spaced(views(old(tokens)@), 0),
    {
        let ghost target = commas_spaced(views(tokens@), 0);
        let mut i: usize = 0;
        while i < tokens.len()
            invariant
                kept(old(tokens)@, tokens@, h),
                all_wf(tokens@),
                target == commas_spaced(views(tokens@), i as int),
            decreases tokens@.len() - i,
        {
            let n: usize = tokens.len();
            proof {
                lemma_token_view(tokens@, i as int);
                if i + 1 < n {
                    lemma_token_view(tokens@, i + 1);
                }
            }
            if str_eq(tokens[i].value.as_str(), ",") && n - i > 1 && !tokens[i + 1].is_whitespace() {
                put_blank(tokens, i + 1, one_blank());
                i += 2;
            } else {
                i += 1;
            }
        }
    }

    /// `start` and the widths of the tokens that `ids` names.
    fn sum_widths(tokens: &Vec<Token>, ids: &Vec<usize>, start: i64) -> (r: i64)
        requires
            forall|k: int| 0 <= k < ids@.len() ==> (#[trigger] ids@[k]) < tokens@.len(),
        ensures
            r == widths_sum(views(tokens@), ids@, ids@.len() as int, start as int),
    {
        let mut sum: i64 = start;
        let mut k: usize = 0;
        while k < ids.len()
            invariant
                k <= ids@.len(),
                forall|m: int| 0 <= m < ids@.len() ==> (#[trigger] ids@[m]) < tokens@.len(),
                sum == widths_sum(views(tokens@), ids@, k as int, start as int),
            decreases ids@.len() - k,
        {
            proof {
                lemma_token_view(tokens@, ids@[k as int] as int);
            }
            sum = add_clamped(
                sum,
                add_clamped(to_i64(char_count(tokens[ids[k]].value.as_str())), 1),
            );
            k += 1;
        }
        sum
    }

    /// A list: each item after the first starts a line, aligned with the
    /// first, unless the list stands in a function or among values. With
    /// `wrap_after`, items share a line as long as they fit.
    fn process_identifierlist(
        &mut self,
        tokens: &mut Vec<Token>,
        before: LineState,
        Ghost(h): Ghost<nat>,
    )
        requires
            all_wf(old(tokens)@),
            groups_bounded(old(tokens)@, h),
        ensures
            reshaped(old(tokens)@, final(tokens)@),
            old(tokens)@.len() > 0 ==> final(tokens)@.len() > 0,
            final(self).settings() == old(self).settings(),
            (final(self).state(), views(final(tokens)@)) == list_done(
                old(self).settings(),
                old(self).state(),
                views(old(tokens)@),
                before,
                h,
            ),
        decreases h, 2nat,
    {
        let ids = get_identifiers(tokens);
        if ids.len() == 0 {
            self.process_default(tokens, before, true, Ghost(h));
            return ;
        }
        let saved_offset = self.offset;
        let saved_indent = self.indent;
        if self.in_function == 0 && self.in_values == 0 {
            let by_tab = str_eq(self.chr.as_str(), "\t");
            let num_offset: i64 = if by_tab {
                1
            } else if self.indent_columns {
                to_i64(self.width)
            } else {
                self.get_offset(before, tokens, ids[0])
            };
            let skip: usize = if self.indent_columns {
                0
            } else {
                1
            };
            self.offset = add_clamped(self.offset, num_offset);
            self.wrap_items(tokens, &ids, skip, 0, false, Ghost(h));
            self.offset = saved_offset;
        } else {
            Self::space_commas(tokens, Ghost(h));
            let ids = get_identifiers(tokens);
            let end_at = Self::sum_widths(tokens, &ids, self.offset);
            let mut adjusted: i64 = 0;
            if self.wrap_after > 0 && end_at > sub_clamped(to_i64(self.wrap_after), self.offset) {
                match self.last_func_len {
                    Some(len) => {
                        adjusted = sub_clamped(sub_clamped(0, to_i64(len)), 1);
                    },
                    None => {},
                }
            }
            self.offset = add_clamped(self.offset, adjusted);
            self.indent_in();
            let mut shift: usize = 0;
            if adjusted < 0 && ids.len() > 0 {
                put_blank(tokens, ids[0], self.nl(0));
                shift = 1;
            }
            self.wrap_items(tokens, &ids, 0, shift, true, Ghost(h));
            self.indent = saved_indent;
            self.offset = saved_offset;
        }
        self.process_default(tokens, before, true, Ghost(h));
    }

    /// Breaks the line before the first token of each branch after the
    /// first.
    fn break_branches(&self, tokens: &mut Vec<Token>, cases: &Vec<CaseBranch>, Ghost(h): Ghost<nat>)
        requires
            all_wf(old(tokens)@),
            groups_bounded(old(tokens)@, h),
        ensures
            kept(old(tokens)@, final(tokens)@, h),
            views(final(tokens)@) == branches_broken(
                self.settings(),
                self.state(),
                views(old(tokens)@),
                branch_views(cases@),
                1,
                0,
            ),
    {
        let ghost cfg = self.settings();
        let ghost st = self.state();
        let ghost target = branches_broken(cfg, st, views(tokens@), branch_views(cases@), 1, 0);
        let mut shift: usize = 0;
        let mut k: usize = 1;
        while k < cases.len()
            invariant
                kept(old(tokens)@, tokens@, h),
                all_wf(tokens@),
                cfg == self.settings(),
                st == self.state(),
                target == branches_broken(
                    cfg,
                    st,
                    views(tokens@),
                    branch_views(cases@),
                    k as int,
                    shift as int,
                ),
            decreases cases@.len() - k,
        {
            let start = branch_start(&cases[k]);
            let count: usize = tokens.len();
            k += 1;
            match start {
                Some(orig) => {
                    if orig <= usize::MAX - shift && orig + shift <= count {
                        put_blank(tokens, orig + shift, self.nl(0));
                        let n: usize = tokens.len();
                        assert(shift < n);
                        shift += 1;
                    }
                },
                None => {},
            }
        }
    }

    /// A `CASE`: each branch after the first starts a line, aligned with
    /// the first, and so does the `END`, aligned with the `CASE`.
    fn process_case(&mut self, tokens: &mut Vec<Token>, before: LineState, Ghost(h): Ghost<nat>)
        requires
            all_wf(old(tokens)@),
            groups_bounded(old(tokens)@, h),
        ensures
            reshaped(old(tokens)@, final(tokens)@),
            old(tokens)@.len() > 0 ==> final(tokens)@.len() > 0,
            final(self).settings() == old(self).settings(),
            (final(self).state(), views(final(tokens)@)) == case_done(
                old(self).settings(),
                old(self).state(),
                views(old(tokens)@),
                before,
                h,
            ),
        decreases h, 2nat,
    {
        let cases = get_cases(tokens, false);
        if cases.len() == 0 || cases[0].condition.len() == 0 {
            return ;
        }
        let first = cases[0].condition[0];
        let saved_offset = self.offset;
        let outer = self.get_offset(before, tokens, 0);
        self.offset = add_clamped(self.offset, outer);
        let with_outer = self.offset;
        let inner = self.get_offset(before, tokens, first);
        self.offset = add_clamped(self.offset, inner);
        self.break_branches(tokens, &cases, Ghost(h));
        self.offset = add_clamped(self.offset, 5);
        self.process_default(tokens, before, true, Ghost(h));
        self.offset = with_outer;
        let end = find_word(tokens, "END", 0);
        if end < tokens.len() {
            put_blank(tokens, end, self.nl(0));
        }
        self.offset = saved_offset;
    }

    /// `VALUES`: the keyword starts a line, and each tuple after the first
    /// starts a line, aligned with the first. The tuples are visited one
    /// after the other, at most as many as the list has tokens.
    fn process_values(&mut self, tokens: &mut Vec<Token>, before: LineState, Ghost(h): Ghost<nat>)
        requires
            all_wf(old(tokens)@),
            groups_bounded(old(tokens)@, h),
        ensures
            reshaped(old(tokens)@, final(tokens)@),
            old(tokens)@.len() > 0 ==> final(tokens)@.len() > 0,
            final(self).settings() == old(self).settings(),
            (final(self).state(), views(final(tokens)@)) == values_done(
                old(self).settings(),
                old(self).state(),
                views(old(tokens)@),
                before,
                h,
            ),
        decreases h, 2nat,
    {
        let ghost cfg = self.settings();
        let ghost st = self.state();
        put_blank(tokens, 0, self.nl(0));
        let first = find_kind(tokens, TokenType::Parenthesis, TokenType::Parenthesis, 0);
        let mut tidx = first;
        let mut tuples: usize = tokens.len();
        let ghost target = tuples_broken(
            cfg,
            st,
            views(tokens@),
            before,
            first as int,
            tidx as int,
            tuples as nat,
        );
        while tuples > 0 && tidx < tokens.len()
            invariant
                kept(old(tokens)@, tokens@, h),
                all_wf(tokens@),
                tokens@.len() > 0,
                cfg == self.settings(),
                st == self.state(),
                target == tuples_broken(
                    cfg,
                    st,
                    views(tokens@),
                    before,
                    first as int,
                    tidx as int,
                    tuples as nat,
                ),
            decreases tuples,
        {
            tuples -= 1;
            let n: usize = tokens.len();
            let comma = find_punct(tokens, ",", tidx + 1);
            if comma < n {
                if self.comma_first {
                    let base = self.get_offset(before, tokens, first);
                    put_blank(tokens, comma, self.nl(sub_clamped(base, 2)));
                } else {
                    let shift = self.get_offset(before, tokens, tidx);
                    let next = next_from(tokens, comma + 1, true);
                    proof {
                        lemma_first_solid(tokens@, comma + 1, next);
                    }
                    match next {
                        Some(next) => put_blank(tokens, next, self.nl(shift)),
                        None => put_blank(tokens, n, self.nl(shift)),
                    }
                }
            }
            tidx = find_kind(tokens, TokenType::Parenthesis, TokenType::Parenthesis, tidx + 1);
        }
    }

    /// Reindents one statement: the statement becomes what the filter
    /// makes of it. The filter starts each statement in the state of a
    /// filter that has seen nothing yet.
    pub fn process(&mut self, token_list: &mut TokenList)
        requires
            all_wf(old(token_list).tokens@),
        ensures
            reshaped(old(token_list).tokens@, final(token_list).tokens@),
            final(self).settings() == old(self).settings(),
            (final(self).state(), views(final(token_list).tokens@)) == reindented(
                old(self).settings(),
                views(old(token_list).tokens@),
            ),
    {
        proof {
            lemma_groups_bounded(token_list.tokens@);
            crate::content::lemma_view_height(token_list.tokens@);
        }
        let ghost h = height(token_list.tokens@);
        self.indent = if self.indent_after_first {
            1
        } else {
            0
        };
        self.offset = 0;
        self.last_func_len = None;
        self.in_function = 0;
        self.in_values = 0;
        self.process_default(&mut token_list.tokens, LineState::start(), true, Ghost(h));
    }
}

} // verus!
