//! What the aligned-indent filter makes of a statement, as a function of
//! the statement, of what the filter was made with and of the state it is
//! in.

use crate::content::view_height;
use crate::engine::grouping::{first_solid, is_word};
use crate::engine::passes::last_solid;
use crate::filters::edit::{blank_of, clamp};
use crate::filters::layout::{
    branch_first, case_branches, first_word, is_by_word, is_joining, item_indices, next_split,
    BranchView,
};
use crate::filters::model::with_children;
use crate::filters::reindent_model::one_more;
use crate::text::first_word_end;
use crate::tokens::{is_group_type, is_whitespace_type, TokenType, TokenView};
use vstd::prelude::*;

verus! {

/// What an aligned-indent filter was made with: the character it indents
/// with and the line break it ends lines with.
pub ghost struct AlignedSettings {
    pub chr: Seq<char>,
    pub n: Seq<char>,
}

/// What an aligned-indent filter keeps while it works: the offset of the
/// lines, the level of the statements in parentheses, and the width of the
/// column of the keywords.
pub ghost struct AlignedState {
    pub offset: i64,
    pub indent: usize,
    pub max_kwd_len: i64,
}

/// The state of a filter that has seen nothing yet: the column of the
/// keywords is as wide as `SELECT`.
pub open spec fn fresh_aligned() -> AlignedState {
    AlignedState { offset: 0, indent: 0, max_kwd_len: 6 }
}

/// A line break and the indentation that sets what follows `offset`
/// characters behind the column of the keywords. A statement in parentheses
/// stands two characters and the column further right for each level.
pub open spec fn aligned_break(cfg: AlignedSettings, st: AlignedState, offset: int) -> TokenView {
    let width = if st.max_kwd_len > 0 {
        st.max_kwd_len as int
    } else {
        0
    };
    let indent = clamp(clamp(st.indent as int) * clamp(2 + width));
    blank_of(cfg.n, cfg.chr, clamp(clamp(clamp(st.max_kwd_len + offset) + indent) + st.offset))
}

/// The length of what stands flush right in the column of the keywords:
/// of the first word of a join, of `GROUP BY` and of `ORDER BY`, of the
/// whole of any other keyword.
pub open spec fn flush_len(t: TokenView) -> int {
    if is_joining(t) || is_by_word(t) {
        first_word_end(t.value, 0)
    } else {
        t.value.len() as int
    }
}

/// The list `s` with a line started before each keyword from the one at
/// `tidx` on that starts a clause, indented so that the keyword ends with
/// the column.
pub open spec fn aligned_clauses(
    cfg: AlignedSettings,
    st: AlignedState,
    s: Seq<TokenView>,
    tidx: int,
) -> Seq<TokenView>
    decreases s.len() - tidx,
{
    if tidx < 0 || tidx >= s.len() {
        s
    } else {
        let next = s.insert(tidx, aligned_break(cfg, st, clamp(0 - clamp(flush_len(s[tidx])))));
        let found = next_split(next, tidx + 2, true);
        if 0 < next.len() - found < s.len() - tidx {
            aligned_clauses(cfg, st, next, found)
        } else {
            next
        }
    }
}

/// Whether the group at `i` of `s` follows `GROUP BY` or `ORDER BY`, blank
/// space apart.
pub open spec fn follows_by(s: Seq<TokenView>, i: int) -> bool {
    0 <= last_solid(s, i) < s.len() && is_by_word(s[last_solid(s, i)])
}

/// The list `s` with a line started before each item after the first; `ids`
/// holds the indices that the items had at first, `shift` the number of
/// tokens that have come before the `k`th since.
pub open spec fn items_broken(
    cfg: AlignedSettings,
    st: AlignedState,
    s: Seq<TokenView>,
    ids: Seq<usize>,
    k: int,
    shift: int,
) -> Seq<TokenView>
    decreases ids.len() - k,
{
    if k < 0 || k >= ids.len() {
        s
    } else if 0 <= ids[k] + shift <= s.len() {
        items_broken(
            cfg,
            st,
            s.insert(ids[k] + shift, aligned_break(cfg, st, 1)),
            ids,
            k + 1,
            shift + 1,
        )
    } else {
        items_broken(cfg, st, s, ids, k + 1, shift)
    }
}

/// The width of the first `k` tokens of a condition: the lengths of the
/// tokens and one blank between each two of them.
pub open spec fn condition_width(s: Seq<TokenView>, condition: Seq<usize>, k: int) -> int
    decreases k,
{
    if k <= 0 || k > condition.len() {
        0
    } else {
        let front = condition_width(s, condition, k - 1);
        let here = if condition[k - 1] < s.len() {
            clamp(front + clamp(s[condition[k - 1] as int].value.len() as int))
        } else {
            front
        };
        if k > 1 {
            clamp(here + 1)
        } else {
            here
        }
    }
}

/// The width of the condition of a branch, 0 for a branch without one.
pub open spec fn branch_width(s: Seq<TokenView>, branch: BranchView) -> int {
    if branch.has_condition {
        condition_width(s, branch.condition, branch.condition.len() as int)
    } else {
        0
    }
}

/// The width of the widest condition among the first `k` branches.
pub open spec fn widest(s: Seq<TokenView>, cases: Seq<BranchView>, k: int) -> int
    decreases k,
{
    if k <= 0 || k > cases.len() {
        0
    } else if branch_width(s, cases[k - 1]) > widest(s, cases, k - 1) {
        branch_width(s, cases[k - 1])
    } else {
        widest(s, cases, k - 1)
    }
}

/// The list `s` with the branches from the `k`th on aligned: each branch
/// after the first starts a line, its keyword flush right in a column ten
/// wide, and blank space behind each condition sets the values in one
/// column. `origin` is the list in which the conditions were measured,
/// `shift` the number of tokens that have come before the branch since.
pub open spec fn branches_aligned(
    cfg: AlignedSettings,
    st: AlignedState,
    s: Seq<TokenView>,
    origin: Seq<TokenView>,
    cases: Seq<BranchView>,
    k: int,
    shift: int,
) -> Seq<TokenView>
    decreases cases.len() - k,
{
    if k < 0 || k >= cases.len() {
        s
    } else {
        match branch_first(cases[k]) {
            None => branches_aligned(cfg, st, s, origin, cases, k + 1, shift),
            Some(start) => if shift < 0 || start + shift >= s.len() {
                branches_aligned(cfg, st, s, origin, cases, k + 1, shift)
            } else {
                let at = start + shift;
                let broken = if k > 0 {
                    s.insert(at, aligned_break(cfg, st, clamp(10 - clamp(s[at].value.len() as int))))
                } else {
                    s
                };
                let moved = if k > 0 {
                    shift + 1
                } else {
                    shift
                };
                if cases[k].has_condition && cases[k].condition.len() > 0
                    && cases[k].condition.last() + moved < broken.len() {
                    let pad = blank_of(
                        Seq::empty(),
                        cfg.chr,
                        clamp(
                            widest(origin, cases, cases.len() as int) - branch_width(
                                origin,
                                cases[k],
                            ),
                        ),
                    );
                    branches_aligned(
                        cfg,
                        st,
                        broken.insert(
                            first_solid(broken, cases[k].condition.last() + moved + 1),
                            pad,
                        ),
                        origin,
                        cases,
                        k + 1,
                        moved + 1,
                    )
                } else {
                    branches_aligned(cfg, st, broken, origin, cases, k + 1, moved)
                }
            },
        }
    }
}

/// Whether `t` is the statement keyword `SELECT`.
pub open spec fn is_select(t: TokenView) -> bool {
    t.typ == TokenType::KeywordDML && is_word(t, "SELECT"@)
}

/// The index of the first `SELECT` of `s` at or after `i`, or the length
/// of `s` if there is none.
pub open spec fn first_select(s: Seq<TokenView>, i: int) -> int
    decreases s.len() - i,
{
    if 0 <= i < s.len() && !is_select(s[i]) {
        first_select(s, i + 1)
    } else if i > s.len() {
        s.len() as int
    } else {
        i
    }
}

/// What the filter makes of the groups among the first `n` tokens of `s`:
/// each group has the children that the filter makes of its children. What
/// follows `GROUP BY` or `ORDER BY` stands three characters further right.
/// Groups nested deeper than `depth` stay as they are.
pub open spec fn aligned_children(
    cfg: AlignedSettings,
    st: AlignedState,
    s: Seq<TokenView>,
    depth: nat,
    n: int,
) -> Seq<TokenView>
    decreases depth, 0nat, n,
{
    if n <= 0 || n > s.len() {
        s
    } else {
        let s1 = aligned_children(cfg, st, s, depth, n - 1);
        if n <= s1.len() && is_group_type(s1[n - 1].typ) && depth > 0 {
            let t = s1[n - 1];
            let inner = if follows_by(s1, n - 1) {
                AlignedState { offset: clamp(st.offset + 3) as i64, ..st }
            } else {
                st
            };
            s1.update(
                n - 1,
                with_children(t, aligned_group(cfg, inner, t.children, t.typ, (depth - 1) as nat)),
            )
        } else {
            s1
        }
    }
}

/// What the filter makes of a list: a line starts before each keyword that
/// starts a clause, and the groups of the list are aligned.
pub open spec fn aligned_default(
    cfg: AlignedSettings,
    st: AlignedState,
    s: Seq<TokenView>,
    depth: nat,
) -> Seq<TokenView>
    decreases depth, 1nat, 0int,
{
    let s1 = aligned_clauses(cfg, st, s, next_split(s, 0, true));
    aligned_children(cfg, st, s1, depth, s1.len() as int)
}

/// What the filter makes of the children `s` of a group of kind `kind`.
pub open spec fn aligned_group(
    cfg: AlignedSettings,
    st: AlignedState,
    s: Seq<TokenView>,
    kind: TokenType,
    depth: nat,
) -> Seq<TokenView>
    decreases depth, 3nat, 0int,
{
    match kind {
        TokenType::Parenthesis => aligned_parenthesis(cfg, st, s, depth),
        TokenType::IdentifierList => aligned_list(cfg, st, s, depth),
        TokenType::Case => aligned_case(cfg, st, s),
        _ => aligned_default(cfg, st, s, depth),
    }
}

/// A parenthesis with a `SELECT` inside: the statement starts on a line of
/// its own, one level deeper, and the last token starts a line. Any other
/// parenthesis stays as it is.
pub open spec fn aligned_parenthesis(
    cfg: AlignedSettings,
    st: AlignedState,
    s: Seq<TokenView>,
    depth: nat,
) -> Seq<TokenView>
    decreases depth, 2nat, 0int,
{
    if first_select(s, 0) >= s.len() {
        s
    } else {
        let inner = AlignedState { indent: one_more(st.indent), ..st };
        let opened = s.insert(first_solid(s, 1), aligned_break(cfg, inner, -6));
        let done = aligned_default(cfg, inner, opened, depth);
        if done.len() > 0 {
            done.insert(done.len() - 1, aligned_break(cfg, st, 1))
        } else {
            done
        }
    }
}

/// A list: each item after the first starts a line.
pub open spec fn aligned_list(
    cfg: AlignedSettings,
    st: AlignedState,
    s: Seq<TokenView>,
    depth: nat,
) -> Seq<TokenView>
    decreases depth, 2nat, 0int,
{
    aligned_default(cfg, st, items_broken(cfg, st, s, item_indices(s), 1, 0), depth)
}

/// A `CASE`: each branch after the first starts a line, with its keyword
/// flush right under the `WHEN` of the first, and so does the `END`; blank
/// space after each condition sets the values in one column. A `CASE`
/// without `END` stays as it is.
pub open spec fn aligned_case(cfg: AlignedSettings, st: AlignedState, s: Seq<TokenView>) -> Seq<
    TokenView,
> {
    let end = first_word(s, "END"@, 0);
    if end >= s.len() {
        s
    } else {
        let cases = case_branches(s, true).push(
            BranchView {
                has_condition: false,
                condition: Seq::empty(),
                value: seq![end as usize],
            },
        );
        branches_aligned(cfg, st, s, s, cases, 0, 0)
    }
}

/// What the filter makes of the statement `s`: blank space at the start of
/// the statement is gone, and the statement is aligned. Each statement is
/// aligned from the state of a filter that has seen nothing yet.
pub open spec fn aligned(cfg: AlignedSettings, s: Seq<TokenView>) -> Seq<TokenView> {
    let bare = if s.len() > 0 && is_whitespace_type(s[0].typ) {
        s.remove(0)
    } else {
        s
    };
    aligned_default(cfg, fresh_aligned(), bare, view_height(s))
}

} // verus!
