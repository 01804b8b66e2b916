//! What the reindent filter makes of a statement, as a function of the
//! statement, of what the filter was made with and of the state it is in.

use crate::content::view_height;
use crate::engine::grouping::first_solid;
use crate::engine::passes::last_solid;
use crate::filters::edit::{blank_of, clamp, last_line_len, line_start, state_after, LineState};
use crate::filters::layout::{
    branch_first, case_branches, first_of_kinds, first_punct, first_word, item_indices,
    next_split, BranchView,
};
use crate::filters::model::{blank_view, with_children};
use crate::filters::reindent::ReindentSettings;
use crate::text::ends_with_break;
use crate::tokens::{is_group_type, is_whitespace_type, TokenType, TokenView};
use vstd::prelude::*;

verus! {

/// What a reindent filter keeps while it works: the level of indentation,
/// the offset of the lines within the level, the length of the name of the
/// last function it has seen, and in how many functions and lists of values
/// it stands.
pub ghost struct ReindentState {
    pub indent: usize,
    pub offset: i64,
    pub last_func_len: Option<usize>,
    pub in_function: usize,
    pub in_values: usize,
}

/// The state of a filter that has seen nothing yet.
pub open spec fn fresh_state(cfg: ReindentSettings) -> ReindentState {
    ReindentState {
        indent: if cfg.indent_after_first {
            1
        } else {
            0
        },
        offset: 0,
        last_func_len: None,
        in_function: 0,
        in_values: 0,
    }
}

/// `n + 1`, or `n` where that is the largest number.
pub open spec fn one_more(n: usize) -> usize {
    if n < usize::MAX {
        (n + 1) as usize
    } else {
        n
    }
}

/// The state one level deeper.
pub open spec fn deeper(st: ReindentState) -> ReindentState {
    ReindentState { indent: one_more(st.indent), ..st }
}

/// The state with the offset moved by `by`.
pub open spec fn shifted(st: ReindentState, by: int) -> ReindentState {
    ReindentState { offset: clamp(st.offset + by) as i64, ..st }
}

/// The state `st` with the level and the offset of `at`.
pub open spec fn back_at(st: ReindentState, at: ReindentState) -> ReindentState {
    ReindentState { indent: at.indent, offset: at.offset, ..st }
}

/// The number of indent characters at the start of a line: the offset and
/// the width for each level.
pub open spec fn leading(cfg: ReindentSettings, st: ReindentState) -> int {
    clamp(st.offset + clamp(clamp(st.indent as int) * clamp(cfg.width as int)))
}

/// How far the token at `idx` of `s` stands to the right of the indentation
/// of its line, where the text before `s` ends in `before`.
pub open spec fn offset_at(
    cfg: ReindentSettings,
    st: ReindentState,
    before: LineState,
    s: Seq<TokenView>,
    idx: int,
) -> int {
    let line = last_line_len(state_after(before, s, idx));
    let lead = if leading(cfg, st) > 0 {
        leading(cfg, st)
    } else {
        0
    };
    clamp(line - clamp(clamp(cfg.chr.len() as int) * lead))
}

/// A line break and the indentation of the line, `offset` characters
/// further to the right.
pub open spec fn line_break(cfg: ReindentSettings, st: ReindentState, offset: int) -> TokenView {
    blank_of(cfg.n, cfg.chr, clamp(leading(cfg, st) + offset))
}

/// The list `s` with a line broken before the token at `tidx`, and the new
/// index of that token: blank space directly before it is gone, and a line
/// break has taken its place, unless the token is the first of the list or,
/// where `after_break` allows it, stands after a line break already.
pub open spec fn broken_before(
    cfg: ReindentSettings,
    st: ReindentState,
    s: Seq<TokenView>,
    tidx: int,
    after_break: bool,
) -> (Seq<TokenView>, int) {
    if tidx <= 0 || tidx >= s.len() {
        (s, tidx)
    } else {
        let ends = ends_with_break(s[tidx - 1].value);
        let (bare, at) = if is_whitespace_type(s[tidx - 1].typ) {
            (s.remove(tidx - 1), tidx - 1)
        } else {
            (s, tidx)
        };
        if after_break && ends {
            (bare, at)
        } else {
            (bare.insert(at, line_break(cfg, st, 0)), at + 1)
        }
    }
}

/// The list `s` with a line broken before each keyword from the one at
/// `tidx` on that starts a clause.
pub open spec fn clauses_broken(
    cfg: ReindentSettings,
    st: ReindentState,
    s: Seq<TokenView>,
    tidx: int,
) -> Seq<TokenView>
    decreases s.len() - tidx,
{
    if tidx < 0 || tidx >= s.len() {
        s
    } else {
        let next = broken_before(cfg, st, s, tidx, true).0;
        let found = next_split(next, broken_before(cfg, st, s, tidx, true).1 + 1, false);
        if 0 < next.len() - found < s.len() - tidx {
            clauses_broken(cfg, st, next, found)
        } else {
            next
        }
    }
}

/// The list `s` with a line broken before each keyword from the one at
/// `tidx` on that starts a statement.
pub open spec fn statements_broken(
    cfg: ReindentSettings,
    st: ReindentState,
    s: Seq<TokenView>,
    tidx: int,
) -> Seq<TokenView>
    decreases s.len() - tidx,
{
    if tidx < 0 || tidx >= s.len() {
        s
    } else {
        let next = broken_before(cfg, st, s, tidx, false).0;
        let found = first_of_kinds(
            next,
            TokenType::KeywordDML,
            TokenType::KeywordDDL,
            broken_before(cfg, st, s, tidx, false).1 + 1,
        );
        if 0 < next.len() - found < s.len() - tidx {
            statements_broken(cfg, st, next, found)
        } else {
            next
        }
    }
}

/// The length of the value of the token at `i`, as the filter counts it.
pub open spec fn width_at(s: Seq<TokenView>, i: int) -> int {
    clamp(clamp(s[i].value.len() as int) + 1)
}

/// The list `s` with lines broken before its items from the `k`th on.
/// `ids` holds the indices that the items had at first, `shift` the number
/// of tokens that have come before them since, `position` the width of the
/// items of the line. An item starts a line where the line is wider with
/// it than `wrap_after` allows. Within a call, where `in_call` is set, that
/// holds only with a `wrap_after` above 0. With `comma_first`, outside a
/// call, the line breaks before the comma, which a blank then follows.
pub open spec fn items_wrapped(
    cfg: ReindentSettings,
    st: ReindentState,
    s: Seq<TokenView>,
    ids: Seq<usize>,
    k: int,
    shift: int,
    position: int,
    in_call: bool,
) -> Seq<TokenView>
    decreases ids.len() - k,
{
    if k < 0 || k >= ids.len() {
        s
    } else if ids[k] + shift >= s.len() || shift < 0 {
        items_wrapped(cfg, st, s, ids, k + 1, shift, position, in_call)
    } else {
        let idx = ids[k] + shift;
        let wide = clamp(position + width_at(s, idx));
        let limit = clamp(clamp(cfg.wrap_after as int) - st.offset);
        if wide > limit && (cfg.wrap_after > 0 || !in_call) {
            if cfg.comma_first && !in_call {
                let comma = last_solid(s, idx);
                if comma < 0 {
                    items_wrapped(cfg, st, s, ids, k + 1, shift, wide, in_call)
                } else {
                    let broken = s.insert(comma, line_break(cfg, st, -2));
                    if comma + 2 < broken.len() && broken[comma + 2].typ != TokenType::Whitespace {
                        items_wrapped(
                            cfg,
                            st,
                            broken.insert(comma + 2, blank_view()),
                            ids,
                            k + 1,
                            shift + 2,
                            0,
                            in_call,
                        )
                    } else {
                        items_wrapped(cfg, st, broken, ids, k + 1, shift + 1, 0, in_call)
                    }
                }
            } else {
                items_wrapped(
                    cfg,
                    st,
                    s.insert(idx, line_break(cfg, st, 0)),
                    ids,
                    k + 1,
                    shift + 1,
                    0,
                    in_call,
                )
            }
        } else {
            items_wrapped(cfg, st, s, ids, k + 1, shift, wide, in_call)
        }
    }
}

/// The list `s` with a blank behind each comma from the token at `i` on
/// that blank space does not follow.
pub open spec fn commas_spaced(s: Seq<TokenView>, i: int) -> Seq<TokenView>
    decreases s.len() - i,
{
    if i < 0 || i >= s.len() {
        s
    } else if s[i].value == ","@ && i + 1 < s.len() && !is_whitespace_type(s[i + 1].typ) {
        commas_spaced(s.insert(i + 1, blank_view()), i + 2)
    } else {
        commas_spaced(s, i + 1)
    }
}

/// `start` and the widths of the first `k` of the tokens of `s` that `ids`
/// names.
pub open spec fn widths_sum(s: Seq<TokenView>, ids: Seq<usize>, k: int, start: int) -> int
    decreases k,
{
    if k <= 0 || k > ids.len() {
        start
    } else {
        clamp(widths_sum(s, ids, k - 1, start) + width_at(s, ids[k - 1] as int))
    }
}

/// The list `s` with a line broken before the first token of each branch
/// from the `k`th on; `shift` tokens have come before them since `cases`
/// was made.
pub open spec fn branches_broken(
    cfg: ReindentSettings,
    st: ReindentState,
    s: Seq<TokenView>,
    cases: Seq<BranchView>,
    k: int,
    shift: int,
) -> Seq<TokenView>
    decreases cases.len() - k,
{
    if k < 0 || k >= cases.len() {
        s
    } else {
        match branch_first(cases[k]) {
            Some(orig) => if 0 <= orig + shift <= s.len() {
                branches_broken(
                    cfg,
                    st,
                    s.insert(orig + shift, line_break(cfg, st, 0)),
                    cases,
                    k + 1,
                    shift + 1,
                )
            } else {
                branches_broken(cfg, st, s, cases, k + 1, shift)
            },
            None => branches_broken(cfg, st, s, cases, k + 1, shift),
        }
    }
}

/// The list `s` with a line broken behind the comma that follows each tuple
/// of values, from the tuple at `tidx` on, for at most `tuples` of them.
/// `first` is the index of the first tuple. The line is indented to the
/// tuple before it; with `comma_first` the line breaks before the comma,
/// and is indented to two characters before the first tuple.
pub open spec fn tuples_broken(
    cfg: ReindentSettings,
    st: ReindentState,
    s: Seq<TokenView>,
    before: LineState,
    first: int,
    tidx: int,
    tuples: nat,
) -> Seq<TokenView>
    decreases tuples,
{
    if tuples == 0 || tidx < 0 || tidx >= s.len() {
        s
    } else {
        let comma = first_punct(s, ","@, tidx + 1);
        let next = if comma >= s.len() {
            s
        } else if cfg.comma_first {
            s.insert(comma, line_break(cfg, st, clamp(offset_at(cfg, st, before, s, first) - 2)))
        } else {
            s.insert(
                first_solid(s, comma + 1),
                line_break(cfg, st, offset_at(cfg, st, before, s, tidx)),
            )
        };
        tuples_broken(
            cfg,
            st,
            next,
            before,
            first,
            first_of_kinds(next, TokenType::Parenthesis, TokenType::Parenthesis, tidx + 1),
            (tuples - 1) as nat,
        )
    }
}

/// What the filter makes of the groups among the first `n` tokens of `s`,
/// and the state it is in after them: each group has the children that the
/// filter makes of its children. Groups nested deeper than `depth` stay as
/// they are.
pub open spec fn children_done(
    cfg: ReindentSettings,
    st: ReindentState,
    s: Seq<TokenView>,
    before: LineState,
    depth: nat,
    n: int,
) -> (ReindentState, Seq<TokenView>)
    decreases depth, 0nat, n,
{
    if n <= 0 || n > s.len() {
        (st, s)
    } else {
        let (st1, s1) = children_done(cfg, st, s, before, depth, n - 1);
        if n <= s1.len() && is_group_type(s1[n - 1].typ) && depth > 0 {
            let t = s1[n - 1];
            let here = state_after(before, s1, n - 1);
            let (st2, kids) = group_done(cfg, st1, t.children, t.typ, here, (depth - 1) as nat);
            (st2, s1.update(n - 1, with_children(t, kids)))
        } else {
            (st1, s1)
        }
    }
}

/// What the filter makes of a list: lines break before the keywords that
/// start a statement, if `stmts` is set, and before those that start a
/// clause, and the groups of the list are reindented.
pub open spec fn default_done(
    cfg: ReindentSettings,
    st: ReindentState,
    s: Seq<TokenView>,
    before: LineState,
    stmts: bool,
    depth: nat,
) -> (ReindentState, Seq<TokenView>)
    decreases depth, 1nat, 0int,
{
    let s1 = if stmts {
        statements_broken(
            cfg,
            st,
            s,
            first_of_kinds(s, TokenType::KeywordDML, TokenType::KeywordDDL, 0),
        )
    } else {
        s
    };
    let s2 = clauses_broken(cfg, st, s1, next_split(s1, 0, false));
    children_done(cfg, st, s2, before, depth, s2.len() as int)
}

/// What the filter makes of the children `s` of a group of kind `kind`.
pub open spec fn group_done(
    cfg: ReindentSettings,
    st: ReindentState,
    s: Seq<TokenView>,
    kind: TokenType,
    before: LineState,
    depth: nat,
) -> (ReindentState, Seq<TokenView>)
    decreases depth, 3nat, 0int,
{
    match kind {
        TokenType::Where => where_done(cfg, st, s, before, "WHERE"@, depth),
        TokenType::Having => where_done(cfg, st, s, before, "HAVING"@, depth),
        TokenType::Parenthesis => parenthesis_done(cfg, st, s, before, depth),
        TokenType::Function => {
            let named = ReindentState {
                last_func_len: if s.len() > 0 {
                    Some(s[0].value.len() as usize)
                } else {
                    st.last_func_len
                },
                in_function: one_more(st.in_function),
                ..st
            };
            let (st1, s1) = default_done(cfg, named, s, before, true, depth);
            (ReindentState { in_function: st.in_function, ..st1 }, s1)
        },
        TokenType::IdentifierList => list_done(cfg, st, s, before, depth),
        TokenType::Case => case_done(cfg, st, s, before, depth),
        TokenType::Values => {
            let inside = ReindentState { in_values: one_more(st.in_values), ..st };
            let (st1, s1) = values_done(cfg, inside, s, before, depth);
            (ReindentState { in_values: st.in_values, ..st1 }, s1)
        },
        _ => default_done(cfg, st, s, before, true, depth),
    }
}

/// A `WHERE` or `HAVING` clause: a line breaks before the keyword `head`,
/// and the rest stands one level deeper. Without the keyword the list stays
/// as it is.
pub open spec fn where_done(
    cfg: ReindentSettings,
    st: ReindentState,
    s: Seq<TokenView>,
    before: LineState,
    head: Seq<char>,
    depth: nat,
) -> (ReindentState, Seq<TokenView>)
    decreases depth, 2nat, 0int,
{
    let i = first_word(s, head, 0);
    if i >= s.len() {
        (st, s)
    } else {
        let (st1, s1) = default_done(
            cfg,
            deeper(st),
            s.insert(i, line_break(cfg, st, 0)),
            before,
            true,
            depth,
        );
        (ReindentState { indent: st.indent, ..st1 }, s1)
    }
}

/// A parenthesis: one with a statement inside starts on a line of its own,
/// one level deeper; the inside is indented to stand behind the `(`.
/// Without a `(` the list stays as it is.
pub open spec fn parenthesis_done(
    cfg: ReindentSettings,
    st: ReindentState,
    s: Seq<TokenView>,
    before: LineState,
    depth: nat,
) -> (ReindentState, Seq<TokenView>)
    decreases depth, 2nat, 0int,
{
    let is_dml = first_of_kinds(s, TokenType::KeywordDML, TokenType::KeywordDDL, 0) < s.len();
    let first = first_punct(s, "("@, 0);
    if first >= s.len() {
        (st, s)
    } else {
        let st1 = if is_dml {
            deeper(st)
        } else {
            st
        };
        let s1 = if is_dml {
            s.insert(0, line_break(cfg, st1, 0))
        } else {
            s
        };
        let at = if is_dml {
            first + 1
        } else {
            first
        };
        let st2 = shifted(st1, clamp(offset_at(cfg, st1, before, s1, at) + 1));
        let (st3, s3) = default_done(cfg, st2, s1, before, !is_dml, depth);
        (back_at(st3, st), s3)
    }
}

/// A list: each item after the first starts a line, aligned with the first,
/// unless the list stands in a function or among values. With `wrap_after`,
/// items share a line as long as they fit.
pub open spec fn list_done(
    cfg: ReindentSettings,
    st: ReindentState,
    s: Seq<TokenView>,
    before: LineState,
    depth: nat,
) -> (ReindentState, Seq<TokenView>)
    decreases depth, 2nat, 0int,
{
    let ids = item_indices(s);
    if ids.len() == 0 {
        default_done(cfg, st, s, before, true, depth)
    } else if st.in_function == 0 && st.in_values == 0 {
        let by = if cfg.chr == "\t"@ {
            1
        } else if cfg.indent_columns {
            clamp(cfg.width as int)
        } else {
            offset_at(cfg, st, before, s, ids[0] as int)
        };
        let skip: int = if cfg.indent_columns {
            0
        } else {
            1
        };
        let wrapped = items_wrapped(cfg, shifted(st, by), s, ids, skip, 0, 0, false);
        default_done(cfg, st, wrapped, before, true, depth)
    } else {
        let spaced = commas_spaced(s, 0);
        let items = item_indices(spaced);
        let end_at = widths_sum(spaced, items, items.len() as int, st.offset as int);
        let back = if cfg.wrap_after > 0 && end_at > clamp(
            clamp(cfg.wrap_after as int) - st.offset,
        ) {
            match st.last_func_len {
                Some(len) => clamp(clamp(0 - clamp(len as int)) - 1),
                None => 0,
            }
        } else {
            0
        };
        let inner = deeper(shifted(st, back));
        let opened = if back < 0 && items.len() > 0 {
            spaced.insert(items[0] as int, line_break(cfg, inner, 0))
        } else {
            spaced
        };
        let shift: int = if back < 0 && items.len() > 0 {
            1
        } else {
            0
        };
        let wrapped = items_wrapped(cfg, inner, opened, items, 0, shift, 0, true);
        default_done(cfg, st, wrapped, before, true, depth)
    }
}

/// A `CASE`: each branch after the first starts a line, aligned with the
/// first, and so does the `END`, aligned with the `CASE`. A `CASE` without
/// a condition stays as it is.
pub open spec fn case_done(
    cfg: ReindentSettings,
    st: ReindentState,
    s: Seq<TokenView>,
    before: LineState,
    depth: nat,
) -> (ReindentState, Seq<TokenView>)
    decreases depth, 2nat, 0int,
{
    let cases = case_branches(s, false);
    if cases.len() == 0 || cases[0].condition.len() == 0 {
        (st, s)
    } else {
        let outer = shifted(st, offset_at(cfg, st, before, s, 0));
        let inner = shifted(outer, offset_at(cfg, outer, before, s, cases[0].condition[0] as int));
        let broken = branches_broken(cfg, inner, s, cases, 1, 0);
        let (st1, s1) = default_done(cfg, shifted(inner, 5), broken, before, true, depth);
        let at_end = ReindentState { offset: outer.offset, ..st1 };
        let end = first_word(s1, "END"@, 0);
        let closed = if end < s1.len() {
            s1.insert(end, line_break(cfg, at_end, 0))
        } else {
            s1
        };
        (ReindentState { offset: st.offset, ..st1 }, closed)
    }
}

/// `VALUES`: the keyword starts a line, and each tuple after the first
/// starts a line, aligned with the first.
pub open spec fn values_done(
    cfg: ReindentSettings,
    st: ReindentState,
    s: Seq<TokenView>,
    before: LineState,
    depth: nat,
) -> (ReindentState, Seq<TokenView>)
    decreases depth, 2nat, 0int,
{
    let s1 = s.insert(0, line_break(cfg, st, 0));
    let first = first_of_kinds(s1, TokenType::Parenthesis, TokenType::Parenthesis, 0);
    (st, tuples_broken(cfg, st, s1, before, first, first, s1.len()))
}

/// What the filter makes of the statement `s`, and the state it is in
/// after it. Each statement is reindented from the state of a filter that
/// has seen nothing yet.
pub open spec fn reindented(cfg: ReindentSettings, s: Seq<TokenView>) -> (
    ReindentState,
    Seq<TokenView>,
) {
    default_done(cfg, fresh_state(cfg), s, line_start(), true, view_height(s))
}

} // verus!
