//! Laws of the simple filters. The whitespace filter changes nothing that
//! it has worked on already, on a list in which no two tokens of blank
//! space stand side by side at any depth. The operator filter leaves a
//! blank on each side of each operator and changes nothing that it has
//! worked on already. The comment filter leaves no comment at any depth and
//! changes nothing that it has worked on already.

use crate::content::is_comment_type;
use crate::filters::model::{
    comment_run, comments_stripped_inside, comments_stripped_statement, with_children, blank_view, is_operator_type, kind_at, space_run, spaced, spaced_each, spaced_statement,
    spaced_token, default_stripped, default_stripped_at, follows_newline, newline_stripped,
    newline_stripped_upto, newline_strips, parenthesis_stripped, whitespace_stripped,
    whitespace_stripped_each, whitespace_stripped_token,
};
use crate::content::{
    blank_leaves, blank_leaves_of, lemma_blank_leaves_concat, lemma_blank_leaves_one,
};
use crate::tokens::{
    all_wf, is_whitespace_type, lemma_view_children, views, Token, TokenType, TokenView,
};
use vstd::prelude::*;

verus! {

/// Whether the tokens at `i` and behind it are both blank space.
pub open spec fn blank_pair_at(s: Seq<TokenView>, i: int) -> bool {
    0 <= i && i + 1 < s.len() && is_whitespace_type(s[i].typ) && is_whitespace_type(s[i + 1].typ)
}

/// No two tokens of blank space stand side by side in the list.
pub open spec fn no_blank_pairs(s: Seq<TokenView>) -> bool {
    forall|i: int| !#[trigger] blank_pair_at(s, i)
}

/// No two tokens of blank space stand side by side, in the list and in the
/// children of any of its tokens, and no token of blank space has children.
pub open spec fn is_settled(s: Seq<TokenView>) -> bool
    decreases s,
{
    &&& no_blank_pairs(s)
    &&& forall|i: int|
        0 <= i < s.len() ==> {
            &&& is_whitespace_type((#[trigger] s[i]).typ) ==> s[i].children.len() == 0
            &&& is_settled(s[i].children)
        }
}

/// Two lists hold tokens of the same kinds, with the same children, that
/// differ at most in the values of their blank space.
pub open spec fn same_but_blanks(a: Seq<TokenView>, b: Seq<TokenView>) -> bool {
    &&& a.len() == b.len()
    &&& forall|i: int|
        0 <= i < a.len() ==> {
            &&& (#[trigger] a[i]).typ == b[i].typ
            &&& a[i].children == b[i].children
            &&& !is_whitespace_type(a[i].typ) ==> a[i].value == b[i].value
        }
}

proof fn lemma_no_newline_strips(s: Seq<TokenView>, n: nat)
    requires
        no_blank_pairs(s),
        n <= s.len(),
    ensures
        newline_stripped_upto(s, n) == s.subrange(0, n as int),
    decreases n,
{
    if n > 0 {
        lemma_no_newline_strips(s, (n - 1) as nat);
        if newline_strips(s, n - 1) {
            assert(follows_newline(s, n - 1));
            assert(blank_pair_at(s, n - 2));
        }
        assert(s.subrange(0, n as int) =~= s.subrange(0, n - 1).push(s[n - 1]));
    } else {
        assert(s.subrange(0, 0) =~= Seq::<TokenView>::empty());
    }
}

/// In a list without blank space side by side, no blank space follows a
/// token of kind `Newline`.
pub proof fn lemma_newline_stripped_same(s: Seq<TokenView>)
    requires
        no_blank_pairs(s),
    ensures
        newline_stripped(s) == s,
{
    lemma_no_newline_strips(s, s.len());
    assert(s.subrange(0, s.len() as int) =~= s);
}

/// `stripws_default` gives two lists that differ in the values of their
/// blank space at most the same values.
pub proof fn lemma_default_stripped_same(a: Seq<TokenView>, b: Seq<TokenView>)
    requires
        same_but_blanks(a, b),
    ensures
        default_stripped(a) == default_stripped(b),
{
    assert forall|i: int| 0 <= i < a.len() implies default_stripped_at(a, i) == default_stripped_at(
        b,
        i,
    ) by {
        if i > 0 {
            assert(a[i - 1].typ == b[i - 1].typ);
        }
    }
    assert(default_stripped(a) =~= default_stripped(b));
}

/// What `stripws_default` makes of a list differs from the list in the
/// values of its blank space at most.
pub proof fn lemma_default_stripped_blanks(a: Seq<TokenView>)
    ensures
        same_but_blanks(default_stripped(a), a),
{
}

/// A list without blank space side by side, without the token at `i`, which
/// is blank space, is without blank space side by side.
proof fn lemma_remove_blank_keeps(s: Seq<TokenView>, i: int)
    requires
        no_blank_pairs(s),
        0 <= i < s.len(),
        is_whitespace_type(s[i].typ),
    ensures
        no_blank_pairs(s.remove(i)),
{
    let r = s.remove(i);
    assert forall|k: int| !#[trigger] blank_pair_at(r, k) by {
        if blank_pair_at(r, k) {
            if k + 1 < i {
                assert(blank_pair_at(s, k));
            } else if k >= i {
                assert(r[k] == s[k + 1]);
                assert(r[k + 1] == s[k + 2]);
                assert(blank_pair_at(s, k + 1));
            } else {
                assert(r[k] == s[k]);
                assert(blank_pair_at(s, k));
            }
        }
    }
}

/// The cut of a parenthesis of a list without blank space side by side is
/// without blank space side by side, and a second cut changes nothing.
pub proof fn lemma_parenthesis_stripped_once(s: Seq<TokenView>)
    requires
        no_blank_pairs(s),
    ensures
        no_blank_pairs(parenthesis_stripped(s)),
        parenthesis_stripped(parenthesis_stripped(s)) == parenthesis_stripped(s),
{
    let first = if s.len() > 1 && is_whitespace_type(s[1].typ) {
        s.remove(1)
    } else {
        s
    };
    if s.len() > 1 && is_whitespace_type(s[1].typ) {
        lemma_remove_blank_keeps(s, 1);
        if first.len() > 1 {
            assert(first[1] == s[2]);
            assert(!blank_pair_at(s, 1));
        }
    }
    assert(first.len() > 1 ==> !is_whitespace_type(first[1].typ));
    let cut = parenthesis_stripped(s);
    if first.len() > 2 && is_whitespace_type(first[first.len() - 2].typ) {
        let k = first.len() - 2;
        lemma_remove_blank_keeps(first, k);
        assert(cut == first.remove(k));
        assert(k >= 2);
        assert(cut[1] == first[1]);
        if cut.len() > 2 {
            assert(cut[cut.len() - 2] == first[k - 1]);
            assert(!blank_pair_at(first, k - 1));
        }
    } else {
        assert(cut == first);
    }
    assert(cut.len() > 1 ==> !is_whitespace_type(cut[1].typ));
    assert(cut.len() > 2 ==> !is_whitespace_type(cut[cut.len() - 2].typ));
}

/// Two lists that differ in the values of their blank space at most are cut
/// alike.
proof fn lemma_parenthesis_stripped_same(a: Seq<TokenView>, b: Seq<TokenView>)
    requires
        same_but_blanks(a, b),
    ensures
        same_but_blanks(parenthesis_stripped(a), parenthesis_stripped(b)),
{
    let fa = if a.len() > 1 && is_whitespace_type(a[1].typ) {
        a.remove(1)
    } else {
        a
    };
    let fb = if b.len() > 1 && is_whitespace_type(b[1].typ) {
        b.remove(1)
    } else {
        b
    };
    if a.len() > 1 {
        assert(a[1].typ == b[1].typ);
    }
    assert(same_but_blanks(fa, fb)) by {
        assert forall|i: int| 0 <= i < fa.len() implies {
            &&& (#[trigger] fa[i]).typ == fb[i].typ
            &&& fa[i].children == fb[i].children
            &&& !is_whitespace_type(fa[i].typ) ==> fa[i].value == fb[i].value
        } by {
            if a.len() > 1 && is_whitespace_type(a[1].typ) && i >= 1 {
                assert(fa[i] == a[i + 1]);
                assert(fb[i] == b[i + 1]);
                assert(a[i + 1].typ == b[i + 1].typ);
            } else {
                assert(a[i].typ == b[i].typ);
            }
        }
    }
    if fa.len() > 2 {
        assert(fa[fa.len() - 2].typ == fb[fa.len() - 2].typ);
    }
    let ca = parenthesis_stripped(a);
    let cb = parenthesis_stripped(b);
    assert forall|i: int| 0 <= i < ca.len() implies {
        &&& (#[trigger] ca[i]).typ == cb[i].typ
        &&& ca[i].children == cb[i].children
        &&& !is_whitespace_type(ca[i].typ) ==> ca[i].value == cb[i].value
    } by {
        if fa.len() > 2 && is_whitespace_type(fa[fa.len() - 2].typ) && i >= fa.len() - 2 {
            assert(ca[i] == fa[i + 1]);
            assert(cb[i] == fb[i + 1]);
            assert(fa[i + 1].typ == fb[i + 1].typ);
        } else {
            assert(fa[i].typ == fb[i].typ);
        }
    }
}

/// The kinds of the tokens of a list stay when the whitespace filter works
/// on each of its tokens, and tokens without children stay as they are.
proof fn lemma_each_keeps_kinds(s: Seq<TokenView>)
    ensures
        whitespace_stripped_each(s).len() == s.len(),
        forall|i: int|
            0 <= i < s.len() ==> (#[trigger] whitespace_stripped_each(s)[i]).typ == s[i].typ,
        forall|i: int|
            0 <= i < s.len() && s[i].children.len() == 0 ==> (#[trigger] whitespace_stripped_each(
                s,
            )[i]) == s[i],
{
}

/// A list that is settled stays without blank space side by side when the
/// whitespace filter works on each of its tokens.
proof fn lemma_each_no_pairs(s: Seq<TokenView>)
    requires
        no_blank_pairs(s),
    ensures
        no_blank_pairs(whitespace_stripped_each(s)),
{
    let e = whitespace_stripped_each(s);
    lemma_each_keeps_kinds(s);
    assert forall|k: int| !#[trigger] blank_pair_at(e, k) by {
        if blank_pair_at(e, k) {
            assert(e[k].typ == s[k].typ);
            assert(e[k + 1].typ == s[k + 1].typ);
            assert(blank_pair_at(s, k));
        }
    }
}

/// On a settled list the whitespace filter is `stripws_default` on the
/// list that is cut and filtered token by token, and the result is without
/// blank space side by side.
proof fn lemma_stripped_form(s: Seq<TokenView>, in_parenthesis: bool)
    requires
        no_blank_pairs(s),
    ensures
        whitespace_stripped(s, in_parenthesis) == default_stripped(
            if in_parenthesis {
                parenthesis_stripped(whitespace_stripped_each(s))
            } else {
                whitespace_stripped_each(s)
            },
        ),
        no_blank_pairs(whitespace_stripped(s, in_parenthesis)),
{
    let e = whitespace_stripped_each(s);
    lemma_each_no_pairs(s);
    let cut = if in_parenthesis {
        parenthesis_stripped(e)
    } else {
        e
    };
    if in_parenthesis {
        lemma_parenthesis_stripped_once(e);
    }
    let d = default_stripped(cut);
    assert forall|k: int| !#[trigger] blank_pair_at(d, k) by {
        if blank_pair_at(d, k) {
            assert(d[k].typ == cut[k].typ);
            assert(d[k + 1].typ == cut[k + 1].typ);
            assert(blank_pair_at(cut, k));
        }
    }
    lemma_newline_stripped_same(d);
}

/// The whitespace filter changes nothing that it has worked on already:
/// for every settled list `s`, filtering what the filter makes of `s` gives
/// what the filter makes of `s`.
pub proof fn lemma_strip_whitespace_idempotent(s: Seq<TokenView>, in_parenthesis: bool)
    requires
        is_settled(s),
    ensures
        whitespace_stripped(whitespace_stripped(s, in_parenthesis), in_parenthesis)
            == whitespace_stripped(s, in_parenthesis),
    decreases s,
{
    let e = whitespace_stripped_each(s);
    let cut = if in_parenthesis {
        parenthesis_stripped(e)
    } else {
        e
    };
    let once = whitespace_stripped(s, in_parenthesis);
    lemma_stripped_form(s, in_parenthesis);
    lemma_each_no_pairs(s);
    lemma_each_keeps_kinds(s);
    assert(once == default_stripped(cut));
    // Each token of `e` is one that the filter has worked on already.
    assert forall|i: int| 0 <= i < e.len() implies whitespace_stripped_token(#[trigger] e[i])
        == e[i] by {
        let t = s[i];
        assert(e[i] == whitespace_stripped_token(t));
        if t.children.len() > 0 {
            let paren = t.typ == TokenType::Parenthesis;
            let kids = whitespace_stripped(t.children, paren);
            assert(is_settled(t.children));
            lemma_strip_whitespace_idempotent(t.children, paren);
            assert(e[i].children == kids);
            assert(e[i].typ == t.typ);
        }
    }
    assert(whitespace_stripped_each(e) =~= e);
    // The tokens of `cut` are tokens of `e`.
    assert forall|i: int| 0 <= i < cut.len() implies whitespace_stripped_token(#[trigger] cut[i])
        == cut[i] by {
        lemma_cut_members(e, i);
        let k = choose|k: int| 0 <= k < e.len() && e[k] == parenthesis_stripped(e)[i];
        if in_parenthesis {
            assert(cut[i] == e[k]);
        } else {
            assert(cut[i] == e[i]);
        }
    }
    assert(whitespace_stripped_each(cut) =~= cut);
    if in_parenthesis {
        lemma_parenthesis_stripped_once(e);
    }
    assert(no_blank_pairs(cut));
    // Blank space has no children, so the filter leaves it as it is.
    assert forall|i: int| 0 <= i < once.len() implies whitespace_stripped_token(#[trigger] once[i])
        == once[i] by {
        assert(once[i] == default_stripped_at(cut, i));
        if is_whitespace_type(cut[i].typ) {
            lemma_blank_childless(s, in_parenthesis, i);
        } else {
            assert(once[i] == cut[i]);
        }
    }
    let e2 = whitespace_stripped_each(once);
    assert(e2 =~= once);
    lemma_default_stripped_blanks(cut);
    let cut2 = if in_parenthesis {
        parenthesis_stripped(once)
    } else {
        once
    };
    if in_parenthesis {
        lemma_parenthesis_stripped_same(once, cut);
        lemma_parenthesis_stripped_once(e);
        assert(parenthesis_stripped(cut) == cut);
    }
    assert(same_but_blanks(cut2, cut));
    lemma_default_stripped_same(cut2, cut);
    lemma_stripped_form(once, in_parenthesis);
}

/// Each token of a cut list is a token of the list.
proof fn lemma_cut_members(e: Seq<TokenView>, i: int)
    requires
        0 <= i,
    ensures
        i < parenthesis_stripped(e).len() ==> exists|k: int|
            0 <= k < e.len() && e[k] == parenthesis_stripped(e)[i],
{
    let first = if e.len() > 1 && is_whitespace_type(e[1].typ) {
        e.remove(1)
    } else {
        e
    };
    let cut = parenthesis_stripped(e);
    if i < cut.len() {
        let j = if first.len() > 2 && is_whitespace_type(first[first.len() - 2].typ) && i
            >= first.len() - 2 {
            i + 1
        } else {
            i
        };
        assert(cut[i] == first[j]);
        let k = if e.len() > 1 && is_whitespace_type(e[1].typ) && j >= 1 {
            j + 1
        } else {
            j
        };
        assert(first[j] == e[k]);
    }
}

/// In what the filter makes of a settled list, blank space has no children.
proof fn lemma_blank_childless(s: Seq<TokenView>, in_parenthesis: bool, i: int)
    requires
        is_settled(s),
        0 <= i < whitespace_stripped(s, in_parenthesis).len(),
        is_whitespace_type(whitespace_stripped(s, in_parenthesis)[i].typ),
    ensures
        whitespace_stripped(s, in_parenthesis)[i].children.len() == 0,
{
    let e = whitespace_stripped_each(s);
    let cut = if in_parenthesis {
        parenthesis_stripped(e)
    } else {
        e
    };
    lemma_stripped_form(s, in_parenthesis);
    lemma_each_keeps_kinds(s);
    let once = whitespace_stripped(s, in_parenthesis);
    assert(once[i] == default_stripped_at(cut, i));
    assert(once[i].children == cut[i].children);
    assert(once[i].typ == cut[i].typ);
    lemma_cut_members(e, i);
    if in_parenthesis {
        let k = choose|k: int| 0 <= k < e.len() && e[k] == parenthesis_stripped(e)[i];
        assert(e[k].typ == s[k].typ);
        assert(s[k].children.len() == 0);
        assert(e[k] == s[k]);
    } else {
        assert(e[i].typ == s[i].typ);
        assert(s[i].children.len() == 0);
        assert(e[i] == s[i]);
    }
}

/// No two leaves of blank space stand side by side.
pub open spec fn no_blank_neighbours(leaves: Seq<bool>) -> bool {
    forall|k: int| 0 <= k && k + 1 < leaves.len() ==> !(#[trigger] leaves[k] && leaves[k + 1])
}

/// The leaves of a list are the leaves before the token at `i`, the leaves
/// of that token, and the leaves behind it.
pub proof fn lemma_leaves_split(v: Seq<TokenView>, i: int)
    requires
        0 <= i < v.len(),
    ensures
        blank_leaves(v) == blank_leaves(v.subrange(0, i)) + blank_leaves_of(v[i]) + blank_leaves(
            v.subrange(i + 1, v.len() as int),
        ),
{
    let head = v.subrange(0, i);
    let rest = v.subrange(i + 1, v.len() as int);
    assert(v == head + seq![v[i]] + rest);
    lemma_blank_leaves_concat(head, seq![v[i]]);
    lemma_blank_leaves_concat(head + seq![v[i]], rest);
    lemma_blank_leaves_one(v[i]);
}

/// Where no two leaves of blank space stand side by side, no two tokens of
/// blank space do, at any depth: well-formed tokens whose leaves of blank
/// space stand apart are settled.
pub proof fn lemma_settled_from_leaves(tokens: Seq<Token>)
    requires
        all_wf(tokens),
        no_blank_neighbours(blank_leaves(views(tokens))),
    ensures
        is_settled(views(tokens)),
    decreases tokens,
{
    let v = views(tokens);
    let leaves = blank_leaves(v);
    assert forall|i: int| !#[trigger] blank_pair_at(v, i) by {
        if blank_pair_at(v, i) {
            let rest = v.subrange(i + 1, v.len() as int);
            lemma_leaves_split(v, i);
            lemma_leaves_split(rest, 0);
            assert(tokens[i].wf());
            assert(tokens[i + 1].wf());
            lemma_view_children(tokens[i]);
            lemma_view_children(tokens[i + 1]);
            assert(v[i] == tokens[i]@);
            assert(v[i + 1] == tokens[i + 1]@);
            assert(rest[0] == v[i + 1]);
            assert(blank_leaves_of(v[i]) == seq![true]);
            assert(blank_leaves_of(v[i + 1]) == seq![true]);
            assert(blank_leaves(rest.subrange(0, 0)) == Seq::<bool>::empty());
            let at = blank_leaves(v.subrange(0, i)).len() as int;
            assert(leaves[at]);
            assert(leaves[at + 1]);
        }
    }
    assert forall|i: int| 0 <= i < v.len() implies {
        &&& is_whitespace_type((#[trigger] v[i]).typ) ==> v[i].children.len() == 0
        &&& is_settled(v[i].children)
    } by {
        let t = tokens[i];
        assert(t.wf());
        lemma_view_children(t);
        assert(v[i] == t@);
        if t.children@.len() > 0 {
            lemma_leaves_split(v, i);
            let before = blank_leaves(v.subrange(0, i)).len() as int;
            let inner = blank_leaves(v[i].children);
            assert(blank_leaves_of(v[i]) == inner);
            assert forall|k: int| 0 <= k && k + 1 < inner.len() implies !(#[trigger] inner[k]
                && inner[k + 1]) by {
                assert(leaves[before + k] == inner[k]);
                assert(leaves[before + k + 1] == inner[k + 1]);
            }
            lemma_settled_from_leaves(t.children@);
        } else {
            assert(v[i].children =~= Seq::<TokenView>::empty());
        }
    }
}

/// Whether the token at `i`, if it is an operator, has a token of kind
/// `Whitespace` directly before it, unless it is the first, and directly
/// behind it, unless it is the last.
pub open spec fn blank_around_at(s: Seq<TokenView>, i: int) -> bool {
    is_operator_type(s[i].typ) ==> (i == 0 || s[i - 1].typ == TokenType::Whitespace) && (i + 1
        >= s.len() || s[i + 1].typ == TokenType::Whitespace)
}

/// Every operator of the list has a token of kind `Whitespace` on each
/// side, but for the sides on which it ends the list.
pub open spec fn blank_around(s: Seq<TokenView>) -> bool {
    forall|i: int| 0 <= i < s.len() ==> #[trigger] blank_around_at(s, i)
}

/// Whether `t` is one of the first `n` tokens of `s`, or one blank.
pub open spec fn blank_or_from(t: TokenView, s: Seq<TokenView>, n: int) -> bool {
    t == blank_view() || exists|j: int| 0 <= j < n && #[trigger] s[j] == t
}

/// What the operator filter has put out after `n` tokens: no token is
/// lost, every token is a token of the list or one blank, every operator
/// has its blanks, and where an operator stands last, a token of kind
/// `Whitespace` comes next.
proof fn lemma_space_run(s: Seq<TokenView>, n: nat)
    requires
        n <= s.len(),
    ensures
        space_run(s, n).len() >= n,
        blank_around(space_run(s, n)),
        forall|i: int|
            0 <= i < space_run(s, n).len() ==> blank_or_from(#[trigger] space_run(s, n)[i], s, n as int),
        n > 0 && is_operator_type(space_run(s, n).last().typ) ==> n == s.len() || s[n as int].typ
            == TokenType::Whitespace,
    decreases n,
{
    if n > 0 {
        lemma_space_run(s, (n - 1) as nat);
        let out = space_run(s, (n - 1) as nat);
        let t = s[n - 1];
        let here = space_run(s, n);
        assert(kind_at(s, n as int) == if n < s.len() {
            Some(s[n as int].typ)
        } else {
            None::<TokenType>
        });
        assert forall|i: int| 0 <= i < here.len() implies #[trigger] blank_around_at(here, i)
            && blank_or_from(here[i], s, n as int) by {
            if i < out.len() {
                assert(here[i] == out[i]);
                assert(blank_around_at(out, i));
                assert(blank_or_from(out[i], s, n - 1));
                if i > 0 {
                    assert(here[i - 1] == out[i - 1]);
                }
                if i + 1 < out.len() {
                    assert(here[i + 1] == out[i + 1]);
                }
            } else if here[i] != blank_view() {
                assert(here[i] == t);
                assert(s[n - 1] == t);
            }
        }
    }
}

/// Whether `out` is `s` with blanks put in: the tokens of `s`, unchanged
/// and in their order, and between them nothing but blanks.
pub open spec fn blanks_put_in(out: Seq<TokenView>, s: Seq<TokenView>) -> bool
    decreases out.len(),
{
    if out.len() == 0 {
        s.len() == 0
    } else if s.len() > 0 && out.last() == s.last() && blanks_put_in(out.drop_last(), s.drop_last()) {
        true
    } else {
        out.last() == blank_view() && blanks_put_in(out.drop_last(), s)
    }
}

/// What the operator filter has put out after `n` tokens is these tokens
/// with blanks put in.
proof fn lemma_space_run_keeps(s: Seq<TokenView>, n: nat)
    requires
        n <= s.len(),
    ensures
        blanks_put_in(space_run(s, n), s.subrange(0, n as int)),
    decreases n,
{
    if n > 0 {
        lemma_space_run_keeps(s, (n - 1) as nat);
        let out = space_run(s, (n - 1) as nat);
        let front = s.subrange(0, n - 1);
        let now = s.subrange(0, n as int);
        let t = s[n - 1];
        assert(now.drop_last() =~= front);
        assert(now.last() == t);
        let before = if is_operator_type(t.typ) && out.len() > 0 && out.last().typ
            != TokenType::Whitespace {
            out.push(blank_view())
        } else {
            out
        };
        assert(before.drop_last() =~= out || before == out);
        assert(blanks_put_in(before, front)) by {
            if before != out {
                assert(before.drop_last() =~= out);
                assert(before.last() == blank_view());
                if front.len() > 0 && before.last() == front.last() && blanks_put_in(
                    before.drop_last(),
                    front.drop_last(),
                ) {
                }
            }
        }
        let put = before.push(t);
        assert(put.drop_last() =~= before);
        assert(blanks_put_in(put, now));
        let here = space_run(s, n);
        if here != put {
            assert(here == put.push(blank_view()));
            assert(here.drop_last() =~= put);
            assert(blanks_put_in(here, now));
        }
    } else {
        assert(s.subrange(0, 0) =~= Seq::<TokenView>::empty());
    }
}

/// The operator filter keeps every token of a list, unchanged and in its
/// place among the others, and adds blanks only.
pub proof fn lemma_spaced_keeps(s: Seq<TokenView>)
    ensures
        blanks_put_in(spaced(s), s),
{
    lemma_space_run_keeps(s, s.len());
    assert(s.subrange(0, s.len() as int) =~= s);
}

/// The operator filter leaves every operator of a list with a blank on
/// each side, loses no token, and adds nothing but blanks.
pub proof fn lemma_spaced_blank_around(s: Seq<TokenView>)
    ensures
        blank_around(spaced(s)),
        spaced(s).len() >= s.len(),
        forall|i: int|
            0 <= i < spaced(s).len() ==> blank_or_from(#[trigger] spaced(s)[i], s, s.len() as int),
{
    lemma_space_run(s, s.len());
}

/// On a list in which every operator has its blanks the operator filter
/// changes nothing.
proof fn lemma_space_run_fixed(s: Seq<TokenView>, n: nat)
    requires
        n <= s.len(),
        blank_around(s),
    ensures
        space_run(s, n) == s.subrange(0, n as int),
    decreases n,
{
    if n > 0 {
        lemma_space_run_fixed(s, (n - 1) as nat);
        let out = s.subrange(0, n - 1);
        assert(blank_around_at(s, n - 1));
        if n > 1 {
            assert(out.last() == s[n - 2]);
        }
        assert(s.subrange(0, n as int) =~= out.push(s[n - 1]));
    } else {
        assert(s.subrange(0, 0) =~= Seq::<TokenView>::empty());
    }
}

/// The operator filter changes nothing that it has worked on already, on
/// one list: filtering what the filter makes of a list gives what the
/// filter makes of it.
pub proof fn lemma_spaced_idempotent(s: Seq<TokenView>)
    ensures
        spaced(spaced(s)) == spaced(s),
{
    lemma_spaced_blank_around(s);
    let r = spaced(s);
    lemma_space_run_fixed(r, r.len());
    assert(r.subrange(0, r.len() as int) =~= r);
}

/// The operator filter changes nothing that it has worked on already, on
/// a statement and all its groups.
pub proof fn lemma_spaced_statement_idempotent(s: Seq<TokenView>)
    ensures
        spaced_statement(spaced_statement(s)) == spaced_statement(s),
        spaced_statement(s).len() >= s.len(),
    decreases s,
{
    let e = spaced_each(s);
    let r = spaced_statement(s);
    lemma_spaced_blank_around(e);
    assert forall|i: int| 0 <= i < r.len() implies spaced_token(#[trigger] r[i]) == r[i] by {
        assert(blank_or_from(r[i], e, e.len() as int));
        if r[i] != blank_view() {
            let j = choose|j: int| 0 <= j < e.len() && #[trigger] e[j] == r[i];
            let t = s[j];
            assert(e[j] == spaced_token(t));
            if t.children.len() > 0 {
                lemma_spaced_statement_idempotent(t.children);
            }
        }
    }
    assert(spaced_each(r) =~= r);
    lemma_spaced_idempotent(e);
}

/// No token of the list is a comment, nor any token among its
/// descendants.
pub open spec fn no_comments(s: Seq<TokenView>) -> bool
    decreases s,
{
    forall|i: int|
        0 <= i < s.len() ==> !is_comment_type((#[trigger] s[i]).typ) && no_comments(s[i].children)
}

/// Whether `t` is one of the first `n` tokens of `s`, or a token without
/// children.
pub open spec fn leaf_or_from(t: TokenView, s: Seq<TokenView>, n: int) -> bool {
    t.children.len() == 0 || exists|j: int| 0 <= j < n && #[trigger] s[j] == t
}

/// What the comment filter puts out of a list holds no comment, and every
/// token of it is a token of the list or has no children.
proof fn lemma_comment_run(s: Seq<TokenView>, pattern: Seq<char>, n: nat)
    requires
        n <= s.len(),
    ensures
        forall|i: int|
            0 <= i < comment_run(s, pattern, n).out.len() ==> !is_comment_type(
                (#[trigger] comment_run(s, pattern, n).out[i]).typ,
            ) && leaf_or_from(comment_run(s, pattern, n).out[i], s, n as int),
    decreases n,
{
    if n > 0 {
        lemma_comment_run(s, pattern, (n - 1) as nat);
        let front = comment_run(s, pattern, (n - 1) as nat).out;
        let here = comment_run(s, pattern, n).out;
        assert forall|i: int| 0 <= i < here.len() implies !is_comment_type((#[trigger] here[i]).typ)
            && leaf_or_from(here[i], s, n as int) by {
            if i < front.len() {
                assert(here[i] == front[i]);
                assert(leaf_or_from(front[i], s, n - 1));
            } else if here[i].children.len() > 0 {
                assert(here[i] == s[n - 1]);
            }
        }
    }
}

/// Whether `t` is a token without children, or one of the first `n` tokens
/// of `s` with the children that the comment filter leaves it.
pub open spec fn cleaned_from(t: TokenView, s: Seq<TokenView>, pattern: Seq<char>, n: int) -> bool {
    t.children.len() == 0 || exists|j: int|
        0 <= j < n && s[j].children.len() > 0 && t == with_children(
            s[j],
            #[trigger] comments_stripped_statement(s[j].children, pattern),
        )
}

/// Every group among the first `n` tokens of a statement, as the comment
/// filter leaves it, holds what the filter makes of its children.
proof fn lemma_comments_inside(s: Seq<TokenView>, pattern: Seq<char>, n: nat)
    requires
        n <= s.len(),
    ensures
        forall|i: int|
            0 <= i < comments_stripped_inside(s, pattern, n).len() ==> cleaned_from(
                #[trigger] comments_stripped_inside(s, pattern, n)[i],
                s,
                pattern,
                n as int,
            ),
    decreases n,
{
    if n > 0 {
        lemma_comments_inside(s, pattern, (n - 1) as nat);
        let front = comments_stripped_inside(s, pattern, (n - 1) as nat);
        let here = comments_stripped_inside(s, pattern, n);
        assert forall|i: int| 0 <= i < here.len() implies cleaned_from(
            #[trigger] here[i],
            s,
            pattern,
            n as int,
        ) by {
            if i < front.len() {
                assert(here[i] == front[i]);
                assert(cleaned_from(front[i], s, pattern, n - 1));
            } else if here[i].children.len() > 0 {
                let t = s[n - 1];
                assert(here[i] == with_children(
                    t,
                    comments_stripped_statement(t.children, pattern),
                ));
            }
        }
    }
}

/// The comment filter leaves no comment in a statement, at any depth.
pub proof fn lemma_comments_stripped_clean(s: Seq<TokenView>, pattern: Seq<char>)
    ensures
        no_comments(comments_stripped_statement(s, pattern)),
    decreases s,
{
    let inside = comments_stripped_inside(s, pattern, s.len());
    let r = comments_stripped_statement(s, pattern);
    lemma_comment_run(inside, pattern, inside.len());
    lemma_comments_inside(s, pattern, s.len());
    assert forall|i: int| 0 <= i < r.len() implies !is_comment_type((#[trigger] r[i]).typ)
        && no_comments(r[i].children) by {
        assert(leaf_or_from(r[i], inside, inside.len() as int));
        if r[i].children.len() > 0 {
            let k = choose|k: int| 0 <= k < inside.len() && #[trigger] inside[k] == r[i];
            assert(cleaned_from(inside[k], s, pattern, s.len() as int));
            let j = choose|j: int|
                0 <= j < s.len() && s[j].children.len() > 0 && r[i] == with_children(
                    s[j],
                    #[trigger] comments_stripped_statement(s[j].children, pattern),
                );
            lemma_comments_stripped_clean(s[j].children, pattern);
        }
    }
}

/// On a list without comments whose groups the comment filter leaves as
/// they are, the filter changes nothing.
proof fn lemma_comments_fixed(r: Seq<TokenView>, pattern: Seq<char>, n: nat)
    requires
        n <= r.len(),
        forall|i: int| 0 <= i < r.len() ==> !is_comment_type((#[trigger] r[i]).typ),
        forall|i: int|
            0 <= i < r.len() && (#[trigger] r[i]).children.len() > 0 ==> with_children(
                r[i],
                comments_stripped_statement(r[i].children, pattern),
            ) == r[i],
    ensures
        comments_stripped_inside(r, pattern, n) == r.subrange(0, n as int),
        comment_run(r, pattern, n).out == r.subrange(0, n as int),
        !comment_run(r, pattern, n).dropping,
    decreases n,
{
    if n > 0 {
        lemma_comments_fixed(r, pattern, (n - 1) as nat);
        let t = r[n - 1];
        assert(r.subrange(0, n as int) =~= r.subrange(0, n - 1).push(t));
        if t.children.len() > 0 {
            assert(with_children(t, comments_stripped_statement(t.children, pattern)) == t);
        }
    } else {
        assert(r.subrange(0, 0) =~= Seq::<TokenView>::empty());
    }
}

/// The comment filter changes nothing that it has worked on already:
/// filtering what the filter makes of a statement gives what the filter
/// makes of it.
pub proof fn lemma_comments_stripped_idempotent(s: Seq<TokenView>, pattern: Seq<char>)
    ensures
        comments_stripped_statement(comments_stripped_statement(s, pattern), pattern)
            == comments_stripped_statement(s, pattern),
    decreases s,
{
    let inside = comments_stripped_inside(s, pattern, s.len());
    let r = comments_stripped_statement(s, pattern);
    lemma_comment_run(inside, pattern, inside.len());
    lemma_comments_inside(s, pattern, s.len());
    assert forall|i: int| 0 <= i < r.len() && (#[trigger] r[i]).children.len() > 0 implies with_children(
        r[i],
        comments_stripped_statement(r[i].children, pattern),
    ) == r[i] by {
        assert(leaf_or_from(r[i], inside, inside.len() as int));
        let k = choose|k: int| 0 <= k < inside.len() && #[trigger] inside[k] == r[i];
        assert(cleaned_from(inside[k], s, pattern, s.len() as int));
        let j = choose|j: int|
            0 <= j < s.len() && s[j].children.len() > 0 && r[i] == with_children(
                s[j],
                #[trigger] comments_stripped_statement(s[j].children, pattern),
            );
        lemma_comments_stripped_idempotent(s[j].children, pattern);
    }
    lemma_comments_fixed(r, pattern, r.len());
    assert(r.subrange(0, r.len() as int) =~= r);
}

} // verus!
