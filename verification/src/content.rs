//! What a token tree says: its tokens without children, in order, blank
//! space and comments apart. Grouping and formatting change the shape of a
//! tree and its blank space; they do not change what it says. Beside it:
//! which leaves of a tree are blank space, which grouping leaves as they
//! are, and the height of a tree.

use crate::tokens::{
    all_wf, is_group_type, is_whitespace_type, joined_text, lemma_view_children, views, Token,
    TokenType, TokenView,
};
use vstd::prelude::*;

verus! {

/// A token without children, by kind and value.
pub type Leaf = (TokenType, Seq<char>);

/// Whether `t` is a kind of comment.
pub open spec fn is_comment_type(t: TokenType) -> bool {
    t == TokenType::CommentSingle || t == TokenType::CommentMultiline
}

/// The kind under which a token counts: an operator for a wildcard, whose
/// kind the grouper decides, else its own.
pub open spec fn counted_kind(t: TokenType) -> TokenType {
    if t == TokenType::Wildcard {
        TokenType::Operator
    } else {
        t
    }
}

/// Whether `t` has no children and is blank space or a comment.
pub open spec fn is_filler(t: Token) -> bool {
    t.children@.len() == 0 && (is_whitespace_type(t.typ) || is_comment_type(t.typ))
}

/// The content of the first `n` tokens of `tokens`.
pub open spec fn content_upto(tokens: Seq<Token>, n: nat) -> Seq<Leaf>
    decreases tokens, n,
{
    if n == 0 || n > tokens.len() {
        Seq::<Leaf>::empty()
    } else {
        content_upto(tokens, (n - 1) as nat) + content_of(tokens[n - 1])
    }
}

/// The content of one token: that of its children if it has any, nothing if
/// it is blank space or a comment, else the token itself.
pub open spec fn content_of(t: Token) -> Seq<Leaf>
    decreases t,
{
    if t.children@.len() > 0 {
        content_upto(t.children@, t.children@.len())
    } else if is_whitespace_type(t.typ) || is_comment_type(t.typ) {
        Seq::<Leaf>::empty()
    } else {
        seq![(counted_kind(t.typ), t.value@)]
    }
}

/// The content of a list of tokens: the tokens without children of all its
/// trees, from left to right, that are neither blank space nor comments.
pub open spec fn content(tokens: Seq<Token>) -> Seq<Leaf> {
    content_upto(tokens, tokens.len())
}

/// The content of the first `n` token values of `tokens`.
pub open spec fn view_content_upto(tokens: Seq<TokenView>, n: nat) -> Seq<Leaf>
    decreases tokens, n,
{
    if n == 0 || n > tokens.len() {
        Seq::<Leaf>::empty()
    } else {
        view_content_upto(tokens, (n - 1) as nat) + view_content_of(tokens[n - 1])
    }
}

/// The content of one token value.
pub open spec fn view_content_of(t: TokenView) -> Seq<Leaf>
    decreases t,
{
    if t.children.len() > 0 {
        view_content_upto(t.children, t.children.len())
    } else if is_whitespace_type(t.typ) || is_comment_type(t.typ) {
        Seq::<Leaf>::empty()
    } else {
        seq![(counted_kind(t.typ), t.value)]
    }
}

/// The content of a list of token values.
pub open spec fn view_content(tokens: Seq<TokenView>) -> Seq<Leaf> {
    view_content_upto(tokens, tokens.len())
}

/// What tokens say is what their values say.
pub proof fn lemma_view_content(tokens: Seq<Token>)
    ensures
        content(tokens) == view_content(views(tokens)),
    decreases tokens, tokens.len(), 1nat,
{
    lemma_view_content_upto(tokens, tokens.len());
}

proof fn lemma_view_content_upto(tokens: Seq<Token>, n: nat)
    requires
        n <= tokens.len(),
    ensures
        content_upto(tokens, n) == view_content_upto(views(tokens), n),
    decreases tokens, n, 0nat,
{
    if n > 0 {
        lemma_view_content_upto(tokens, (n - 1) as nat);
        let t = tokens[n - 1];
        lemma_view_children(t);
        assert(views(tokens)[n - 1] == t@);
        assert(t@.children.len() == t.children@.len());
        if t.children@.len() > 0 {
            lemma_view_content(t.children@);
            assert(view_content_of(t@) == view_content(t@.children));
        }
        assert(content_of(t) == view_content_of(t@));
    }
}

/// Which of the leaves of the first `n` token values are blank space, leaf
/// by leaf.
pub open spec fn blank_leaves_upto(tokens: Seq<TokenView>, n: nat) -> Seq<bool>
    decreases tokens, n,
{
    if n == 0 || n > tokens.len() {
        Seq::<bool>::empty()
    } else {
        blank_leaves_upto(tokens, (n - 1) as nat) + blank_leaves_of(tokens[n - 1])
    }
}

/// Which of the leaves of a token value are blank space.
pub open spec fn blank_leaves_of(t: TokenView) -> Seq<bool>
    decreases t,
{
    if t.children.len() > 0 {
        blank_leaves_upto(t.children, t.children.len())
    } else {
        seq![is_whitespace_type(t.typ)]
    }
}

/// Which of the leaves of a list of token values are blank space.
pub open spec fn blank_leaves(tokens: Seq<TokenView>) -> Seq<bool> {
    blank_leaves_upto(tokens, tokens.len())
}

/// The leaves of the first `n` token values depend on these values only.
pub proof fn lemma_blank_leaves_agree(a: Seq<TokenView>, b: Seq<TokenView>, n: nat)
    requires
        n <= a.len(),
        n <= b.len(),
        forall|i: int| 0 <= i < n ==> a[i] == b[i],
    ensures
        blank_leaves_upto(a, n) == blank_leaves_upto(b, n),
    decreases n,
{
    if n > 0 {
        lemma_blank_leaves_agree(a, b, (n - 1) as nat);
    }
}

/// The leaves of two lists laid end to end are the leaves of the first
/// followed by the leaves of the second.
pub proof fn lemma_blank_leaves_concat(a: Seq<TokenView>, b: Seq<TokenView>)
    ensures
        blank_leaves(a + b) == blank_leaves(a) + blank_leaves(b),
    decreases b.len(),
{
    if b.len() == 0 {
        assert(a + b == a);
    } else {
        let front = b.drop_last();
        lemma_blank_leaves_concat(a, front);
        lemma_blank_leaves_agree(a + b, a + front, (a.len() + front.len()) as nat);
        lemma_blank_leaves_agree(b, front, front.len());
        assert((a + b)[a.len() + b.len() - 1] == b.last());
    }
}

/// The leaves of a list of one token value are the leaves of the value.
pub proof fn lemma_blank_leaves_one(t: TokenView)
    ensures
        blank_leaves(seq![t]) == blank_leaves_of(t),
{
    assert(blank_leaves_upto(seq![t], 0) == Seq::<bool>::empty());
    assert(blank_leaves(seq![t]) == blank_leaves_upto(seq![t], 0) + blank_leaves_of(seq![t][0]));
}

/// A token value with the same leaves put in the place of another leaves
/// the leaves of the list as they are.
pub proof fn lemma_blank_leaves_update(s: Seq<TokenView>, i: int, t: TokenView)
    requires
        0 <= i < s.len(),
        blank_leaves_of(t) == blank_leaves_of(s[i]),
    ensures
        blank_leaves(s.update(i, t)) == blank_leaves(s),
{
    let head = s.subrange(0, i);
    let rest = s.subrange(i + 1, s.len() as int);
    assert(s.update(i, t) == head + seq![t] + rest);
    assert(s == head + seq![s[i]] + rest);
    lemma_blank_leaves_concat(head, seq![t]);
    lemma_blank_leaves_concat(head + seq![t], rest);
    lemma_blank_leaves_concat(head, seq![s[i]]);
    lemma_blank_leaves_concat(head + seq![s[i]], rest);
    lemma_blank_leaves_one(t);
    lemma_blank_leaves_one(s[i]);
}

/// A list with some of its tokens in one group has the leaves it had.
pub proof fn lemma_blank_leaves_grouped(
    s: Seq<TokenView>,
    start: int,
    end: int,
    kind: TokenType,
    extend: bool,
)
    requires
        0 <= start <= end < s.len(),
        extend && s[start].typ == kind ==> s[start].children.len() > 0,
    ensures
        blank_leaves(crate::tokens::grouped_range(s, start, end, kind, extend)) == blank_leaves(s),
{
    let head = s.subrange(0, start);
    let first = seq![s[start]];
    let tail = s.subrange(start + 1, end + 1);
    let mid = s.subrange(start, end + 1);
    let rest = s.subrange(end + 1, s.len() as int);
    let made = crate::tokens::grouped_range(s, start, end, kind, extend);
    let group = made[start];
    assert(mid == first + tail);
    assert(s == head + mid + rest);
    assert(made == head + seq![group] + rest);
    lemma_blank_leaves_concat(head, mid);
    lemma_blank_leaves_concat(head + mid, rest);
    lemma_blank_leaves_concat(head, seq![group]);
    lemma_blank_leaves_concat(head + seq![group], rest);
    lemma_blank_leaves_one(group);
    lemma_blank_leaves_concat(first, tail);
    lemma_blank_leaves_one(s[start]);
    if extend && s[start].typ == kind {
        lemma_blank_leaves_concat(s[start].children, tail);
        assert(group.children == s[start].children + tail);
        assert(blank_leaves_of(group) == blank_leaves(group.children));
    } else {
        assert(group.children == mid);
        assert(blank_leaves_of(group) == blank_leaves(mid));
    }
}

/// `after` says what `before` says, and its tokens are well formed.
pub open spec fn reshaped(before: Seq<Token>, after: Seq<Token>) -> bool {
    all_wf(after) && content(after) == content(before)
}

/// The content of the first `n` tokens depends on these tokens only.
pub proof fn lemma_content_upto_agree(a: Seq<Token>, b: Seq<Token>, n: nat)
    requires
        n <= a.len(),
        n <= b.len(),
        forall|i: int| 0 <= i < n ==> a[i] == b[i],
    ensures
        content_upto(a, n) == content_upto(b, n),
    decreases n,
{
    if n > 0 {
        lemma_content_upto_agree(a, b, (n - 1) as nat);
    }
}

/// The content of two lists laid end to end is the content of the first
/// followed by the content of the second.
pub proof fn lemma_content_concat(a: Seq<Token>, b: Seq<Token>)
    ensures
        content(a + b) == content(a) + content(b),
    decreases b.len(),
{
    if b.len() == 0 {
        assert(a + b == a);
    } else {
        let front = b.drop_last();
        lemma_content_concat(a, front);
        lemma_content_upto_agree(a + b, a + front, (a.len() + front.len()) as nat);
        lemma_content_upto_agree(b, front, front.len());
        assert((a + b)[a.len() + b.len() - 1] == b.last());
    }
}

/// The content of a list of one token is the content of the token.
pub proof fn lemma_content_one(t: Token)
    ensures
        content(seq![t]) == content_of(t),
{
    assert(content_upto(seq![t], 0) == Seq::<Leaf>::empty());
    assert(content(seq![t]) == content_upto(seq![t], 0) + content_of(seq![t][0]));
}

/// A token more at the end of a list adds its content at the end.
pub proof fn lemma_content_push(s: Seq<Token>, t: Token)
    ensures
        content(s.push(t)) == content(s) + content_of(t),
{
    assert(s.push(t) =~= s + seq![t]);
    lemma_content_concat(s, seq![t]);
    lemma_content_one(t);
}

/// The content of the first `n` tokens of a list is that of the tokens
/// before the last of them, followed by that of the last; no tokens have no
/// content.
pub proof fn lemma_content_take(s: Seq<Token>, n: int)
    requires
        0 <= n <= s.len(),
    ensures
        n == 0 ==> content(s.subrange(0, n)) == Seq::<Leaf>::empty(),
        n > 0 ==> content(s.subrange(0, n)) == content(s.subrange(0, n - 1)) + content_of(
            s[n - 1],
        ),
{
    if n > 0 {
        assert(s.subrange(0, n) =~= s.subrange(0, n - 1).push(s[n - 1]));
        lemma_content_push(s.subrange(0, n - 1), s[n - 1]);
    }
}

/// The content of a list cut in three.
pub proof fn lemma_content_three(s: Seq<Token>, from: int, to: int)
    requires
        0 <= from <= to <= s.len(),
    ensures
        content(s) == content(s.subrange(0, from)) + content(s.subrange(from, to)) + content(
            s.subrange(to, s.len() as int),
        ),
{
    let head = s.subrange(0, from);
    let mid = s.subrange(from, to);
    let rest = s.subrange(to, s.len() as int);
    assert(s == head + mid + rest);
    lemma_content_concat(head, mid);
    lemma_content_concat(head + mid, rest);
}

/// A token put into a list adds its content at its place.
pub proof fn lemma_content_insert(s: Seq<Token>, i: int, t: Token)
    requires
        0 <= i <= s.len(),
    ensures
        content(s) == content(s.subrange(0, i)) + content(s.subrange(i, s.len() as int)),
        content(s.insert(i, t)) == content(s.subrange(0, i)) + content_of(t) + content(
            s.subrange(i, s.len() as int),
        ),
{
    let head = s.subrange(0, i);
    let rest = s.subrange(i, s.len() as int);
    assert(s == head + rest);
    assert(s.insert(i, t) == head + seq![t] + rest);
    lemma_content_concat(head, rest);
    lemma_content_concat(head, seq![t]);
    lemma_content_concat(head + seq![t], rest);
    lemma_content_one(t);
}

/// A token taken out of a list takes its content with it.
pub proof fn lemma_content_remove(s: Seq<Token>, i: int)
    requires
        0 <= i < s.len(),
    ensures
        content(s) == content(s.subrange(0, i)) + content_of(s[i]) + content(
            s.subrange(i + 1, s.len() as int),
        ),
        content(s.remove(i)) == content(s.subrange(0, i)) + content(
            s.subrange(i + 1, s.len() as int),
        ),
{
    let head = s.subrange(0, i);
    let rest = s.subrange(i + 1, s.len() as int);
    assert(s == head + seq![s[i]] + rest);
    assert(s.remove(i) == head + rest);
    lemma_content_concat(head, rest);
    lemma_content_concat(head, seq![s[i]]);
    lemma_content_concat(head + seq![s[i]], rest);
    lemma_content_one(s[i]);
}

/// A token put in the place of another puts its content in the place of the
/// other's.
pub proof fn lemma_content_update(s: Seq<Token>, i: int, t: Token)
    requires
        0 <= i < s.len(),
    ensures
        content(s.update(i, t)) == content(s.subrange(0, i)) + content_of(t) + content(
            s.subrange(i + 1, s.len() as int),
        ),
{
    let head = s.subrange(0, i);
    let rest = s.subrange(i + 1, s.len() as int);
    assert(s.update(i, t) == head + seq![t] + rest);
    lemma_content_concat(head, seq![t]);
    lemma_content_concat(head + seq![t], rest);
    lemma_content_one(t);
}

/// A filler put into a well-formed list leaves the content as it is.
pub proof fn lemma_insert_filler(s: Seq<Token>, i: int, t: Token)
    requires
        all_wf(s),
        0 <= i <= s.len(),
        is_filler(t),
    ensures
        reshaped(s, s.insert(i, t)),
{
    lemma_content_insert(s, i, t);
    assert(content_of(t) == Seq::<Leaf>::empty());
    assert(t.wf());
    let after = s.insert(i, t);
    assert forall|j: int| 0 <= j < after.len() implies (#[trigger] after[j]).wf() by {
        if j < i {
            assert(after[j] == s[j]);
        } else if j > i {
            assert(after[j] == s[j - 1]);
        }
    }
}

/// A token without content taken out of a well-formed list leaves the
/// content as it is.
pub proof fn lemma_remove_silent(s: Seq<Token>, i: int)
    requires
        all_wf(s),
        0 <= i < s.len(),
        content_of(s[i]) == Seq::<Leaf>::empty(),
    ensures
        reshaped(s, s.remove(i)),
{
    lemma_content_remove(s, i);
    let after = s.remove(i);
    assert forall|j: int| 0 <= j < after.len() implies (#[trigger] after[j]).wf() by {
        if j < i {
            assert(after[j] == s[j]);
        } else {
            assert(after[j] == s[j + 1]);
        }
    }
}

/// A well-formed token put in the place of one with the same content leaves
/// the content of the list as it is.
pub proof fn lemma_update_same_content(s: Seq<Token>, i: int, t: Token)
    requires
        all_wf(s),
        0 <= i < s.len(),
        t.wf(),
        content_of(t) == content_of(s[i]),
    ensures
        reshaped(s, s.update(i, t)),
{
    lemma_content_update(s, i, t);
    lemma_content_remove(s, i);
    let after = s.update(i, t);
    assert forall|j: int| 0 <= j < after.len() implies (#[trigger] after[j]).wf() by {
        if j != i {
            assert(after[j] == s[j]);
        }
    }
}

/// The height of the first `n` trees of `tokens`: that of the highest.
pub open spec fn height_upto(tokens: Seq<Token>, n: nat) -> nat
    decreases tokens, n,
{
    if n == 0 || n > tokens.len() {
        0
    } else {
        let rest = height_upto(tokens, (n - 1) as nat);
        let last = height_of(tokens[n - 1]);
        if rest >= last {
            rest
        } else {
            last
        }
    }
}

/// The height of the tree of `t`: one more than that of its children.
pub open spec fn height_of(t: Token) -> nat
    decreases t,
{
    1 + height_upto(t.children@, t.children@.len())
}

/// The height of a list of trees: that of the highest, 0 for no tree.
pub open spec fn height(tokens: Seq<Token>) -> nat {
    height_upto(tokens, tokens.len())
}

/// No group of `tokens` is higher than `h`.
pub open spec fn groups_bounded(tokens: Seq<Token>, h: nat) -> bool {
    forall|j: int|
        0 <= j < tokens.len() && (#[trigger] tokens[j]).children@.len() > 0 ==> height_of(
            tokens[j],
        ) <= h
}

/// The height of the first `n` trees of a list of token values.
pub open spec fn view_height_upto(tokens: Seq<TokenView>, n: nat) -> nat
    decreases tokens, n,
{
    if n == 0 || n > tokens.len() {
        0
    } else {
        let rest = view_height_upto(tokens, (n - 1) as nat);
        let last = view_height_of(tokens[n - 1]);
        if rest >= last {
            rest
        } else {
            last
        }
    }
}

/// The height of the tree of a token value: one more than that of its
/// children.
pub open spec fn view_height_of(t: TokenView) -> nat
    decreases t,
{
    1 + view_height_upto(t.children, t.children.len())
}

/// The height of a list of token values: that of the highest tree, 0 for
/// no tree.
pub open spec fn view_height(tokens: Seq<TokenView>) -> nat {
    view_height_upto(tokens, tokens.len())
}

/// Tokens are as high as their values.
pub proof fn lemma_view_height(tokens: Seq<Token>)
    ensures
        height(tokens) == view_height(views(tokens)),
    decreases tokens, tokens.len(), 1nat,
{
    lemma_view_height_upto(tokens, tokens.len());
}

proof fn lemma_view_height_upto(tokens: Seq<Token>, n: nat)
    requires
        n <= tokens.len(),
    ensures
        height_upto(tokens, n) == view_height_upto(views(tokens), n),
    decreases tokens, n, 0nat,
{
    if n > 0 {
        lemma_view_height_upto(tokens, (n - 1) as nat);
        let t = tokens[n - 1];
        lemma_view_children(t);
        assert(views(tokens)[n - 1] == t@);
        assert(t@.children.len() == t.children@.len());
        lemma_view_height(t.children@);
        assert(height_of(t) == view_height_of(t@));
    }
}

proof fn lemma_height_upto_element(s: Seq<Token>, n: nat, i: int)
    requires
        0 <= i < n <= s.len(),
    ensures
        height_of(s[i]) <= height_upto(s, n),
    decreases n,
{
    if i < n - 1 {
        lemma_height_upto_element(s, (n - 1) as nat, i);
    }
}

/// No tree of a list is higher than the list.
pub proof fn lemma_height_element(s: Seq<Token>, i: int)
    requires
        0 <= i < s.len(),
    ensures
        height_of(s[i]) <= height(s),
        height(s[i].children@) < height(s),
{
    lemma_height_upto_element(s, s.len(), i);
}

/// No group of a list is higher than the list.
pub proof fn lemma_groups_bounded(s: Seq<Token>)
    ensures
        groups_bounded(s, height(s)),
{
    assert forall|j: int| 0 <= j < s.len() && (#[trigger] s[j]).children@.len() > 0 implies height_of(
        s[j],
    ) <= height(s) by {
        lemma_height_element(s, j);
    }
}

proof fn lemma_height_upto_bound(s: Seq<Token>, n: nat, h: nat)
    requires
        n <= s.len(),
        forall|j: int| 0 <= j < n ==> height_of(#[trigger] s[j]) <= h,
    ensures
        height_upto(s, n) <= h,
    decreases n,
{
    if n > 0 {
        lemma_height_upto_bound(s, (n - 1) as nat, h);
    }
}

/// A list without one of its trees is not higher than the list.
pub proof fn lemma_height_remove(s: Seq<Token>, i: int)
    requires
        0 <= i < s.len(),
    ensures
        height(s.remove(i)) <= height(s),
{
    let a = s.remove(i);
    assert forall|k: int| 0 <= k < a.len() implies height_of(#[trigger] a[k]) <= height(s) by {
        if k < i {
            assert(s[k] == a[k]);
            lemma_height_element(s, k);
        } else {
            assert(s[k + 1] == a[k]);
            lemma_height_element(s, k + 1);
        }
    }
    lemma_height_upto_bound(a, a.len(), height(s));
}

/// A token without children put into a list makes no group higher.
pub proof fn lemma_bounded_insert(s: Seq<Token>, i: int, t: Token, h: nat)
    requires
        0 <= i <= s.len(),
        t.children@.len() == 0,
        groups_bounded(s, h),
    ensures
        groups_bounded(s.insert(i, t), h),
{
    let a = s.insert(i, t);
    assert forall|j: int| 0 <= j < a.len() && (#[trigger] a[j]).children@.len() > 0 implies height_of(
        a[j],
    ) <= h by {
        if j < i {
            assert(a[j] == s[j]);
        } else if j > i {
            assert(a[j] == s[j - 1]);
        }
    }
}

/// A token taken out of a list makes no group higher.
pub proof fn lemma_bounded_remove(s: Seq<Token>, i: int, h: nat)
    requires
        0 <= i < s.len(),
        groups_bounded(s, h),
    ensures
        groups_bounded(s.remove(i), h),
{
    let a = s.remove(i);
    assert forall|j: int| 0 <= j < a.len() && (#[trigger] a[j]).children@.len() > 0 implies height_of(
        a[j],
    ) <= h by {
        if j < i {
            assert(a[j] == s[j]);
        } else {
            assert(a[j] == s[j + 1]);
        }
    }
}

/// The groups among the children of a token are lower than the token.
pub proof fn lemma_children_bounded(t: Token, h: nat)
    requires
        height_of(t) <= h,
    ensures
        h >= 1,
        groups_bounded(t.children@, (h - 1) as nat),
{
    assert forall|j: int|
        0 <= j < t.children@.len() && (#[trigger] t.children@[j]).children@.len() > 0 implies height_of(
        t.children@[j],
    ) <= h - 1 by {
        lemma_height_element(t.children@, j);
    }
}

/// A list in which a run of tokens has become one group of these tokens, or
/// has joined the group before it, says what it said.
pub proof fn lemma_grouped_content(
    before: Seq<Token>,
    after: Seq<Token>,
    start: int,
    end: int,
    extended: bool,
)
    requires
        all_wf(before),
        0 <= start <= end < before.len(),
        after.len() == before.len() - (end - start),
        forall|i: int| 0 <= i < start ==> after[i] == before[i],
        forall|i: int| start < i < after.len() ==> after[i] == before[i + (end - start)],
        after[start].children@ == if extended {
            before[start].children@ + before.subrange(start + 1, end + 1)
        } else {
            before.subrange(start, end + 1)
        },
        extended ==> before[start].children@.len() > 0,
    ensures
        content(after) == content(before),
{
    let head = before.subrange(0, start);
    let mid = before.subrange(start, end + 1);
    let rest = before.subrange(end + 1, before.len() as int);
    let grp = after[start];
    lemma_content_three(before, start, end + 1);
    assert(after =~= head + seq![grp] + rest);
    lemma_content_concat(head, seq![grp]);
    lemma_content_concat(head + seq![grp], rest);
    lemma_content_one(grp);
    if extended {
        let first = before[start];
        let more = before.subrange(start + 1, end + 1);
        assert(mid =~= seq![first] + more);
        lemma_content_concat(seq![first], more);
        lemma_content_one(first);
        lemma_content_concat(first.children@, more);
        assert(content_of(grp) == content(grp.children@));
        assert(content_of(first) == content(first.children@));
    } else {
        assert(grp.children@.len() > 0);
        assert(content_of(grp) == content(mid));
    }
}

/// A list in which one group has had its children reshaped and its value
/// refreshed, and nothing else has changed, is a reshaping of the list.
pub proof fn lemma_child_reshaped(before: Seq<Token>, after: Seq<Token>, i: int)
    requires
        all_wf(before),
        0 <= i < before.len(),
        after.len() == before.len(),
        forall|j: int| 0 <= j < before.len() && j != i ==> after[j] == before[j],
        after[i].typ == before[i].typ,
        is_group_type(before[i].typ),
        after[i].children@.len() > 0,
        reshaped(before[i].children@, after[i].children@),
        after[i].value@ == joined_text(after[i].children@),
    ensures
        reshaped(before, after),
{
    assert(before[i].wf());
    assert(after[i].wf());
    assert(after == before.update(i, after[i]));
    lemma_update_same_content(before, i, after[i]);
}

} // verus!
