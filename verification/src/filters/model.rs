//! What the simple filters make of a list of tokens, stated over the tokens
//! as values.

use crate::content::is_comment_type;
use crate::filters::others::regex_first_group;
use crate::tokens::{is_whitespace_type, text_of, TokenType, TokenView};
use vstd::prelude::*;

verus! {

/// One blank as a token.
pub open spec fn blank_view() -> TokenView {
    TokenView { typ: TokenType::Whitespace, value: " "@, children: Seq::empty() }
}

/// The token at `i` as `stripws_default` leaves it: blank space gets the
/// value of one blank, or no value at all at the start of the list, at its
/// end and after other blank space; every other token stays as it is.
pub open spec fn default_stripped_at(s: Seq<TokenView>, i: int) -> TokenView {
    if is_whitespace_type(s[i].typ) {
        TokenView {
            typ: s[i].typ,
            value: if i == 0 || i + 1 == s.len() || is_whitespace_type(s[i - 1].typ) {
                Seq::<char>::empty()
            } else {
                " "@
            },
            children: s[i].children,
        }
    } else {
        s[i]
    }
}

/// The list as `stripws_default` leaves it.
pub open spec fn default_stripped(s: Seq<TokenView>) -> Seq<TokenView> {
    Seq::new(s.len(), |i: int| default_stripped_at(s, i))
}

/// Whether a token of kind `Newline` stands before the token at `i`, with
/// nothing but blank space between the two.
pub open spec fn follows_newline(s: Seq<TokenView>, i: int) -> bool
    decreases i,
{
    0 < i <= s.len() && (s[i - 1].typ == TokenType::Newline || (is_whitespace_type(s[i - 1].typ)
        && follows_newline(s, i - 1)))
}

/// Whether `stripws_newline` takes the token at `i` out: it is blank space
/// and follows a token of kind `Newline`.
pub open spec fn newline_strips(s: Seq<TokenView>, i: int) -> bool {
    0 <= i < s.len() && is_whitespace_type(s[i].typ) && follows_newline(s, i)
}

/// The first `n` tokens of the list as `stripws_newline` leaves them.
pub open spec fn newline_stripped_upto(s: Seq<TokenView>, n: nat) -> Seq<TokenView>
    decreases n,
{
    if n == 0 || n > s.len() {
        Seq::<TokenView>::empty()
    } else if newline_strips(s, n - 1) {
        newline_stripped_upto(s, (n - 1) as nat)
    } else {
        newline_stripped_upto(s, (n - 1) as nat).push(s[n - 1])
    }
}

/// The list as `stripws_newline` leaves it: without the blank space that
/// follows a token of kind `Newline`.
pub open spec fn newline_stripped(s: Seq<TokenView>) -> Seq<TokenView> {
    newline_stripped_upto(s, s.len())
}

/// The children of a parenthesis without the blank space after the `(` and,
/// of what is left, the blank space before the `)`.
pub open spec fn parenthesis_stripped(children: Seq<TokenView>) -> Seq<TokenView> {
    let first = if children.len() > 1 && is_whitespace_type(children[1].typ) {
        children.remove(1)
    } else {
        children
    };
    if first.len() > 2 && is_whitespace_type(first[first.len() - 2].typ) {
        first.remove(first.len() - 2)
    } else {
        first
    }
}

/// A token as the whitespace filter leaves it: a token with children gets
/// the children that the filter makes of its own, and their text as its
/// value.
pub open spec fn whitespace_stripped_token(t: TokenView) -> TokenView
    decreases t,
{
    if t.children.len() > 0 {
        let kids = whitespace_stripped(t.children, t.typ == TokenType::Parenthesis);
        TokenView { typ: t.typ, value: text_of(kids), children: kids }
    } else {
        t
    }
}

/// A list as the whitespace filter leaves it: each token as the filter
/// leaves it; in a parenthesis, without the blank space behind the `(` and
/// before the `)`; then with blank space thinned out by `stripws_default`
/// and `stripws_newline`.
pub open spec fn whitespace_stripped(s: Seq<TokenView>, in_parenthesis: bool) -> Seq<TokenView>
    decreases s, 1nat,
{
    let inner = whitespace_stripped_each(s);
    let cut = if in_parenthesis {
        parenthesis_stripped(inner)
    } else {
        inner
    };
    newline_stripped(default_stripped(cut))
}

/// Each token of the list as the whitespace filter leaves it.
pub open spec fn whitespace_stripped_each(s: Seq<TokenView>) -> Seq<TokenView>
    decreases s, 0nat,
{
    Seq::new(
        s.len(),
        |i: int|
            if 0 <= i < s.len() {
                whitespace_stripped_token(s[i])
            } else {
                arbitrary()
            },
    )
}

/// A token with children, with other children: its value is their text.
pub open spec fn with_children(t: TokenView, kids: Seq<TokenView>) -> TokenView {
    TokenView { typ: t.typ, value: text_of(kids), children: kids }
}

/// Whether `t` is the punctuation `(`.
pub open spec fn is_open_parenthesis(t: TokenView) -> bool {
    t.typ == TokenType::Punctuation && t.value == "("@
}

/// The token that takes the place of a comment: the line breaks that the
/// comment ends with, as a token of kind `Newline`, or one blank.
pub open spec fn insert_view(capture: Option<Seq<char>>) -> TokenView {
    match capture {
        Some(breaks) => TokenView {
            typ: TokenType::Newline,
            value: breaks,
            children: Seq::empty(),
        },
        None => blank_view(),
    }
}

/// Where the comment filter stands after some tokens of a list: what it has
/// put out, and whether it is taking out what stands behind a comment that
/// went without a trace.
pub ghost struct CommentRun {
    pub out: Seq<TokenView>,
    pub dropping: bool,
}

/// The comment filter after one token more. No comment is put out. A
/// comment at the start of what is put out, behind a `(`, or behind a
/// comment that went without a trace goes without a trace, and the blank
/// space behind it goes with it. Any other comment gives way to the token
/// that stands for the line breaks at its end. A token that is no comment
/// is put out as it is.
pub open spec fn comment_step(
    run: CommentRun,
    t: TokenView,
    pattern: Seq<char>,
) -> CommentRun {
    if is_comment_type(t.typ) {
        if run.dropping || run.out.len() == 0 || is_open_parenthesis(run.out.last()) {
            CommentRun { out: run.out, dropping: true }
        } else {
            CommentRun {
                out: run.out.push(insert_view(regex_first_group(pattern, t.value))),
                dropping: false,
            }
        }
    } else if run.dropping && is_whitespace_type(t.typ) {
        run
    } else {
        CommentRun { out: run.out.push(t), dropping: false }
    }
}

/// The comment filter after the first `n` tokens of `s`.
pub open spec fn comment_run(
    s: Seq<TokenView>,
    pattern: Seq<char>,
    n: nat,
) -> CommentRun
    decreases n,
{
    if n == 0 || n > s.len() {
        CommentRun { out: Seq::empty(), dropping: false }
    } else {
        comment_step(comment_run(s, pattern, (n - 1) as nat), s[n - 1], pattern)
    }
}

/// One list without its comments.
pub open spec fn comments_stripped(
    s: Seq<TokenView>,
    pattern: Seq<char>,
) -> Seq<TokenView> {
    comment_run(s, pattern, s.len()).out
}

/// The first `n` tokens of a statement, each group with its children
/// without the comments among them, at every depth; a group that is left
/// without children is gone.
pub open spec fn comments_stripped_inside(
    s: Seq<TokenView>,
    pattern: Seq<char>,
    n: nat,
) -> Seq<TokenView>
    decreases s, 0nat, n,
{
    if n == 0 || n > s.len() {
        Seq::<TokenView>::empty()
    } else {
        let front = comments_stripped_inside(s, pattern, (n - 1) as nat);
        let t = s[n - 1];
        if t.children.len() > 0 {
            let kids = comments_stripped_statement(t.children, pattern);
            if kids.len() > 0 {
                front.push(with_children(t, kids))
            } else {
                front
            }
        } else {
            front.push(t)
        }
    }
}

/// A statement without its comments: the comments go from the groups of
/// the list, at every depth, then from the list itself.
pub open spec fn comments_stripped_statement(
    s: Seq<TokenView>,
    pattern: Seq<char>,
) -> Seq<TokenView>
    decreases s, 1nat, 0nat,
{
    comments_stripped(comments_stripped_inside(s, pattern, s.len()), pattern)
}

/// Whether `t` is an operator.
pub open spec fn is_operator_type(t: TokenType) -> bool {
    t == TokenType::Operator || t == TokenType::OperatorComparison
}

/// What the operator filter has put out after one token more; `out` is
/// what it had put out before, `next` the kind of the token behind `t`, if
/// there is one. Before an operator stands a blank, unless the operator is
/// the first token or follows a token of kind `Whitespace`. Directly behind
/// an operator stands a blank, unless the operator is the last token or a
/// token of kind `Whitespace` follows it.
pub open spec fn space_step(out: Seq<TokenView>, t: TokenView, next: Option<TokenType>) -> Seq<
    TokenView,
> {
    if is_operator_type(t.typ) {
        let before = if out.len() > 0 && out.last().typ != TokenType::Whitespace {
            out.push(blank_view())
        } else {
            out
        };
        if next is Some && next->0 != TokenType::Whitespace {
            before.push(t).push(blank_view())
        } else {
            before.push(t)
        }
    } else {
        out.push(t)
    }
}

/// The kind of the token at `i`, if there is one.
pub open spec fn kind_at(s: Seq<TokenView>, i: int) -> Option<TokenType> {
    if 0 <= i < s.len() {
        Some(s[i].typ)
    } else {
        None
    }
}

/// What the operator filter has put out after the first `n` tokens of
/// `s`.
pub open spec fn space_run(s: Seq<TokenView>, n: nat) -> Seq<TokenView>
    decreases n,
{
    if n == 0 || n > s.len() {
        Seq::empty()
    } else {
        space_step(space_run(s, (n - 1) as nat), s[n - 1], kind_at(s, n as int))
    }
}

/// One list with a blank on each side of each of its operators.
pub open spec fn spaced(s: Seq<TokenView>) -> Seq<TokenView> {
    space_run(s, s.len())
}

/// A token with blank space around the operators among its descendants.
pub open spec fn spaced_token(t: TokenView) -> TokenView
    decreases t,
{
    if t.children.len() > 0 {
        with_children(t, spaced_statement(t.children))
    } else {
        t
    }
}

/// Each token of the list with blank space around the operators among its
/// descendants.
pub open spec fn spaced_each(s: Seq<TokenView>) -> Seq<TokenView>
    decreases s, 0nat,
{
    Seq::new(
        s.len(),
        |i: int|
            if 0 <= i < s.len() {
                spaced_token(s[i])
            } else {
                arbitrary()
            },
    )
}

/// A statement with blank space around its operators, those of its groups
/// too.
pub open spec fn spaced_statement(s: Seq<TokenView>) -> Seq<TokenView>
    decreases s, 1nat,
{
    spaced(spaced_each(s))
}

/// Whether the first character of `value` is a line feed or a carriage
/// return.
pub open spec fn starts_with_break(value: Seq<char>) -> bool {
    value.len() > 0 && (value[0] == '\n' || value[0] == '\r')
}

/// Whether `t` ends in blank space: its last child is blank space, or it
/// has no children and is blank space.
pub open spec fn ends_blank(t: TokenView) -> bool {
    if t.children.len() > 0 {
        is_whitespace_type(t.children.last().typ)
    } else {
        is_whitespace_type(t.typ)
    }
}

/// What is left of a token that ends in blank space before a line break: a
/// group with more children than one, without its last child; of any other
/// token, nothing.
pub open spec fn without_last_blank(t: TokenView) -> Seq<TokenView> {
    if t.children.len() > 1 {
        seq![with_children(t, t.children.drop_last())]
    } else {
        Seq::<TokenView>::empty()
    }
}

/// The first `n` tokens of `m` without the blank space before line breaks:
/// a token that ends in blank space and stands directly before a token
/// whose value starts with a line break loses that blank space.
pub open spec fn break_trimmed_upto(m: Seq<TokenView>, n: nat) -> Seq<TokenView>
    decreases n,
{
    if n == 0 || n > m.len() {
        Seq::<TokenView>::empty()
    } else {
        let front = break_trimmed_upto(m, (n - 1) as nat);
        let t = m[n - 1];
        if n < m.len() && ends_blank(t) && starts_with_break(m[n as int].value) {
            front + without_last_blank(t)
        } else {
            front.push(t)
        }
    }
}

/// A token without the blank space before line breaks among its
/// descendants.
pub open spec fn break_trimmed_token(t: TokenView) -> TokenView
    decreases t,
{
    if t.children.len() > 0 {
        with_children(t, break_trimmed(t.children))
    } else {
        t
    }
}

/// Each token of the list without the blank space before line breaks among
/// its descendants.
pub open spec fn break_trimmed_each(s: Seq<TokenView>) -> Seq<TokenView>
    decreases s, 0nat,
{
    Seq::new(
        s.len(),
        |i: int|
            if 0 <= i < s.len() {
                break_trimmed_token(s[i])
            } else {
                arbitrary()
            },
    )
}

/// A list without the blank space before line breaks, in its groups and in
/// itself.
pub open spec fn break_trimmed(s: Seq<TokenView>) -> Seq<TokenView>
    decreases s, 1nat,
{
    let m = break_trimmed_each(s);
    break_trimmed_upto(m, m.len())
}

} // verus!
