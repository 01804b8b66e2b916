//! What the indenting filters share: putting blank space into a list and
//! taking it out, the length of the last line of a text, and arithmetic
//! that stays within the machine's word.

use crate::content::{
    groups_bounded, is_filler, lemma_bounded_insert, lemma_bounded_remove, lemma_insert_filler,
    lemma_remove_silent, reshaped,
};
use crate::tokens::{
    all_wf, is_whitespace_type, lemma_view_children, lemma_views_remove, views, Token, TokenType,
    TokenView,
};
use vstd::prelude::*;

verus! {

/// `x`, or the nearest bound of `i64` if `x` lies outside it.
pub open spec fn clamp(x: int) -> int {
    if x < i64::MIN {
        i64::MIN as int
    } else if x > i64::MAX {
        i64::MAX as int
    } else {
        x
    }
}

/// `a + b`, kept within `i64`.
pub fn add_clamped(a: i64, b: i64) -> (r: i64)
    ensures
        r == clamp(a + b),
{
    if b >= 0 {
        if a > i64::MAX - b {
            i64::MAX
        } else {
            a + b
        }
    } else {
        if a < i64::MIN - b {
            i64::MIN
        } else {
            a + b
        }
    }
}

/// `a - b`, kept within `i64`.
pub fn sub_clamped(a: i64, b: i64) -> (r: i64)
    ensures
        r == clamp(a - b),
{
    if b >= 0 {
        if a < i64::MIN + b {
            i64::MIN
        } else {
            a - b
        }
    } else {
        if a > i64::MAX + b {
            i64::MAX
        } else {
            a - b
        }
    }
}

/// `a * b`, kept within `i64`, for `a` and `b` that are not negative.
pub fn mul_clamped(a: i64, b: i64) -> (r: i64)
    requires
        a >= 0,
        b >= 0,
    ensures
        r == clamp(a * b),
{
    if a == 0 || b == 0 {
        assert(a * b == 0) by (nonlinear_arith)
            requires
                a == 0 || b == 0,
        ;
        0
    } else if a > i64::MAX / b {
        assert(a * b > i64::MAX) by (nonlinear_arith)
            requires
                b > 0,
                a > i64::MAX / b,
        ;
        i64::MAX
    } else {
        assert(0 <= a * b <= i64::MAX) by (nonlinear_arith)
            requires
                b > 0,
                0 <= a <= i64::MAX / b,
        ;
        a * b
    }
}

/// `n` as an `i64`, or the largest `i64` if `n` is larger.
pub fn to_i64(n: usize) -> (r: i64)
    ensures
        r == clamp(n as int),
        r >= 0,
{
    let wide: u64 = n as u64;
    if wide > 0x7fff_ffff_ffff_ffff {
        i64::MAX
    } else {
        wide as i64
    }
}

/// Where a text ends: the length of the line it ends in, the length of the
/// line before if it ends with a line feed, and whether it ends with a line
/// feed or a carriage return.
#[derive(Clone, Copy, Debug)]
pub struct LineState {
    pub open_len: i64,
    pub closed_len: i64,
    pub ends_with_feed: bool,
    pub ends_with_return: bool,
}

/// The state of the empty text.
pub open spec fn line_start() -> LineState {
    LineState { open_len: 0, closed_len: 0, ends_with_feed: false, ends_with_return: false }
}

/// The state after one character more. A line feed closes the line; a
/// carriage return directly before it does not count for the length of the
/// line.
pub open spec fn line_step(st: LineState, c: char) -> LineState {
    if c == '\n' {
        LineState {
            open_len: 0,
            closed_len: if st.ends_with_return {
                clamp(st.open_len - 1) as i64
            } else {
                st.open_len
            },
            ends_with_feed: true,
            ends_with_return: false,
        }
    } else {
        LineState {
            open_len: clamp(st.open_len + 1) as i64,
            closed_len: st.closed_len,
            ends_with_feed: false,
            ends_with_return: c == '\r',
        }
    }
}

/// The state after the characters of `text`.
pub open spec fn line_state(st: LineState, text: Seq<char>) -> LineState
    decreases text.len(),
{
    if text.len() == 0 {
        st
    } else {
        line_step(line_state(st, text.drop_last()), text.last())
    }
}

/// The length of the last line of the text that ends in `st`: that of the
/// line that a final line feed has closed, else that of the line that is
/// open.
pub open spec fn last_line_len(st: LineState) -> int {
    if st.ends_with_feed {
        st.closed_len as int
    } else {
        st.open_len as int
    }
}

impl LineState {
    pub fn start() -> (st: LineState)
        ensures
            st == line_start(),
    {
        LineState { open_len: 0, closed_len: 0, ends_with_feed: false, ends_with_return: false }
    }

    /// The state after `text` more.
    pub fn feed(self, text: &str) -> (st: LineState)
        ensures
            st == line_state(self, text@),
    {
        let n: usize = text.unicode_len();
        let mut st = self;
        let mut i: usize = 0;
        assert(text@.subrange(0, 0) == Seq::<char>::empty());
        while i < n
            invariant
                i <= n,
                n == text@.len(),
                st == line_state(self, text@.subrange(0, i as int)),
            decreases n - i,
        {
            let c = text.get_char(i);
            proof {
                assert(text@.subrange(0, i + 1).drop_last() == text@.subrange(0, i as int));
            }
            st = if c == '\n' {
                LineState {
                    open_len: 0,
                    closed_len: if st.ends_with_return {
                        sub_clamped(st.open_len, 1)
                    } else {
                        st.open_len
                    },
                    ends_with_feed: true,
                    ends_with_return: false,
                }
            } else {
                LineState {
                    open_len: add_clamped(st.open_len, 1),
                    closed_len: st.closed_len,
                    ends_with_feed: false,
                    ends_with_return: c == '\r',
                }
            };
            i += 1;
        }
        assert(text@.subrange(0, n as int) == text@);
        st
    }

    /// The length of the last line.
    pub fn last_len(self) -> (r: i64)
        ensures
            r == last_line_len(self),
    {
        if self.ends_with_feed {
            self.closed_len
        } else {
            self.open_len
        }
    }
}

/// The state after the values of the first `n` tokens of `s`, or of all of
/// them where `n` is larger than their number.
pub open spec fn state_after(st: LineState, s: Seq<TokenView>, n: int) -> LineState
    decreases n,
{
    if n <= 0 {
        st
    } else if n > s.len() {
        state_after(st, s, s.len() as int)
    } else {
        line_state(state_after(st, s, n - 1), s[n - 1].value)
    }
}

/// The state after the values of `tokens[..idx]`, or of all tokens where
/// `idx` is larger than their number.
pub fn feed_tokens(st: LineState, tokens: &Vec<Token>, idx: usize) -> (r: LineState)
    ensures
        r == state_after(st, views(tokens@), idx as int),
{
    let n: usize = if idx < tokens.len() {
        idx
    } else {
        tokens.len()
    };
    let mut r = st;
    let mut i: usize = 0;
    while i < n
        invariant
            i <= n <= tokens@.len(),
            r == state_after(st, views(tokens@), i as int),
        decreases n - i,
    {
        proof {
            lemma_view_children(tokens@[i as int]);
        }
        r = r.feed(tokens[i].value.as_str());
        i += 1;
    }
    r
}

/// `unit` written `count` times behind `head`.
pub open spec fn repeated(head: Seq<char>, unit: Seq<char>, count: nat) -> Seq<char>
    decreases count,
{
    if count == 0 {
        head
    } else {
        repeated(head, unit, (count - 1) as nat) + unit
    }
}

/// Blank space as a value: `head` and then `unit` as often as `count`
/// says, not at all where `count` is negative.
pub open spec fn blank_of(head: Seq<char>, unit: Seq<char>, count: int) -> TokenView {
    TokenView {
        typ: TokenType::Whitespace,
        value: repeated(
            head,
            unit,
            if count > 0 {
                count as nat
            } else {
                0
            },
        ),
        children: Seq::empty(),
    }
}

/// A token of blank space: `head` and then `unit` as often as `count` says,
/// not at all where `count` is negative.
pub fn blank_token(head: &str, unit: &str, count: i64) -> (token: Token)
    ensures
        token@ == blank_of(head@, unit@, count as int),
        token.typ == TokenType::Whitespace,
        token.children@.len() == 0,
        is_filler(token),
{
    let times: i64 = if count > 0 {
        count
    } else {
        0
    };
    let mut value = String::from_str(head);
    let mut i: i64 = 0;
    while i < times
        invariant
            0 <= i <= times,
            value@ == repeated(head@, unit@, i as nat),
        decreases times - i,
    {
        value.append(unit);
        i += 1;
    }
    let token = Token::leaf(TokenType::Whitespace, value);
    proof {
        lemma_view_children(token);
        assert(token@.children =~= Seq::<TokenView>::empty());
    }
    token
}

/// One blank as a token.
pub fn one_blank() -> (token: Token)
    ensures
        token@ == crate::filters::model::blank_view(),
        is_filler(token),
{
    let token = Token::new(TokenType::Whitespace, " ");
    proof {
        lemma_view_children(token);
        assert(token@.children =~= Seq::<TokenView>::empty());
    }
    token
}

/// The values of a list with one token more are the values of the list
/// with one value more.
pub proof fn lemma_views_insert(s: Seq<Token>, i: int, t: Token)
    requires
        0 <= i <= s.len(),
    ensures
        views(s.insert(i, t)) == views(s).insert(i, t@),
{
    assert(views(s.insert(i, t)) =~= views(s).insert(i, t@));
}

/// Puts the filler `token` into the list at `idx`, or at the end where
/// `idx` is larger than the length.
pub fn put_blank(tokens: &mut Vec<Token>, idx: usize, token: Token)
    requires
        all_wf(old(tokens)@),
        is_filler(token),
    ensures
        final(tokens)@ == old(tokens)@.insert(
            if idx <= old(tokens)@.len() {
                idx as int
            } else {
                old(tokens)@.len() as int
            },
            token,
        ),
        views(final(tokens)@) == views(old(tokens)@).insert(
            if idx <= old(tokens)@.len() {
                idx as int
            } else {
                old(tokens)@.len() as int
            },
            token@,
        ),
        reshaped(old(tokens)@, final(tokens)@),
        final(tokens)@.len() == old(tokens)@.len() + 1,
        forall|h: nat| groups_bounded(old(tokens)@, h) ==> #[trigger] groups_bounded(final(tokens)@, h),
{
    let n: usize = tokens.len();
    let at: usize = if idx <= n {
        idx
    } else {
        n
    };
    let ghost before = tokens@;
    proof {
        lemma_views_insert(before, at as int, token);
        lemma_insert_filler(before, at as int, token);
        assert forall|h: nat| groups_bounded(before, h) implies #[trigger] groups_bounded(
            before.insert(at as int, token),
            h,
        ) by {
            lemma_bounded_insert(before, at as int, token, h);
        }
    }
    tokens.insert(at, token);
}

/// Takes the token at `idx` out of the list if it is blank space. Returns
/// whether it did.
pub fn drop_blank(tokens: &mut Vec<Token>, idx: usize) -> (dropped: bool)
    requires
        all_wf(old(tokens)@),
    ensures
        dropped == (idx < old(tokens)@.len() && is_whitespace_type(old(tokens)@[idx as int].typ)),
        dropped ==> final(tokens)@ == old(tokens)@.remove(idx as int),
        dropped ==> views(final(tokens)@) == views(old(tokens)@).remove(idx as int),
        !dropped ==> final(tokens)@ == old(tokens)@,
        reshaped(old(tokens)@, final(tokens)@),
        forall|h: nat| groups_bounded(old(tokens)@, h) ==> #[trigger] groups_bounded(final(tokens)@, h),
{
    if idx < tokens.len() && tokens[idx].is_whitespace() {
        let ghost before = tokens@;
        proof {
            assert(before[idx as int].wf());
            lemma_views_remove(before, idx as int);
            lemma_remove_silent(before, idx as int);
            assert forall|h: nat| groups_bounded(before, h) implies #[trigger] groups_bounded(
                before.remove(idx as int),
                h,
            ) by {
                lemma_bounded_remove(before, idx as int, h);
            }
        }
        tokens.remove(idx);
        true
    } else {
        false
    }
}

} // verus!
