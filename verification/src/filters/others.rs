//! The simple filters: comments, blank space, spaces around operators, and
//! blank space before line breaks.

use crate::content::{
    content, content_of, height, is_filler, lemma_child_reshaped,
    lemma_content_push, lemma_content_take, lemma_height_element, lemma_height_remove,
    lemma_remove_silent, lemma_update_same_content, reshaped, Leaf,
};
use crate::filters::model::{
    blank_view, break_trimmed, break_trimmed_each, break_trimmed_token, break_trimmed_upto,
    comment_run, comments_stripped, comments_stripped_inside,
    comments_stripped_statement, default_stripped, default_stripped_at, ends_blank,
    follows_newline, insert_view, newline_stripped, newline_stripped_upto, newline_strips, parenthesis_stripped, space_run,
    spaced, spaced_each, spaced_statement, spaced_token, starts_with_break,
    whitespace_stripped, whitespace_stripped_each, whitespace_stripped_token, with_children,
    without_last_blank, };
use crate::tokens::{
    all_wf, is_whitespace_type, lemma_all_wf_push,
    lemma_text_of_views, lemma_view_children, lemma_views_push, lemma_views_remove, views, Token,
    TokenList, TokenType, TokenView,
};
use vstd::prelude::*;

verus! {

/// What the first capture group of the regular expression `pattern` holds
/// in the leftmost match of the expression in `text`; `None` where the
/// pattern is no regular expression, where it matches nowhere, and where the
/// group takes no part in the match.
pub uninterp spec fn regex_first_group(pattern: Seq<char>, text: Seq<char>) -> Option<Seq<char>>;

/// `regex::Regex::new` and `regex::Regex::captures`: compiles `pattern`,
/// searches `text` for its leftmost match and hands out the text of the
/// first capture group. The contract gives the result its name and claims
/// nothing else of it.
#[verifier::external_body]
fn first_group(pattern: &str, text: &str) -> (found: Option<String>)
    ensures
        match found {
            Some(s) => regex_first_group(pattern@, text@) == Some(s@),
            None => regex_first_group(pattern@, text@) is None,
        },
{
    let re = regex::Regex::new(pattern).ok()?;
    re.captures(text)?.get(1).map(|m| m.as_str().to_string())
}

pub fn value_starts_with_break(value: &str) -> (r: bool)
    ensures
        r == starts_with_break(value@),
{
    if value.unicode_len() == 0 {
        return false;
    }
    let c = value.get_char(0);
    c == '\n' || c == '\r'
}

/// Takes the comments out of a statement.
pub struct StripCommentsFilter {
    newline_reg: String,
}

/// The token that takes the place of a comment: the line breaks that the
/// comment ends with, as a token of kind `Newline`, or one blank where it
/// ends with none.
pub fn insert_token_for(capture: Option<String>) -> (token: Token)
    ensures
        token.children@.len() == 0,
        token@ == insert_view(
            match capture {
                Some(s) => Some(s@),
                None => None,
            },
        ),
        is_filler(token),
{
    let token = match capture {
        Some(s) => Token::leaf(TokenType::Newline, s),
        None => Token::new(TokenType::Whitespace, " "),
    };
    proof {
        lemma_view_children(token);
        assert(token@.children =~= Seq::<TokenView>::empty());
    }
    token
}

impl Default for StripCommentsFilter {
    fn default() -> (filter: Self)
        ensures
            filter.pattern() == r"((\r|\n)+) *$"@,
    {
        StripCommentsFilter { newline_reg: String::from_str(r"((\r|\n)+) *$") }
    }
}

impl StripCommentsFilter {
    /// The regular expression that finds the line breaks at the end of a
    /// comment.
    pub closed spec fn pattern(&self) -> Seq<char> {
        self.newline_reg@
    }

    /// The token that takes the place of the comment `token`: what the
    /// first group of the pattern holds, as a token of kind `Newline`, or
    /// one blank where the pattern finds nothing.
    pub fn get_insert_token(&self, token: &Token) -> (out: Token)
        ensures
            out.children@.len() == 0,
            out@ == insert_view(regex_first_group(self.pattern(), token.value@)),
            is_filler(out),
    {
        insert_token_for(first_group(self.newline_reg.as_str(), token.value.as_str()))
    }

    /// Takes the comments out of one list. A comment at the start of the
    /// list, behind a `(`, or behind a comment that went without a trace
    /// goes without a trace, with the blank space behind it. Any other
    /// comment gives way to the token that `get_insert_token` makes of it.
    pub fn process_internal(&self, tokens: &mut Vec<Token>)
        requires
            all_wf(old(tokens)@),
        ensures
            views(final(tokens)@) == comments_stripped(views(old(tokens)@), self.pattern()),
            reshaped(old(tokens)@, final(tokens)@),
            final(tokens)@.len() <= old(tokens)@.len(),
    {
        let mut input: Vec<Token> = Vec::new();
        std::mem::swap(tokens, &mut input);
        let ghost origin = input@;
        let ghost model = views(origin);
        let ghost pattern = self.pattern();
        let mut dropping = false;
        proof {
            assert(views(tokens@) =~= comment_run(model, pattern, 0).out);
            lemma_content_take(origin, 0);
        }
        for token in it: input
            invariant
                it.seq() == origin,
                origin == old(tokens)@,
                model == views(origin),
                pattern == self.pattern(),
                all_wf(origin),
                all_wf(tokens@),
                tokens@.len() <= it.index(),
                content(tokens@) == content(origin.subrange(0, it.index() as int)),
                views(tokens@) == comment_run(model, pattern, it.index() as nat).out,
                dropping == comment_run(model, pattern, it.index() as nat).dropping,
        {
            let ghost i = it.index() as int;
            let ghost before = tokens@;
            proof {
                assert(token == origin[i]);
                assert(token.wf());
                lemma_view_children(token);
                assert(model[i] == token@);
                lemma_content_take(origin, i + 1);
                if before.len() > 0 {
                    lemma_view_children(before.last());
                    assert(views(before).last() == before.last()@);
                }
            }
            if token.typ == TokenType::CommentSingle || token.typ == TokenType::CommentMultiline {
                let count = tokens.len();
                if dropping || count == 0 || tokens[count - 1].is_punctuation("(") {
                    dropping = true;
                } else {
                    let insert_token = self.get_insert_token(&token);
                    proof {
                        lemma_views_push(before, insert_token);
                        lemma_content_push(before, insert_token);
                        lemma_all_wf_push(before, insert_token);
                    }
                    tokens.push(insert_token);
                }
            } else if dropping && token.is_whitespace() {
            } else {
                proof {
                    lemma_views_push(before, token);
                    lemma_content_push(before, token);
                    lemma_all_wf_push(before, token);
                }
                tokens.push(token);
                dropping = false;
            }
        }
        proof {
            assert(origin.subrange(0, origin.len() as int) =~= origin);
        }
    }

    /// Takes the comments out of a statement: out of the groups of the
    /// list, at every depth, then out of the list itself. A group that is
    /// left without children goes too. No comment is left.
    pub fn process(&mut self, token_list: &mut TokenList)
        requires
            all_wf(old(token_list).tokens@),
        ensures
            views(final(token_list).tokens@) == comments_stripped_statement(
                views(old(token_list).tokens@),
                old(self).pattern(),
            ),
            reshaped(old(token_list).tokens@, final(token_list).tokens@),
            final(self).pattern() == old(self).pattern(),
    {
        self.process_list(&mut token_list.tokens);
    }

    /// `process` on a list of tokens.
    pub fn process_list(&self, tokens: &mut Vec<Token>)
        requires
            all_wf(old(tokens)@),
        ensures
            views(final(tokens)@) == comments_stripped_statement(
                views(old(tokens)@),
                self.pattern(),
            ),
            reshaped(old(tokens)@, final(tokens)@),
            final(tokens)@.len() <= old(tokens)@.len(),
        decreases old(tokens)@,
    {
        let mut input: Vec<Token> = Vec::new();
        std::mem::swap(tokens, &mut input);
        let ghost origin = input@;
        let ghost model = views(origin);
        let ghost pattern = self.pattern();
        proof {
            assert(views(tokens@) =~= comments_stripped_inside(model, pattern, 0));
            lemma_content_take(origin, 0);
        }
        for token in it: input
            invariant
                it.seq() == origin,
                origin == old(tokens)@,
                model == views(origin),
                pattern == self.pattern(),
                all_wf(origin),
                all_wf(tokens@),
                tokens@.len() <= it.index(),
                content(tokens@) == content(origin.subrange(0, it.index() as int)),
                views(tokens@) == comments_stripped_inside(model, pattern, it.index() as nat),
        {
            let ghost i = it.index() as int;
            let ghost before = tokens@;
            let mut token = token;
            proof {
                assert(token == origin[i]);
                assert(token.wf());
                lemma_view_children(token);
                assert(model[i] == token@);
                lemma_content_take(origin, i + 1);
            }
            if token.is_group() {
                let ghost start = token;
                self.process_list(&mut token.children);
                if token.children.len() > 0 {
                    token.update_value();
                    proof {
                        lemma_view_children(token);
                        lemma_text_of_views(token.children@);
                        assert(token@ == with_children(start@, views(token.children@)));
                        assert(token.wf());
                        assert(content_of(token) == content_of(start));
                        lemma_views_push(before, token);
                        lemma_content_push(before, token);
                        lemma_all_wf_push(before, token);
                    }
                    tokens.push(token);
                } else {
                    proof {
                        assert(views(token.children@).len() == 0);
                        assert(content_of(start) == content(start.children@));
                        assert(content(token.children@) =~= Seq::<Leaf>::empty());
                    }
                }
            } else {
                proof {
                    lemma_views_push(before, token);
                    lemma_content_push(before, token);
                    lemma_all_wf_push(before, token);
                }
                tokens.push(token);
            }
        }
        proof {
            assert(origin.subrange(0, origin.len() as int) =~= origin);
        }
        self.process_internal(tokens);
    }
}

/// Thins out blank space: runs of it become one blank, and none stays at
/// the start or the end of a list or inside parentheses.
pub struct StripWhitespaceFilter {}

/// Where the rest of one list from `i` on is the rest of another from `p`
/// on, the tokens at `i` and `p` are the same, and so are the rests behind
/// them.
pub proof fn lemma_shift_rest(a: Seq<Token>, i: int, b: Seq<Token>, p: int)
    requires
        0 <= i < a.len(),
        0 <= p <= b.len(),
        a.subrange(i, a.len() as int) == b.subrange(p, b.len() as int),
    ensures
        p < b.len(),
        a[i] == b[p],
        a.subrange(i + 1, a.len() as int) == b.subrange(p + 1, b.len() as int),
{
    let x = a.subrange(i, a.len() as int);
    let y = b.subrange(p, b.len() as int);
    assert(x.len() == y.len());
    assert(x.len() == a.len() - i);
    assert(y.len() == b.len() - p);
    assert(x[0] == a[i]);
    assert(y[0] == b[p]);
    assert(x[0] == y[0]);
    assert(a.subrange(i + 1, a.len() as int) =~= x.subrange(1, x.len() as int));
    assert(b.subrange(p + 1, b.len() as int) =~= y.subrange(1, y.len() as int));
}

impl StripWhitespaceFilter {
    /// `stripws_default`, then `stripws_newline`.
    pub fn stripws(tokens: &mut Vec<Token>)
        requires
            all_wf(old(tokens)@),
        ensures
            views(final(tokens)@) == newline_stripped(default_stripped(views(old(tokens)@))),
            reshaped(old(tokens)@, final(tokens)@),
            old(tokens)@.len() > 0 ==> final(tokens)@.len() > 0,
    {
        StripWhitespaceFilter::stripws_default(tokens);
        StripWhitespaceFilter::stripws_newline(tokens);
    }

    /// Gives each token of blank space its new value: one blank, or nothing
    /// at the start of the list, at its end and after other blank space.
    /// Kinds and children stay.
    pub fn stripws_default(tokens: &mut Vec<Token>)
        requires
            all_wf(old(tokens)@),
        ensures
            views(final(tokens)@) == default_stripped(views(old(tokens)@)),
            reshaped(old(tokens)@, final(tokens)@),
            final(tokens)@.len() == old(tokens)@.len(),
    {
        let mut last_was_ws = false;
        let mut is_first_char = true;
        let n: usize = tokens.len();
        let ghost model = views(old(tokens)@);
        let mut i: usize = 0;
        while i < n
            invariant
                i <= n,
                n == tokens@.len(),
                n == old(tokens)@.len(),
                model == views(old(tokens)@),
                all_wf(old(tokens)@),
                reshaped(old(tokens)@, tokens@),
                is_first_char == (i == 0),
                i > 0 ==> last_was_ws == is_whitespace_type(old(tokens)@[i - 1].typ),
                forall|j: int| i <= j < n ==> tokens@[j] == old(tokens)@[j],
                forall|j: int| 0 <= j < i ==> (#[trigger] tokens@[j])@ == default_stripped_at(model, j),
            decreases n - i,
        {
            let ghost before = tokens@;
            let ghost origin = old(tokens)@[i as int];
            proof {
                assert(before[i as int] == origin);
                assert(origin.wf());
                lemma_view_children(origin);
                assert(model[i as int] == origin@);
                if i > 0 {
                    lemma_view_children(old(tokens)@[i - 1]);
                    assert(model[i - 1] == old(tokens)@[i - 1]@);
                }
            }
            let blank = tokens[i].is_whitespace();
            if blank {
                let value = if last_was_ws || is_first_char || i + 1 == n {
                    String::new()
                } else {
                    String::from_str(" ")
                };
                tokens[i].value = value;
                proof {
                    let t = tokens@[i as int];
                    assert(t.children == origin.children);
                    assert(t.typ == origin.typ);
                    assert(t.wf());
                    assert(tokens@ == before.update(i as int, t));
                    lemma_update_same_content(before, i as int, t);
                    lemma_view_children(t);
                    assert(t@ == default_stripped_at(model, i as int));
                }
            }
            proof {
                assert forall|j: int| 0 <= j < i + 1 implies (#[trigger] tokens@[j])@
                    == default_stripped_at(model, j) by {
                    if j < i {
                        assert(tokens@[j] == before[j]);
                    }
                }
                assert forall|j: int| i + 1 <= j < n implies tokens@[j] == old(tokens)@[j] by {
                    assert(tokens@[j] == before[j]);
                }
            }
            last_was_ws = blank;
            is_first_char = false;
            i += 1;
        }
        proof {
            assert(views(tokens@) =~= default_stripped(model));
        }
    }

    /// Takes out the blank space that follows a token of kind `Newline`.
    pub fn stripws_newline(tokens: &mut Vec<Token>)
        requires
            all_wf(old(tokens)@),
        ensures
            views(final(tokens)@) == newline_stripped(views(old(tokens)@)),
            reshaped(old(tokens)@, final(tokens)@),
            final(tokens)@.len() <= old(tokens)@.len(),
            old(tokens)@.len() > 0 ==> final(tokens)@.len() > 0,
    {
        let ghost origin = tokens@;
        let ghost model = views(origin);
        let ghost total = origin.len();
        let ghost mut p: int = 0;
        let mut idx: usize = 0;
        proof {
            assert(tokens@.subrange(0, 0) =~= Seq::<Token>::empty());
            assert(views(tokens@.subrange(0, 0)) =~= newline_stripped_upto(model, 0));
            assert(tokens@.subrange(0, tokens@.len() as int) =~= origin.subrange(0, total as int));
        }
        while idx < tokens.len()
            invariant
                origin == old(tokens)@,
                model == views(origin),
                total == origin.len(),
                all_wf(origin),
                reshaped(origin, tokens@),
                old(tokens)@.len() > 0 ==> tokens@.len() > 0,
                tokens@.len() <= total,
                0 <= p <= total,
                idx <= tokens@.len(),
                tokens@.len() - idx == total - p,
                tokens@.subrange(idx as int, tokens@.len() as int) == origin.subrange(p, total as int),
                views(tokens@.subrange(0, idx as int)) == newline_stripped_upto(model, p as nat),
                p < total ==> !newline_strips(model, p),
            decreases tokens@.len() - idx,
        {
            let ghost cur = tokens@;
            proof {
                assert(cur[idx as int] == cur.subrange(idx as int, cur.len() as int)[0]);
                assert(cur[idx as int] == origin[p]);
                lemma_view_children(origin[p]);
                assert(model[p] == origin[p]@);
                assert(cur.subrange(0, idx + 1) =~= cur.subrange(0, idx as int).push(cur[idx as int]));
                lemma_views_push(cur.subrange(0, idx as int), cur[idx as int]);
                assert(views(cur.subrange(0, idx + 1)) == newline_stripped_upto(model, (p + 1) as nat));
            }
            if tokens[idx].typ != TokenType::Newline {
                proof {
                    lemma_shift_rest(cur, idx as int, origin, p);
                    if p + 1 < total {
                        assert(!follows_newline(model, p + 1));
                    }
                    p = p + 1;
                }
                idx += 1;
                continue ;
            }
            let next_idx = idx + 1;
            let ghost len0 = tokens@.len();
            let ghost mut q: int = p + 1;
            proof {
                lemma_shift_rest(cur, idx as int, origin, p);
                assert(follows_newline(model, p + 1));
            }
            while next_idx < tokens.len() && tokens[next_idx].is_whitespace()
                invariant
                    origin == old(tokens)@,
                    model == views(origin),
                    total == origin.len(),
                    all_wf(origin),
                    reshaped(origin, tokens@),
                    tokens@.len() <= len0,
                    len0 == cur.len(),
                    len0 <= total,
                    next_idx == idx + 1,
                    idx < tokens@.len(),
                    p < q <= total,
                    tokens@.len() - next_idx == total - q,
                    tokens@.subrange(next_idx as int, tokens@.len() as int) == origin.subrange(
                        q,
                        total as int,
                    ),
                    tokens@.subrange(0, next_idx as int) == cur.subrange(0, next_idx as int),
                    follows_newline(model, q),
                    newline_stripped_upto(model, q as nat) == newline_stripped_upto(
                        model,
                        (p + 1) as nat,
                    ),
                decreases tokens@.len() - next_idx,
            {
                let ghost before = tokens@;
                proof {
                    assert(before[next_idx as int] == before.subrange(
                        next_idx as int,
                        before.len() as int,
                    )[0]);
                    assert(before[next_idx as int] == origin[q]);
                    assert(before[next_idx as int].wf());
                    lemma_view_children(origin[q]);
                    assert(model[q] == origin[q]@);
                    assert(newline_strips(model, q));
                    lemma_remove_silent(before, next_idx as int);
                }
                tokens.remove(next_idx);
                proof {
                    lemma_shift_rest(before, next_idx as int, origin, q);
                    assert(tokens@.subrange(next_idx as int, tokens@.len() as int) =~= before.subrange(
                        next_idx + 1,
                        before.len() as int,
                    ));
                    assert(tokens@.subrange(0, next_idx as int) =~= before.subrange(
                        0,
                        next_idx as int,
                    ));
                    q = q + 1;
                }
            }
            proof {
                if q < total {
                    assert(tokens@[next_idx as int] == tokens@.subrange(
                        next_idx as int,
                        tokens@.len() as int,
                    )[0]);
                    assert(tokens@[next_idx as int] == origin[q]);
                    lemma_view_children(origin[q]);
                    assert(model[q] == origin[q]@);
                    assert(!newline_strips(model, q));
                }
                p = q;
            }
            idx += 1;
        }
        proof {
            assert(tokens@.subrange(0, tokens@.len() as int) =~= tokens@);
        }
    }

    /// In a parenthesis, takes out the blank space after the `(` and, of
    /// what is left, the blank space before the `)`. Any other token stays
    /// as it is.
    pub fn stripws_parenthesis(token: &mut Token)
        requires
            old(token).wf(),
        ensures
            final(token).typ == old(token).typ,
            old(token).typ != TokenType::Parenthesis ==> *final(token) == *old(token),
            all_wf(final(token).children@),
            crate::content::content(final(token).children@) == crate::content::content(
                old(token).children@,
            ),
            old(token).children@.len() > 0 ==> final(token).children@.len() > 0,
            old(token).typ == TokenType::Parenthesis ==> views(final(token).children@)
                == parenthesis_stripped(views(old(token).children@)),
            height(final(token).children@) <= height(old(token).children@),
    {
        if token.typ != TokenType::Parenthesis {
            return ;
        }
        let ghost first = token.children@;
        if token.children.len() > 1 && token.children[1].is_whitespace() {
            proof {
                assert(first[1].wf());
                lemma_remove_silent(first, 1);
                lemma_height_remove(first, 1);
                lemma_views_remove(first, 1);
            }
            token.children.remove(1);
        }
        let ghost second = token.children@;
        proof {
            if first.len() > 1 {
                lemma_view_children(first[1]);
                assert(views(first)[1] == first[1]@);
            }
        }
        let token_len = token.children.len();
        if token_len > 2 && token.children[token_len - 2].is_whitespace() {
            proof {
                assert(second[token_len - 2].wf());
                lemma_remove_silent(second, token_len - 2);
                lemma_height_remove(second, token_len - 2);
                lemma_views_remove(second, token_len - 2);
            }
            token.children.remove(token_len - 2);
        }
        proof {
            if second.len() > 2 {
                lemma_view_children(second[second.len() - 2]);
                assert(views(second)[second.len() - 2] == second[second.len() - 2]@);
            }
        }
    }

    /// Thins out the blank space of a list and of all its groups: each
    /// group first (its parentheses, its children, its value), then the
    /// list itself.
    pub fn process(&self, tokens: &mut Vec<Token>)
        requires
            all_wf(old(tokens)@),
        ensures
            views(final(tokens)@) == whitespace_stripped(views(old(tokens)@), false),
            reshaped(old(tokens)@, final(tokens)@),
            old(tokens)@.len() > 0 ==> final(tokens)@.len() > 0,
        decreases height(old(tokens)@),
    {
        let n: usize = tokens.len();
        let ghost origin = tokens@;
        let ghost model = views(origin);
        let mut i: usize = 0;
        while i < n
            invariant
                i <= n,
                n == tokens@.len(),
                n == old(tokens)@.len(),
                origin == old(tokens)@,
                model == views(origin),
                reshaped(old(tokens)@, tokens@),
                forall|j: int| i <= j < n ==> tokens@[j] == old(tokens)@[j],
                forall|j: int|
                    0 <= j < i ==> (#[trigger] tokens@[j])@ == whitespace_stripped_token(model[j]),
            decreases n - i,
        {
            let ghost before = tokens@;
            let ghost start = origin[i as int];
            proof {
                assert(before[i as int] == start);
                assert(start.wf());
                lemma_view_children(start);
                assert(model[i as int] == start@);
            }
            if tokens[i].is_group() {
                proof {
                    lemma_height_element(old(tokens)@, i as int);
                }
                Self::stripws_parenthesis(&mut tokens[i]);
                let ghost mid = tokens@[i as int].children@;
                self.process(&mut tokens[i].children);
                tokens[i].update_value();
                proof {
                    lemma_child_reshaped(before, tokens@, i as int);
                    let t = tokens@[i as int];
                    lemma_view_children(t);
                    lemma_text_of_views(t.children@);
                    if start.typ == TokenType::Parenthesis {
                        lemma_strip_commutes(views(start.children@));
                    } else {
                        assert(mid == start.children@);
                    }
                    assert(t@ == whitespace_stripped_token(model[i as int]));
                }
            }
            proof {
                assert forall|j: int| 0 <= j < i + 1 implies (#[trigger] tokens@[j])@
                    == whitespace_stripped_token(model[j]) by {
                    if j < i {
                        assert(tokens@[j] == before[j]);
                    }
                }
                assert forall|j: int| i + 1 <= j < n implies tokens@[j] == old(tokens)@[j] by {
                    assert(tokens@[j] == before[j]);
                }
            }
            i += 1;
        }
        proof {
            assert(views(tokens@) =~= whitespace_stripped_each(model));
        }
        Self::stripws(tokens);
    }
}

/// The whitespace filter gives the same, whether the blank space of a
/// parenthesis is cut before its tokens are filtered or after.
pub proof fn lemma_strip_commutes(s: Seq<TokenView>)
    ensures
        whitespace_stripped(s, true) == whitespace_stripped(parenthesis_stripped(s), false),
{
    let inner = whitespace_stripped_each(s);
    assert forall|i: int| 0 <= i < s.len() implies (#[trigger] inner[i]).typ == s[i].typ by {}
    let first = if s.len() > 1 && is_whitespace_type(s[1].typ) {
        s.remove(1)
    } else {
        s
    };
    let inner_first = if inner.len() > 1 && is_whitespace_type(inner[1].typ) {
        inner.remove(1)
    } else {
        inner
    };
    if s.len() > 1 {
        assert(inner[1].typ == s[1].typ);
    }
    assert(inner_first =~= whitespace_stripped_each(first));
    if first.len() > 2 {
        assert(inner_first[first.len() - 2].typ == first[first.len() - 2].typ);
    }
    assert(parenthesis_stripped(inner) =~= whitespace_stripped_each(parenthesis_stripped(s)));
}

/// Puts one blank on each side of each operator.
pub struct SpacesAroundOperatorsFilter {}

/// The kinds of the tokens of a list.
fn kinds_of(tokens: &Vec<Token>) -> (kinds: Vec<TokenType>)
    ensures
        kinds@.len() == tokens@.len(),
        forall|i: int| 0 <= i < tokens@.len() ==> kinds@[i] == (#[trigger] tokens@[i]).typ,
{
    let mut kinds: Vec<TokenType> = Vec::new();
    let mut i: usize = 0;
    while i < tokens.len()
        invariant
            i <= tokens@.len(),
            kinds@.len() == i,
            forall|j: int| 0 <= j < i ==> kinds@[j] == (#[trigger] tokens@[j]).typ,
        decreases tokens@.len() - i,
    {
        kinds.push(tokens[i].typ);
        i += 1;
    }
    kinds
}

/// One blank as a token.
fn blank() -> (token: Token)
    ensures
        token@ == blank_view(),
        is_filler(token),
        token.wf(),
{
    let token = Token::new(TokenType::Whitespace, " ");
    proof {
        lemma_view_children(token);
        assert(token@.children =~= Seq::<TokenView>::empty());
    }
    token
}

impl SpacesAroundOperatorsFilter {
    /// Puts blank space around the operators of one list. Before an
    /// operator stands a blank, unless the operator is the first token or
    /// follows a token of kind `Whitespace`. Directly behind an operator
    /// stands a blank, unless the operator is the last token or a token of
    /// kind `Whitespace` follows it.
    pub fn process_internal(&mut self, tokens: &mut Vec<Token>)
        requires
            all_wf(old(tokens)@),
        ensures
            views(final(tokens)@) == spaced(views(old(tokens)@)),
            reshaped(old(tokens)@, final(tokens)@),
            final(tokens)@.len() >= old(tokens)@.len(),
    {
        let kinds = kinds_of(tokens);
        let n: usize = tokens.len();
        let mut input: Vec<Token> = Vec::new();
        std::mem::swap(tokens, &mut input);
        let ghost origin = input@;
        let ghost model = views(origin);
        let mut i: usize = 0;
        proof {
            assert(views(tokens@) =~= space_run(model, 0));
            lemma_content_take(origin, 0);
        }
        for token in it: input
            invariant
                it.seq() == origin,
                origin == old(tokens)@,
                model == views(origin),
                n == origin.len(),
                kinds@.len() == n,
                forall|j: int| 0 <= j < n ==> kinds@[j] == (#[trigger] origin[j]).typ,
                i == it.index(),
                all_wf(origin),
                all_wf(tokens@),
                tokens@.len() >= it.index(),
                content(tokens@) == content(origin.subrange(0, it.index() as int)),
                views(tokens@) == space_run(model, it.index() as nat),
        {
            proof {
                assert(token == origin[i as int]);
                assert(token.wf());
                lemma_view_children(token);
                assert(model[i as int] == token@);
                lemma_content_take(origin, i + 1);
                if i + 1 < n {
                    lemma_view_children(origin[i + 1]);
                    assert(model[i + 1] == origin[i + 1]@);
                    assert(kinds@[i + 1] == origin[i + 1].typ);
                }
            }
            if token.typ == TokenType::Operator || token.typ == TokenType::OperatorComparison {
                let count = tokens.len();
                proof {
                    if count > 0 {
                        lemma_view_children(tokens@[count - 1]);
                        assert(views(tokens@).last() == tokens@[count - 1]@);
                    }
                }
                if count > 0 && tokens[count - 1].typ != TokenType::Whitespace {
                    let space = blank();
                    proof {
                        lemma_views_push(tokens@, space);
                        lemma_content_push(tokens@, space);
                        lemma_all_wf_push(tokens@, space);
                    }
                    tokens.push(space);
                }
                proof {
                    lemma_views_push(tokens@, token);
                    lemma_content_push(tokens@, token);
                    lemma_all_wf_push(tokens@, token);
                }
                tokens.push(token);
                if n - i > 1 && kinds[i + 1] != TokenType::Whitespace {
                    let space = blank();
                    proof {
                        lemma_views_push(tokens@, space);
                        lemma_content_push(tokens@, space);
                        lemma_all_wf_push(tokens@, space);
                    }
                    tokens.push(space);
                }
            } else {
                proof {
                    lemma_views_push(tokens@, token);
                    lemma_content_push(tokens@, token);
                    lemma_all_wf_push(tokens@, token);
                }
                tokens.push(token);
            }
            i += 1;
        }
        proof {
            assert(origin.subrange(0, origin.len() as int) =~= origin);
        }
    }

    /// Puts blank space around the operators of a statement: of each of its
    /// groups, then of the list itself.
    pub fn process(&mut self, token_list: &mut TokenList)
        requires
            all_wf(old(token_list).tokens@),
        ensures
            views(final(token_list).tokens@) == spaced_statement(views(old(token_list).tokens@)),
            reshaped(old(token_list).tokens@, final(token_list).tokens@),
    {
        self.process_list(&mut token_list.tokens);
    }

    /// `process` on a list of tokens.
    pub fn process_list(&mut self, tokens: &mut Vec<Token>)
        requires
            all_wf(old(tokens)@),
        ensures
            views(final(tokens)@) == spaced_statement(views(old(tokens)@)),
            reshaped(old(tokens)@, final(tokens)@),
            final(tokens)@.len() >= old(tokens)@.len(),
        decreases old(tokens)@,
    {
        let n: usize = tokens.len();
        let ghost origin = tokens@;
        let ghost model = views(origin);
        let mut i: usize = 0;
        while i < n
            invariant
                i <= n,
                n == tokens@.len(),
                origin == old(tokens)@,
                model == views(origin),
                n == origin.len(),
                reshaped(origin, tokens@),
                forall|j: int| i <= j < n ==> tokens@[j] == origin[j],
                forall|j: int| 0 <= j < i ==> (#[trigger] tokens@[j])@ == spaced_token(model[j]),
            decreases n - i,
        {
            let ghost before = tokens@;
            let ghost start = origin[i as int];
            proof {
                assert(before[i as int] == start);
                assert(start.wf());
                lemma_view_children(start);
                assert(model[i as int] == start@);
            }
            if tokens[i].is_group() {
                self.process_list(&mut tokens[i].children);
                tokens[i].update_value();
                proof {
                    lemma_child_reshaped(before, tokens@, i as int);
                    let t = tokens@[i as int];
                    lemma_view_children(t);
                    lemma_text_of_views(t.children@);
                    assert(t@ == spaced_token(model[i as int]));
                }
            }
            proof {
                assert forall|j: int| 0 <= j < i + 1 implies (#[trigger] tokens@[j])@ == spaced_token(
                    model[j],
                ) by {
                    if j < i {
                        assert(tokens@[j] == before[j]);
                    }
                }
                assert forall|j: int| i + 1 <= j < n implies tokens@[j] == origin[j] by {
                    assert(tokens@[j] == before[j]);
                }
            }
            i += 1;
        }
        proof {
            assert(views(tokens@) =~= spaced_each(model));
        }
        self.process_internal(tokens);
    }
}

/// Takes out the blank space that stands before a line break.
pub struct StripBeforeNewline {}

impl StripBeforeNewline {
    /// Whether `token` ends in blank space: its last child is blank space,
    /// or it has no children and is blank space.
    fn ends_in_blank(token: &Token) -> (r: bool)
        ensures
            r == ends_blank(token@),
    {
        proof {
            lemma_view_children(*token);
            if token.children@.len() > 0 {
                lemma_view_children(token.children@.last());
                assert(views(token.children@).last() == token.children@.last()@);
            }
        }
        let n = token.children.len();
        if n > 0 {
            token.children[n - 1].is_whitespace()
        } else {
            token.is_whitespace()
        }
    }

    /// Takes out, in one list, the blank space before each token whose
    /// value starts with a line break: a token of blank space goes; a group
    /// that ends in blank space loses its last child, and goes if that was
    /// its only child.
    pub fn trim(tokens: &mut Vec<Token>)
        requires
            all_wf(old(tokens)@),
        ensures
            views(final(tokens)@) == break_trimmed_upto(
                views(old(tokens)@),
                old(tokens)@.len() as nat,
            ),
            reshaped(old(tokens)@, final(tokens)@),
            final(tokens)@.len() <= old(tokens)@.len(),
            old(tokens)@.len() > 0 ==> final(tokens)@.len() > 0,
    {
        let mut input: Vec<Token> = Vec::new();
        std::mem::swap(tokens, &mut input);
        let ghost origin = input@;
        let ghost model = views(origin);
        let mut prev: Option<Token> = None;
        proof {
            assert(views(tokens@) =~= break_trimmed_upto(model, 0));
            lemma_content_take(origin, 0);
        }
        for token in it: input
            invariant
                it.seq() == origin,
                origin == old(tokens)@,
                model == views(origin),
                all_wf(origin),
                all_wf(tokens@),
                tokens@.len() + 1 <= it.index() || it.index() == 0,
                it.index() == 0 ==> prev is None && tokens@.len() == 0,
                it.index() > 0 ==> prev == Some(origin[it.index() - 1]),
                it.index() > 0 ==> content(tokens@) == content(
                    origin.subrange(0, it.index() - 1),
                ) && views(tokens@) == break_trimmed_upto(model, (it.index() - 1) as nat),
        {
            let ghost i = it.index() as int;
            proof {
                assert(token == origin[i]);
                lemma_view_children(token);
                assert(model[i] == token@);
            }
            let starts = value_starts_with_break(token.value.as_str());
            let decided = prev;
            match decided {
                Some(last) => {
                    let mut last = last;
                    let ghost before = tokens@;
                    let ghost start = last;
                    proof {
                        assert(start == origin[i - 1]);
                        assert(start.wf());
                        lemma_view_children(start);
                        assert(model[i - 1] == start@);
                        lemma_content_take(origin, i);
                    }
                    if Self::ends_in_blank(&last) && starts {
                        let l = last.children.len();
                        if l > 1 {
                            proof {
                                assert(start.children@[l - 1].wf());
                                lemma_remove_silent(start.children@, l - 1);
                                lemma_views_remove(start.children@, l - 1);
                                assert(views(start.children@).remove(l - 1) =~= views(
                                    start.children@,
                                ).drop_last());
                            }
                            last.children.remove(l - 1);
                            last.update_value();
                            proof {
                                lemma_view_children(last);
                                lemma_text_of_views(last.children@);
                                assert(last@ == with_children(start@, start@.children.drop_last()));
                                assert(last.wf());
                                assert(content_of(last) == content_of(start));
                                lemma_views_push(before, last);
                                lemma_content_push(before, last);
                                lemma_all_wf_push(before, last);
                                assert(before.push(last).len() > 0);
                                assert(views(before).push(last@) =~= views(before)
                                    + without_last_blank(start@));
                            }
                            tokens.push(last);
                        } else {
                            proof {
                                if l == 1 {
                                    let only = start.children@[0];
                                    assert(only.wf());
                                    assert(start.children@ =~= seq![only]);
                                    crate::content::lemma_content_one(only);
                                    lemma_view_children(only);
                                    assert(views(start.children@)[0] == only@);
                                }
                                assert(content_of(start) =~= Seq::<Leaf>::empty());
                                assert(views(before) + without_last_blank(start@) =~= views(before));
                            }
                        }
                    } else {
                        proof {
                            lemma_views_push(before, last);
                            lemma_content_push(before, last);
                            lemma_all_wf_push(before, last);
                        }
                        tokens.push(last);
                    }
                },
                None => {},
            }
            prev = Some(token);
        }
        let ghost count = origin.len() as int;
        match prev {
            Some(last) => {
                proof {
                    assert(last == origin[count - 1]);
                    assert(last.wf());
                    lemma_view_children(last);
                    assert(model[count - 1] == last@);
                    lemma_content_take(origin, count);
                    lemma_views_push(tokens@, last);
                    lemma_content_push(tokens@, last);
                    lemma_all_wf_push(tokens@, last);
                    assert(origin.subrange(0, count) =~= origin);
                }
                tokens.push(last);
            },
            None => {
                proof {
                    assert(origin.subrange(0, 0) =~= origin);
                }
            },
        }
    }

    /// Takes out, in a list and in all its groups, the blank space that
    /// stands directly before a token whose value starts with a line
    /// break: in each group first, then in the list itself.
    pub fn process(&self, tokens: &mut Vec<Token>)
        requires
            all_wf(old(tokens)@),
        ensures
            views(final(tokens)@) == break_trimmed(views(old(tokens)@)),
            reshaped(old(tokens)@, final(tokens)@),
            final(tokens)@.len() <= old(tokens)@.len(),
            old(tokens)@.len() > 0 ==> final(tokens)@.len() > 0,
        decreases old(tokens)@,
    {
        let n: usize = tokens.len();
        let ghost origin = tokens@;
        let ghost model = views(origin);
        let mut i: usize = 0;
        while i < n
            invariant
                i <= n,
                n == tokens@.len(),
                origin == old(tokens)@,
                model == views(origin),
                n == origin.len(),
                reshaped(origin, tokens@),
                forall|j: int| i <= j < n ==> tokens@[j] == origin[j],
                forall|j: int|
                    0 <= j < i ==> (#[trigger] tokens@[j])@ == break_trimmed_token(model[j]),
            decreases n - i,
        {
            let ghost before = tokens@;
            let ghost start = origin[i as int];
            proof {
                assert(before[i as int] == start);
                assert(start.wf());
                lemma_view_children(start);
                assert(model[i as int] == start@);
            }
            if tokens[i].is_group() {
                self.process(&mut tokens[i].children);
                tokens[i].update_value();
                proof {
                    lemma_child_reshaped(before, tokens@, i as int);
                    let t = tokens@[i as int];
                    lemma_view_children(t);
                    lemma_text_of_views(t.children@);
                    assert(t@ == break_trimmed_token(model[i as int]));
                }
            }
            proof {
                assert forall|j: int| 0 <= j < i + 1 implies (#[trigger] tokens@[j])@
                    == break_trimmed_token(model[j]) by {
                    if j < i {
                        assert(tokens@[j] == before[j]);
                    }
                }
                assert forall|j: int| i + 1 <= j < n implies tokens@[j] == origin[j] by {
                    assert(tokens@[j] == before[j]);
                }
            }
            i += 1;
        }
        proof {
            assert(views(tokens@) =~= break_trimmed_each(model));
        }
        Self::trim(tokens);
    }
}

} // verus!
