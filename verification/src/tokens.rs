//! The token model: token kinds, tokens with optional children, and the
//! operations on token lists that the grouper and the filters share.

use crate::content::{blank_leaves, content, lemma_blank_leaves_grouped, lemma_grouped_content};
use crate::text::{ascii_upper_seq, eq_ignore_case, str_eq};
use vstd::prelude::*;

verus! {

/// The kind of a token. The kinds from `Identifier` on are group kinds: only
/// they carry children.
#[derive(Clone, Copy, Debug, PartialEq, Eq, Structural, Hash)]
pub enum TokenType {
    Whitespace,
    Newline,
    CommentSingle,
    CommentMultiline,
    Keyword,
    KeywordDML,
    KeywordDDL,
    KeywordCTE,
    Punctuation,
    Operator,
    OperatorComparison,
    Wildcard,
    Name,
    NameBuiltin,
    Literal,
    LiteralString,
    LiteralStringSymbol,
    LiteralNumber,
    LiteralNumberInteger,
    LiteralNumberFloat,
    LiteralNumberHexadecimal,
    Placeholder,
    Command,
    Error,
    Identifier,
    IdentifierList,
    Parenthesis,
    SquareBrackets,
    Function,
    Where,
    Case,
    Comparison,
    Operation,
    TypedLiteral,
    TypeCast,
    Assignment,
    Over,
    Values,
    Having,
    If,
    Begin,
}

/// Whether `t` is one of the kinds that carry children.
pub open spec fn is_group_type(t: TokenType) -> bool {
    t == TokenType::Identifier || t == TokenType::IdentifierList || t == TokenType::Parenthesis
        || t == TokenType::SquareBrackets || t == TokenType::Function || t == TokenType::Where
        || t == TokenType::Case || t == TokenType::Comparison || t == TokenType::Operation
        || t == TokenType::TypedLiteral || t == TokenType::TypeCast || t
        == TokenType::Assignment || t == TokenType::Over || t == TokenType::Values || t
        == TokenType::Having || t == TokenType::If || t == TokenType::Begin
}

/// Whether `t` is blank space: `Whitespace` or `Newline`.
pub open spec fn is_whitespace_type(t: TokenType) -> bool {
    t == TokenType::Whitespace || t == TokenType::Newline
}

/// Whether `t` is one of the keyword kinds.
pub open spec fn is_keyword_type(t: TokenType) -> bool {
    t == TokenType::Keyword || t == TokenType::KeywordDML || t == TokenType::KeywordDDL || t
        == TokenType::KeywordCTE
}

impl TokenType {
    pub fn is_group(self) -> (r: bool)
        ensures
            r == is_group_type(self),
    {
        match self {
            TokenType::Identifier
            | TokenType::IdentifierList
            | TokenType::Parenthesis
            | TokenType::SquareBrackets
            | TokenType::Function
            | TokenType::Where
            | TokenType::Case
            | TokenType::Comparison
            | TokenType::Operation
            | TokenType::TypedLiteral
            | TokenType::TypeCast
            | TokenType::Assignment
            | TokenType::Over
            | TokenType::Values
            | TokenType::Having
            | TokenType::If
            | TokenType::Begin => true,
            _ => false,
        }
    }

    pub fn is_whitespace(self) -> (r: bool)
        ensures
            r == is_whitespace_type(self),
    {
        self == TokenType::Whitespace || self == TokenType::Newline
    }

    pub fn is_keyword(self) -> (r: bool)
        ensures
            r == is_keyword_type(self),
    {
        self == TokenType::Keyword || self == TokenType::KeywordDML || self
            == TokenType::KeywordDDL || self == TokenType::KeywordCTE
    }
}

/// A typed span of SQL text. A group token owns the tokens it was built from.
#[derive(Debug)]
pub struct Token {
    pub typ: TokenType,
    pub value: String,
    pub children: Vec<Token>,
}

/// A token as a value: its kind, the characters of its value, and its
/// children as values.
pub ghost struct TokenView {
    pub typ: TokenType,
    pub value: Seq<char>,
    pub children: Seq<TokenView>,
}

impl Token {
    /// The token as a value.
    pub open spec fn model(&self) -> TokenView
        decreases self,
    {
        TokenView {
            typ: self.typ,
            value: self.value@,
            children: Seq::new(
                self.children@.len(),
                |i: int|
                    if 0 <= i < self.children@.len() {
                        self.children@[i].model()
                    } else {
                        arbitrary()
                    },
            ),
        }
    }
}

impl View for Token {
    type V = TokenView;

    open spec fn view(&self) -> TokenView {
        self.model()
    }
}

/// The tokens of a list as values.
pub open spec fn views(tokens: Seq<Token>) -> Seq<TokenView> {
    Seq::new(tokens.len(), |i: int| tokens[i]@)
}

/// The children of a token as values are the values of its children.
pub proof fn lemma_view_children(t: Token)
    ensures
        t@.children == views(t.children@),
        t@.typ == t.typ,
        t@.value == t.value@,
{
    let kids = t.model().children;
    assert(kids.len() == t.children@.len());
    assert forall|i: int| 0 <= i < kids.len() implies kids[i] == views(t.children@)[i] by {
        assert(kids[i] == t.children@[i].model());
    }
    assert(kids =~= views(t.children@));
}

/// The values of a list without the token at `i`.
pub proof fn lemma_views_remove(s: Seq<Token>, i: int)
    requires
        0 <= i < s.len(),
    ensures
        views(s.remove(i)) == views(s).remove(i),
{
    assert(views(s.remove(i)) =~= views(s).remove(i));
}

/// The values of a list with one token more at its end.
pub proof fn lemma_views_push(s: Seq<Token>, t: Token)
    ensures
        views(s.push(t)) == views(s).push(t@),
{
    assert(views(s.push(t)) =~= views(s).push(t@));
}

/// The text of a list of token values.
pub open spec fn text_of(tokens: Seq<TokenView>) -> Seq<char>
    decreases tokens.len(),
{
    if tokens.len() == 0 {
        Seq::<char>::empty()
    } else {
        text_of(tokens.drop_last()) + tokens.last().value
    }
}

/// The text of a list of tokens is the text of their values.
pub proof fn lemma_text_of_views(tokens: Seq<Token>)
    ensures
        text_of(views(tokens)) == joined_text(tokens),
    decreases tokens.len(),
{
    if tokens.len() > 0 {
        lemma_text_of_views(tokens.drop_last());
        assert(views(tokens).drop_last() =~= views(tokens.drop_last()));
    }
}

/// The tokens of one statement.
pub struct TokenList {
    pub tokens: Vec<Token>,
}

impl TokenList {
    pub fn new(tokens: Vec<Token>) -> (list: Self)
        ensures
            list.tokens == tokens,
    {
        TokenList { tokens }
    }

    pub fn len(&self) -> (n: usize)
        ensures
            n == self.tokens@.len(),
    {
        self.tokens.len()
    }
}

/// The values of `tokens`, one after the other.
pub open spec fn joined_text(tokens: Seq<Token>) -> Seq<char>
    decreases tokens.len(),
{
    if tokens.len() == 0 {
        Seq::<char>::empty()
    } else {
        joined_text(tokens.drop_last()) + tokens.last().value@
    }
}

/// Every token of `tokens` is well formed.
pub open spec fn all_wf(tokens: Seq<Token>) -> bool {
    forall|i: int| 0 <= i < tokens.len() ==> (#[trigger] tokens[i]).wf()
}

/// No token of `tokens` has children.
pub open spec fn all_leaves(tokens: Seq<Token>) -> bool {
    forall|i: int| 0 <= i < tokens.len() ==> (#[trigger] tokens[i]).children@.len() == 0
}

impl Token {
    /// A leaf has no children and a kind that is no group kind. A group has a
    /// group kind, at least one child, only well-formed children, and the
    /// text of its children as its value.
    pub open spec fn wf(self) -> bool
        decreases self,
    {
        if is_group_type(self.typ) {
            &&& self.children@.len() > 0
            &&& forall|i: int|
                0 <= i < self.children@.len() ==> (#[trigger] self.children@[i]).wf()
            &&& self.value@ == joined_text(self.children@)
        } else {
            self.children@.len() == 0
        }
    }

    /// A token without children.
    pub fn new(typ: TokenType, value: &str) -> (t: Token)
        ensures
            t.typ == typ,
            t.value@ == value@,
            t.children@.len() == 0,
            !is_group_type(typ) ==> t.wf(),
    {
        Token { typ, value: value.to_owned(), children: Vec::new() }
    }

    /// A token without children that takes over `value`.
    pub fn leaf(typ: TokenType, value: String) -> (t: Token)
        ensures
            t.typ == typ,
            t.value == value,
            t.children@.len() == 0,
            !is_group_type(typ) ==> t.wf(),
    {
        Token { typ, value, children: Vec::new() }
    }

    /// A group of kind `typ` over `children`; its value is their text.
    pub fn group(typ: TokenType, children: Vec<Token>) -> (t: Token)
        ensures
            t.typ == typ,
            t.value@ == joined_text(children@),
            t.children == children,
            (is_group_type(typ) && children@.len() > 0 && all_wf(children@)) ==> t.wf(),
    {
        let value = join_values(&children);
        Token { typ, value, children }
    }

    pub fn is_group(&self) -> (r: bool)
        ensures
            r == is_group_type(self.typ),
    {
        self.typ.is_group()
    }

    pub fn is_whitespace(&self) -> (r: bool)
        ensures
            r == is_whitespace_type(self.typ),
    {
        self.typ.is_whitespace()
    }

    pub fn is_keyword(&self) -> (r: bool)
        ensures
            r == is_keyword_type(self.typ),
    {
        self.typ.is_keyword()
    }

    /// Whether the token is a keyword whose value, with its ASCII letters in
    /// upper case, is `word`.
    pub fn is_keyword_word(&self, word: &str) -> (r: bool)
        ensures
            r == (is_keyword_type(self.typ) && ascii_upper_seq(self.value@) == word@),
    {
        self.typ.is_keyword() && eq_ignore_case(self.value.as_str(), word)
    }

    /// Whether the token is the punctuation `p`.
    pub fn is_punctuation(&self, p: &str) -> (r: bool)
        ensures
            r == (self.typ == TokenType::Punctuation && self.value@ == p@),
    {
        self.typ == TokenType::Punctuation && str_eq(self.value.as_str(), p)
    }

    /// Sets the value of a token with children to the text of its children.
    /// A token without children keeps its value.
    pub fn update_value(&mut self)
        ensures
            final(self).typ == old(self).typ,
            final(self).children == old(self).children,
            final(self).value@ == if old(self).children@.len() > 0 {
                joined_text(old(self).children@)
            } else {
                old(self).value@
            },
    {
        if self.children.len() > 0 {
            self.value = join_values(&self.children);
        }
    }
}

/// The text of `tokens` as one string.
pub fn join_values(tokens: &Vec<Token>) -> (out: String)
    ensures
        out@ == joined_text(tokens@),
{
    let mut out: String = String::new();
    let mut i: usize = 0;
    while i < tokens.len()
        invariant
            i <= tokens@.len(),
            out@ == joined_text(tokens@.subrange(0, i as int)),
        decreases tokens@.len() - i,
    {
        out.append(tokens[i].value.as_str());
        proof {
            let next = tokens@.subrange(0, i as int + 1);
            assert(next.drop_last() == tokens@.subrange(0, i as int));
        }
        i += 1;
    }
    assert(tokens@.subrange(0, tokens@.len() as int) == tokens@);
    out
}

/// The index of the first token at or after `start` that counts: any token,
/// or with `skip_ws` any token that is not blank space.
pub fn next_from(tokens: &Vec<Token>, start: usize, skip_ws: bool) -> (r: Option<usize>)
    ensures
        match r {
            Some(i) => start <= i < tokens@.len() && !(skip_ws && is_whitespace_type(
                tokens@[i as int].typ,
            )) && forall|j: int|
                start <= j < i ==> skip_ws && is_whitespace_type((#[trigger] tokens@[j]).typ),
            None => forall|j: int|
                start <= j < tokens@.len() ==> skip_ws && is_whitespace_type(
                    (#[trigger] tokens@[j]).typ,
                ),
        },
{
    let mut i: usize = start;
    while i < tokens.len()
        invariant
            start <= i,
            forall|j: int|
                start <= j < i && j < tokens@.len() ==> skip_ws && is_whitespace_type(
                    (#[trigger] tokens@[j]).typ,
                ),
        decreases tokens@.len() - i,
    {
        if !(skip_ws && tokens[i].is_whitespace()) {
            return Some(i);
        }
        i += 1;
    }
    None
}

/// The index of the last token before `idx` that counts: any token, or with
/// `skip_ws` any token that is not blank space.
pub fn prev_before(tokens: &Vec<Token>, idx: usize, skip_ws: bool) -> (r: Option<usize>)
    requires
        idx <= tokens@.len(),
    ensures
        match r {
            Some(i) => i < idx && !(skip_ws && is_whitespace_type(tokens@[i as int].typ))
                && forall|j: int|
                i < j < idx ==> skip_ws && is_whitespace_type((#[trigger] tokens@[j]).typ),
            None => forall|j: int|
                0 <= j < idx ==> skip_ws && is_whitespace_type((#[trigger] tokens@[j]).typ),
        },
{
    let mut i: usize = idx;
    while i > 0
        invariant
            i <= idx <= tokens@.len(),
            forall|j: int|
                i <= j < idx ==> skip_ws && is_whitespace_type((#[trigger] tokens@[j]).typ),
        decreases i,
    {
        i -= 1;
        if !(skip_ws && tokens[i].is_whitespace()) {
            return Some(i);
        }
    }
    None
}

/// `after` is `before` with more or fewer groups: its tokens are well
/// formed, its text is that of `before`, it says what `before` says, blank
/// space stands between the same leaves, and it is empty only if `before`
/// is.
pub open spec fn regrouped(before: Seq<Token>, after: Seq<Token>) -> bool {
    &&& all_wf(after)
    &&& joined_text(after) == joined_text(before)
    &&& content(after) == content(before)
    &&& blank_leaves(views(after)) == blank_leaves(views(before))
    &&& before.len() > 0 ==> after.len() > 0
}

/// The tokens of two well-formed lists laid end to end are well formed.
pub proof fn lemma_all_wf_concat(a: Seq<Token>, b: Seq<Token>)
    requires
        all_wf(a),
        all_wf(b),
    ensures
        all_wf(a + b),
{
    assert forall|i: int| 0 <= i < (a + b).len() implies (#[trigger] (a + b)[i]).wf() by {
        if i < a.len() {
            assert((a + b)[i] == a[i]);
        } else {
            assert((a + b)[i] == b[i - a.len()]);
        }
    }
}

/// A well-formed token more at the end of a well-formed list leaves the
/// list well formed.
pub proof fn lemma_all_wf_push(s: Seq<Token>, t: Token)
    requires
        all_wf(s),
        t.wf(),
    ensures
        all_wf(s.push(t)),
{
    assert forall|i: int| 0 <= i < s.push(t).len() implies (#[trigger] s.push(t)[i]).wf() by {
        if i < s.len() {
            assert(s.push(t)[i] == s[i]);
        }
    }
}

/// The tokens of a part of a well-formed list are well formed.
pub proof fn lemma_all_wf_subrange(s: Seq<Token>, from: int, to: int)
    requires
        all_wf(s),
        0 <= from <= to <= s.len(),
    ensures
        all_wf(s.subrange(from, to)),
{
    assert forall|i: int| 0 <= i < to - from implies (#[trigger] s.subrange(from, to)[i]).wf() by {
        assert(s.subrange(from, to)[i] == s[from + i]);
    }
}

/// A list cut in three has the text of its three parts.
pub proof fn lemma_joined_text_three(s: Seq<Token>, from: int, to: int)
    requires
        0 <= from <= to <= s.len(),
    ensures
        s == s.subrange(0, from) + s.subrange(from, to) + s.subrange(to, s.len() as int),
        joined_text(s) == joined_text(s.subrange(0, from)) + joined_text(s.subrange(from, to))
            + joined_text(s.subrange(to, s.len() as int)),
{
    let head = s.subrange(0, from);
    let mid = s.subrange(from, to);
    let rest = s.subrange(to, s.len() as int);
    assert(s == head + mid + rest);
    lemma_joined_text_concat(head, mid);
    lemma_joined_text_concat(head + mid, rest);
}

/// A list with one part replaced by a single well-formed token of the same
/// text is well formed and has the text of the list.
pub proof fn lemma_replace_part(s: Seq<Token>, from: int, to: int, grp: Token)
    requires
        all_wf(s),
        0 <= from < to <= s.len(),
        grp.wf(),
        grp.value@ == joined_text(s.subrange(from, to)),
    ensures
        all_wf(s.subrange(0, from).push(grp) + s.subrange(to, s.len() as int)),
        joined_text(s.subrange(0, from).push(grp) + s.subrange(to, s.len() as int))
            == joined_text(s),
{
    let head = s.subrange(0, from);
    let rest = s.subrange(to, s.len() as int);
    lemma_joined_text_three(s, from, to);
    lemma_all_wf_subrange(s, 0, from);
    lemma_all_wf_subrange(s, to, s.len() as int);
    assert(head.push(grp) == head + seq![grp]);
    assert(all_wf(seq![grp]));
    lemma_all_wf_concat(head, seq![grp]);
    lemma_all_wf_concat(head.push(grp), rest);
    lemma_joined_text_concat(head, seq![grp]);
    lemma_joined_text_one(grp);
    lemma_joined_text_concat(head.push(grp), rest);
}

/// Puts `tokens[start..=end]` into one new group of kind `kind` that stands
/// in their place.
pub fn wrap_tokens(tokens: &mut Vec<Token>, start: usize, end: usize, kind: TokenType)
    requires
        start <= end < old(tokens)@.len(),
        all_wf(old(tokens)@),
        is_group_type(kind),
    ensures
        regrouped(old(tokens)@, final(tokens)@),
        final(tokens)@.len() == old(tokens)@.len() - (end - start),
        final(tokens)@[start as int].typ == kind,
        final(tokens)@[start as int].children@ == old(tokens)@.subrange(start as int, end + 1),
        forall|i: int| 0 <= i < start ==> final(tokens)@[i] == old(tokens)@[i],
        forall|i: int|
            start < i < final(tokens)@.len() ==> final(tokens)@[i] == old(tokens)@[i + (end
                - start)],
{
    let ghost before = tokens@;
    let n: usize = tokens.len();
    assert(end < n);
    let mut tail = tokens.split_off(end + 1);
    let children = tokens.split_off(start);
    proof {
        lemma_all_wf_subrange(before, start as int, end + 1);
        assert(children@ == before.subrange(start as int, end + 1));
    }
    let grp = Token::group(kind, children);
    proof {
        lemma_replace_part(before, start as int, end + 1, grp);
    }
    tokens.push(grp);
    tokens.append(&mut tail);
    proof {
        assert(tokens@ == before.subrange(0, start as int).push(grp) + before.subrange(
            end + 1,
            before.len() as int,
        ));
        lemma_grouped_content(before, tokens@, start as int, end as int, false);
        lemma_grouped_range(before, tokens@, start as int, end as int, kind, false);
        lemma_blank_leaves_grouped(views(before), start as int, end as int, kind, false);
    }
}

/// Moves `tokens[start + 1..=end]` into the group `tokens[start]`, behind
/// its children.
pub fn extend_group(tokens: &mut Vec<Token>, start: usize, end: usize)
    requires
        start <= end < old(tokens)@.len(),
        all_wf(old(tokens)@),
        is_group_type(old(tokens)@[start as int].typ),
    ensures
        regrouped(old(tokens)@, final(tokens)@),
        final(tokens)@.len() == old(tokens)@.len() - (end - start),
        final(tokens)@[start as int].typ == old(tokens)@[start as int].typ,
        final(tokens)@[start as int].children@ == old(tokens)@[start as int].children@ + old(
            tokens,
        )@.subrange(start + 1, end + 1),
        forall|i: int| 0 <= i < start ==> final(tokens)@[i] == old(tokens)@[i],
        forall|i: int|
            start < i < final(tokens)@.len() ==> final(tokens)@[i] == old(tokens)@[i + (end
                - start)],
{
    let ghost before = tokens@;
    let n: usize = tokens.len();
    assert(end < n);
    let mut tail = tokens.split_off(end + 1);
    let mut more = tokens.split_off(start + 1);
    let ghost first = tokens@[start as int];
    proof {
        assert(first == before[start as int]);
        assert(first.wf());
        assert(more@ == before.subrange(start + 1, end + 1));
        lemma_all_wf_subrange(before, start + 1, end + 1);
        assert(all_wf(first.children@));
        lemma_all_wf_concat(first.children@, more@);
        lemma_joined_text_concat(first.children@, more@);
        assert(before.subrange(start as int, end + 1) == seq![first] + more@);
        lemma_joined_text_concat(seq![first], more@);
        lemma_joined_text_one(first);
    }
    tokens[start].children.append(&mut more);
    tokens[start].update_value();
    proof {
        let grp = tokens@[start as int];
        assert(grp.children@ == first.children@ + before.subrange(start + 1, end + 1));
        assert(grp.wf());
        lemma_replace_part(before, start as int, end + 1, grp);
        assert(tokens@ == before.subrange(0, start as int).push(grp));
    }
    tokens.append(&mut tail);
    proof {
        assert(tokens@ == before.subrange(0, start as int).push(tokens@[start as int])
            + before.subrange(end + 1, before.len() as int));
        lemma_grouped_content(before, tokens@, start as int, end as int, true);
        lemma_grouped_range(before, tokens@, start as int, end as int, first.typ, true);
        lemma_view_children(first);
        assert(views(before)[start as int] == first@);
        lemma_blank_leaves_grouped(views(before), start as int, end as int, first.typ, true);
    }
}

/// Puts `tokens[start..=end]` into one group of kind `kind` that stands in
/// their place. With `extend`, if `tokens[start]` is a group of that kind
/// already, the tokens after it join that group instead.
pub fn group_tokens(
    tokens: &mut Vec<Token>,
    start: usize,
    end: usize,
    kind: TokenType,
    extend: bool,
)
    requires
        start <= end < old(tokens)@.len(),
        all_wf(old(tokens)@),
        is_group_type(kind),
    ensures
        views(final(tokens)@) == grouped_range(
            views(old(tokens)@),
            start as int,
            end as int,
            kind,
            extend,
        ),
        regrouped(old(tokens)@, final(tokens)@),
        final(tokens)@.len() == old(tokens)@.len() - (end - start),
        final(tokens)@[start as int].typ == kind,
        final(tokens)@[start as int].children@ == if extend && old(tokens)@[start as int].typ
            == kind {
            old(tokens)@[start as int].children@ + old(tokens)@.subrange(start + 1, end + 1)
        } else {
            old(tokens)@.subrange(start as int, end + 1)
        },
        forall|i: int| 0 <= i < start ==> final(tokens)@[i] == old(tokens)@[i],
        forall|i: int|
            start < i < final(tokens)@.len() ==> final(tokens)@[i] == old(tokens)@[i + (end
                - start)],
{
    let ghost before = tokens@;
    if extend && tokens[start].typ == kind {
        extend_group(tokens, start, end);
    } else {
        wrap_tokens(tokens, start, end, kind);
    }
    proof {
        lemma_grouped_range(before, tokens@, start as int, end as int, kind, extend);
    }
}

/// Two lists whose tokens have the same values, one by one, have the same
/// text.
pub proof fn lemma_joined_text_same_values(a: Seq<Token>, b: Seq<Token>)
    requires
        a.len() == b.len(),
        forall|i: int| 0 <= i < a.len() ==> (#[trigger] a[i]).value@ == b[i].value@,
    ensures
        joined_text(a) == joined_text(b),
    decreases a.len(),
{
    if a.len() > 0 {
        assert(a.last().value@ == b[a.len() - 1].value@);
        assert forall|i: int| 0 <= i < a.drop_last().len() implies (#[trigger] a.drop_last()[i]).value@
            == b.drop_last()[i].value@ by {
            assert(a.drop_last()[i] == a[i]);
            assert(b.drop_last()[i] == b[i]);
        }
        lemma_joined_text_same_values(a.drop_last(), b.drop_last());
    }
}

/// The text of two lists laid end to end is the text of the first followed by
/// the text of the second.
pub proof fn lemma_joined_text_concat(a: Seq<Token>, b: Seq<Token>)
    ensures
        joined_text(a + b) == joined_text(a) + joined_text(b),
    decreases b.len(),
{
    if b.len() == 0 {
        assert(a + b == a);
    } else {
        lemma_joined_text_concat(a, b.drop_last());
        assert((a + b).drop_last() == a + b.drop_last());
        assert((a + b).last() == b.last());
    }
}

/// A group of kind `kind` over `children` as a value.
pub open spec fn group_view(kind: TokenType, children: Seq<TokenView>) -> TokenView {
    TokenView { typ: kind, value: text_of(children), children }
}

/// The list `s` with the tokens from `start` to `end` in one group of kind
/// `kind`. With `extend`, if the token at `start` is a group of that kind
/// already, the tokens behind it have joined that group instead.
pub open spec fn grouped_range(
    s: Seq<TokenView>,
    start: int,
    end: int,
    kind: TokenType,
    extend: bool,
) -> Seq<TokenView> {
    let group = if extend && s[start].typ == kind {
        group_view(kind, s[start].children + s.subrange(start + 1, end + 1))
    } else {
        group_view(kind, s.subrange(start, end + 1))
    };
    s.subrange(0, start).push(group) + s.subrange(end + 1, s.len() as int)
}

/// What `group_tokens` makes of a list, as values.
pub proof fn lemma_grouped_range(
    before: Seq<Token>,
    after: Seq<Token>,
    start: int,
    end: int,
    kind: TokenType,
    extend: bool,
)
    requires
        0 <= start <= end < before.len(),
        all_wf(after),
        is_group_type(kind),
        after.len() == before.len() - (end - start),
        after[start].typ == kind,
        after[start].children@ == if extend && before[start].typ == kind {
            before[start].children@ + before.subrange(start + 1, end + 1)
        } else {
            before.subrange(start, end + 1)
        },
        forall|i: int| 0 <= i < start ==> after[i] == before[i],
        forall|i: int| start < i < after.len() ==> after[i] == before[i + (end - start)],
    ensures
        views(after) == grouped_range(views(before), start, end, kind, extend),
{
    let group = after[start];
    let model = views(before);
    lemma_view_children(group);
    lemma_view_children(before[start]);
    lemma_text_of_views(group.children@);
    assert(group.wf());
    assert(model[start] == before[start]@);
    let kids = if extend && before[start].typ == kind {
        model[start].children + model.subrange(start + 1, end + 1)
    } else {
        model.subrange(start, end + 1)
    };
    assert(views(group.children@) =~= kids);
    assert(group@ == group_view(kind, kids));
    let target = grouped_range(model, start, end, kind, extend);
    assert(views(after).len() == target.len());
    assert forall|i: int| 0 <= i < after.len() implies views(after)[i] == target[i] by {
        if i < start {
            assert(after[i] == before[i]);
        } else if i > start {
            assert(after[i] == before[i + (end - start)]);
        }
    }
    assert(views(after) =~= target);
}

/// The text of a list of one token is that token's value.
pub proof fn lemma_joined_text_one(t: Token)
    ensures
        joined_text(seq![t]) == t.value@,
{
    assert(seq![t].drop_last() == Seq::<Token>::empty());
    assert(joined_text(seq![t]) == joined_text(Seq::<Token>::empty()) + t.value@);
}

} // verus!
