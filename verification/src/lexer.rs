//! The lexer: turns SQL text into a flat list of typed tokens whose values,
//! laid end to end, are the text.

use crate::text::{ascii_upper, ascii_upper_char, ascii_upper_seq, chars_of, string_of};
use crate::tokens::{is_whitespace_type, 
    is_group_type, joined_text, lemma_view_children, views, Token, TokenType, TokenView,
};
use crate::trie::Trie;
use vstd::prelude::*;

verus! {

/// The classes of characters that the lexer scans runs of.
#[derive(Clone, Copy, Debug, PartialEq, Eq, Structural)]
pub enum CharClass {
    /// Blank space: blank, tab, line feed, carriage return, vertical tab,
    /// form feed.
    Space,
    /// `0` to `9`.
    Digit,
    /// A digit or one of `a` to `f`, `A` to `F`.
    HexDigit,
    /// A letter, a digit, `_`, or any character outside ASCII.
    Ident,
    /// An `Ident` character, `$` or `#`.
    Word,
    /// One of `< > = ~ !`.
    Comparison,
    /// One of `+ / @ # % ^ & | -`.
    Operator,
    /// Anything but a line feed or a carriage return.
    LineText,
    /// Anything but `[` and `]`.
    BracketText,
}

pub open spec fn is_space(c: char) -> bool {
    c == ' ' || c == '\t' || c == '\n' || c == '\r' || c == '\x0b' || c == '\x0c'
}

pub open spec fn is_digit(c: char) -> bool {
    '0' <= c && c <= '9'
}

pub open spec fn is_letter(c: char) -> bool {
    ('A' <= c && c <= 'Z') || ('a' <= c && c <= 'z')
}

pub open spec fn is_ident(c: char) -> bool {
    is_letter(c) || is_digit(c) || c == '_' || c > '\x7f'
}

/// Whether `c` belongs to `class`.
pub open spec fn in_class(c: char, class: CharClass) -> bool {
    match class {
        CharClass::Space => is_space(c),
        CharClass::Digit => is_digit(c),
        CharClass::HexDigit => is_digit(c) || ('a' <= c && c <= 'f') || ('A' <= c && c <= 'F'),
        CharClass::Ident => is_ident(c),
        CharClass::Word => is_ident(c) || c == '$' || c == '#',
        CharClass::Comparison => c == '<' || c == '>' || c == '=' || c == '~' || c == '!',
        CharClass::Operator => c == '+' || c == '/' || c == '@' || c == '#' || c == '%' || c
            == '^' || c == '&' || c == '|' || c == '-',
        CharClass::LineText => c != '\n' && c != '\r',
        CharClass::BracketText => c != '[' && c != ']',
    }
}

/// The index of the first character of `s` at or after `i` that is not in
/// `class`, or the length of `s` if there is none.
pub open spec fn run_end(s: Seq<char>, i: int, class: CharClass) -> int
    decreases s.len() - i,
{
    if 0 <= i < s.len() && in_class(s[i], class) {
        run_end(s, i + 1, class)
    } else {
        i
    }
}

pub fn is_space_char(c: char) -> (r: bool)
    ensures
        r == is_space(c),
{
    c == ' ' || c == '\t' || c == '\n' || c == '\r' || c == '\x0b' || c == '\x0c'
}

pub fn is_digit_char(c: char) -> (r: bool)
    ensures
        r == is_digit(c),
{
    c >= '0' && c <= '9'
}

pub fn is_letter_char(c: char) -> (r: bool)
    ensures
        r == is_letter(c),
{
    (c >= 'A' && c <= 'Z') || (c >= 'a' && c <= 'z')
}

pub fn is_ident_char(c: char) -> (r: bool)
    ensures
        r == is_ident(c),
{
    is_letter_char(c) || is_digit_char(c) || c == '_' || c > '\x7f'
}

pub fn char_in_class(c: char, class: CharClass) -> (r: bool)
    ensures
        r == in_class(c, class),
{
    match class {
        CharClass::Space => is_space_char(c),
        CharClass::Digit => is_digit_char(c),
        CharClass::HexDigit => is_digit_char(c) || (c >= 'a' && c <= 'f') || (c >= 'A' && c
            <= 'F'),
        CharClass::Ident => is_ident_char(c),
        CharClass::Word => is_ident_char(c) || c == '$' || c == '#',
        CharClass::Comparison => c == '<' || c == '>' || c == '=' || c == '~' || c == '!',
        CharClass::Operator => c == '+' || c == '/' || c == '@' || c == '#' || c == '%' || c
            == '^' || c == '&' || c == '|' || c == '-',
        CharClass::LineText => c != '\n' && c != '\r',
        CharClass::BracketText => c != '[' && c != ']',
    }
}

/// The end of the run of characters of `class` that starts at `pos`.
pub fn scan_run(chars: &Vec<char>, pos: usize, class: CharClass) -> (end: usize)
    requires
        pos <= chars@.len(),
    ensures
        end == run_end(chars@, pos as int, class),
        pos <= end <= chars@.len(),
        pos < chars@.len() && in_class(chars@[pos as int], class) ==> pos < end,
        forall|j: int| pos <= j < end ==> in_class(#[trigger] chars@[j], class),
{
    let n: usize = chars.len();
    let mut i: usize = pos;
    while i < n && char_in_class(chars[i], class)
        invariant
            pos <= i <= n,
            n == chars@.len(),
            run_end(chars@, pos as int, class) == run_end(chars@, i as int, class),
            forall|j: int| pos <= j < i ==> in_class(#[trigger] chars@[j], class),
        decreases n - i,
    {
        i += 1;
    }
    i
}

/// Whether `chars[at..at + len]` and `chars[pat..pat + len]` hold the same
/// characters.
pub fn same_at(chars: &Vec<char>, at: usize, pat: usize, len: usize) -> (r: bool)
    requires
        at + len <= chars@.len(),
        pat + len <= chars@.len(),
    ensures
        r == (chars@.subrange(at as int, at + len) == chars@.subrange(pat as int, pat + len)),
{
    let n: usize = chars.len();
    let mut k: usize = 0;
    while k < len
        invariant
            k <= len,
            n == chars@.len(),
            at + len <= n,
            pat + len <= n,
            chars@.subrange(at as int, at + k) == chars@.subrange(pat as int, pat + k),
        decreases len - k,
    {
        if chars[at + k] != chars[pat + k] {
            proof {
                assert(chars@.subrange(at as int, at + len)[k as int] != chars@.subrange(
                    pat as int,
                    pat + len,
                )[k as int]);
            }
            return false;
        }
        proof {
            assert(chars@.subrange(at as int, at + k + 1) == chars@.subrange(
                at as int,
                at + k,
            ).push(chars@[at + k]));
            assert(chars@.subrange(pat as int, pat + k + 1) == chars@.subrange(
                pat as int,
                pat + k,
            ).push(chars@[pat + k]));
        }
        k += 1;
    }
    true
}

/// The end of the line comment that starts at `pos`: the end of the line,
/// behind the line break (`\r\n`, `\r` or `\n`) if there is one.
pub open spec fn line_comment_end(s: Seq<char>, pos: int) -> int {
    let stop = run_end(s, pos, CharClass::LineText);
    if stop + 1 < s.len() && s[stop] == '\r' && s[stop + 1] == '\n' {
        stop + 2
    } else if stop < s.len() {
        stop + 1
    } else {
        stop
    }
}

/// The end of the line comment that starts at `pos`.
pub fn scan_line_comment(chars: &Vec<char>, pos: usize) -> (end: usize)
    requires
        pos < chars@.len(),
    ensures
        end == line_comment_end(chars@, pos as int),
        pos < end <= chars@.len(),
{
    let n: usize = chars.len();
    let stop = scan_run(chars, pos, CharClass::LineText);
    if stop < n {
        if chars[stop] == '\r' && stop + 1 < n && chars[stop + 1] == '\n' {
            stop + 2
        } else {
            stop + 1
        }
    } else {
        stop
    }
}

/// The index behind the first `*/` of `s` at or after `j`, or `none` if
/// there is no `*/` there.
pub open spec fn first_close(s: Seq<char>, j: int, none: int) -> int
    decreases s.len() - j,
{
    if j < 0 || j + 1 >= s.len() {
        none
    } else if s[j] == '*' && s[j + 1] == '/' {
        j + 2
    } else {
        first_close(s, j + 1, none)
    }
}

/// The end of the block comment that starts with `/*` at `pos`: just behind
/// the first `*/` that follows, or `pos` if there is none.
pub open spec fn block_comment_end(s: Seq<char>, pos: int) -> int {
    first_close(s, pos + 2, pos)
}

/// The end of the block comment that starts with `/*` at `pos`, or `pos` if
/// the comment is never closed.
pub fn scan_block_comment(chars: &Vec<char>, pos: usize) -> (end: usize)
    requires
        pos + 2 <= chars@.len(),
    ensures
        end == block_comment_end(chars@, pos as int),
        end == pos || pos + 4 <= end <= chars@.len(),
{
    let n: usize = chars.len();
    let mut i: usize = pos + 2;
    while i < n - 1
        invariant
            pos + 2 <= i <= n,
            n == chars@.len(),
            first_close(chars@, pos + 2, pos as int) == first_close(chars@, i as int, pos as int),
        decreases n - i,
    {
        if chars[i] == '*' && chars[i + 1] == '/' {
            return i + 2;
        }
        i += 1;
    }
    pos
}

/// The end of a quoted text, read from `i` on; `q` is the quote, and
/// `fallback` is where the text ends if no closing quote is found. Inside,
/// a doubled quote, a doubled backslash and a quote behind a backslash
/// stand for themselves. Where that reading finds no closing quote, the
/// last quote that it read as part of such a pair closes the text.
pub open spec fn quoted_end(s: Seq<char>, q: char, i: int, fallback: int) -> int
    decreases s.len() - i,
{
    if i < 0 || i >= s.len() {
        fallback
    } else if s[i] == q {
        if i + 1 < s.len() && s[i + 1] == q {
            quoted_end(s, q, i + 2, i + 1)
        } else {
            i + 1
        }
    } else if s[i] == '\\' {
        if i + 1 < s.len() && s[i + 1] == '\\' {
            quoted_end(s, q, i + 2, fallback)
        } else if i + 1 < s.len() && s[i + 1] == q {
            quoted_end(s, q, i + 2, i + 2)
        } else {
            quoted_end(s, q, i + 1, fallback)
        }
    } else {
        quoted_end(s, q, i + 1, fallback)
    }
}

/// The end of the quoted text that starts with the quote `chars[pos]`, or
/// `pos` if the quote is never closed.
pub fn scan_quoted(chars: &Vec<char>, pos: usize) -> (end: usize)
    requires
        pos < chars@.len(),
    ensures
        end == quoted_end(chars@, chars@[pos as int], pos + 1, pos as int),
        end == pos || (pos + 2 <= end <= chars@.len() && chars@[end - 1] == chars@[pos as int]),
{
    let n: usize = chars.len();
    let q = chars[pos];
    let mut i: usize = pos + 1;
    let mut fallback: usize = pos;
    while i < n
        invariant
            pos < i,
            n == chars@.len(),
            q == chars@[pos as int],
            fallback == pos || (pos + 2 <= fallback <= n && chars@[fallback - 1] == q),
            quoted_end(chars@, q, pos + 1, pos as int) == quoted_end(
                chars@,
                q,
                i as int,
                fallback as int,
            ),
        decreases n - i,
    {
        let c = chars[i];
        if c == q {
            if i + 1 < n && chars[i + 1] == q {
                fallback = i + 1;
                i += 2;
            } else {
                return i + 1;
            }
        } else if c == '\\' {
            if i + 1 < n && chars[i + 1] == '\\' {
                i += 2;
            } else if i + 1 < n && chars[i + 1] == q {
                fallback = i + 2;
                i += 2;
            } else {
                i += 1;
            }
        } else {
            i += 1;
        }
    }
    fallback
}

/// The index behind the first copy, at or after `j`, of the `m` characters
/// of `s` that start at `pat`, or `pat` if there is no copy.
pub open spec fn same_from(s: Seq<char>, j: int, pat: int, m: int) -> int
    decreases s.len() - j,
{
    if j < 0 || m <= 0 || j + m > s.len() {
        pat
    } else if s.subrange(j, j + m) == s.subrange(pat, pat + m) {
        j + m
    } else {
        same_from(s, j + 1, pat, m)
    }
}

/// The end of the dollar-quoted text that starts at `pos`, or `pos` if there
/// is none: a tag `$name$` or `$$` that stands behind no name character, no
/// `"` and no `$`, anything, and the same tag again.
pub open spec fn dollar_quoted_end(s: Seq<char>, pos: int) -> int {
    if pos > 0 && (is_ident(s[pos - 1]) || s[pos - 1] == '"' || s[pos - 1] == '$') {
        pos
    } else {
        let tag_end = if pos + 1 < s.len() && (is_letter(s[pos + 1]) || s[pos + 1] == '_') {
            run_end(s, pos + 1, CharClass::Ident)
        } else {
            pos + 1
        };
        if tag_end >= s.len() || s[tag_end] != '$' {
            pos
        } else {
            same_from(s, tag_end + 1, pos, tag_end + 1 - pos)
        }
    }
}

/// The end of the dollar-quoted text that starts at `pos`, or `pos` if there
/// is none.
pub fn scan_dollar_quoted(chars: &Vec<char>, pos: usize) -> (end: usize)
    requires
        pos < chars@.len(),
    ensures
        end == dollar_quoted_end(chars@, pos as int),
        end == pos || pos + 4 <= end <= chars@.len(),
{
    let n: usize = chars.len();
    if pos > 0 {
        let before = chars[pos - 1];
        if is_ident_char(before) || before == '"' || before == '$' {
            return pos;
        }
    }
    let mut tag_end: usize = pos + 1;
    if tag_end < n && (is_letter_char(chars[tag_end]) || chars[tag_end] == '_') {
        tag_end = scan_run(chars, tag_end, CharClass::Ident);
    }
    if tag_end >= n || chars[tag_end] != '$' {
        return pos;
    }
    let len: usize = tag_end + 1 - pos;
    let mut j: usize = tag_end + 1;
    while j <= n - len
        invariant
            tag_end < j,
            len == tag_end + 1 - pos,
            len >= 2,
            tag_end < n,
            n == chars@.len(),
            dollar_quoted_end(chars@, pos as int) == same_from(
                chars@,
                tag_end + 1,
                pos as int,
                len as int,
            ),
            same_from(chars@, tag_end + 1, pos as int, len as int) == same_from(
                chars@,
                j as int,
                pos as int,
                len as int,
            ),
        decreases n - j,
    {
        if same_at(chars, j, pos, len) {
            assert(same_from(chars@, j as int, pos as int, len as int) == j + len);
            return j + len;
        }
        assert(same_from(chars@, j as int, pos as int, len as int) == same_from(
            chars@,
            j + 1,
            pos as int,
            len as int,
        ));
        j += 1;
    }
    pos
}

/// The kind and the end of the number that starts at `pos`, or `pos` if
/// what starts there is no number: `0x` and hexadecimal digits; digits with
/// an optional fraction and an exponent, which may have a sign; digits with
/// a fraction; digits. A number without exponent is one only if no letter
/// and no `_` follows it.
pub open spec fn number_at(s: Seq<char>, pos: int) -> (TokenType, int) {
    let n = s.len();
    let hex_end = run_end(s, pos + 2, CharClass::HexDigit);
    let int_end = run_end(s, pos, CharClass::Digit);
    let has_dot = int_end < n && s[int_end] == '.';
    let frac_end = if has_dot {
        run_end(s, int_end + 1, CharClass::Digit)
    } else {
        int_end
    };
    let mantissa_end = if has_dot && frac_end > int_end + 1 {
        frac_end
    } else {
        int_end
    };
    let has_exponent = mantissa_end < n && (s[mantissa_end] == 'e' || s[mantissa_end] == 'E');
    let exp_start = if mantissa_end + 1 < n && (s[mantissa_end + 1] == '-' || s[mantissa_end + 1]
        == '+') {
        mantissa_end + 2
    } else {
        mantissa_end + 1
    };
    let exp_end = run_end(s, exp_start, CharClass::Digit);
    if s[pos] == '0' && n - pos > 2 && (s[pos + 1] == 'x' || s[pos + 1] == 'X') && hex_end > pos
        + 2 {
        (TokenType::LiteralNumberHexadecimal, hex_end)
    } else if has_exponent && exp_end > exp_start {
        (TokenType::LiteralNumberFloat, exp_end)
    } else if frac_end < n && (is_letter(s[frac_end]) || s[frac_end] == '_') {
        (TokenType::LiteralNumberInteger, pos)
    } else if has_dot {
        (TokenType::LiteralNumberFloat, frac_end)
    } else {
        (TokenType::LiteralNumberInteger, int_end)
    }
}

/// The kind and the end of the number that starts at `pos`, or `pos` if
/// what starts there is no number.
pub fn scan_number(chars: &Vec<char>, pos: usize) -> (r: (TokenType, usize))
    requires
        pos < chars@.len(),
        is_digit(chars@[pos as int]),
    ensures
        r.0 == number_at(chars@, pos as int).0,
        r.1 == number_at(chars@, pos as int).1,
        r.1 == pos || pos < r.1 <= chars@.len(),
        r.0 == TokenType::LiteralNumberInteger || r.0 == TokenType::LiteralNumberFloat || r.0
            == TokenType::LiteralNumberHexadecimal,
{
    let n: usize = chars.len();
    if chars[pos] == '0' && n - pos > 2 && (chars[pos + 1] == 'x' || chars[pos + 1] == 'X') {
        let hex_end = scan_run(chars, pos + 2, CharClass::HexDigit);
        if hex_end > pos + 2 {
            return (TokenType::LiteralNumberHexadecimal, hex_end);
        }
    }
    let int_end = scan_run(chars, pos, CharClass::Digit);
    let has_dot = int_end < n && chars[int_end] == '.';
    let frac_end = if has_dot {
        scan_run(chars, int_end + 1, CharClass::Digit)
    } else {
        int_end
    };
    let mantissa_end = if has_dot && frac_end > int_end + 1 {
        frac_end
    } else {
        int_end
    };
    if mantissa_end < n && (chars[mantissa_end] == 'e' || chars[mantissa_end] == 'E') {
        let mut exp_start: usize = mantissa_end + 1;
        if exp_start < n && (chars[exp_start] == '-' || chars[exp_start] == '+') {
            exp_start += 1;
        }
        let exp_end = scan_run(chars, exp_start, CharClass::Digit);
        if exp_end > exp_start {
            return (TokenType::LiteralNumberFloat, exp_end);
        }
    }
    let follows_name = frac_end < n && (is_letter_char(chars[frac_end]) || chars[frac_end]
        == '_');
    if follows_name {
        (TokenType::LiteralNumberInteger, pos)
    } else if has_dot {
        (TokenType::LiteralNumberFloat, frac_end)
    } else {
        (TokenType::LiteralNumberInteger, int_end)
    }
}

/// Whether `chars[start..end]` holds the characters of `word`.
pub fn slice_is(chars: &Vec<char>, start: usize, end: usize, word: &str) -> (r: bool)
    requires
        start <= end <= chars@.len(),
    ensures
        r == (chars@.subrange(start as int, end as int) == word@),
{
    let ghost w = chars@.subrange(start as int, end as int);
    let len: usize = end - start;
    if word.unicode_len() != len {
        return false;
    }
    let mut k: usize = 0;
    while k < len
        invariant
            k <= len,
            len == end - start,
            start <= end <= chars@.len(),
            word@.len() == len,
            w == chars@.subrange(start as int, end as int),
            forall|j: int| 0 <= j < k ==> w[j] == word@[j],
        decreases len - k,
    {
        if chars[start + k] != word.get_char(k) {
            assert(w[k as int] != word@[k as int]);
            return false;
        }
        k += 1;
    }
    assert(w =~= word@);
    true
}

/// The keywords that never name a function: `CASE`, `IN`, `VALUES`, `USING`,
/// `FROM`, `AS`.
pub open spec fn is_never_function(w: Seq<char>) -> bool {
    w == "CASE"@ || w == "IN"@ || w == "VALUES"@ || w == "USING"@ || w == "FROM"@ || w == "AS"@
}

/// Whether `upper[start..end]` is a keyword that never names a function.
pub fn never_function(upper: &Vec<char>, start: usize, end: usize) -> (r: bool)
    requires
        start <= end <= upper@.len(),
    ensures
        r == is_never_function(upper@.subrange(start as int, end as int)),
{
    slice_is(upper, start, end, "CASE") || slice_is(upper, start, end, "IN") || slice_is(
        upper,
        start,
        end,
        "VALUES",
    ) || slice_is(upper, start, end, "USING") || slice_is(upper, start, end, "FROM")
        || slice_is(upper, start, end, "AS")
}

/// Whether the keyword table may give `kind` to a word: it is no group
/// kind, no blank space, and not the kind of a name.
pub open spec fn is_keyword_kind(kind: TokenType) -> bool {
    kind != TokenType::Name && !is_whitespace_type(kind) && !is_group_type(kind)
}

/// The kind and the end of the word that starts at `pos`. A word after a
/// `.`, before a `.` (blank space may stand between) or directly before a
/// `(` is a name, unless it is a keyword that never names a function. Else
/// the keyword table decides: the longest keyword, of one word or several,
/// that starts at `pos` and ends at a boundary; else the kind of the word in
/// the table; else the word is a name. `upper` is `chars` in upper case.
pub open spec fn word_at(chars: Seq<char>, upper: Seq<char>, pos: int, trie: &Trie<TokenType>) -> (
    TokenType,
    int,
) {
    let n = chars.len() as int;
    let word_end = run_end(chars, pos, CharClass::Word);
    let before_paren = word_end < n && chars[word_end] == '(';
    let word = upper.subrange(pos, word_end);
    let found = trie.match_token_spec(upper.subrange(pos, n));
    let after_space = run_end(chars, word_end, CharClass::Space);
    if pos > 0 && chars[pos - 1] == '.' {
        (TokenType::Name, word_end)
    } else if found is Some && (found->0).1 is Some && is_keyword_kind((found->0).1->0)
        && (found->0).0 > 0 {
        if before_paren && pos + (found->0).0 == word_end && !is_never_function(word) {
            (TokenType::Name, word_end)
        } else {
            ((found->0).1->0, pos + (found->0).0)
        }
    } else if after_space < n && chars[after_space] == '.' {
        (TokenType::Name, word_end)
    } else if before_paren && !is_never_function(word) {
        (TokenType::Name, word_end)
    } else if trie.payload(word) is Some && !is_group_type(trie.payload(word)->0)
        && !is_whitespace_type(trie.payload(word)->0) {
        (trie.payload(word)->0, word_end)
    } else {
        (TokenType::Name, word_end)
    }
}

/// The kind and the end of the word that starts at `pos`.
pub fn scan_word(chars: &Vec<char>, upper: &Vec<char>, pos: usize, trie: &Trie<TokenType>) -> (r: (
    TokenType,
    usize,
))
    requires
        trie.wf(),
        pos < chars@.len(),
        chars@.len() == upper@.len(),
        in_class(chars@[pos as int], CharClass::Word),
    ensures
        r.0 == word_at(chars@, upper@, pos as int, trie).0,
        r.1 == word_at(chars@, upper@, pos as int, trie).1,
        pos < r.1 <= chars@.len(),
        !is_group_type(r.0),
        r.0 != TokenType::Whitespace,
{
    let n: usize = chars.len();
    let word_end = scan_run(chars, pos, CharClass::Word);
    if pos > 0 && chars[pos - 1] == '.' {
        return (TokenType::Name, word_end);
    }
    let before_paren = word_end < n && chars[word_end] == '(';
    match trie.match_chars(upper, pos) {
        Some((len, Some(kind))) => {
            if kind != TokenType::Name && !kind.is_whitespace() && !kind.is_group() && len > 0 {
                if before_paren && pos + len == word_end && !never_function(
                    upper,
                    pos,
                    word_end,
                ) {
                    return (TokenType::Name, word_end);
                }
                return (kind, pos + len);
            }
        },
        _ => {},
    }
    let after_space = scan_run(chars, word_end, CharClass::Space);
    if after_space < n && chars[after_space] == '.' {
        return (TokenType::Name, word_end);
    }
    if before_paren && !never_function(upper, pos, word_end) {
        return (TokenType::Name, word_end);
    }
    match trie.lookup(upper, pos, word_end) {
        Some(kind) => {
            if !kind.is_group() && !kind.is_whitespace() {
                (kind, word_end)
            } else {
                (TokenType::Name, word_end)
            }
        },
        None => (TokenType::Name, word_end),
    }
}

/// The end of the name in square brackets that starts at `pos`, or `pos`
/// if there is none: a `[` that stands behind no name character, no `]` and
/// no `)`, one character or more that are no square brackets, and a `]`.
pub open spec fn bracket_name_end(s: Seq<char>, pos: int) -> int {
    let stop = run_end(s, pos + 1, CharClass::BracketText);
    if pos > 0 && (is_ident(s[pos - 1]) || s[pos - 1] == ']' || s[pos - 1] == ')') {
        pos
    } else if stop < s.len() && s[stop] == ']' && stop > pos + 1 {
        stop + 1
    } else {
        pos
    }
}

/// The end of the name in square brackets that starts at `pos`, or `pos`
/// if there is none.
pub fn scan_bracket_name(chars: &Vec<char>, pos: usize) -> (end: usize)
    requires
        pos < chars@.len(),
    ensures
        end == bracket_name_end(chars@, pos as int),
        end == pos || pos + 3 <= end <= chars@.len(),
{
    if pos > 0 && (is_ident_char(chars[pos - 1]) || chars[pos - 1] == ']' || chars[pos - 1]
        == ')') {
        return pos;
    }
    let n: usize = chars.len();
    let stop = scan_run(chars, pos + 1, CharClass::BracketText);
    if stop < n && chars[stop] == ']' && stop > pos + 1 {
        stop + 1
    } else {
        pos
    }
}

/// Whether `c` is one of the punctuation characters `; : ( ) [ ] , .`.
pub open spec fn is_punctuation_char(c: char) -> bool {
    c == ';' || c == ':' || c == '(' || c == ')' || c == '[' || c == ']' || c == ',' || c == '.'
}

/// The kind and the end of the token that starts at `pos`. The first of
/// these that fits decides: blank space; a line comment (`--` or `# `); a
/// block comment that is closed; `:=` and `::`; `*`; a name in backticks; a
/// dollar-quoted text; the placeholders `?`, `%s`, `%(name)s`, `$name` and
/// `:name`; a command (`\name`); a name behind `@`, `#` or `##`; a number; a
/// word; a text in single quotes; a symbol in double quotes; a name in
/// square brackets; a punctuation character; a run of comparison
/// characters; a run of operator characters. Any other character is a
/// token of its own, of kind `Error`. `upper` is `chars` in upper case.
pub open spec fn token_at(chars: Seq<char>, upper: Seq<char>, pos: int, trie: &Trie<TokenType>) -> (
    TokenType,
    int,
) {
    let n = chars.len() as int;
    let c = chars[pos];
    let has_next = pos + 1 < n;
    let next = if has_next {
        chars[pos + 1]
    } else {
        '\0'
    };
    let after_ident = pos > 0 && is_ident(chars[pos - 1]);
    let percent_end = run_end(chars, pos + 2, CharClass::Ident);
    let sigil_start = if c == '#' && has_next && next == '#' {
        pos + 2
    } else {
        pos + 1
    };
    let sigil_end = run_end(chars, sigil_start, CharClass::Ident);
    let dot_end = run_end(chars, pos + 1, CharClass::Digit);
    if is_space(c) {
        (TokenType::Whitespace, run_end(chars, pos, CharClass::Space))
    } else if (c == '-' && has_next && next == '-') || (c == '#' && has_next && next == ' ') {
        (TokenType::CommentSingle, line_comment_end(chars, pos))
    } else if c == '/' && has_next && next == '*' && block_comment_end(chars, pos) > pos {
        (TokenType::CommentMultiline, block_comment_end(chars, pos))
    } else if c == ':' && has_next && (next == '=' || next == ':') {
        (TokenType::Punctuation, pos + 2)
    } else if c == '*' {
        (TokenType::Wildcard, pos + 1)
    } else if c == '`' && quoted_end(chars, c, pos + 1, pos) > pos {
        (TokenType::Name, quoted_end(chars, c, pos + 1, pos))
    } else if c == '$' && dollar_quoted_end(chars, pos) > pos {
        (TokenType::Literal, dollar_quoted_end(chars, pos))
    } else if c == '?' {
        (TokenType::Placeholder, pos + 1)
    } else if c == '%' && has_next && next == 's' {
        (TokenType::Placeholder, pos + 2)
    } else if c == '%' && has_next && next == '(' && percent_end > pos + 2 && n - percent_end > 1
        && chars[percent_end] == ')' && chars[percent_end + 1] == 's' {
        (TokenType::Placeholder, percent_end + 2)
    } else if (c == '$' || c == ':') && has_next && is_ident(next) && !after_ident {
        (TokenType::Placeholder, run_end(chars, pos + 1, CharClass::Ident))
    } else if c == '\\' && has_next && is_ident(next) {
        (TokenType::Command, run_end(chars, pos + 1, CharClass::Ident))
    } else if (c == '@' || c == '#') && sigil_start < n && is_letter(chars[sigil_start])
        && sigil_end > sigil_start + 1 {
        (TokenType::Name, sigil_end)
    } else if is_digit(c) && number_at(chars, pos).1 > pos {
        number_at(chars, pos)
    } else if c == '.' && has_next && is_digit(next) && !(dot_end < n && (is_letter(
        chars[dot_end],
    ) || chars[dot_end] == '_')) {
        (TokenType::LiteralNumberFloat, dot_end)
    } else if is_ident(c) {
        word_at(chars, upper, pos, trie)
    } else if c == '\'' && quoted_end(chars, c, pos + 1, pos) > pos {
        (TokenType::LiteralString, quoted_end(chars, c, pos + 1, pos))
    } else if c == '"' && quoted_end(chars, c, pos + 1, pos) > pos {
        (TokenType::LiteralStringSymbol, quoted_end(chars, c, pos + 1, pos))
    } else if c == '[' && bracket_name_end(chars, pos) > pos {
        (TokenType::Name, bracket_name_end(chars, pos))
    } else if is_punctuation_char(c) {
        (TokenType::Punctuation, pos + 1)
    } else if in_class(c, CharClass::Comparison) {
        (TokenType::OperatorComparison, run_end(chars, pos, CharClass::Comparison))
    } else if in_class(c, CharClass::Operator) {
        (TokenType::Operator, run_end(chars, pos, CharClass::Operator))
    } else {
        (TokenType::Error, pos + 1)
    }
}

/// The kind and the end of the token that starts at `pos`.
pub fn next_token(chars: &Vec<char>, upper: &Vec<char>, pos: usize, trie: &Trie<TokenType>) -> (r:
    (TokenType, usize))
    requires
        trie.wf(),
        pos < chars@.len(),
        chars@.len() == upper@.len(),
    ensures
        r.0 == token_at(chars@, upper@, pos as int, trie).0,
        r.1 == token_at(chars@, upper@, pos as int, trie).1,
        pos < r.1 <= chars@.len(),
        !is_group_type(r.0),
        r.0 == TokenType::Whitespace ==> is_blank(chars@.subrange(pos as int, r.1 as int)),
{
    let n: usize = chars.len();
    let c = chars[pos];
    let next: char = if pos + 1 < n {
        chars[pos + 1]
    } else {
        '\0'
    };
    let has_next = pos + 1 < n;
    let after_ident = pos > 0 && is_ident_char(chars[pos - 1]);
    if is_space_char(c) {
        let end = scan_run(chars, pos, CharClass::Space);
        proof {
            let s = chars@.subrange(pos as int, end as int);
            assert forall|i: int| 0 <= i < s.len() implies is_space(#[trigger] s[i]) by {
                assert(in_class(chars@[pos + i], CharClass::Space));
            }
        }
        return (TokenType::Whitespace, end);
    }
    if (c == '-' && has_next && next == '-') || (c == '#' && has_next && next == ' ') {
        return (TokenType::CommentSingle, scan_line_comment(chars, pos));
    }
    if c == '/' && has_next && next == '*' {
        let end = scan_block_comment(chars, pos);
        if end > pos {
            return (TokenType::CommentMultiline, end);
        }
    }
    if c == ':' && has_next && (next == '=' || next == ':') {
        return (TokenType::Punctuation, pos + 2);
    }
    if c == '*' {
        return (TokenType::Wildcard, pos + 1);
    }
    if c == '`' {
        let end = scan_quoted(chars, pos);
        if end > pos {
            return (TokenType::Name, end);
        }
    }
    if c == '$' {
        let end = scan_dollar_quoted(chars, pos);
        if end > pos {
            return (TokenType::Literal, end);
        }
    }
    if c == '?' {
        return (TokenType::Placeholder, pos + 1);
    }
    if c == '%' && has_next {
        if next == 's' {
            return (TokenType::Placeholder, pos + 2);
        }
        if next == '(' {
            let name_end = scan_run(chars, pos + 2, CharClass::Ident);
            if name_end > pos + 2 && n - name_end > 1 && chars[name_end] == ')' && chars[name_end
                + 1] == 's' {
                return (TokenType::Placeholder, name_end + 2);
            }
        }
    }
    if (c == '$' || c == ':') && has_next && is_ident_char(next) && !after_ident {
        return (TokenType::Placeholder, scan_run(chars, pos + 1, CharClass::Ident));
    }
    if c == '\\' && has_next && is_ident_char(next) {
        return (TokenType::Command, scan_run(chars, pos + 1, CharClass::Ident));
    }
    if c == '@' || c == '#' {
        let start: usize = if c == '#' && has_next && next == '#' {
            pos + 2
        } else {
            pos + 1
        };
        if start < n && is_letter_char(chars[start]) {
            let end = scan_run(chars, start, CharClass::Ident);
            if end > start + 1 {
                return (TokenType::Name, end);
            }
        }
    }
    if is_digit_char(c) {
        let (kind, end) = scan_number(chars, pos);
        if end > pos {
            return (kind, end);
        }
    }
    if c == '.' && has_next && is_digit_char(next) {
        let end = scan_run(chars, pos + 1, CharClass::Digit);
        if !(end < n && (is_letter_char(chars[end]) || chars[end] == '_')) {
            return (TokenType::LiteralNumberFloat, end);
        }
    }
    if is_ident_char(c) {
        return scan_word(chars, upper, pos, trie);
    }
    if c == '\'' {
        let end = scan_quoted(chars, pos);
        if end > pos {
            return (TokenType::LiteralString, end);
        }
    }
    if c == '"' {
        let end = scan_quoted(chars, pos);
        if end > pos {
            return (TokenType::LiteralStringSymbol, end);
        }
    }
    if c == '[' {
        let end = scan_bracket_name(chars, pos);
        if end > pos {
            return (TokenType::Name, end);
        }
    }
    if c == ';' || c == ':' || c == '(' || c == ')' || c == '[' || c == ']' || c == ',' || c
        == '.' {
        return (TokenType::Punctuation, pos + 1);
    }
    if char_in_class(c, CharClass::Comparison) {
        return (TokenType::OperatorComparison, scan_run(chars, pos, CharClass::Comparison));
    }
    if char_in_class(c, CharClass::Operator) {
        return (TokenType::Operator, scan_run(chars, pos, CharClass::Operator));
    }
    (TokenType::Error, pos + 1)
}

/// Whether `s` holds nothing but blank space.
pub open spec fn is_blank(s: Seq<char>) -> bool {
    forall|i: int| 0 <= i < s.len() ==> is_space(#[trigger] s[i])
}

/// `tokens` is what a lexer gives: tokens without children, of kinds that
/// are no group kinds, none with an empty value, and those of kind
/// `Whitespace` with nothing but blank space in their value.
pub open spec fn is_lexed(tokens: Seq<Token>) -> bool {
    forall|i: int|
        0 <= i < tokens.len() ==> {
            &&& (#[trigger] tokens[i]).children@.len() == 0
            &&& !is_group_type(tokens[i].typ)
            &&& tokens[i].value@.len() > 0
            &&& tokens[i].typ == TokenType::Whitespace ==> is_blank(tokens[i].value@)
        }
}

/// `chars` with each ASCII letter in upper case.
pub fn upper_chars(chars: &Vec<char>) -> (upper: Vec<char>)
    ensures
        upper@.len() == chars@.len(),
        forall|i: int| 0 <= i < chars@.len() ==> upper@[i] == ascii_upper(chars@[i]),
{
    let mut upper: Vec<char> = Vec::new();
    let mut i: usize = 0;
    while i < chars.len()
        invariant
            i <= chars@.len(),
            upper@.len() == i,
            forall|j: int| 0 <= j < i ==> upper@[j] == ascii_upper(chars@[j]),
        decreases chars@.len() - i,
    {
        upper.push(ascii_upper_char(chars[i]));
        i += 1;
    }
    upper
}

/// A token without children as a value.
pub open spec fn leaf_view(typ: TokenType, value: Seq<char>) -> TokenView {
    TokenView { typ, value, children: Seq::empty() }
}

/// The tokens of `chars` from `pos` on: the token that starts at `pos`, and
/// the tokens from its end on. `upper` is `chars` in upper case.
pub open spec fn lexed_from(chars: Seq<char>, upper: Seq<char>, trie: &Trie<TokenType>, pos: int) -> Seq<
    TokenView,
>
    decreases chars.len() - pos,
{
    if pos < 0 || pos >= chars.len() {
        Seq::<TokenView>::empty()
    } else {
        let t = token_at(chars, upper, pos, trie);
        if pos < t.1 <= chars.len() {
            seq![leaf_view(t.0, chars.subrange(pos, t.1))] + lexed_from(chars, upper, trie, t.1)
        } else {
            Seq::<TokenView>::empty()
        }
    }
}

/// The tokens of `text`, with `trie` as the keyword table.
pub open spec fn lexed(text: Seq<char>, trie: &Trie<TokenType>) -> Seq<TokenView> {
    lexed_from(text, ascii_upper_seq(text), trie, 0)
}

/// The tokens of `sql`. Their values, laid end to end, are `sql`.
pub fn tokenize(sql: &str, trie: &Trie<TokenType>) -> (tokens: Vec<Token>)
    requires
        trie.wf(),
    ensures
        views(tokens@) == lexed(sql@, trie),
        joined_text(tokens@) == sql@,
        is_lexed(tokens@),
{
    let chars = chars_of(sql);
    let upper = upper_chars(&chars);
    let n: usize = chars.len();
    let mut tokens: Vec<Token> = Vec::new();
    let mut pos: usize = 0;
    proof {
        assert(chars@.subrange(0, 0) == Seq::<char>::empty());
        assert(upper@ =~= ascii_upper_seq(chars@));
        assert(views(tokens@) =~= Seq::<TokenView>::empty());
    }
    while pos < n
        invariant
            trie.wf(),
            pos <= n,
            n == chars@.len(),
            upper@.len() == n,
            joined_text(tokens@) == chars@.subrange(0, pos as int),
            is_lexed(tokens@),
            views(tokens@) + lexed_from(chars@, upper@, trie, pos as int) == lexed_from(
                chars@,
                upper@,
                trie,
                0,
            ),
        decreases n - pos,
    {
        let (kind, end) = next_token(&chars, &upper, pos, trie);
        let token = Token::leaf(kind, string_of(&chars, pos, end));
        proof {
            assert(tokens@.push(token).drop_last() == tokens@);
            assert(chars@.subrange(0, pos as int) + chars@.subrange(pos as int, end as int)
                == chars@.subrange(0, end as int));
            lemma_view_children(token);
            assert(token@ == leaf_view(kind, chars@.subrange(pos as int, end as int))) by {
                assert(token@.children =~= Seq::<TokenView>::empty());
            }
            crate::tokens::lemma_views_push(tokens@, token);
            let rest = lexed_from(chars@, upper@, trie, end as int);
            assert(lexed_from(chars@, upper@, trie, pos as int) == seq![token@] + rest);
            assert(views(tokens@).push(token@) + rest =~= views(tokens@) + (seq![token@] + rest));
        }
        tokens.push(token);
        pos = end;
    }
    proof {
        assert(chars@.subrange(0, n as int) == chars@);
        assert(views(tokens@) + Seq::<TokenView>::empty() =~= views(tokens@));
    }
    tokens
}

} // verus!
