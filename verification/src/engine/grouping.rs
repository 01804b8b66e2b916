//! The grouper: a fixed sequence of passes that turn the flat token list of
//! a statement into a tree of groups. No pass changes the text.

use crate::content::{blank_leaves, lemma_blank_leaves_update, content, lemma_update_same_content};
use crate::engine::passes::{
    aliased_from, around_from, clause_end, clauses_from, first_semicolon, first_values,
    flat_grouped, functions_from, grouped, keeps_wildcard, last_parenthesis,
    last_solid, matched_from, named, named_at, order_from, over_from, pass_each, pass_grouped,
    pass_order, pass_token, passes_grouped, retagged, retagged_at, span, token_at, values_grouped,
};
use crate::text::ascii_upper_seq;
use crate::tokens::{TokenList, 
    all_wf, group_tokens, grouped_range, is_group_type, is_keyword_type, is_whitespace_type, lemma_joined_text_same_values, lemma_view_children, next_from, prev_before, regrouped, views,
    Token, TokenType, TokenView,
};
use vstd::prelude::*;

verus! {

/// The passes of the grouper, in the order in which they run.
#[derive(Clone, Copy, Debug, PartialEq, Eq, Structural)]
pub enum Pass {
    /// `( ... )`.
    Parenthesis,
    /// `[ ... ]`.
    SquareBrackets,
    /// `CASE ... END`.
    Case,
    /// `IF ... END IF`, in a statement that starts with `CREATE`.
    If,
    /// `BEGIN ... END`, in a statement that starts with `CREATE`.
    Begin,
    /// A type name and the string after it.
    TypedLiteral,
    /// A name and the parenthesis directly after it.
    Function,
    /// `OVER` and the parenthesis after it, joined to the function before.
    Over,
    /// Names joined by `.`.
    Period,
    /// Each name that stands alone.
    Name,
    /// An identifier and the `ASC` or `DESC` after it.
    Order,
    /// `expr :: type`.
    TypeCast,
    /// Operands joined by an operator.
    Operation,
    /// Operands joined by a comparison operator.
    Comparison,
    /// `expr AS alias`.
    As,
    /// `expr alias`.
    Aliased,
    /// `name := expr`.
    Assignment,
    /// Items joined by commas.
    IdentifierList,
    /// `VALUES` and the tuples after it.
    Values,
    /// `WHERE` and its clause.
    Where,
    /// `HAVING` and its clause.
    Having,
}

/// The kind of the groups that `pass` makes.
pub open spec fn made_kind(pass: Pass) -> TokenType {
    match pass {
        Pass::Parenthesis => TokenType::Parenthesis,
        Pass::SquareBrackets => TokenType::SquareBrackets,
        Pass::Case => TokenType::Case,
        Pass::If => TokenType::If,
        Pass::Begin => TokenType::Begin,
        Pass::TypedLiteral => TokenType::TypedLiteral,
        Pass::Function => TokenType::Function,
        Pass::Over => TokenType::Over,
        Pass::Period => TokenType::Identifier,
        Pass::Name => TokenType::Identifier,
        Pass::Order => TokenType::Identifier,
        Pass::TypeCast => TokenType::TypeCast,
        Pass::Operation => TokenType::Operation,
        Pass::Comparison => TokenType::Comparison,
        Pass::As => TokenType::Identifier,
        Pass::Aliased => TokenType::Identifier,
        Pass::Assignment => TokenType::Assignment,
        Pass::IdentifierList => TokenType::IdentifierList,
        Pass::Values => TokenType::Values,
        Pass::Where => TokenType::Where,
        Pass::Having => TokenType::Having,
    }
}

/// Whether `pass` leaves the inside of a group of kind `typ` alone: a pass
/// does not enter the groups of the kind it makes, the list pass does not
/// enter `CASE` groups, the alias pass enters every group, and the values
/// pass enters none.
pub open spec fn skips_into(pass: Pass, typ: TokenType) -> bool {
    match pass {
        Pass::Values => true,
        Pass::Aliased => false,
        Pass::IdentifierList => typ == TokenType::IdentifierList || typ == TokenType::Case,
        _ => typ == made_kind(pass),
    }
}

pub fn kind_of(pass: Pass) -> (kind: TokenType)
    ensures
        kind == made_kind(pass),
        is_group_type(kind),
{
    match pass {
        Pass::Parenthesis => TokenType::Parenthesis,
        Pass::SquareBrackets => TokenType::SquareBrackets,
        Pass::Case => TokenType::Case,
        Pass::If => TokenType::If,
        Pass::Begin => TokenType::Begin,
        Pass::TypedLiteral => TokenType::TypedLiteral,
        Pass::Function => TokenType::Function,
        Pass::Over => TokenType::Over,
        Pass::Period => TokenType::Identifier,
        Pass::Name => TokenType::Identifier,
        Pass::Order => TokenType::Identifier,
        Pass::TypeCast => TokenType::TypeCast,
        Pass::Operation => TokenType::Operation,
        Pass::Comparison => TokenType::Comparison,
        Pass::As => TokenType::Identifier,
        Pass::Aliased => TokenType::Identifier,
        Pass::Assignment => TokenType::Assignment,
        Pass::IdentifierList => TokenType::IdentifierList,
        Pass::Values => TokenType::Values,
        Pass::Where => TokenType::Where,
        Pass::Having => TokenType::Having,
    }
}

pub fn skips(pass: Pass, typ: TokenType) -> (r: bool)
    ensures
        r == skips_into(pass, typ),
{
    match pass {
        Pass::Values => true,
        Pass::Aliased => false,
        Pass::IdentifierList => typ == TokenType::IdentifierList || typ == TokenType::Case,
        _ => typ == kind_of(pass),
    }
}

/// The kinds of number literals.
pub open spec fn is_numerical(t: TokenType) -> bool {
    t == TokenType::LiteralNumber || t == TokenType::LiteralNumberInteger || t
        == TokenType::LiteralNumberFloat || t == TokenType::LiteralNumberHexadecimal
}

/// The kinds of tokens without children that can stand as an operand: number
/// and string literals, names, placeholders and built-in names.
pub open spec fn is_plain_operand(t: TokenType) -> bool {
    is_numerical(t) || t == TokenType::LiteralString || t == TokenType::LiteralStringSymbol || t
        == TokenType::Literal || t == TokenType::Name || t == TokenType::Placeholder || t
        == TokenType::NameBuiltin
}

pub fn numerical(t: TokenType) -> (r: bool)
    ensures
        r == is_numerical(t),
{
    t == TokenType::LiteralNumber || t == TokenType::LiteralNumberInteger || t
        == TokenType::LiteralNumberFloat || t == TokenType::LiteralNumberHexadecimal
}

pub fn plain_operand(t: TokenType) -> (r: bool)
    ensures
        r == is_plain_operand(t),
{
    numerical(t) || t == TokenType::LiteralString || t == TokenType::LiteralStringSymbol || t
        == TokenType::Literal || t == TokenType::Name || t == TokenType::Placeholder || t
        == TokenType::NameBuiltin
}

/// Whether `t` is a keyword whose value, in upper case, is `word`.
pub open spec fn is_word(t: TokenView, word: Seq<char>) -> bool {
    is_keyword_type(t.typ) && ascii_upper_seq(t.value) == word
}

/// Whether `t` is the punctuation `p`.
pub open spec fn is_punct(t: TokenView, p: Seq<char>) -> bool {
    t.typ == TokenType::Punctuation && t.value == p
}

/// Whether `t` opens a group of `pass`, one of the passes that match an
/// opening token with a closing one.
pub open spec fn opens(t: TokenView, pass: Pass) -> bool {
    match pass {
        Pass::Parenthesis => is_punct(t, "("@),
        Pass::SquareBrackets => is_punct(t, "["@),
        Pass::Case => is_word(t, "CASE"@),
        Pass::If => is_word(t, "IF"@),
        Pass::Begin => is_word(t, "BEGIN"@),
        _ => false,
    }
}

/// Whether `t` closes a group of `pass`.
pub open spec fn closes(t: TokenView, pass: Pass) -> bool {
    match pass {
        Pass::Parenthesis => is_punct(t, ")"@),
        Pass::SquareBrackets => is_punct(t, "]"@),
        Pass::Case => is_word(t, "END"@),
        Pass::If => is_word(t, "END IF"@),
        Pass::Begin => is_word(t, "END"@),
        _ => false,
    }
}

pub fn opens_group(token: &Token, pass: Pass) -> (r: bool)
    ensures
        r == opens(token@, pass),
{
    proof {
        lemma_view_children(*token);
    }
    match pass {
        Pass::Parenthesis => token.is_punctuation("("),
        Pass::SquareBrackets => token.is_punctuation("["),
        Pass::Case => token.is_keyword_word("CASE"),
        Pass::If => token.is_keyword_word("IF"),
        Pass::Begin => token.is_keyword_word("BEGIN"),
        _ => false,
    }
}

pub fn closes_group(token: &Token, pass: Pass) -> (r: bool)
    ensures
        r == closes(token@, pass),
{
    proof {
        lemma_view_children(*token);
    }
    match pass {
        Pass::Parenthesis => token.is_punctuation(")"),
        Pass::SquareBrackets => token.is_punctuation("]"),
        Pass::Case => token.is_keyword_word("END"),
        Pass::If => token.is_keyword_word("END IF"),
        Pass::Begin => token.is_keyword_word("END"),
        _ => false,
    }
}

/// The token at `i` as a value.
pub proof fn lemma_token_view(tokens: Seq<Token>, i: int)
    requires
        0 <= i < tokens.len(),
    ensures
        views(tokens)[i] == tokens[i]@,
        tokens[i]@.typ == tokens[i].typ,
        tokens[i]@.value == tokens[i].value@,
{
    lemma_view_children(tokens[i]);
}

/// What `prev_before` finds, as the index that `last_solid` names.
pub proof fn lemma_last_solid(tokens: Seq<Token>, idx: int, r: Option<usize>)
    requires
        0 <= idx <= tokens.len(),
        match r {
            Some(k) => k < idx && !is_whitespace_type(tokens[k as int].typ) && forall|j: int|
                k < j < idx ==> is_whitespace_type((#[trigger] tokens[j]).typ),
            None => forall|j: int| 0 <= j < idx ==> is_whitespace_type((#[trigger] tokens[j]).typ),
        },
    ensures
        last_solid(views(tokens), idx) == match r {
            Some(k) => k as int,
            None => -1,
        },
    decreases idx,
{
    if idx > 0 {
        lemma_token_view(tokens, idx - 1);
        if is_whitespace_type(tokens[idx - 1].typ) {
            lemma_last_solid(tokens, idx - 1, r);
        }
    }
}

/// The indices of a list as integers.
pub open spec fn indices(v: Seq<usize>) -> Seq<int> {
    v.map_values(|x: usize| x as int)
}

/// Groups each opening token of `pass` with the closing token that matches
/// it and all that stands between them. A closing token without an opening
/// one stays where it is, and so does an opening token that is never
/// closed.
pub fn group_matching(tokens: &mut Vec<Token>, pass: Pass)
    requires
        all_wf(old(tokens)@),
    ensures
        views(final(tokens)@) == matched_from(views(old(tokens)@), pass, 0, Seq::empty()),
        regrouped(old(tokens)@, final(tokens)@),
{
    let kind = kind_of(pass);
    let ghost target = matched_from(views(tokens@), pass, 0, Seq::empty());
    let mut opens: Vec<usize> = Vec::new();
    let mut i: usize = 0;
    proof {
        assert(indices(opens@) =~= Seq::<int>::empty());
    }
    while i < tokens.len()
        invariant
            regrouped(old(tokens)@, tokens@),
            kind == made_kind(pass),
            is_group_type(kind),
            i <= tokens@.len(),
            forall|k: int| 0 <= k < opens@.len() ==> (#[trigger] opens@[k]) < i,
            forall|k: int, m: int| 0 <= k < m < opens@.len() ==> opens@[k] < opens@[m],
            target == matched_from(views(tokens@), pass, i as int, indices(opens@)),
        decreases tokens@.len() - i,
    {
        proof {
            lemma_token_view(tokens@, i as int);
        }
        if !tokens[i].is_whitespace() && !tokens[i].is_group() {
            if opens_group(&tokens[i], pass) {
                proof {
                    assert(indices(opens@.push(i)) =~= indices(opens@).push(i as int));
                }
                opens.push(i);
            } else if closes_group(&tokens[i], pass) {
                let ghost before = opens@;
                match opens.pop() {
                    Some(open) => {
                        proof {
                            assert(indices(before).last() == open);
                            assert(indices(opens@) =~= indices(before).drop_last());
                        }
                        group_tokens(tokens, open, i, kind, false);
                        i = open;
                    },
                    None => {},
                }
            }
        }
        i += 1;
    }
}

/// Whether `t` is a token that `pass` groups around: a type name for
/// typed literals, `.` for qualified names, `::` for type casts, an
/// operator, a comparison operator, `AS`, `:=`, or a comma.
pub open spec fn is_pivot(t: TokenView, pass: Pass) -> bool {
    match pass {
        Pass::TypedLiteral => t.typ == TokenType::NameBuiltin || is_word(t, "TIMESTAMP"@),
        Pass::Period => is_punct(t, "."@),
        Pass::TypeCast => is_punct(t, "::"@),
        Pass::Operation => t.typ == TokenType::Operator,
        Pass::Comparison => t.typ == TokenType::OperatorComparison,
        Pass::As => is_word(t, "AS"@),
        Pass::Assignment => is_punct(t, ":="@),
        Pass::IdentifierList => is_punct(t, ","@),
        _ => false,
    }
}

pub fn is_match(token: &Token, pass: Pass) -> (r: bool)
    ensures
        r == is_pivot(token@, pass),
{
    proof {
        lemma_view_children(*token);
    }
    match pass {
        Pass::TypedLiteral => token.typ == TokenType::NameBuiltin || token.is_keyword_word(
            "TIMESTAMP",
        ),
        Pass::Period => token.is_punctuation("."),
        Pass::TypeCast => token.is_punctuation("::"),
        Pass::Operation => token.typ == TokenType::Operator,
        Pass::Comparison => token.typ == TokenType::OperatorComparison,
        Pass::As => token.is_keyword_word("AS"),
        Pass::Assignment => token.is_punctuation(":="),
        Pass::IdentifierList => token.is_punctuation(","),
        _ => false,
    }
}

/// Whether `token` may stand before the token that `pass` groups around.
pub open spec fn may_precede(token: TokenView, pass: Pass) -> bool {
    let t = token.typ;
    match pass {
        Pass::TypedLiteral => true,
        Pass::Period => t == TokenType::SquareBrackets || t == TokenType::Identifier || t
            == TokenType::Name || t == TokenType::LiteralStringSymbol,
        Pass::TypeCast => true,
        Pass::Operation => t == TokenType::SquareBrackets || t == TokenType::Parenthesis || t
            == TokenType::Function || t == TokenType::Identifier || t == TokenType::Operation
            || t == TokenType::TypedLiteral || t == TokenType::TypeCast || is_plain_operand(t)
            || is_word(token, "CURRENT_DATE"@) || is_word(token, "CURRENT_TIME"@) || is_word(
            token,
            "CURRENT_TIMESTAMP"@,
        ),
        Pass::Comparison => t == TokenType::Parenthesis || t == TokenType::Function || t
            == TokenType::Identifier || t == TokenType::Operation || t
            == TokenType::TypedLiteral || t == TokenType::TypeCast || is_plain_operand(t)
            || is_word(token, "NULL"@),
        Pass::As => is_word(token, "NULL"@) || !is_keyword_type(t),
        Pass::Assignment => t != TokenType::Keyword,
        Pass::IdentifierList => t == TokenType::Function || t == TokenType::Case || t
            == TokenType::Identifier || t == TokenType::Comparison || t
            == TokenType::IdentifierList || t == TokenType::Operation || t == TokenType::TypeCast
            || t == TokenType::TypedLiteral || is_plain_operand(t) || t == TokenType::Wildcard || t
            == TokenType::CommentSingle || t == TokenType::CommentMultiline || is_keyword_type(t),
        _ => false,
    }
}

pub fn valid_before(token: &Token, pass: Pass) -> (r: bool)
    ensures
        r == may_precede(token@, pass),
{
    proof {
        lemma_view_children(*token);
    }
    let t = token.typ;
    match pass {
        Pass::TypedLiteral => true,
        Pass::Period => t == TokenType::SquareBrackets || t == TokenType::Identifier || t
            == TokenType::Name || t == TokenType::LiteralStringSymbol,
        Pass::TypeCast => true,
        Pass::Operation => t == TokenType::SquareBrackets || t == TokenType::Parenthesis || t
            == TokenType::Function || t == TokenType::Identifier || t == TokenType::Operation
            || t == TokenType::TypedLiteral || t == TokenType::TypeCast || plain_operand(t)
            || token.is_keyword_word("CURRENT_DATE") || token.is_keyword_word("CURRENT_TIME")
            || token.is_keyword_word("CURRENT_TIMESTAMP"),
        Pass::Comparison => t == TokenType::Parenthesis || t == TokenType::Function || t
            == TokenType::Identifier || t == TokenType::Operation || t
            == TokenType::TypedLiteral || t == TokenType::TypeCast || plain_operand(t)
            || token.is_keyword_word("NULL"),
        Pass::As => token.is_keyword_word("NULL") || !token.is_keyword(),
        Pass::Assignment => t != TokenType::Keyword,
        Pass::IdentifierList => t == TokenType::Function || t == TokenType::Case || t
            == TokenType::Identifier || t == TokenType::Comparison || t
            == TokenType::IdentifierList || t == TokenType::Operation || t == TokenType::TypeCast
            || t == TokenType::TypedLiteral || plain_operand(t) || t == TokenType::Wildcard || t
            == TokenType::CommentSingle || t == TokenType::CommentMultiline || token.is_keyword(),
        _ => false,
    }
}

/// Whether `next`, or the end of the list where there is no token, may
/// stand behind the token that `pass` groups around.
pub open spec fn may_follow(next: Option<TokenView>, pass: Pass) -> bool {
    match pass {
        Pass::Period => true,
        _ => match next {
            None => false,
            Some(token) => match pass {
                Pass::TypedLiteral => token.typ == TokenType::LiteralString,
                Pass::As => !(token.typ == TokenType::KeywordDML || token.typ
                    == TokenType::KeywordDDL || token.typ == TokenType::KeywordCTE),
                _ => may_precede(token, pass),
            },
        },
    }
}

/// The token at `i` as a value, if there is one.
pub open spec fn view_at(tokens: Seq<Token>, i: Option<usize>) -> Option<TokenView> {
    match i {
        Some(n) => Some(tokens[n as int]@),
        None => None,
    }
}

pub fn valid_after(tokens: &Vec<Token>, nidx: Option<usize>, pass: Pass) -> (r: bool)
    requires
        nidx is Some ==> nidx->0 < tokens@.len(),
    ensures
        r == may_follow(view_at(tokens@, nidx), pass),
{
    proof {
        if nidx is Some {
            lemma_view_children(tokens@[nidx->0 as int]);
        }
    }
    match pass {
        Pass::Period => true,
        _ => match nidx {
            None => false,
            Some(n) => {
                let t = tokens[n].typ;
                match pass {
                    Pass::TypedLiteral => t == TokenType::LiteralString,
                    Pass::As => !(t == TokenType::KeywordDML || t == TokenType::KeywordDDL || t
                        == TokenType::KeywordCTE),
                    _ => valid_before(&tokens[n], pass),
                }
            },
        },
    }
}

/// The index that stands for `i`, or `len` where `i` is `None`.
pub open spec fn index_or(i: Option<usize>, len: int) -> int {
    match i {
        Some(n) => n as int,
        None => len,
    }
}

/// The first and the last token of the group that `pass` makes around the
/// token at `tidx`, with `pidx` the token before it and `nidx` the one after.
pub fn span_of(tokens: &Vec<Token>, pidx: usize, tidx: usize, nidx: Option<usize>, pass: Pass) -> (r:
    (usize, usize))
    requires
        pidx < tidx < tokens@.len(),
        nidx is Some ==> tidx < nidx->0 < tokens@.len(),
    ensures
        (r.0 as int, r.1 as int) == span(
            views(tokens@),
            pidx as int,
            tidx as int,
            index_or(nidx, tokens@.len() as int),
            pass,
        ),
        r.0 <= r.1 < tokens@.len(),
        r.0 == pidx || r.0 == tidx,
        tidx <= r.1,
{
    match nidx {
        None => (pidx, tidx),
        Some(n) => {
            proof {
                lemma_token_view(tokens@, n as int);
            }
            match pass {
                Pass::TypedLiteral => (tidx, n),
                Pass::Period => {
                    let t = tokens[n].typ;
                    if t == TokenType::SquareBrackets || t == TokenType::Function || t
                        == TokenType::Name || t == TokenType::LiteralStringSymbol || t
                        == TokenType::Wildcard {
                        (pidx, n)
                    } else {
                        (pidx, tidx)
                    }
                },
                Pass::Assignment => {
                    let len: usize = tokens.len();
                    let ghost model = views(tokens@);
                    let ghost goal = span(model, pidx as int, tidx as int, n as int, pass);
                    let mut i: usize = n;
                    while i < len
                        invariant
                            pidx < tidx < n <= i <= len,
                            len == tokens@.len(),
                            model == views(tokens@),
                            goal == span(
                                model,
                                pidx as int,
                                tidx as int,
                                index_or(nidx, len as int),
                                pass,
                            ),
                            goal == if first_semicolon(model, n as int) < len {
                                (pidx as int, first_semicolon(model, n as int))
                            } else {
                                (pidx as int, n as int)
                            },
                            first_semicolon(model, n as int) == first_semicolon(model, i as int),
                        decreases len - i,
                    {
                        proof {
                            lemma_token_view(tokens@, i as int);
                        }
                        if tokens[i].is_punctuation(";") {
                            return (pidx, i);
                        }
                        i += 1;
                    }
                    (pidx, n)
                },
                _ => (pidx, n),
            }
        },
    }
}

/// Whether a group of `pass` takes in what follows it, where it is of the
/// kind that the pass makes.
pub open spec fn is_extending(pass: Pass) -> bool {
    pass == Pass::Period || pass == Pass::As || pass == Pass::IdentifierList
}

pub fn extends(pass: Pass) -> (r: bool)
    ensures
        r == is_extending(pass),
{
    match pass {
        Pass::Period => true,
        Pass::As => true,
        Pass::IdentifierList => true,
        _ => false,
    }
}

/// The index that `i` holds, if it holds one.
pub open spec fn as_index(i: Option<usize>) -> Option<int> {
    match i {
        Some(n) => Some(n as int),
        None => None,
    }
}

/// Groups each token that `pass` groups around with the token before it and
/// the token after it, blank space apart, where both may stand there.
pub fn group_around(tokens: &mut Vec<Token>, pass: Pass)
    requires
        all_wf(old(tokens)@),
    ensures
        views(final(tokens)@) == around_from(views(old(tokens)@), pass, 0, None),
        regrouped(old(tokens)@, final(tokens)@),
{
    let kind = kind_of(pass);
    let ghost target = around_from(views(tokens@), pass, 0, None);
    let mut tidx: usize = 0;
    let mut pidx: Option<usize> = None;
    while tidx < tokens.len()
        invariant
            regrouped(old(tokens)@, tokens@),
            kind == made_kind(pass),
            is_group_type(kind),
            tidx <= tokens@.len(),
            pidx is Some ==> pidx->0 < tidx,
            target == around_from(views(tokens@), pass, tidx as int, as_index(pidx)),
        decreases tokens@.len() - tidx,
    {
        proof {
            lemma_token_view(tokens@, tidx as int);
        }
        if tokens[tidx].is_whitespace() {
            tidx += 1;
            continue ;
        }
        let ghost model = views(tokens@);
        let ghost len = tokens@.len() as int;
        if is_match(&tokens[tidx], pass) {
            let nidx = next_from(tokens, tidx + 1, true);
            proof {
                lemma_first_solid(tokens@, tidx + 1, nidx);
                assert(first_solid(model, tidx + 1) == index_or(nidx, len));
                if nidx is Some {
                    lemma_token_view(tokens@, nidx->0 as int);
                }
                assert(token_at(model, first_solid(model, tidx + 1)) == view_at(tokens@, nidx));
            }
            match pidx {
                Some(p) => {
                    proof {
                        lemma_token_view(tokens@, p as int);
                    }
                    if valid_before(&tokens[p], pass) && valid_after(tokens, nidx, pass) {
                        let (from, to) = span_of(tokens, p, tidx, nidx, pass);
                        group_tokens(tokens, from, to, kind, extends(pass));
                        pidx = Some(from);
                        tidx = from + 1;
                        continue ;
                    }
                },
                None => {},
            }
        }
        pidx = Some(tidx);
        tidx += 1;
    }
}

/// Makes an operator of each `*` that is no wildcard: one whose left
/// neighbour, blank space apart, is none of `SELECT`, `,`, `.` and `(`, or
/// that has no left neighbour.
pub fn retag_wildcards(tokens: &mut Vec<Token>)
    requires
        all_wf(old(tokens)@),
    ensures
        views(final(tokens)@) == retagged(views(old(tokens)@)),
        regrouped(old(tokens)@, final(tokens)@),
        final(tokens)@.len() == old(tokens)@.len(),
{
    let n: usize = tokens.len();
    let ghost origin = tokens@;
    let ghost model = views(origin);
    let mut i: usize = 0;
    while i < n
        invariant
            i <= n,
            n == tokens@.len(),
            origin == old(tokens)@,
            model == views(origin),
            n == origin.len(),
            all_wf(tokens@),
            content(tokens@) == content(origin),
            blank_leaves(views(tokens@)) == blank_leaves(model),
            forall|j: int| 0 <= j < n ==> (#[trigger] tokens@[j]).value@ == origin[j].value@,
            forall|j: int| 0 <= j < n ==> is_whitespace_type((#[trigger] tokens@[j]).typ)
                == is_whitespace_type(origin[j].typ),
            forall|j: int| i <= j < n ==> tokens@[j] == origin[j],
            forall|j: int| 0 <= j < i ==> (#[trigger] tokens@[j])@ == retagged_at(model, j),
            forall|j: int|
                0 <= j < i && origin[j].typ != TokenType::Wildcard ==> (#[trigger] tokens@[j])
                    == origin[j],
        decreases n - i,
    {
        let ghost before = tokens@;
        proof {
            lemma_token_view(origin, i as int);
            assert(before[i as int] == origin[i as int]);
        }
        if tokens[i].typ == TokenType::Wildcard {
            let found = prev_before(tokens, i, true);
            proof {
                assert forall|j: int| 0 <= j < n implies is_whitespace_type(
                    (#[trigger] origin[j]).typ,
                ) == is_whitespace_type(before[j].typ) by {}
                lemma_last_solid(origin, i as int, found);
                if found is Some {
                    lemma_token_view(origin, found->0 as int);
                    lemma_token_view(before, found->0 as int);
                    assert(!is_whitespace_type(origin[found->0 as int].typ));
                    assert(origin[found->0 as int].typ != TokenType::Wildcard ==> before[found->0 as int]
                        == origin[found->0 as int]);
                }
            }
            let keeps = match found {
                Some(j) => {
                    let keeps = tokens[j].is_keyword_word("SELECT") || tokens[j].is_punctuation(
                        ",",
                    ) || tokens[j].is_punctuation(".") || tokens[j].is_punctuation("(");
                    proof {
                        assert(keeps == keeps_wildcard(model[j as int])) by {
                            if origin[j as int].typ == TokenType::Wildcard {
                                assert(before[j as int].value@ == origin[j as int].value@);
                                assert(!is_keyword_type(before[j as int].typ));
                                assert(before[j as int]@ == retagged_at(model, j as int));
                            }
                        }
                    }
                    keeps
                },
                None => false,
            };
            if !keeps {
                tokens[i].typ = TokenType::Operator;
                proof {
                    assert(before[i as int].wf());
                    assert(tokens@[i as int].children == before[i as int].children);
                    assert(tokens@[i as int].wf());
                    assert(tokens@ == before.update(i as int, tokens@[i as int]));
                    lemma_update_same_content(before, i as int, tokens@[i as int]);
                    lemma_view_children(tokens@[i as int]);
                    lemma_view_children(origin[i as int]);
                    lemma_view_children(before[i as int]);
                    assert(views(before)[i as int] == before[i as int]@);
                    assert(views(tokens@) =~= views(before).update(
                        i as int,
                        tokens@[i as int]@,
                    ));
                    lemma_blank_leaves_update(views(before), i as int, tokens@[i as int]@);
                }
            }
        }
        proof {
            lemma_view_children(tokens@[i as int]);
            assert(tokens@[i as int]@ == retagged_at(model, i as int));
            assert forall|j: int| 0 <= j < i + 1 implies (#[trigger] tokens@[j])@ == retagged_at(
                model,
                j,
            ) by {
                if j < i {
                    assert(tokens@[j] == before[j]);
                }
            }
            assert forall|j: int| i + 1 <= j < n implies tokens@[j] == origin[j] by {
                assert(tokens@[j] == before[j]);
            }
        }
        i += 1;
    }
    proof {
        lemma_joined_text_same_values(tokens@, origin);
        assert(views(tokens@) =~= retagged(model));
    }
}

/// Whether `t` can name a function: a name, or a keyword other than
/// `CASE`, `IN`, `VALUES`, `USING`, `FROM` and `AS`.
pub open spec fn can_name_function(t: TokenView) -> bool {
    t.typ == TokenType::Name || (t.typ == TokenType::Keyword && !(is_word(t, "CASE"@) || is_word(
        t,
        "IN"@,
    ) || is_word(t, "VALUES"@) || is_word(t, "USING"@) || is_word(t, "FROM"@) || is_word(
        t,
        "AS"@,
    )))
}

pub fn names_function(token: &Token) -> (r: bool)
    ensures
        r == can_name_function(token@),
{
    proof {
        lemma_view_children(*token);
    }
    token.typ == TokenType::Name || (token.typ == TokenType::Keyword && !(token.is_keyword_word(
        "CASE",
    ) || token.is_keyword_word("IN") || token.is_keyword_word("VALUES") || token.is_keyword_word(
        "USING",
    ) || token.is_keyword_word("FROM") || token.is_keyword_word("AS")))
}

/// Groups each token that can name a function with the parenthesis that
/// follows it directly.
pub fn group_functions(tokens: &mut Vec<Token>)
    requires
        all_wf(old(tokens)@),
    ensures
        views(final(tokens)@) == functions_from(views(old(tokens)@), 0),
        regrouped(old(tokens)@, final(tokens)@),
{
    let ghost target = functions_from(views(tokens@), 0);
    let mut i: usize = 0;
    while i < tokens.len()
        invariant
            regrouped(old(tokens)@, tokens@),
            i <= tokens@.len(),
            target == functions_from(views(tokens@), i as int),
        decreases tokens@.len() - i,
    {
        proof {
            lemma_token_view(tokens@, i as int);
            if i + 1 < tokens@.len() {
                lemma_token_view(tokens@, i + 1);
            }
        }
        if tokens.len() - i > 1 && names_function(&tokens[i]) && tokens[i + 1].typ
            == TokenType::Parenthesis {
            group_tokens(tokens, i, i + 1, TokenType::Function, false);
        }
        i += 1;
    }
}

/// Groups each `OVER` with the parenthesis after it, and joins the group to
/// the function before it.
pub fn group_over(tokens: &mut Vec<Token>)
    requires
        all_wf(old(tokens)@),
    ensures
        views(final(tokens)@) == over_from(views(old(tokens)@), 0),
        regrouped(old(tokens)@, final(tokens)@),
{
    let ghost target = over_from(views(tokens@), 0);
    let mut i: usize = 0;
    while i < tokens.len()
        invariant
            regrouped(old(tokens)@, tokens@),
            i <= tokens@.len(),
            target == over_from(views(tokens@), i as int),
        decreases tokens@.len() - i,
    {
        let ghost before = tokens@;
        proof {
            lemma_token_view(before, i as int);
        }
        if tokens[i].is_keyword_word("OVER") {
            let next = next_from(tokens, i + 1, true);
            proof {
                lemma_first_solid(before, i + 1, next);
                if next is Some {
                    lemma_token_view(before, next->0 as int);
                }
            }
            match next {
                Some(n) => {
                    if tokens[n].typ == TokenType::Parenthesis {
                        group_tokens(tokens, i, n, TokenType::Over, false);
                        let ghost with_over = tokens@;
                        let found = prev_before(tokens, i, true);
                        proof {
                            lemma_last_solid(with_over, i as int, found);
                            if found is Some {
                                lemma_token_view(with_over, found->0 as int);
                            }
                        }
                        match found {
                            Some(q) => {
                                if tokens[q].typ == TokenType::Function {
                                    group_tokens(tokens, q, i, TokenType::Function, true);
                                    i = q;
                                }
                            },
                            None => {},
                        }
                    }
                },
                None => {},
            }
        }
        i += 1;
    }
}

/// Makes an identifier of each name and each quoted symbol.
pub fn group_names(tokens: &mut Vec<Token>)
    requires
        all_wf(old(tokens)@),
    ensures
        views(final(tokens)@) == named(views(old(tokens)@)),
        regrouped(old(tokens)@, final(tokens)@),
{
    let ghost origin = tokens@;
    let ghost model = views(origin);
    let n: usize = tokens.len();
    let mut i: usize = 0;
    while i < n
        invariant
            i <= n,
            n == tokens@.len(),
            origin == old(tokens)@,
            model == views(origin),
            n == origin.len(),
            regrouped(origin, tokens@),
            forall|j: int| i <= j < n ==> tokens@[j] == origin[j],
            forall|j: int| 0 <= j < i ==> (#[trigger] tokens@[j])@ == named_at(model, j),
        decreases n - i,
    {
        let ghost before = tokens@;
        proof {
            lemma_token_view(origin, i as int);
            assert(before[i as int] == origin[i as int]);
        }
        if tokens[i].typ == TokenType::Name || tokens[i].typ == TokenType::LiteralStringSymbol {
            group_tokens(tokens, i, i, TokenType::Identifier, false);
            proof {
                lemma_token_view(tokens@, i as int);
                lemma_token_view(before, i as int);
                let made = grouped_range(views(before), i as int, i as int, TokenType::Identifier, false);
                assert(views(before).subrange(i as int, i + 1) =~= seq![model[i as int]]);
                assert(made[i as int] == named_at(model, i as int));
            }
        }
        proof {
            assert forall|j: int| 0 <= j < i + 1 implies (#[trigger] tokens@[j])@ == named_at(
                model,
                j,
            ) by {
                if j < i {
                    assert(tokens@[j] == before[j]);
                } else {
                    lemma_token_view(tokens@, i as int);
                }
            }
            assert forall|j: int| i + 1 <= j < n implies tokens@[j] == origin[j] by {
                assert(tokens@[j] == before[j]);
            }
        }
        i += 1;
    }
    proof {
        assert(views(tokens@) =~= named(model));
    }
}

/// Groups each `ASC` and `DESC` with the identifier or number before it.
pub fn group_order(tokens: &mut Vec<Token>)
    requires
        all_wf(old(tokens)@),
    ensures
        views(final(tokens)@) == order_from(views(old(tokens)@), 0),
        regrouped(old(tokens)@, final(tokens)@),
{
    let ghost target = order_from(views(tokens@), 0);
    let mut i: usize = 0;
    while i < tokens.len()
        invariant
            regrouped(old(tokens)@, tokens@),
            i <= tokens@.len(),
            target == order_from(views(tokens@), i as int),
        decreases tokens@.len() - i,
    {
        let ghost before = tokens@;
        proof {
            lemma_token_view(before, i as int);
        }
        if tokens[i].is_keyword_word("ASC") || tokens[i].is_keyword_word("DESC") {
            let found = prev_before(tokens, i, true);
            proof {
                lemma_last_solid(before, i as int, found);
                if found is Some {
                    lemma_token_view(before, found->0 as int);
                }
            }
            match found {
                Some(q) => {
                    if tokens[q].typ == TokenType::Identifier || numerical(tokens[q].typ) {
                        group_tokens(tokens, q, i, TokenType::Identifier, false);
                        i = q;
                    }
                },
                None => {},
            }
        }
        i += 1;
    }
}

/// Whether a token of kind `t` can carry an alias.
pub open spec fn can_take_alias(t: TokenType) -> bool {
    t == TokenType::Parenthesis || t == TokenType::Function || t == TokenType::Case || t
        == TokenType::Identifier || t == TokenType::Operation || t == TokenType::Comparison
        || is_numerical(t)
}

pub fn takes_alias(t: TokenType) -> (r: bool)
    ensures
        r == can_take_alias(t),
{
    t == TokenType::Parenthesis || t == TokenType::Function || t == TokenType::Case || t
        == TokenType::Identifier || t == TokenType::Operation || t == TokenType::Comparison
        || numerical(t)
}

/// Groups each token that can carry an alias with the identifier after it.
pub fn group_aliased(tokens: &mut Vec<Token>)
    requires
        all_wf(old(tokens)@),
    ensures
        views(final(tokens)@) == aliased_from(views(old(tokens)@), 0),
        regrouped(old(tokens)@, final(tokens)@),
{
    let ghost target = aliased_from(views(tokens@), 0);
    let mut i: usize = 0;
    while i < tokens.len()
        invariant
            regrouped(old(tokens)@, tokens@),
            i <= tokens@.len(),
            target == aliased_from(views(tokens@), i as int),
        decreases tokens@.len() - i,
    {
        let ghost before = tokens@;
        proof {
            lemma_token_view(before, i as int);
        }
        if takes_alias(tokens[i].typ) {
            let next = next_from(tokens, i + 1, true);
            proof {
                lemma_first_solid(before, i + 1, next);
                if next is Some {
                    lemma_token_view(before, next->0 as int);
                }
            }
            match next {
                Some(n) => {
                    if tokens[n].typ == TokenType::Identifier {
                        group_tokens(tokens, i, n, TokenType::Identifier, true);
                    }
                },
                None => {},
            }
        }
        i += 1;
    }
}

/// Groups the first `VALUES` with all that follows it up to the last
/// parenthesis of the list.
pub fn group_values(tokens: &mut Vec<Token>)
    requires
        all_wf(old(tokens)@),
    ensures
        views(final(tokens)@) == values_grouped(views(old(tokens)@)),
        regrouped(old(tokens)@, final(tokens)@),
{
    let n: usize = tokens.len();
    let ghost model = views(tokens@);
    let mut i: usize = 0;
    let mut found = false;
    while i < n && !found
        invariant
            i <= n,
            n == tokens@.len(),
            model == views(tokens@),
            tokens@ == old(tokens)@,
            first_values(model, 0) == first_values(model, i as int),
            found ==> i < n && is_word(model[i as int], "VALUES"@),
        decreases n - i, (if found { 0int } else { 1int }),
    {
        proof {
            lemma_token_view(tokens@, i as int);
        }
        if tokens[i].is_keyword_word("VALUES") {
            found = true;
        } else {
            i += 1;
        }
    }
    assert(first_values(model, 0) == i);
    if i < n {
        let mut end: usize = i;
        let mut j: usize = i;
        while j < n
            invariant
                i <= end < n,
                i <= j <= n,
                end <= j,
                n == tokens@.len(),
                model == views(tokens@),
                tokens@ == old(tokens)@,
                end == last_parenthesis(model, i as int, j as int, i as int),
            decreases n - j,
        {
            proof {
                lemma_token_view(tokens@, j as int);
            }
            if tokens[j].typ == TokenType::Parenthesis {
                end = j;
            }
            j += 1;
        }
        if end > i {
            group_tokens(tokens, i, end, TokenType::Values, true);
        }
    }
}

/// Whether `t` ends a clause of `pass` (`Where` or `Having`): `;`, a `)`
/// that closes the list the clause stands in, `ORDER BY`, `LIMIT`, `UNION`,
/// `UNION ALL`, `EXCEPT`, `RETURNING` and `INTO` end both, `GROUP BY` and
/// `HAVING` end a `WHERE` clause.
pub open spec fn is_clause_end(t: TokenView, pass: Pass) -> bool {
    is_punct(t, ";"@) || is_punct(t, ")"@) || is_word(t, "ORDER BY"@) || is_word(t, "LIMIT"@) || is_word(t, "UNION"@)
        || is_word(t, "UNION ALL"@) || is_word(t, "EXCEPT"@) || is_word(t, "RETURNING"@)
        || is_word(t, "INTO"@) || (pass == Pass::Where && (is_word(t, "GROUP BY"@) || is_word(
        t,
        "HAVING"@,
    )))
}

pub fn ends_clause(token: &Token, pass: Pass) -> (r: bool)
    ensures
        r == is_clause_end(token@, pass),
{
    proof {
        lemma_view_children(*token);
    }
    token.is_punctuation(";") || token.is_punctuation(")") || token.is_keyword_word("ORDER BY")
        || token.is_keyword_word("LIMIT") || token.is_keyword_word("UNION") || token.is_keyword_word("UNION ALL")
        || token.is_keyword_word("EXCEPT") || token.is_keyword_word("RETURNING")
        || token.is_keyword_word("INTO") || (pass == Pass::Where && (token.is_keyword_word(
        "GROUP BY",
    ) || token.is_keyword_word("HAVING")))
}

/// Groups each head keyword of `pass` (`WHERE` or `HAVING`) with all that
/// follows it up to the last token that is no blank space before the token
/// that ends the clause, or before the end of the list.
pub fn group_clause(tokens: &mut Vec<Token>, pass: Pass)
    requires
        all_wf(old(tokens)@),
    ensures
        views(final(tokens)@) == clauses_from(views(old(tokens)@), pass, 0),
        regrouped(old(tokens)@, final(tokens)@),
{
    let kind = kind_of(pass);
    let ghost target = clauses_from(views(tokens@), pass, 0);
    let mut i: usize = 0;
    while i < tokens.len()
        invariant
            regrouped(old(tokens)@, tokens@),
            kind == made_kind(pass),
            is_group_type(kind),
            i <= tokens@.len(),
            target == clauses_from(views(tokens@), pass, i as int),
        decreases tokens@.len() - i,
    {
        let ghost model = views(tokens@);
        proof {
            lemma_token_view(tokens@, i as int);
        }
        let heads = if pass == Pass::Where {
            tokens[i].is_keyword_word("WHERE")
        } else {
            tokens[i].is_keyword_word("HAVING")
        };
        if heads {
            let n: usize = tokens.len();
            let mut j: usize = i + 1;
            let mut found = false;
            while j < n && !found
                invariant
                    i < j <= n,
                    n == tokens@.len(),
                    model == views(tokens@),
                    clause_end(model, i + 1, pass) == clause_end(model, j as int, pass),
                    found ==> j < n && is_clause_end(model[j as int], pass),
                decreases n - j, (if found { 0int } else { 1int }),
            {
                proof {
                    lemma_token_view(tokens@, j as int);
                }
                if ends_clause(&tokens[j], pass) {
                    found = true;
                } else {
                    j += 1;
                }
            }
            assert(clause_end(model, i + 1, pass) == j);
            let found = prev_before(tokens, j, true);
            proof {
                lemma_last_solid(tokens@, j as int, found);
                assert(!is_whitespace_type(tokens@[i as int].typ));
            }
            match found {
                Some(last) => {
                    assert(i <= last);
                    group_tokens(tokens, i, last, kind, false);
                },
                None => {},
            }
        }
        i += 1;
    }
}

/// The work of `pass` on one list, the inside of its groups apart.
pub fn group_flat(tokens: &mut Vec<Token>, pass: Pass)
    requires
        all_wf(old(tokens)@),
    ensures
        views(final(tokens)@) == flat_grouped(views(old(tokens)@), pass),
        regrouped(old(tokens)@, final(tokens)@),
{
    match pass {
        Pass::Parenthesis | Pass::SquareBrackets | Pass::Case | Pass::If | Pass::Begin => {
            group_matching(tokens, pass)
        },
        Pass::Function => group_functions(tokens),
        Pass::Over => group_over(tokens),
        Pass::Name => group_names(tokens),
        Pass::Order => group_order(tokens),
        Pass::Operation => {
            retag_wildcards(tokens);
            group_around(tokens, pass)
        },
        Pass::Aliased => group_aliased(tokens),
        Pass::Values => group_values(tokens),
        Pass::Where | Pass::Having => group_clause(tokens, pass),
        _ => group_around(tokens, pass),
    }
}

/// A list in which one group has had its children regrouped, and nothing
/// else has changed, is a regrouping of the list.
pub proof fn lemma_child_regrouped(before: Seq<Token>, after: Seq<Token>, i: int)
    requires
        all_wf(before),
        0 <= i < before.len(),
        after.len() == before.len(),
        forall|j: int| 0 <= j < before.len() && j != i ==> after[j] == before[j],
        after[i].typ == before[i].typ,
        after[i].value == before[i].value,
        is_group_type(before[i].typ),
        regrouped(before[i].children@, after[i].children@),
    ensures
        regrouped(before, after),
{
    assert(before[i].wf());
    assert(after[i].wf());
    assert(after == before.update(i, after[i]));
    lemma_update_same_content(before, i, after[i]);
    assert forall|j: int| 0 <= j < after.len() implies (#[trigger] after[j]).value@
        == before[j].value@ by {
        if j != i {
            assert(after[j] == before[j]);
        }
    }
    lemma_joined_text_same_values(after, before);
    lemma_view_children(before[i]);
    lemma_view_children(after[i]);
    assert(views(before)[i] == before[i]@);
    assert(views(after) =~= views(before).update(i, after[i]@));
    lemma_blank_leaves_update(views(before), i, after[i]@);
}

/// Runs `pass` on a list: first on the inside of each of its groups that the
/// pass enters, then on the list itself.
pub fn run_pass(tokens: &mut Vec<Token>, pass: Pass)
    requires
        all_wf(old(tokens)@),
    ensures
        views(final(tokens)@) == pass_grouped(views(old(tokens)@), pass),
        regrouped(old(tokens)@, final(tokens)@),
    decreases old(tokens)@,
{
    let n: usize = tokens.len();
    let ghost origin = tokens@;
    let ghost model = views(origin);
    let mut i: usize = 0;
    while i < n
        invariant
            n == tokens@.len(),
            origin == old(tokens)@,
            model == views(origin),
            n == origin.len(),
            i <= n,
            regrouped(origin, tokens@),
            forall|j: int| i <= j < n ==> tokens@[j] == origin[j],
            forall|j: int| 0 <= j < i ==> (#[trigger] tokens@[j])@ == pass_token(model[j], pass),
        decreases n - i,
    {
        let ghost before = tokens@;
        let ghost start = origin[i as int];
        proof {
            lemma_token_view(origin, i as int);
            assert(before[i as int] == start);
            assert(start.wf());
            lemma_view_children(start);
        }
        if tokens[i].is_group() && !skips(pass, tokens[i].typ) {
            run_pass(&mut tokens[i].children, pass);
            proof {
                lemma_child_regrouped(before, tokens@, i as int);
                lemma_view_children(tokens@[i as int]);
                assert(tokens@[i as int]@ == pass_token(model[i as int], pass));
            }
        }
        proof {
            assert forall|j: int| 0 <= j < i + 1 implies (#[trigger] tokens@[j])@ == pass_token(
                model[j],
                pass,
            ) by {
                if j < i {
                    assert(tokens@[j] == before[j]);
                }
            }
            assert forall|j: int| i + 1 <= j < n implies tokens@[j] == origin[j] by {
                assert(tokens@[j] == before[j]);
            }
        }
        i += 1;
    }
    proof {
        assert(views(tokens@) =~= pass_each(model, pass));
    }
    group_flat(tokens, pass);
}

/// Whether `t` is the keyword `CREATE` or `CREATE OR REPLACE`.
pub open spec fn is_create(t: TokenView) -> bool {
    t.typ == TokenType::KeywordDDL && (is_word(t, "CREATE"@) || is_word(t, "CREATE OR REPLACE"@))
}

/// The index of the first token of `tokens` at or after `i` that is no
/// blank space, or the length of `tokens` if there is none.
pub open spec fn first_solid(tokens: Seq<TokenView>, i: int) -> int
    decreases tokens.len() - i,
{
    if 0 <= i < tokens.len() && is_whitespace_type(tokens[i].typ) {
        first_solid(tokens, i + 1)
    } else {
        i
    }
}

/// Whether the first token of `tokens` that is no blank space is a `CREATE`
/// keyword.
pub open spec fn starts_create(tokens: Seq<TokenView>) -> bool {
    first_solid(tokens, 0) < tokens.len() && is_create(tokens[first_solid(tokens, 0)])
}

pub proof fn lemma_first_solid(tokens: Seq<Token>, i: int, r: Option<usize>)
    requires
        0 <= i,
        match r {
            Some(k) => i <= k < tokens.len() && !is_whitespace_type(tokens[k as int].typ)
                && forall|j: int| i <= j < k ==> is_whitespace_type((#[trigger] tokens[j]).typ),
            None => forall|j: int|
                i <= j < tokens.len() ==> is_whitespace_type((#[trigger] tokens[j]).typ),
        },
    ensures
        first_solid(views(tokens), i) == match r {
            Some(k) => k as int,
            None => if i < tokens.len() {
                tokens.len() as int
            } else {
                i
            },
        },
    decreases tokens.len() - i,
{
    if i < tokens.len() {
        lemma_view_children(tokens[i]);
        assert(views(tokens)[i] == tokens[i]@);
        if is_whitespace_type(tokens[i].typ) {
            lemma_first_solid(tokens, i + 1, r);
        }
    }
}

pub fn starts_with_create(tokens: &Vec<Token>) -> (r: bool)
    ensures
        r == starts_create(views(tokens@)),
{
    let found = next_from(tokens, 0, true);
    proof {
        lemma_first_solid(tokens@, 0, found);
        if found is Some {
            lemma_view_children(tokens@[found->0 as int]);
            assert(views(tokens@)[found->0 as int] == tokens@[found->0 as int]@);
        }
    }
    match found {
        Some(i) => tokens[i].typ == TokenType::KeywordDDL && (tokens[i].is_keyword_word("CREATE")
            || tokens[i].is_keyword_word("CREATE OR REPLACE")),
        None => false,
    }
}

/// The passes in the order in which they run; those for `IF` and `BEGIN`
/// blocks only with `blocks`.
fn passes_in_order(blocks: bool) -> (passes: Vec<Pass>)
    ensures
        passes@ == pass_order(blocks),
{
    let mut passes: Vec<Pass> = vec![Pass::Parenthesis, Pass::SquareBrackets, Pass::Case];
    if blocks {
        passes.push(Pass::If);
        passes.push(Pass::Begin);
    }
    let mut rest: Vec<Pass> = vec![
        Pass::TypedLiteral,
        Pass::Function,
        Pass::Over,
        Pass::Period,
        Pass::Name,
        Pass::Order,
        Pass::TypeCast,
        Pass::Operation,
        Pass::Comparison,
        Pass::As,
        Pass::Aliased,
        Pass::Assignment,
        Pass::IdentifierList,
        Pass::Values,
        Pass::Where,
        Pass::Having,
    ];
    passes.append(&mut rest);
    proof {
        assert(passes@ =~= pass_order(blocks));
    }
    passes
}

/// Groups the tokens of one statement. The passes run in this order:
/// parentheses, square brackets, `CASE`; in a statement that starts with
/// `CREATE`, `IF` and `BEGIN` blocks; typed literals, functions, `OVER`,
/// identifiers (names joined by `.`, single names, `ASC` and `DESC`), type
/// casts, operations, comparisons, aliases (with and without `AS`),
/// assignments, lists, `VALUES`, `WHERE`, `HAVING`.
pub fn group(tokens: Vec<Token>) -> (out: Vec<Token>)
    requires
        all_wf(tokens@),
    ensures
        views(out@) == grouped(views(tokens@)),
        regrouped(tokens@, out@),
{
    let ghost origin = tokens@;
    let ghost model = views(origin);
    let mut tokens = tokens;
    let passes = passes_in_order(starts_with_create(&tokens));
    let mut k: usize = 0;
    while k < passes.len()
        invariant
            k <= passes@.len(),
            passes@ == pass_order(starts_create(model)),
            regrouped(origin, tokens@),
            views(tokens@) == passes_grouped(model, passes@, k as nat),
        decreases passes@.len() - k,
    {
        run_pass(&mut tokens, passes[k]);
        k += 1;
    }
    tokens
}

/// Groups the tokens of a list in place, as `group` does.
pub fn group_tokenlist(token_list: &mut TokenList)
    requires
        all_wf(old(token_list).tokens@),
    ensures
        views(final(token_list).tokens@) == grouped(views(old(token_list).tokens@)),
        regrouped(old(token_list).tokens@, final(token_list).tokens@),
{
    let mut tokens: Vec<Token> = Vec::new();
    std::mem::swap(&mut token_list.tokens, &mut tokens);
    token_list.tokens = group(tokens);
}

} // verus!
