//! What each pass of the grouper makes of a list of tokens, stated over the
//! tokens as values. A pass reads a list from left to right; where it makes
//! a group it goes on behind the group.

use crate::engine::grouping::{
    can_name_function, can_take_alias, closes, first_solid, is_clause_end, is_extending,
    is_numerical, is_pivot, is_punct, is_word, made_kind, may_follow, may_precede, opens,
    skips_into, starts_create, Pass,
};
use crate::tokens::{
    group_view, grouped_range, is_group_type, is_whitespace_type, TokenType, TokenView,
};
use vstd::prelude::*;

verus! {

/// The index of the last token of `s` before `i` that is no blank space, or
/// -1 if there is none.
pub open spec fn last_solid(s: Seq<TokenView>, i: int) -> int
    decreases i,
{
    if i <= 0 {
        -1
    } else if i - 1 < s.len() && !is_whitespace_type(s[i - 1].typ) {
        i - 1
    } else {
        last_solid(s, i - 1)
    }
}

/// The token at `i`, if there is one.
pub open spec fn token_at(s: Seq<TokenView>, i: int) -> Option<TokenView> {
    if 0 <= i < s.len() {
        Some(s[i])
    } else {
        None
    }
}

/// What a matching pass makes of `s` from the token at `i` on; `open` holds
/// the indices of the opening tokens that are not closed yet. An opening
/// token is remembered. A closing token is grouped with the last opening
/// token that is remembered and with all between the two; where none is
/// remembered it stays as it is. Blank space and groups are passed over.
pub open spec fn matched_from(s: Seq<TokenView>, pass: Pass, i: int, open: Seq<int>) -> Seq<
    TokenView,
>
    decreases s.len() - i,
{
    if i < 0 || i >= s.len() {
        s
    } else if is_whitespace_type(s[i].typ) || is_group_type(s[i].typ) {
        matched_from(s, pass, i + 1, open)
    } else if opens(s[i], pass) {
        matched_from(s, pass, i + 1, open.push(i))
    } else if closes(s[i], pass) && open.len() > 0 && 0 <= open.last() <= i {
        matched_from(
            grouped_range(s, open.last(), i, made_kind(pass), false),
            pass,
            open.last() + 1,
            open.drop_last(),
        )
    } else {
        matched_from(s, pass, i + 1, open)
    }
}

/// The index of the first `;` of `s` at or after `i`, or the length of `s`
/// if there is none.
pub open spec fn first_semicolon(s: Seq<TokenView>, i: int) -> int
    decreases s.len() - i,
{
    if 0 <= i < s.len() && !is_punct(s[i], ";"@) {
        first_semicolon(s, i + 1)
    } else {
        i
    }
}

/// Whether a token of kind `t` may end a qualified name.
pub open spec fn ends_qualified_name(t: TokenType) -> bool {
    t == TokenType::SquareBrackets || t == TokenType::Function || t == TokenType::Name || t
        == TokenType::LiteralStringSymbol || t == TokenType::Wildcard
}

/// The first and the last token of the group that `pass` makes around the
/// token at `tidx`; `pidx` is the token before it and `nidx` the token
/// behind it, blank space apart, or the length of `s` where none follows. A
/// typed literal starts at the type name. A qualified name ends at the `.`
/// where what follows cannot end it. An assignment reaches to the next
/// `;`.
pub open spec fn span(s: Seq<TokenView>, pidx: int, tidx: int, nidx: int, pass: Pass) -> (
    int,
    int,
) {
    if !(0 <= nidx < s.len()) {
        (pidx, tidx)
    } else {
        match pass {
            Pass::TypedLiteral => (tidx, nidx),
            Pass::Period => if ends_qualified_name(s[nidx].typ) {
                (pidx, nidx)
            } else {
                (pidx, tidx)
            },
            Pass::Assignment => if first_semicolon(s, nidx) < s.len() {
                (pidx, first_semicolon(s, nidx))
            } else {
                (pidx, nidx)
            },
            _ => (pidx, nidx),
        }
    }
}

/// What a pass that groups around a token makes of `s` from the token at
/// `tidx` on; `pidx` is the index of the last token before it that is no
/// blank space, if there is one. A token that the pass groups around is
/// grouped with its neighbours where both may stand at their places, and
/// the pass goes on behind the group, with the group as the token before.
pub open spec fn around_from(s: Seq<TokenView>, pass: Pass, tidx: int, pidx: Option<int>) -> Seq<
    TokenView,
>
    decreases s.len() - tidx,
{
    if tidx < 0 || tidx >= s.len() {
        s
    } else if is_whitespace_type(s[tidx].typ) {
        around_from(s, pass, tidx + 1, pidx)
    } else {
        let nidx = first_solid(s, tidx + 1);
        let found = is_pivot(s[tidx], pass) && pidx is Some && 0 <= pidx->0 < tidx && may_precede(
            s[pidx->0],
            pass,
        ) && may_follow(token_at(s, nidx), pass);
        let ends = span(s, pidx->0, tidx, nidx, pass);
        if found && 0 <= ends.0 <= ends.1 < s.len() && tidx <= ends.1 {
            around_from(
                grouped_range(s, ends.0, ends.1, made_kind(pass), is_extending(pass)),
                pass,
                ends.0 + 1,
                Some(ends.0),
            )
        } else {
            around_from(s, pass, tidx + 1, Some(tidx))
        }
    }
}

/// Whether a `*` behind `t` is a wildcard: `t` is `SELECT`, `,`, `.` or
/// `(`.
pub open spec fn keeps_wildcard(t: TokenView) -> bool {
    is_word(t, "SELECT"@) || is_punct(t, ","@) || is_punct(t, "."@) || is_punct(t, "("@)
}

/// The token at `i` with the kind that the operation pass gives it: a `*`
/// is a wildcard if and only if its left neighbour, blank space apart,
/// keeps it one; else it is an operator.
pub open spec fn retagged_at(s: Seq<TokenView>, i: int) -> TokenView {
    if s[i].typ == TokenType::Wildcard && !(last_solid(s, i) >= 0 && keeps_wildcard(
        s[last_solid(s, i)],
    )) {
        TokenView { typ: TokenType::Operator, value: s[i].value, children: s[i].children }
    } else {
        s[i]
    }
}

/// The list with each `*` that is no wildcard as an operator.
pub open spec fn retagged(s: Seq<TokenView>) -> Seq<TokenView> {
    Seq::new(s.len(), |i: int| retagged_at(s, i))
}

/// What the function pass makes of `s` from the token at `i` on: a token
/// that can name a function is grouped with the parenthesis directly behind
/// it.
pub open spec fn functions_from(s: Seq<TokenView>, i: int) -> Seq<TokenView>
    decreases s.len() - i,
{
    if i < 0 || i >= s.len() {
        s
    } else if i + 1 < s.len() && can_name_function(s[i]) && s[i + 1].typ
        == TokenType::Parenthesis {
        functions_from(grouped_range(s, i, i + 1, TokenType::Function, false), i + 1)
    } else {
        functions_from(s, i + 1)
    }
}

/// What the `OVER` pass makes of `s` from the token at `i` on: an `OVER` is
/// grouped with the parenthesis behind it, blank space apart, and the group
/// joins the function before it, blank space apart.
pub open spec fn over_from(s: Seq<TokenView>, i: int) -> Seq<TokenView>
    decreases s.len() - i,
{
    let n = first_solid(s, i + 1);
    let with_over = grouped_range(s, i, n, TokenType::Over, false);
    let q = last_solid(with_over, i);
    if i < 0 || i >= s.len() {
        s
    } else if is_word(s[i], "OVER"@) && i < n < s.len() && s[n].typ == TokenType::Parenthesis {
        if 0 <= q < i && with_over[q].typ == TokenType::Function {
            over_from(grouped_range(with_over, q, i, TokenType::Function, true), q + 1)
        } else {
            over_from(with_over, i + 1)
        }
    } else {
        over_from(s, i + 1)
    }
}

/// The token at `i` as the name pass leaves it: a name or a quoted symbol
/// is an identifier of its own.
pub open spec fn named_at(s: Seq<TokenView>, i: int) -> TokenView {
    if s[i].typ == TokenType::Name || s[i].typ == TokenType::LiteralStringSymbol {
        group_view(TokenType::Identifier, seq![s[i]])
    } else {
        s[i]
    }
}

/// The list with each name and each quoted symbol as an identifier.
pub open spec fn named(s: Seq<TokenView>) -> Seq<TokenView> {
    Seq::new(s.len(), |i: int| named_at(s, i))
}

/// What the order pass makes of `s` from the token at `i` on: an `ASC` or
/// `DESC` is grouped with the identifier or number before it, blank space
/// apart.
pub open spec fn order_from(s: Seq<TokenView>, i: int) -> Seq<TokenView>
    decreases s.len() - i,
{
    let q = last_solid(s, i);
    if i < 0 || i >= s.len() {
        s
    } else if (is_word(s[i], "ASC"@) || is_word(s[i], "DESC"@)) && 0 <= q < i && (s[q].typ
        == TokenType::Identifier || is_numerical(s[q].typ)) {
        order_from(grouped_range(s, q, i, TokenType::Identifier, false), q + 1)
    } else {
        order_from(s, i + 1)
    }
}

/// What the alias pass makes of `s` from the token at `i` on: a token that
/// can carry an alias is grouped with the identifier behind it, blank space
/// apart.
pub open spec fn aliased_from(s: Seq<TokenView>, i: int) -> Seq<TokenView>
    decreases s.len() - i,
{
    let n = first_solid(s, i + 1);
    if i < 0 || i >= s.len() {
        s
    } else if can_take_alias(s[i].typ) && i < n < s.len() && s[n].typ == TokenType::Identifier {
        aliased_from(grouped_range(s, i, n, TokenType::Identifier, true), i + 1)
    } else {
        aliased_from(s, i + 1)
    }
}

/// The index of the first `VALUES` of `s` at or after `i`, or the length of
/// `s` if there is none.
pub open spec fn first_values(s: Seq<TokenView>, i: int) -> int
    decreases s.len() - i,
{
    if 0 <= i < s.len() && !is_word(s[i], "VALUES"@) {
        first_values(s, i + 1)
    } else {
        i
    }
}

/// The index of the last parenthesis among the first `n` tokens of `s`, or
/// `none` if there is none at or after `from`.
pub open spec fn last_parenthesis(s: Seq<TokenView>, from: int, n: int, none: int) -> int
    decreases n - from,
{
    if n <= from || n > s.len() {
        none
    } else if s[n - 1].typ == TokenType::Parenthesis {
        n - 1
    } else {
        last_parenthesis(s, from, n - 1, none)
    }
}

/// What the values pass makes of `s`: the first `VALUES` is grouped with
/// all that follows it up to the last parenthesis of the list.
pub open spec fn values_grouped(s: Seq<TokenView>) -> Seq<TokenView> {
    let i = first_values(s, 0);
    let end = last_parenthesis(s, i, s.len() as int, i);
    if 0 <= i < end < s.len() {
        grouped_range(s, i, end, TokenType::Values, true)
    } else {
        s
    }
}

/// The index of the first token of `s` at or after `j` that ends a clause
/// of `pass`, or the length of `s` if there is none.
pub open spec fn clause_end(s: Seq<TokenView>, j: int, pass: Pass) -> int
    decreases s.len() - j,
{
    if 0 <= j < s.len() && !is_clause_end(s[j], pass) {
        clause_end(s, j + 1, pass)
    } else {
        j
    }
}

/// Whether `t` is the keyword that heads a clause of `pass`.
pub open spec fn heads_clause(t: TokenView, pass: Pass) -> bool {
    if pass == Pass::Where {
        is_word(t, "WHERE"@)
    } else {
        is_word(t, "HAVING"@)
    }
}

/// What a clause pass makes of `s` from the token at `i` on: the keyword
/// that heads a clause is grouped with all that follows it up to the last
/// token that is no blank space before the token that ends the clause, or
/// before the end of the list.
pub open spec fn clauses_from(s: Seq<TokenView>, pass: Pass, i: int) -> Seq<TokenView>
    decreases s.len() - i,
{
    let j = clause_end(s, i + 1, pass);
    let last = last_solid(s, j);
    if i < 0 || i >= s.len() {
        s
    } else if heads_clause(s[i], pass) && i <= last < j <= s.len() {
        clauses_from(grouped_range(s, i, last, made_kind(pass), false), pass, i + 1)
    } else {
        clauses_from(s, pass, i + 1)
    }
}

/// What `pass` makes of one list, the inside of its groups apart.
pub open spec fn flat_grouped(s: Seq<TokenView>, pass: Pass) -> Seq<TokenView> {
    match pass {
        Pass::Parenthesis | Pass::SquareBrackets | Pass::Case | Pass::If | Pass::Begin => {
            matched_from(s, pass, 0, Seq::empty())
        },
        Pass::Function => functions_from(s, 0),
        Pass::Over => over_from(s, 0),
        Pass::Name => named(s),
        Pass::Order => order_from(s, 0),
        Pass::Operation => around_from(retagged(s), pass, 0, None),
        Pass::Aliased => aliased_from(s, 0),
        Pass::Values => values_grouped(s),
        Pass::Where | Pass::Having => clauses_from(s, pass, 0),
        _ => around_from(s, pass, 0, None),
    }
}

/// A token as `pass` leaves it: a group that the pass enters has the
/// children that the pass makes of its own.
pub open spec fn pass_token(t: TokenView, pass: Pass) -> TokenView
    decreases t,
{
    if t.children.len() > 0 && !skips_into(pass, t.typ) {
        TokenView { typ: t.typ, value: t.value, children: pass_grouped(t.children, pass) }
    } else {
        t
    }
}

/// Each token of the list as `pass` leaves it.
pub open spec fn pass_each(s: Seq<TokenView>, pass: Pass) -> Seq<TokenView>
    decreases s, 0nat,
{
    Seq::new(
        s.len(),
        |i: int|
            if 0 <= i < s.len() {
                pass_token(s[i], pass)
            } else {
                arbitrary()
            },
    )
}

/// What `pass` makes of a list: of the inside of each group that it enters
/// first, then of the list itself.
pub open spec fn pass_grouped(s: Seq<TokenView>, pass: Pass) -> Seq<TokenView>
    decreases s, 1nat,
{
    flat_grouped(pass_each(s, pass), pass)
}

/// The passes in the order in which they run. The passes for `IF` and
/// `BEGIN` blocks run only with `blocks`.
pub open spec fn pass_order(blocks: bool) -> Seq<Pass> {
    let first = seq![Pass::Parenthesis, Pass::SquareBrackets, Pass::Case];
    let middle = if blocks {
        seq![Pass::If, Pass::Begin]
    } else {
        Seq::<Pass>::empty()
    };
    let rest = seq![
        Pass::TypedLiteral,
        Pass::Function,
        Pass::Over,
        Pass::Period,
        Pass::Name,
        Pass::Order,
        Pass::TypeCast,
        Pass::Operation,
        Pass::Comparison,
        Pass::As,
        Pass::Aliased,
        Pass::Assignment,
        Pass::IdentifierList,
        Pass::Values,
        Pass::Where,
        Pass::Having,
    ];
    first + middle + rest
}

/// What the first `n` of `passes` make of `s`, one after the other.
pub open spec fn passes_grouped(s: Seq<TokenView>, passes: Seq<Pass>, n: nat) -> Seq<TokenView>
    decreases n,
{
    if n == 0 || n > passes.len() {
        s
    } else {
        pass_grouped(passes_grouped(s, passes, (n - 1) as nat), passes[n - 1])
    }
}

/// The tokens of one statement, grouped: what the passes make of them in
/// their order. The passes for `IF` and `BEGIN` blocks run in a statement
/// that starts with `CREATE`.
pub open spec fn grouped(s: Seq<TokenView>) -> Seq<TokenView> {
    let passes = pass_order(starts_create(s));
    passes_grouped(s, passes, passes.len())
}

} // verus!
