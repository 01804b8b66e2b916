//! Laws of the pipeline as a whole: what holds of every statement that
//! parsing gives, and of names in double quotes under the case filters.

use crate::content::{blank_leaves, blank_leaves_of, blank_leaves_upto};
use crate::engine::filter_stack::{cased_value, parsed, split_parsed};
use crate::engine::splitter::{
    concat_all, initial_state, lemma_split_coverage, split_statements, trailing_blank,
};
use crate::filters::laws::{
    blank_pair_at, is_settled, lemma_settled_from_leaves, lemma_strip_whitespace_idempotent,
    no_blank_neighbours, no_blank_pairs,
};
use crate::filters::model::whitespace_stripped;
use crate::filters::{filtered_value, in_case, FilterView};
use crate::lexer::{
    in_class, is_space, lexed, lexed_from, number_at, run_end, token_at, word_at, CharClass,
};
use crate::text::ascii_upper_seq;
use crate::tokens::{
    all_wf, is_group_type, is_keyword_type, is_whitespace_type, lemma_view_children, views,
    Token, TokenType, TokenView,
};
use crate::trie::Trie;
use vstd::prelude::*;

verus! {

/// A run ends at its start or behind it, and no character of its class
/// stands at its end.
pub proof fn lemma_run_end_stops(s: Seq<char>, i: int, class: CharClass)
    requires
        0 <= i,
    ensures
        i <= run_end(s, i, class),
        run_end(s, i, class) < s.len() ==> !in_class(s[run_end(s, i, class)], class),
    decreases s.len() - i,
{
    if i < s.len() && in_class(s[i], class) {
        lemma_run_end_stops(s, i + 1, class);
    }
}

/// The lexer makes blank space of blank characters only, of a whole run of
/// them, and it makes no groups.
pub proof fn lemma_token_kind(chars: Seq<char>, upper: Seq<char>, pos: int, trie: &Trie<TokenType>)
    requires
        0 <= pos < chars.len(),
    ensures
        !is_group_type(token_at(chars, upper, pos, trie).0),
        is_whitespace_type(token_at(chars, upper, pos, trie).0) == is_space(chars[pos]),
        is_space(chars[pos]) ==> token_at(chars, upper, pos, trie).1 == run_end(
            chars,
            pos,
            CharClass::Space,
        ),
{
    let number = number_at(chars, pos);
    assert(!is_group_type(number.0) && !is_whitespace_type(number.0));
    let word = word_at(chars, upper, pos, trie);
    assert(!is_group_type(word.0) && !is_whitespace_type(word.0));
}

/// The tokens of the lexer are leaves, and no two tokens of blank space
/// stand side by side among them.
pub proof fn lemma_lexed_apart(chars: Seq<char>, upper: Seq<char>, trie: &Trie<TokenType>, pos: int)
    requires
        0 <= pos,
    ensures
        no_blank_pairs(lexed_from(chars, upper, trie, pos)),
        forall|k: int|
            0 <= k < lexed_from(chars, upper, trie, pos).len() ==> (#[trigger] lexed_from(
                chars,
                upper,
                trie,
                pos,
            )[k]).children.len() == 0 && !is_group_type(lexed_from(chars, upper, trie, pos)[k].typ),
        lexed_from(chars, upper, trie, pos).len() > 0 ==> pos < chars.len() && is_whitespace_type(
            lexed_from(chars, upper, trie, pos)[0].typ,
        ) == is_space(chars[pos]),
    decreases chars.len() - pos,
{
    let all = lexed_from(chars, upper, trie, pos);
    if pos < chars.len() {
        let t = token_at(chars, upper, pos, trie);
        lemma_token_kind(chars, upper, pos, trie);
        if pos < t.1 <= chars.len() {
            let rest = lexed_from(chars, upper, trie, t.1);
            lemma_lexed_apart(chars, upper, trie, t.1);
            lemma_run_end_stops(chars, pos, CharClass::Space);
            assert(all.len() == rest.len() + 1);
            assert forall|k: int| 0 < k < all.len() implies all[k] == rest[k - 1] by {}
            assert forall|k: int| !#[trigger] blank_pair_at(all, k) by {
                if blank_pair_at(all, k) {
                    if k == 0 {
                        assert(all[1] == rest[0]);
                    } else {
                        assert(all[k] == rest[k - 1]);
                        assert(all[k + 1] == rest[k]);
                        assert(blank_pair_at(rest, k - 1));
                    }
                }
            }
            assert forall|k: int| 0 <= k < all.len() implies (#[trigger] all[k]).children.len() == 0
                && !is_group_type(all[k].typ) by {
                if k > 0 {
                    assert(all[k] == rest[k - 1]);
                }
            }
        }
    }
}

/// Which leaves of a list of leaves are blank space: those of a blank
/// kind.
pub proof fn lemma_flat_leaves(v: Seq<TokenView>, n: nat)
    requires
        n <= v.len(),
        forall|k: int| 0 <= k < v.len() ==> (#[trigger] v[k]).children.len() == 0,
    ensures
        blank_leaves_upto(v, n).len() == n,
        forall|k: int|
            0 <= k < n ==> #[trigger] blank_leaves_upto(v, n)[k] == is_whitespace_type(v[k].typ),
    decreases n,
{
    if n > 0 {
        lemma_flat_leaves(v, (n - 1) as nat);
        let front = blank_leaves_upto(v, (n - 1) as nat);
        let last = v[n - 1];
        assert(last.children.len() == 0);
        assert(blank_leaves_of(last) == seq![is_whitespace_type(last.typ)]);
        let here = blank_leaves_upto(v, n);
        assert(here == front + seq![is_whitespace_type(last.typ)]);
        assert forall|k: int| 0 <= k < n implies #[trigger] here[k] == is_whitespace_type(
            v[k].typ,
        ) by {
            if k < n - 1 {
                assert(here[k] == front[k]);
            }
        }
    }
}

/// Each statement of the splitter is a run of the tokens it was given: its
/// tokens stand side by side among them, in their order.
pub proof fn lemma_part_is_run(parts: Seq<Seq<Token>>, i: int) -> (at: int)
    requires
        0 <= i < parts.len(),
    ensures
        0 <= at,
        at + parts[i].len() <= concat_all(parts).len(),
        forall|k: int| 0 <= k < parts[i].len() ==> concat_all(parts)[at + k] == #[trigger] parts[i][k],
    decreases parts.len(),
{
    let front = parts.drop_last();
    if i == parts.len() - 1 {
        concat_all(front).len() as int
    } else {
        let at = lemma_part_is_run(front, i);
        assert(front[i] == parts[i]);
        assert forall|k: int| 0 <= k < parts[i].len() implies concat_all(parts)[at + k]
            == #[trigger] parts[i][k] by {
            assert(concat_all(front)[at + k] == front[i][k]);
        }
        at
    }
}

/// Every statement that parsing gives is settled: no two tokens of blank
/// space stand side by side in it, at any depth.
pub proof fn lemma_parsed_settled(
    tree: Trie<TokenType>,
    sql: Seq<char>,
    grouping: bool,
    stmts: Seq<Seq<Token>>,
    i: int,
)
    requires
        parsed(tree, sql, grouping, stmts),
        0 <= i < stmts.len(),
    ensures
        is_settled(views(stmts[i])),
{
    let tokens = choose|tokens: Seq<Token>|
        views(tokens) == lexed(sql, &tree) && #[trigger] split_parsed(tokens, grouping, stmts);
    let flat = views(tokens);
    let parts = split_statements(initial_state(), tokens);
    let part = parts[i];
    lemma_lexed_apart(sql, ascii_upper_seq(sql), &tree, 0);
    lemma_split_coverage(initial_state(), tokens);
    let at = lemma_part_is_run(parts, i);
    // The statement is a run of leaves of the lexer.
    assert forall|k: int| 0 <= k < part.len() implies {
        &&& (#[trigger] part[k]).children@.len() == 0
        &&& !is_group_type(part[k].typ)
        &&& part[k] == tokens[at + k]
    } by {
        assert(concat_all(parts)[at + k] == part[k]);
        assert((concat_all(parts) + trailing_blank(initial_state(), tokens))[at + k] == part[k]);
        lemma_view_children(tokens[at + k]);
        assert(flat[at + k] == tokens[at + k]@);
        assert(flat[at + k].children.len() == 0);
    }
    assert(all_wf(part)) by {
        assert forall|k: int| 0 <= k < part.len() implies (#[trigger] part[k]).wf() by {}
    }
    let model = views(part);
    assert forall|k: int| 0 <= k < model.len() implies (#[trigger] model[k]).children.len() == 0
        && model[k].typ == flat[at + k].typ by {
        lemma_view_children(part[k]);
        assert(part[k] == tokens[at + k]);
        lemma_view_children(tokens[at + k]);
        assert(flat[at + k] == tokens[at + k]@);
    }
    lemma_flat_leaves(model, model.len());
    let leaves = blank_leaves(model);
    assert forall|k: int| 0 <= k && k + 1 < leaves.len() implies !(#[trigger] leaves[k]
        && leaves[k + 1]) by {
        if leaves[k] && leaves[k + 1] {
            assert(model[k].typ == flat[at + k].typ);
            assert(model[k + 1].typ == flat[at + k + 1].typ);
            assert(blank_pair_at(flat, at + k));
        }
    }
    if grouping {
        assert(all_wf(stmts[i]));
        assert(blank_leaves(views(stmts[i])) == leaves);
    } else {
        assert(stmts[i] == part);
    }
    lemma_settled_from_leaves(stmts[i]);
}

/// The whitespace filter changes nothing that it has worked on already, on
/// every statement that parsing gives: filtering what the filter makes of
/// the statement gives what the filter makes of it.
pub proof fn lemma_strip_whitespace_idempotent_parsed(
    tree: Trie<TokenType>,
    sql: Seq<char>,
    grouping: bool,
    stmts: Seq<Seq<Token>>,
    i: int,
)
    requires
        parsed(tree, sql, grouping, stmts),
        0 <= i < stmts.len(),
    ensures
        whitespace_stripped(whitespace_stripped(views(stmts[i]), false), false)
            == whitespace_stripped(views(stmts[i]), false),
{
    lemma_parsed_settled(tree, sql, grouping, stmts, i);
    lemma_strip_whitespace_idempotent(views(stmts[i]), false);
}

/// A name in double quotes keeps its case: whatever filters of single
/// tokens run, and whatever case they write, a token that is no keyword and
/// whose value starts with `"` keeps its value. A name or quoted symbol
/// that does not start with `"` gets the case of the identifier filter.
pub proof fn lemma_quoted_keeps_case(
    filters: Seq<FilterView>,
    case: Seq<char>,
    typ: TokenType,
    value: Seq<char>,
)
    requires
        !is_keyword_type(typ),
    ensures
        value.len() > 0 && value[0] == '"' ==> cased_value(filters, typ, value) == value,
        (typ == TokenType::Name || typ == TokenType::LiteralStringSymbol) && !(value.len() > 0
            && value[0] == '"') ==> filtered_value(FilterView::IdentifierCase(case), typ, value)
            == in_case(case, value),
    decreases filters.len(),
{
    if filters.len() > 0 {
        lemma_quoted_keeps_case(filters.drop_last(), case, typ, value);
    }
}

} // verus!
