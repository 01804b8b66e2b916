//! What the two indenting filters look for in a list: keywords and
//! punctuation, the items of a list, and the branches of a `CASE`.

use crate::engine::grouping::{is_punct, is_word, lemma_token_view};
use crate::text::{ends_with_ignore_case, ends_with_upper};
use crate::tokens::{is_keyword_type, is_whitespace_type, views, Token, TokenType, TokenView};
use vstd::prelude::*;

verus! {

/// The index of the first token of `s` at or after `i` that is the keyword
/// `word`, or the length of `s` if there is none.
pub open spec fn first_word(s: Seq<TokenView>, word: Seq<char>, i: int) -> int
    decreases s.len() - i,
{
    if 0 <= i < s.len() && !is_word(s[i], word) {
        first_word(s, word, i + 1)
    } else if i > s.len() {
        s.len() as int
    } else {
        i
    }
}

/// The index of the first token of `s` at or after `i` that is the
/// punctuation `p`, or the length of `s` if there is none.
pub open spec fn first_punct(s: Seq<TokenView>, p: Seq<char>, i: int) -> int
    decreases s.len() - i,
{
    if 0 <= i < s.len() && !is_punct(s[i], p) {
        first_punct(s, p, i + 1)
    } else if i > s.len() {
        s.len() as int
    } else {
        i
    }
}

/// The index of the first token of `s` at or after `i` whose kind is `a` or
/// `b`, or the length of `s` if there is none.
pub open spec fn first_of_kinds(s: Seq<TokenView>, a: TokenType, b: TokenType, i: int) -> int
    decreases s.len() - i,
{
    if 0 <= i < s.len() && s[i].typ != a && s[i].typ != b {
        first_of_kinds(s, a, b, i + 1)
    } else if i > s.len() {
        s.len() as int
    } else {
        i
    }
}

/// The index of the first token at or after `start` that is the keyword
/// `word`, or the length of the list if there is none.
pub fn find_word(tokens: &Vec<Token>, word: &str, start: usize) -> (r: usize)
    ensures
        r == first_word(views(tokens@), word@, start as int),
        r <= tokens@.len(),
        start <= tokens@.len() ==> start <= r,
{
    let n: usize = tokens.len();
    if start >= n {
        return n;
    }
    let mut i: usize = start;
    let mut found = false;
    while i < n && !found
        invariant
            start <= i <= n,
            n == tokens@.len(),
            first_word(views(tokens@), word@, start as int) == first_word(
                views(tokens@),
                word@,
                i as int,
            ),
            found ==> i < n && is_word(views(tokens@)[i as int], word@),
        decreases n - i, (if found { 0int } else { 1int }),
    {
        proof {
            lemma_token_view(tokens@, i as int);
        }
        if tokens[i].is_keyword_word(word) {
            found = true;
        } else {
            i += 1;
        }
    }
    i
}

/// The index of the first token at or after `start` that is the
/// punctuation `p`, or the length of the list if there is none.
pub fn find_punct(tokens: &Vec<Token>, p: &str, start: usize) -> (r: usize)
    ensures
        r == first_punct(views(tokens@), p@, start as int),
        r <= tokens@.len(),
        start <= tokens@.len() ==> start <= r,
{
    let n: usize = tokens.len();
    if start >= n {
        return n;
    }
    let mut i: usize = start;
    let mut found = false;
    while i < n && !found
        invariant
            start <= i <= n,
            n == tokens@.len(),
            first_punct(views(tokens@), p@, start as int) == first_punct(
                views(tokens@),
                p@,
                i as int,
            ),
            found ==> i < n && is_punct(views(tokens@)[i as int], p@),
        decreases n - i, (if found { 0int } else { 1int }),
    {
        proof {
            lemma_token_view(tokens@, i as int);
        }
        if tokens[i].is_punctuation(p) {
            found = true;
        } else {
            i += 1;
        }
    }
    i
}

/// The index of the first token at or after `start` whose kind is `a` or
/// `b`, or the length of the list if there is none.
pub fn find_kind(tokens: &Vec<Token>, a: TokenType, b: TokenType, start: usize) -> (r: usize)
    ensures
        r == first_of_kinds(views(tokens@), a, b, start as int),
        r <= tokens@.len(),
        start <= tokens@.len() ==> start <= r,
{
    let n: usize = tokens.len();
    if start >= n {
        return n;
    }
    let mut i: usize = start;
    let mut found = false;
    while i < n && !found
        invariant
            start <= i <= n,
            n == tokens@.len(),
            first_of_kinds(views(tokens@), a, b, start as int) == first_of_kinds(
                views(tokens@),
                a,
                b,
                i as int,
            ),
            found ==> i < n && (views(tokens@)[i as int].typ == a || views(tokens@)[i as int].typ
                == b),
        decreases n - i, (if found { 0int } else { 1int }),
    {
        proof {
            lemma_token_view(tokens@, i as int);
        }
        if tokens[i].typ == a || tokens[i].typ == b {
            found = true;
        } else {
            i += 1;
        }
    }
    i
}

/// Whether `t` is a keyword that ends in `JOIN`.
pub open spec fn is_joining(t: TokenView) -> bool {
    is_keyword_type(t.typ) && ends_with_upper(t.value, "JOIN"@)
}

/// Whether `token` is a keyword that ends in `JOIN`.
pub fn is_join(token: &Token) -> (r: bool)
    ensures
        r == (is_keyword_type(token.typ) && ends_with_upper(token.value@, "JOIN"@)),
        r == is_joining(token@),
{
    proof {
        crate::tokens::lemma_view_children(*token);
    }
    token.is_keyword() && ends_with_ignore_case(token.value.as_str(), "JOIN")
}

/// Whether `t` is `GROUP BY` or `ORDER BY`.
pub open spec fn is_by_word(t: TokenView) -> bool {
    is_word(t, "GROUP BY"@) || is_word(t, "ORDER BY"@)
}

/// Whether `token` is `GROUP BY` or `ORDER BY`.
pub fn is_by(token: &Token) -> (r: bool)
    ensures
        r == is_by_word(token@),
{
    proof {
        crate::tokens::lemma_view_children(*token);
    }
    token.is_keyword_word("GROUP BY") || token.is_keyword_word("ORDER BY")
}

/// Whether `t` is a keyword before which a line breaks. In the aligned
/// style lines break before `ON`, `WHERE` and `HAVING` too.
pub open spec fn is_split_word(t: TokenView, aligned: bool) -> bool {
    is_word(t, "FROM"@) || is_word(t, "AND"@) || is_word(t, "OR"@) || is_by_word(t) || is_word(
        t,
        "UNION"@,
    ) || is_word(t, "UNION ALL"@) || is_word(t, "VALUES"@) || is_word(t, "SET"@) || is_word(
        t,
        "BETWEEN"@,
    ) || is_word(t, "EXCEPT"@) || is_word(t, "LIMIT"@) || is_joining(t) || (aligned && (is_word(
        t,
        "ON"@,
    ) || is_word(t, "WHERE"@) || is_word(t, "HAVING"@)))
}

/// The index of the first token of `s` at or after `i` before which a line
/// breaks, or the length of `s` if there is none.
pub open spec fn first_split(s: Seq<TokenView>, i: int, aligned: bool) -> int
    decreases s.len() - i,
{
    if 0 <= i < s.len() && !is_split_word(s[i], aligned) {
        first_split(s, i + 1, aligned)
    } else if i > s.len() {
        s.len() as int
    } else {
        i
    }
}

/// The index of the next keyword of `s` at or after `start` before which a
/// line breaks, or the length of `s` if there is none. A `BETWEEN` and the
/// `AND` that belongs to it are passed over.
pub open spec fn next_split(s: Seq<TokenView>, start: int, aligned: bool) -> int
    decreases s.len() - start,
{
    let i = first_split(s, start, aligned);
    if start < 0 || i >= s.len() || i < start {
        s.len() as int
    } else if is_word(s[i], "BETWEEN"@) {
        let j = next_split(s, i + 1, aligned);
        if i < j < s.len() && is_word(s[j], "AND"@) {
            next_split(s, j + 1, aligned)
        } else {
            j
        }
    } else {
        i
    }
}

/// Whether `token` is a keyword before which a line breaks.
pub fn splits_line(token: &Token, aligned: bool) -> (r: bool)
    ensures
        r == is_split_word(token@, aligned),
{
    proof {
        crate::tokens::lemma_view_children(*token);
    }
    token.is_keyword_word("FROM") || token.is_keyword_word("AND") || token.is_keyword_word("OR")
        || is_by(token) || token.is_keyword_word("UNION") || token.is_keyword_word("UNION ALL")
        || token.is_keyword_word("VALUES") || token.is_keyword_word("SET")
        || token.is_keyword_word("BETWEEN") || token.is_keyword_word("EXCEPT")
        || token.is_keyword_word("LIMIT") || is_join(token) || (aligned && (token.is_keyword_word(
        "ON",
    ) || token.is_keyword_word("WHERE") || token.is_keyword_word("HAVING")))
}

/// The index of the first token at or after `start` before which a line
/// breaks, or the length of the list if there is none.
pub fn find_split(tokens: &Vec<Token>, start: usize, aligned: bool) -> (r: usize)
    ensures
        r == first_split(views(tokens@), start as int, aligned),
        r <= tokens@.len(),
        start <= tokens@.len() ==> start <= r,
{
    let n: usize = tokens.len();
    if start >= n {
        return n;
    }
    let mut i: usize = start;
    let mut found = false;
    while i < n && !found
        invariant
            start <= i <= n,
            n == tokens@.len(),
            first_split(views(tokens@), start as int, aligned) == first_split(
                views(tokens@),
                i as int,
                aligned,
            ),
            found ==> i < n && is_split_word(views(tokens@)[i as int], aligned),
        decreases n - i, (if found { 0int } else { 1int }),
    {
        proof {
            lemma_token_view(tokens@, i as int);
        }
        if splits_line(&tokens[i], aligned) {
            found = true;
        } else {
            i += 1;
        }
    }
    i
}

/// The index of the next keyword at or after `start` before which a line
/// breaks, or the length of the list if there is none. A `BETWEEN` and the
/// `AND` that belongs to it are passed over.
pub fn next_token(tokens: &Vec<Token>, start: usize, aligned: bool) -> (r: usize)
    ensures
        r == next_split(views(tokens@), start as int, aligned),
        r <= tokens@.len(),
        r < tokens@.len() ==> start <= r,
    decreases tokens@.len() - start,
{
    let n: usize = tokens.len();
    let i = find_split(tokens, start, aligned);
    if i >= n {
        return n;
    }
    proof {
        lemma_token_view(tokens@, i as int);
    }
    if tokens[i].is_keyword_word("BETWEEN") {
        let j = next_token(tokens, i + 1, aligned);
        proof {
            if j < n {
                lemma_token_view(tokens@, j as int);
            }
        }
        if j < n && tokens[j].is_keyword_word("AND") {
            next_token(tokens, j + 1, aligned)
        } else {
            j
        }
    } else {
        i
    }
}

/// Whether `t` is an item of a list: neither blank space nor a comma.
pub open spec fn is_item(t: TokenView) -> bool {
    !(is_whitespace_type(t.typ) || is_punct(t, ","@))
}

/// The indices of the items among the first `n` tokens of `s`.
pub open spec fn items_upto(s: Seq<TokenView>, n: int) -> Seq<usize>
    decreases n,
{
    if n <= 0 || n > s.len() {
        Seq::empty()
    } else if is_item(s[n - 1]) {
        items_upto(s, n - 1).push((n - 1) as usize)
    } else {
        items_upto(s, n - 1)
    }
}

/// The indices of the items of the list `s`.
pub open spec fn item_indices(s: Seq<TokenView>) -> Seq<usize> {
    items_upto(s, s.len() as int)
}

/// The indices of the items of a list: of the tokens that are neither blank
/// space nor commas.
pub fn get_identifiers(tokens: &Vec<Token>) -> (ids: Vec<usize>)
    ensures
        ids@ == item_indices(views(tokens@)),
        forall|k: int| 0 <= k < ids@.len() ==> (#[trigger] ids@[k]) < tokens@.len(),
{
    let mut ids: Vec<usize> = Vec::new();
    let mut i: usize = 0;
    while i < tokens.len()
        invariant
            i <= tokens@.len(),
            ids@ == items_upto(views(tokens@), i as int),
            forall|k: int| 0 <= k < ids@.len() ==> (#[trigger] ids@[k]) < i,
        decreases tokens@.len() - i,
    {
        proof {
            lemma_token_view(tokens@, i as int);
        }
        if !(tokens[i].is_whitespace() || tokens[i].is_punctuation(",")) {
            ids.push(i);
        }
        i += 1;
    }
    ids
}

/// One branch of a `CASE`: the indices of the tokens of its condition, from
/// `WHEN` on, and of its value, from `THEN` or `ELSE` on. A branch that
/// starts with `ELSE` has no condition.
pub struct CaseBranch {
    pub has_condition: bool,
    pub condition: Vec<usize>,
    pub value: Vec<usize>,
}

/// A branch of a `CASE` as a value.
pub ghost struct BranchView {
    pub has_condition: bool,
    pub condition: Seq<usize>,
    pub value: Seq<usize>,
}

impl View for CaseBranch {
    type V = BranchView;

    open spec fn view(&self) -> BranchView {
        BranchView {
            has_condition: self.has_condition,
            condition: self.condition@,
            value: self.value@,
        }
    }
}

/// The branches of a list as values.
pub open spec fn branch_views(cases: Seq<CaseBranch>) -> Seq<BranchView> {
    Seq::new(cases.len(), |i: int| cases[i]@)
}

/// The branches found so far, and what the tokens that follow belong to:
/// to nothing (0), to a condition (1) or to a value (2).
pub ghost struct CaseScan {
    pub cases: Seq<BranchView>,
    pub mode: int,
}

/// A branch without tokens.
pub open spec fn empty_branch(has_condition: bool) -> BranchView {
    BranchView { has_condition, condition: Seq::empty(), value: Seq::empty() }
}

/// The scan with the token at `i` added to the last branch: to its
/// condition or its value, as the mode says.
pub open spec fn with_index(scan: CaseScan, i: usize) -> CaseScan {
    if scan.cases.len() == 0 {
        scan
    } else {
        let last = scan.cases.last();
        if scan.mode == 1 {
            CaseScan {
                cases: scan.cases.drop_last().push(
                    BranchView { condition: last.condition.push(i), ..last },
                ),
                mode: scan.mode,
            }
        } else if scan.mode == 2 {
            CaseScan {
                cases: scan.cases.drop_last().push(BranchView { value: last.value.push(i), ..last }),
                mode: scan.mode,
            }
        } else {
            scan
        }
    }
}

/// The scan after the token `t`, which stands at `i`. `CASE` belongs to no
/// branch, nor does blank space with `skip_ws`. `WHEN` and `ELSE` start a
/// branch, `THEN` starts the value of one, `END` ends the last. Any other
/// token before the first `WHEN` starts a branch too.
pub open spec fn case_step(scan: CaseScan, t: TokenView, i: usize, skip_ws: bool) -> CaseScan {
    if is_word(t, "CASE"@) || (skip_ws && is_whitespace_type(t.typ)) {
        scan
    } else {
        let turned = if is_word(t, "WHEN"@) {
            CaseScan { cases: scan.cases.push(empty_branch(true)), mode: 1 }
        } else if is_word(t, "THEN"@) {
            CaseScan { cases: scan.cases, mode: 2 }
        } else if is_word(t, "ELSE"@) {
            CaseScan { cases: scan.cases.push(empty_branch(false)), mode: 2 }
        } else if is_word(t, "END"@) {
            CaseScan { cases: scan.cases, mode: 0 }
        } else {
            scan
        };
        let ready = if turned.mode != 0 && turned.cases.len() == 0 {
            CaseScan { cases: turned.cases.push(empty_branch(true)), mode: turned.mode }
        } else {
            turned
        };
        with_index(ready, i)
    }
}

/// The scan after the first `n` tokens of `s`.
pub open spec fn case_scan(s: Seq<TokenView>, skip_ws: bool, n: int) -> CaseScan
    decreases n,
{
    if n <= 0 || n > s.len() {
        CaseScan { cases: Seq::empty(), mode: 1 }
    } else {
        case_step(case_scan(s, skip_ws, n - 1), s[n - 1], (n - 1) as usize, skip_ws)
    }
}

/// The branches of the `CASE` whose tokens are `s`.
pub open spec fn case_branches(s: Seq<TokenView>, skip_ws: bool) -> Seq<BranchView> {
    case_scan(s, skip_ws, s.len() as int).cases
}

/// Adds the index `i` to the last branch: to its condition if `mode` is 1,
/// to its value if `mode` is 2.
fn add_index(cases: &mut Vec<CaseBranch>, mode: u8, i: usize)
    ensures
        (CaseScan { cases: branch_views(final(cases)@), mode: mode as int }) == with_index(
            CaseScan { cases: branch_views(old(cases)@), mode: mode as int },
            i,
        ),
{
    let ghost before = branch_views(cases@);
    if cases.len() == 0 || (mode != 1 && mode != 2) {
        return ;
    }
    match cases.pop() {
        Some(last) => {
            let ghost front = cases@;
            let mut last = last;
            if mode == 1 {
                last.condition.push(i);
            } else {
                last.value.push(i);
            }
            cases.push(last);
            proof {
                assert(branch_views(front) =~= before.drop_last());
                assert(branch_views(cases@) =~= branch_views(front).push(last@));
            }
        },
        None => {},
    }
}

/// Starts a branch without tokens.
fn open_branch(cases: &mut Vec<CaseBranch>, has_condition: bool)
    ensures
        branch_views(final(cases)@) == branch_views(old(cases)@).push(empty_branch(has_condition)),
{
    let branch = CaseBranch { has_condition, condition: Vec::new(), value: Vec::new() };
    cases.push(branch);
    proof {
        assert(branch_views(cases@) =~= branch_views(old(cases)@).push(empty_branch(has_condition)));
    }
}

/// The branches of the `CASE` whose tokens are `tokens`. With `skip_ws`,
/// blank space belongs to no branch. What stands between `CASE` and the
/// first `WHEN` is a branch of its own, with a condition and no value.
pub fn get_cases(tokens: &Vec<Token>, skip_ws: bool) -> (cases: Vec<CaseBranch>)
    ensures
        branch_views(cases@) == case_branches(views(tokens@), skip_ws),
{
    let mut cases: Vec<CaseBranch> = Vec::new();
    let mut mode: u8 = 1;
    let mut i: usize = 0;
    proof {
        assert(branch_views(cases@) =~= Seq::<BranchView>::empty());
    }
    while i < tokens.len()
        invariant
            i <= tokens@.len(),
            (CaseScan { cases: branch_views(cases@), mode: mode as int }) == case_scan(
                views(tokens@),
                skip_ws,
                i as int,
            ),
        decreases tokens@.len() - i,
    {
        proof {
            lemma_token_view(tokens@, i as int);
        }
        let t = &tokens[i];
        if t.is_keyword_word("CASE") || (skip_ws && t.is_whitespace()) {
            i += 1;
            continue ;
        }
        if t.is_keyword_word("WHEN") {
            open_branch(&mut cases, true);
            mode = 1;
        } else if t.is_keyword_word("THEN") {
            mode = 2;
        } else if t.is_keyword_word("ELSE") {
            open_branch(&mut cases, false);
            mode = 2;
        } else if t.is_keyword_word("END") {
            mode = 0;
        }
        if mode != 0 && cases.len() == 0 {
            open_branch(&mut cases, true);
        }
        add_index(&mut cases, mode, i);
        i += 1;
    }
    cases
}

/// The index of the first token of a branch: of its condition if it has one
/// that is not empty, else of its value.
pub open spec fn branch_first(branch: BranchView) -> Option<usize> {
    if branch.has_condition {
        if branch.condition.len() > 0 {
            Some(branch.condition[0])
        } else {
            None
        }
    } else if branch.value.len() > 0 {
        Some(branch.value[0])
    } else {
        None
    }
}

/// The index of the first token of a branch: of its condition if it has one
/// that is not empty, else of its value.
pub fn branch_start(branch: &CaseBranch) -> (r: Option<usize>)
    ensures
        r == branch_first(branch@),
{
    if branch.has_condition {
        if branch.condition.len() > 0 {
            Some(branch.condition[0])
        } else {
            None
        }
    } else if branch.value.len() > 0 {
        Some(branch.value[0])
    } else {
        None
    }
}

} // verus!
