//! The filters of the pipeline, in their three shapes: filters of single
//! tokens, filters of flat statements, and filters of statement trees.

pub mod aligned_indent;
pub mod aligned_model;
pub mod edit;
pub mod laws;
pub mod layout;
pub mod model;
pub mod others;
pub mod reindent;
pub mod reindent_model;

pub use aligned_indent::AlignedIndentFilter;
pub use aligned_model::{AlignedSettings, AlignedState};
pub use others::{
    SpacesAroundOperatorsFilter, StripBeforeNewline, StripCommentsFilter, StripWhitespaceFilter,
};
pub use reindent::{ReindentFilter, ReindentSettings};
pub use reindent_model::ReindentState;

use crate::content::reshaped;
use crate::filters::aligned_model::{aligned, fresh_aligned};
use crate::filters::model::{
    break_trimmed, comments_stripped_statement, spaced_statement, whitespace_stripped,
};
use crate::filters::reindent_model::reindented;
use crate::text::{lowercase_of, str_eq, to_lower, to_upper, uppercase_of};
use crate::tokens::{all_wf, is_keyword_type, views, Token, TokenList, TokenType, TokenView};
use vstd::prelude::*;

verus! {

/// `value` in the case that `case` names: in upper case for `upper`, in
/// lower case for `lower`, and as it is for any other name.
pub open spec fn in_case(case: Seq<char>, value: Seq<char>) -> Seq<char> {
    if case == "upper"@ {
        uppercase_of(value)
    } else if case == "lower"@ {
        lowercase_of(value)
    } else {
        value
    }
}

/// `value` in the case that `case` names.
pub fn convert_case(case: &str, value: &str) -> (out: String)
    ensures
        out@ == in_case(case@, value@),
{
    if str_eq(case, "upper") {
        to_upper(value)
    } else if str_eq(case, "lower") {
        to_lower(value)
    } else {
        String::from_str(value)
    }
}

/// Writes keywords in one case.
pub struct KeywordCaseFilter {
    case: String,
}

impl KeywordCaseFilter {
    /// The case that the filter writes keywords in.
    pub closed spec fn case(&self) -> Seq<char> {
        self.case@
    }

    pub fn new(case: &str) -> (filter: Self)
        ensures
            filter.case() == case@,
    {
        KeywordCaseFilter { case: String::from_str(case) }
    }

    /// Writes the value of a keyword in the case of the filter. Any other
    /// token stays as it is.
    pub fn process(&self, token: &mut Token)
        ensures
            final(token).typ == old(token).typ,
            final(token).children == old(token).children,
            final(token).value@ == if is_keyword_type(old(token).typ) {
                in_case(self.case(), old(token).value@)
            } else {
                old(token).value@
            },
    {
        if token.is_keyword() {
            token.value = convert_case(self.case.as_str(), token.value.as_str());
        }
    }
}

/// Whether the identifier filter changes a token of kind `typ` with value
/// `value`: a name or a quoted symbol that does not start with `"`.
pub open spec fn is_bare_name(typ: TokenType, value: Seq<char>) -> bool {
    (typ == TokenType::Name || typ == TokenType::LiteralStringSymbol) && !(value.len() > 0
        && value[0] == '"')
}

/// Writes names in one case. Names in double quotes stay as they are.
pub struct IdentifierCaseFilter {
    case: String,
}

impl IdentifierCaseFilter {
    /// The case that the filter writes names in.
    pub closed spec fn case(&self) -> Seq<char> {
        self.case@
    }

    pub fn new(case: &str) -> (filter: Self)
        ensures
            filter.case() == case@,
    {
        IdentifierCaseFilter { case: String::from_str(case) }
    }

    /// Writes the value of a bare name in the case of the filter. Any other
    /// token stays as it is.
    pub fn process(&self, token: &mut Token)
        ensures
            final(token).typ == old(token).typ,
            final(token).children == old(token).children,
            final(token).value@ == if is_bare_name(old(token).typ, old(token).value@) {
                in_case(self.case(), old(token).value@)
            } else {
                old(token).value@
            },
    {
        if token.typ == TokenType::Name || token.typ == TokenType::LiteralStringSymbol {
            let quoted = token.value.as_str().unicode_len() > 0 && token.value.as_str().get_char(0)
                == '"';
            if !quoted {
                token.value = convert_case(self.case.as_str(), token.value.as_str());
            }
        }
    }
}

/// A filter of single tokens.
pub enum Filter {
    KeywordCase(KeywordCaseFilter),
    IdentifierCase(IdentifierCaseFilter),
}

/// What a filter of single tokens does, and in which case.
pub ghost enum FilterView {
    KeywordCase(Seq<char>),
    IdentifierCase(Seq<char>),
}

/// The value that a filter of single tokens gives to a token of kind `typ`
/// with value `value`.
pub open spec fn filtered_value(filter: FilterView, typ: TokenType, value: Seq<char>) -> Seq<
    char,
> {
    match filter {
        FilterView::KeywordCase(case) => if is_keyword_type(typ) {
            in_case(case, value)
        } else {
            value
        },
        FilterView::IdentifierCase(case) => if is_bare_name(typ, value) {
            in_case(case, value)
        } else {
            value
        },
    }
}

impl Filter {
    pub open spec fn view(&self) -> FilterView {
        match self {
            Filter::KeywordCase(f) => FilterView::KeywordCase(f.case()),
            Filter::IdentifierCase(f) => FilterView::IdentifierCase(f.case()),
        }
    }

    /// Gives the token the value that the filter makes of it. Kind and
    /// children stay.
    pub fn process(&self, token: &mut Token)
        ensures
            final(token).typ == old(token).typ,
            final(token).children == old(token).children,
            final(token).value@ == filtered_value(self@, old(token).typ, old(token).value@),
    {
        match self {
            Filter::KeywordCase(f) => f.process(token),
            Filter::IdentifierCase(f) => f.process(token),
        }
    }
}

/// A filter of flat statements.
pub enum StmtFilter {
    StripWhitespace(StripWhitespaceFilter),
    StripBeforeNewline(StripBeforeNewline),
}

/// Which filter of flat statements a filter is.
pub ghost enum StmtFilterView {
    StripWhitespace,
    StripBeforeNewline,
}

/// What a filter of flat statements makes of the statement `s`.
pub open spec fn stmt_filtered(filter: StmtFilterView, s: Seq<TokenView>) -> Seq<TokenView> {
    match filter {
        StmtFilterView::StripWhitespace => whitespace_stripped(s, false),
        StmtFilterView::StripBeforeNewline => break_trimmed(s),
    }
}

impl StmtFilter {
    pub open spec fn view(&self) -> StmtFilterView {
        match self {
            StmtFilter::StripWhitespace(_) => StmtFilterView::StripWhitespace,
            StmtFilter::StripBeforeNewline(_) => StmtFilterView::StripBeforeNewline,
        }
    }

    /// Runs the filter on a statement. The statement says what it said
    /// before, and is empty only if it was.
    pub fn process(&self, tokens: &mut Vec<Token>)
        requires
            all_wf(old(tokens)@),
        ensures
            views(final(tokens)@) == stmt_filtered(self@, views(old(tokens)@)),
            reshaped(old(tokens)@, final(tokens)@),
            old(tokens)@.len() > 0 ==> final(tokens)@.len() > 0,
    {
        match self {
            StmtFilter::StripWhitespace(f) => f.process(tokens),
            StmtFilter::StripBeforeNewline(f) => f.process(tokens),
        }
    }
}

/// A filter of statement trees.
pub enum TokenListFilter {
    StripComments(StripCommentsFilter),
    SpacesAroundOperators(SpacesAroundOperatorsFilter),
    Reindent(ReindentFilter),
    AlignedIndent(AlignedIndentFilter),
}

/// Which filter of statement trees a filter is, what it was made with and
/// the state it is in.
pub ghost enum TokenListFilterView {
    StripComments(Seq<char>),
    SpacesAroundOperators,
    Reindent(ReindentSettings, ReindentState),
    AlignedIndent(AlignedSettings, AlignedState),
}

/// What a filter of statement trees makes of the statement `s`, and the
/// filter after it.
pub open spec fn list_filtered(filter: TokenListFilterView, s: Seq<TokenView>) -> (
    TokenListFilterView,
    Seq<TokenView>,
) {
    match filter {
        TokenListFilterView::StripComments(pattern) => (
            filter,
            comments_stripped_statement(s, pattern),
        ),
        TokenListFilterView::SpacesAroundOperators => (filter, spaced_statement(s)),
        TokenListFilterView::Reindent(cfg, st) => (
            TokenListFilterView::Reindent(cfg, reindented(cfg, s).0),
            reindented(cfg, s).1,
        ),
        TokenListFilterView::AlignedIndent(cfg, st) => (
            TokenListFilterView::AlignedIndent(cfg, fresh_aligned()),
            aligned(cfg, s),
        ),
    }
}

impl TokenListFilter {
    pub open spec fn view(&self) -> TokenListFilterView {
        match self {
            TokenListFilter::StripComments(f) => TokenListFilterView::StripComments(f.pattern()),
            TokenListFilter::SpacesAroundOperators(_) => TokenListFilterView::SpacesAroundOperators,
            TokenListFilter::Reindent(f) => TokenListFilterView::Reindent(f.settings(), f.state()),
            TokenListFilter::AlignedIndent(f) => TokenListFilterView::AlignedIndent(
                f.settings(),
                f.state(),
            ),
        }
    }

    /// Runs the filter on a statement. The statement says what it said
    /// before.
    pub fn process(&mut self, token_list: &mut TokenList)
        requires
            all_wf(old(token_list).tokens@),
        ensures
            (final(self)@, views(final(token_list).tokens@)) == list_filtered(
                old(self)@,
                views(old(token_list).tokens@),
            ),
            reshaped(old(token_list).tokens@, final(token_list).tokens@),
    {
        match self {
            TokenListFilter::StripComments(f) => f.process(token_list),
            TokenListFilter::SpacesAroundOperators(f) => f.process(token_list),
            TokenListFilter::Reindent(f) => f.process(token_list),
            TokenListFilter::AlignedIndent(f) => f.process(token_list),
        }
    }
}

} // verus!
