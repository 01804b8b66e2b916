//! The options of the formatter and the filters that they call for.

use crate::engine::filter_stack::StackView;
use crate::engine::FilterStack;
use crate::filters::{
    AlignedIndentFilter, AlignedSettings, Filter, FilterView, IdentifierCaseFilter, KeywordCaseFilter,
    ReindentFilter, ReindentSettings, SpacesAroundOperatorsFilter, StmtFilter, StmtFilterView,
    StripBeforeNewline, StripCommentsFilter, StripWhitespaceFilter, TokenListFilter,
    TokenListFilterView,
};
use crate::filters::aligned_model::fresh_aligned;
use crate::filters::reindent_model::fresh_state;
use crate::text::{lowercase_of, to_lower};
use vstd::prelude::*;

verus! {

/// The options of the formatter.
pub struct FormatOption<'a> {
    /// The case of keywords: `upper`, `lower`, or empty for no change.
    pub keyword_case: &'a str,
    /// The case of names: `upper`, `lower`, or empty for no change.
    pub identifier_case: &'a str,
    pub output_format: &'a str,
    /// Whether comments go.
    pub strip_comments: bool,
    /// Whether a blank stands on each side of each operator.
    pub use_space_around_operators: bool,
    /// Whether blank space is thinned out.
    pub strip_whitespace: bool,
    /// Whether the statements are reindented.
    pub reindent: bool,
    pub indent_columns: bool,
    /// Whether the statements are reindented and aligned on their keywords.
    pub reindent_aligned: bool,
    pub indent_after_first: bool,
    /// Whether the indentation is made of tabs.
    pub indent_tabs: bool,
    /// The number of characters of one level of indentation; at least 2.
    pub indent_width: usize,
    /// The character of the indentation.
    pub indent_char: &'a str,
    /// The column after which a list wraps; 0 for one item on each line.
    pub wrap_after: usize,
    /// Whether the commas of a list stand at the start of the lines.
    pub comma_first: bool,
    pub right_margin: usize,
    /// Whether the statements are grouped before the filters run.
    pub grouping: bool,
}

impl<'a> Default for FormatOption<'a> {
    fn default() -> (options: Self)
        ensures
            options.keyword_case@.len() == 0,
            options.identifier_case@.len() == 0,
            options.output_format@.len() == 0,
            options.indent_char@.len() == 0,
            !options.strip_comments,
            !options.use_space_around_operators,
            !options.strip_whitespace,
            !options.reindent,
            !options.indent_columns,
            !options.reindent_aligned,
            !options.indent_after_first,
            !options.indent_tabs,
            options.indent_width == 0,
            options.wrap_after == 0,
            !options.comma_first,
            options.right_margin == 0,
            !options.grouping,
    {
        proof {
            reveal_strlit("");
        }
        FormatOption {
            keyword_case: "",
            identifier_case: "",
            output_format: "",
            strip_comments: false,
            use_space_around_operators: false,
            strip_whitespace: false,
            reindent: false,
            indent_columns: false,
            reindent_aligned: false,
            indent_after_first: false,
            indent_tabs: false,
            indent_width: 0,
            indent_char: "",
            wrap_after: 0,
            comma_first: false,
            right_margin: 0,
            grouping: false,
        }
    }
}

impl<'a> FormatOption<'a> {
    /// The default options with `reindent` set, an indentation of two
    /// blanks.
    pub fn default_reindent() -> (options: Self)
        ensures
            options.reindent,
            options.indent_width == 2,
            options.indent_char@ == " "@,
            options.keyword_case@.len() == 0,
            options.identifier_case@.len() == 0,
            options.output_format@.len() == 0,
            !options.strip_comments,
            !options.use_space_around_operators,
            !options.strip_whitespace,
            !options.indent_columns,
            !options.reindent_aligned,
            !options.indent_after_first,
            !options.indent_tabs,
            options.wrap_after == 0,
            !options.comma_first,
            options.right_margin == 0,
            !options.grouping,
    {
        let mut options = Self::default();
        options.reindent = true;
        options.indent_width = 2;
        options.indent_char = " ";
        options
    }

    /// The default options with `reindent_aligned` set.
    pub fn default_reindent_aligned() -> (options: Self)
        ensures
            options.reindent_aligned,
            options.indent_width == 0,
            options.indent_char@.len() == 0,
            options.keyword_case@.len() == 0,
            options.identifier_case@.len() == 0,
            options.output_format@.len() == 0,
            !options.strip_comments,
            !options.use_space_around_operators,
            !options.strip_whitespace,
            !options.indent_columns,
            !options.reindent,
            !options.indent_after_first,
            !options.indent_tabs,
            options.wrap_after == 0,
            !options.comma_first,
            options.right_margin == 0,
            !options.grouping,
    {
        let mut options = Self::default();
        options.reindent_aligned = true;
        options
    }
}

/// The options made consistent: both kinds of reindenting call for the
/// thinning of blank space, the indentation is a tab with `indent_tabs` and
/// a blank without, and it is at least two characters wide. All other
/// options stay.
pub open spec fn validated<'a>(options: FormatOption<'a>) -> FormatOption<'a> {
    FormatOption {
        strip_whitespace: options.strip_whitespace || options.reindent || options.reindent_aligned,
        indent_char: if options.indent_tabs {
            "\t"
        } else {
            " "
        },
        indent_width: if options.indent_width > 2 {
            options.indent_width
        } else {
            2
        },
        ..options
    }
}

/// Makes the options consistent; see `validated`.
pub fn validate_options(options: &mut FormatOption)
    ensures
        *final(options) == validated(*old(options)),
{
    if options.reindent {
        options.strip_whitespace = true;
    }
    if options.reindent_aligned {
        options.strip_whitespace = true
    }
    options.indent_char = " ";
    if options.indent_tabs {
        options.indent_char = "\t";
    }
    options.indent_width = if options.indent_width > 2 {
        options.indent_width
    } else {
        2
    };
}

/// The filters of single tokens that `options` call for: one for the case
/// of keywords, then one for the case of names, each if its option is not
/// empty, with the option in lower case as its case.
pub open spec fn built_preprocess(options: FormatOption) -> Seq<FilterView> {
    let keyword = if options.keyword_case@.len() > 0 {
        seq![FilterView::KeywordCase(lowercase_of(options.keyword_case@))]
    } else {
        Seq::<FilterView>::empty()
    };
    let identifier = if options.identifier_case@.len() > 0 {
        seq![FilterView::IdentifierCase(lowercase_of(options.identifier_case@))]
    } else {
        Seq::<FilterView>::empty()
    };
    keyword + identifier
}

/// The filters of flat statements that `options` call for before the tree
/// filters: the thinning of blank space, if `strip_whitespace` or
/// `reindent` is set.
pub open spec fn built_stmtprocess(options: FormatOption) -> Seq<StmtFilterView> {
    if options.strip_whitespace || options.reindent {
        seq![StmtFilterView::StripWhitespace]
    } else {
        Seq::<StmtFilterView>::empty()
    }
}

/// The regular expression of the comment filter.
pub open spec fn newline_pattern() -> Seq<char> {
    r"((\r|\n)+) *$"@
}

/// The filters of statement trees that `options` call for, in their order:
/// spaces around operators, comments, reindent, aligned indent.
pub open spec fn built_tlistprocess(options: FormatOption) -> Seq<TokenListFilterView> {
    built_simple(options) + built_indent(options)
}

/// Spaces around operators and the comment filter, each if its option is
/// set.
pub open spec fn built_simple(options: FormatOption) -> Seq<TokenListFilterView> {
    let spaces = if options.use_space_around_operators {
        seq![TokenListFilterView::SpacesAroundOperators]
    } else {
        Seq::<TokenListFilterView>::empty()
    };
    let comments = if options.strip_comments {
        seq![TokenListFilterView::StripComments(newline_pattern())]
    } else {
        Seq::<TokenListFilterView>::empty()
    };
    spaces + comments
}

/// What the reindent filter is made with: the indentation, the wrapping and
/// the comma style of the options, and a line feed as the line break.
pub open spec fn reindent_settings(options: FormatOption) -> ReindentSettings {
    ReindentSettings {
        width: options.indent_width,
        chr: options.indent_char@,
        wrap_after: options.wrap_after,
        n: "\n"@,
        comma_first: options.comma_first,
        indent_after_first: options.indent_after_first,
        indent_columns: options.indent_columns,
    }
}

/// Reindent and aligned indent, each if its option is set, made with the
/// indentation, the wrapping and the comma style of the options and a line
/// feed as the line break.
pub open spec fn built_indent(options: FormatOption) -> Seq<TokenListFilterView> {
    let reindent = if options.reindent {
        seq![
            TokenListFilterView::Reindent(
                reindent_settings(options),
                fresh_state(reindent_settings(options)),
            ),
        ]
    } else {
        Seq::<TokenListFilterView>::empty()
    };
    let aligned = if options.reindent_aligned {
        seq![
            TokenListFilterView::AlignedIndent(
                AlignedSettings { chr: options.indent_char@, n: "\n"@ },
                fresh_aligned(),
            ),
        ]
    } else {
        Seq::<TokenListFilterView>::empty()
    };
    reindent + aligned
}

/// The stack with the filters that `options` call for added, each behind
/// the filters of its stage, and a last filter of flat statements that
/// takes out the blank space before line breaks.
pub open spec fn built_stack(stack: StackView, options: FormatOption) -> StackView {
    StackView {
        splitter: stack.splitter,
        preprocess: stack.preprocess + built_preprocess(options),
        stmtprocess: stack.stmtprocess + built_stmtprocess(options),
        tlistprocess: stack.tlistprocess + built_tlistprocess(options),
        postprocess: stack.postprocess.push(StmtFilterView::StripBeforeNewline),
    }
}

/// Whether `options` call for a filter that works on grouped statements.
pub open spec fn needs_grouping(options: FormatOption) -> bool {
    options.use_space_around_operators || options.strip_comments || options.strip_whitespace
        || options.reindent || options.reindent_aligned
}

/// What the filters of single tokens are.
pub open spec fn filter_views(filters: Seq<Filter>) -> Seq<FilterView> {
    filters.map_values(|f: Filter| f@)
}

/// What the filters of flat statements are.
pub open spec fn stmt_filter_views(filters: Seq<StmtFilter>) -> Seq<StmtFilterView> {
    filters.map_values(|f: StmtFilter| f@)
}

/// What the filters of statement trees are.
pub open spec fn tlist_filter_views(filters: Seq<TokenListFilter>) -> Seq<TokenListFilterView> {
    filters.map_values(|f: TokenListFilter| f@)
}

fn push_filter(list: &mut Vec<Filter>, filter: Filter)
    ensures
        filter_views(final(list)@) == filter_views(old(list)@).push(filter@),
{
    proof {
        assert(filter_views(list@.push(filter)) == filter_views(list@).push(filter@));
    }
    list.push(filter);
}

fn push_stmt_filter(list: &mut Vec<StmtFilter>, filter: StmtFilter)
    ensures
        stmt_filter_views(final(list)@) == stmt_filter_views(old(list)@).push(filter@),
{
    proof {
        assert(stmt_filter_views(list@.push(filter)) == stmt_filter_views(list@).push(filter@));
    }
    list.push(filter);
}

fn push_tlist_filter(list: &mut Vec<TokenListFilter>, filter: TokenListFilter)
    ensures
        tlist_filter_views(final(list)@) == tlist_filter_views(old(list)@).push(filter@),
{
    proof {
        assert(tlist_filter_views(list@.push(filter)) == tlist_filter_views(list@).push(filter@));
    }
    list.push(filter);
}

/// Adds the filters of single tokens that `options` call for.
fn add_case_filters(list: &mut Vec<Filter>, options: &FormatOption)
    ensures
        filter_views(final(list)@) == filter_views(old(list)@) + built_preprocess(*options),
{
    if options.keyword_case.unicode_len() > 0 {
        let keyword_case = to_lower(options.keyword_case);
        push_filter(list, Filter::KeywordCase(KeywordCaseFilter::new(keyword_case.as_str())));
    }
    if options.identifier_case.unicode_len() > 0 {
        let identifier_case = to_lower(options.identifier_case);
        push_filter(
            list,
            Filter::IdentifierCase(IdentifierCaseFilter::new(identifier_case.as_str())),
        );
    }
    proof {
        assert(filter_views(list@) =~= filter_views(old(list)@) + built_preprocess(*options));
    }
}

/// Adds the first two filters of statement trees that `options` call for:
/// spaces around operators and comments.
fn add_simple_tree_filters(list: &mut Vec<TokenListFilter>, options: &FormatOption)
    ensures
        tlist_filter_views(final(list)@) == tlist_filter_views(old(list)@) + built_simple(
            *options,
        ),
{
    if options.use_space_around_operators {
        push_tlist_filter(
            list,
            TokenListFilter::SpacesAroundOperators(SpacesAroundOperatorsFilter {  }),
        );
    }
    if options.strip_comments {
        push_tlist_filter(list, TokenListFilter::StripComments(StripCommentsFilter::default()));
    }
    proof {
        assert(tlist_filter_views(list@) =~= tlist_filter_views(old(list)@) + built_simple(
            *options,
        ));
    }
}

/// Adds the last two filters of statement trees that `options` call for:
/// reindent and aligned indent.
fn add_indent_filters(list: &mut Vec<TokenListFilter>, options: &FormatOption)
    ensures
        tlist_filter_views(final(list)@) == tlist_filter_views(old(list)@) + built_indent(
            *options,
        ),
{
    if options.reindent {
        let filter = ReindentFilter::new(
            options.indent_width,
            options.indent_char,
            options.wrap_after,
            "\n",
            options.comma_first,
            options.indent_after_first,
            options.indent_columns,
        );
        push_tlist_filter(list, TokenListFilter::Reindent(filter));
    }
    if options.reindent_aligned {
        let filter = AlignedIndentFilter::new(options.indent_char, "\n");
        push_tlist_filter(list, TokenListFilter::AlignedIndent(filter));
    }
    proof {
        assert(tlist_filter_views(list@) =~= tlist_filter_views(old(list)@) + built_indent(
            *options,
        ));
    }
}

/// Adds to the stack the filters that `options` call for, each behind the
/// filters of its stage that the stack holds already, and a last filter of
/// flat statements that takes out the blank space before line breaks. Sets
/// `grouping` where one of the filters needs grouped statements.
pub fn build_filter_stack(stack: &mut FilterStack, options: &mut FormatOption)
    ensures
        final(stack)@ == built_stack(old(stack)@, *old(options)),
        filter_views(final(stack).preprocess@) == filter_views(old(stack).preprocess@)
            + built_preprocess(*old(options)),
        stmt_filter_views(final(stack).stmtprocess@) == stmt_filter_views(old(stack).stmtprocess@)
            + built_stmtprocess(*old(options)),
        tlist_filter_views(final(stack).tlistprocess@) == tlist_filter_views(
            old(stack).tlistprocess@,
        ) + built_tlistprocess(*old(options)),
        stmt_filter_views(final(stack).postprocess@) == stmt_filter_views(
            old(stack).postprocess@,
        ).push(StmtFilterView::StripBeforeNewline),
        final(stack).spliter == old(stack).spliter,
        final(stack).table == old(stack).table,
        *final(options) == (FormatOption {
            grouping: old(options).grouping || needs_grouping(*old(options)),
            ..*old(options)
        }),
{
    add_case_filters(&mut stack.preprocess, options);
    let ghost tl0 = tlist_filter_views(stack.tlistprocess@);
    add_simple_tree_filters(&mut stack.tlistprocess, options);
    if options.strip_whitespace || options.reindent {
        push_stmt_filter(
            &mut stack.stmtprocess,
            StmtFilter::StripWhitespace(StripWhitespaceFilter {  }),
        );
    }
    add_indent_filters(&mut stack.tlistprocess, options);
    proof {
        assert(tlist_filter_views(stack.tlistprocess@) =~= tl0 + built_tlistprocess(*options));
        assert(stmt_filter_views(stack.stmtprocess@) =~= stmt_filter_views(old(stack).stmtprocess@)
            + built_stmtprocess(*options));
    }
    if options.use_space_around_operators || options.strip_comments || options.strip_whitespace
        || options.reindent || options.reindent_aligned {
        options.grouping = true;
    }
    push_stmt_filter(
        &mut stack.postprocess,
        StmtFilter::StripBeforeNewline(StripBeforeNewline {  }),
    );
}

} // verus!
