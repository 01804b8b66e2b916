//! A SQL parser and formatter.
//!
//! The text of a statement is cut into typed tokens, the tokens of several
//! statements are split, the tokens of each statement are grouped into a
//! tree, and filters reshape the tree: case of keywords and identifiers,
//! comments, blank space, spaces around operators, and two styles of
//! indentation.

pub mod content;
pub mod engine;
pub mod filters;
pub mod formatter;
pub mod keywords;
pub mod laws;
pub mod lexer;
pub mod text;
pub mod tokens;
pub mod trie;

pub use engine::filter_stack::{statements_text, statements_wf};
pub use formatter::{build_filter_stack, validate_options, FormatOption};
pub use tokens::TokenList;
pub use engine::grouping::{group, group_tokenlist};
pub use engine::splitter::statements_view;
pub use engine::{FilterStack, StatementSplitter};
pub use lexer::is_blank;
pub use tokens::{all_wf, joined_text, Token, TokenType};
pub use trie::Trie;

use vstd::prelude::*;

verus! {

/// Parses SQL into tokens.
pub struct Parser {
    pub stack: FilterStack,
}

impl Default for Parser {
    fn default() -> (parser: Self)
        ensures
            keywords::is_keyword_table(&parser.stack.table.tree()),
            parser.stack@ == engine::filter_stack::empty_stack(),
    {
        Parser { stack: FilterStack::new() }
    }
}

impl Parser {
    /// A parser with the keyword table and no filters.
    pub fn new() -> (parser: Self)
        ensures
            keywords::is_keyword_table(&parser.stack.table.tree()),
            parser.stack@ == engine::filter_stack::empty_stack(),
    {
        Parser { stack: FilterStack::new() }
    }

    /// The tokens that the lexer makes of `sql`, taken as one statement and
    /// grouped. Their text is `sql`, and they say what the tokens of the
    /// lexer say.
    pub fn parse(&self, sql: &str) -> (tokens: Vec<Token>)
        ensures
            all_wf(tokens@),
            joined_text(tokens@) == sql@,
            tokens::views(tokens@) == engine::passes::grouped(
                lexer::lexed(sql@, &self.stack.table.tree()),
            ),
            content::content(tokens@) == content::view_content(
                lexer::lexed(sql@, &self.stack.table.tree()),
            ),
    {
        self.stack.run(sql, true)
    }

    /// The statements of `sql`, each as grouped tokens. Their text, one
    /// after the other, is `sql`; only where `sql` holds nothing but blank
    /// space there is no statement.
    pub fn parse_multi(&self, sql: &str) -> (stmts: Vec<Vec<Token>>)
        ensures
            statements_wf(stmts@),
            statements_text(statements_view(stmts@)) == sql@ || (stmts@.len() == 0 && is_blank(
                sql@,
            )),
            engine::filter_stack::parsed(
                self.stack.table.tree(),
                sql@,
                true,
                statements_view(stmts@),
            ),
    {
        self.stack.run_multi(sql, true)
    }

    /// The tokens that the lexer makes of `sql`, taken as one statement.
    /// Their text is `sql`.
    pub fn parse_no_grouping(&self, sql: &str) -> (tokens: Vec<Token>)
        ensures
            all_wf(tokens@),
            joined_text(tokens@) == sql@,
            tokens::views(tokens@) == lexer::lexed(sql@, &self.stack.table.tree()),
    {
        self.stack.run(sql, false)
    }

    /// The statements of `sql`, each as flat tokens. Their text, one after
    /// the other, is `sql`; only where `sql` holds nothing but blank space
    /// there is no statement.
    pub fn parse_multi_no_grouping(&self, sql: &str) -> (stmts: Vec<Vec<Token>>)
        ensures
            statements_wf(stmts@),
            statements_text(statements_view(stmts@)) == sql@ || (stmts@.len() == 0 && is_blank(
                sql@,
            )),
            engine::filter_stack::parsed(
                self.stack.table.tree(),
                sql@,
                false,
                statements_view(stmts@),
            ),
    {
        self.stack.run_multi(sql, false)
    }
}

/// The tokens that the lexer makes of `sql`, taken as one statement and
/// grouped. Their text is `sql`, and they say what the tokens of the lexer
/// say.
pub fn parse(sql: &str) -> (tokens: Vec<Token>)
    ensures
        all_wf(tokens@),
        joined_text(tokens@) == sql@,
        exists|tree: Trie<TokenType>|
            keywords::is_keyword_table(&tree) && tokens::views(tokens@) == engine::passes::grouped(
                #[trigger] lexer::lexed(sql@, &tree),
            ) && content::content(tokens@) == content::view_content(lexer::lexed(sql@, &tree)),
{
    let stack = FilterStack::new();
    stack.run(sql, true)
}

/// The statements of `sql`, each as grouped tokens. Their text, one after
/// the other, is `sql`; only where `sql` holds nothing but blank space there
/// is no statement.
pub fn parse_multi(sql: &str) -> (stmts: Vec<Vec<Token>>)
    ensures
        statements_wf(stmts@),
        statements_text(statements_view(stmts@)) == sql@ || (stmts@.len() == 0 && is_blank(sql@)),
        exists|tree: Trie<TokenType>|
            keywords::is_keyword_table(&tree) && #[trigger] engine::filter_stack::parsed(
                tree,
                sql@,
                true,
                statements_view(stmts@),
            ),
{
    let stack = FilterStack::new();
    stack.run_multi(sql, true)
}

/// The tokens that the lexer makes of `sql`, taken as one statement. Their
/// text is `sql`.
pub fn parse_no_grouping(sql: &str) -> (tokens: Vec<Token>)
    ensures
        all_wf(tokens@),
        joined_text(tokens@) == sql@,
        exists|tree: Trie<TokenType>|
            keywords::is_keyword_table(&tree) && tokens::views(tokens@) == #[trigger] lexer::lexed(
                sql@,
                &tree,
            ),
{
    let stack = FilterStack::new();
    stack.run(sql, false)
}

/// The text of the statements, with a line feed between each two of them.
pub open spec fn rendered(stmts: Seq<Seq<Token>>) -> Seq<char>
    decreases stmts.len(),
{
    if stmts.len() == 0 {
        Seq::<char>::empty()
    } else if stmts.len() == 1 {
        joined_text(stmts[0])
    } else {
        rendered(stmts.drop_last()) + seq!['\n'] + joined_text(stmts.last())
    }
}

/// The text of the statements, with a line feed between each two of them.
pub fn render(stmts: &Vec<Vec<Token>>) -> (out: String)
    ensures
        out@ == rendered(statements_view(stmts@)),
{
    let ghost all = statements_view(stmts@);
    let mut out = String::new();
    let mut i: usize = 0;
    while i < stmts.len()
        invariant
            i <= stmts@.len(),
            all == statements_view(stmts@),
            out@ == rendered(all.subrange(0, i as int)),
        decreases stmts@.len() - i,
    {
        let text = tokens::join_values(&stmts[i]);
        proof {
            let next = all.subrange(0, i + 1);
            assert(next.drop_last() == all.subrange(0, i as int));
            assert(next.last() == stmts@[i as int]@);
            if i == 0 {
                assert(next[0] == stmts@[0]@);
            }
        }
        if i > 0 {
            out.push('\n');
        }
        out.append(text.as_str());
        i += 1;
    }
    assert(all.subrange(0, stmts@.len() as int) == all);
    out
}

/// `out` is what formatting makes of `input`, and `after` is the stack
/// after it: `out` is the text of statements that are well formed and are
/// what the stack makes of `input`, with a line feed between each two of
/// them.
pub open spec fn formats(
    tree: Trie<TokenType>,
    stack: engine::filter_stack::StackView,
    grouping: bool,
    input: Seq<char>,
    out: Seq<char>,
    after: engine::filter_stack::StackView,
) -> bool {
    exists|stmts: Seq<Seq<Token>>| #[trigger]
        engine::filter_stack::formatted(tree, stack, grouping, input, stmts, after) && (forall|
            i: int,
        |
            0 <= i < stmts.len() ==> all_wf(#[trigger] stmts[i])) && out == rendered(stmts)
}

/// The text that is formatted: `sql` without the blank space at its ends
/// if the options, made consistent, thin out blank space, else `sql`.
pub open spec fn format_input(options: FormatOption, sql: Seq<char>) -> Seq<char> {
    if formatter::validated(options).strip_whitespace {
        text::trimmed(sql)
    } else {
        sql
    }
}

/// The options after formatting: made consistent, with `grouping` set
/// where a filter needs grouped statements.
pub open spec fn used_options<'a>(options: FormatOption<'a>) -> FormatOption<'a> {
    FormatOption {
        grouping: options.grouping || formatter::needs_grouping(formatter::validated(options)),
        ..formatter::validated(options)
    }
}

proof fn lemma_formats(
    tree: Trie<TokenType>,
    stack: engine::filter_stack::StackView,
    grouping: bool,
    input: Seq<char>,
    stmts: Seq<Vec<Token>>,
    after: engine::filter_stack::StackView,
)
    requires
        statements_wf(stmts),
        engine::filter_stack::formatted(
            tree,
            stack,
            grouping,
            input,
            statements_view(stmts),
            after,
        ),
    ensures
        formats(tree, stack, grouping, input, rendered(statements_view(stmts)), after),
{
    let views = statements_view(stmts);
    assert forall|i: int| 0 <= i < views.len() implies all_wf(#[trigger] views[i]) by {
        assert(views[i] == stmts[i]@);
    }
}

/// Formats SQL with a stack of filters.
pub struct Formatter {
    pub stack: FilterStack,
}

impl Default for Formatter {
    fn default() -> (formatter: Self)
        ensures
            keywords::is_keyword_table(&formatter.stack.table.tree()),
            formatter.stack@ == engine::filter_stack::empty_stack(),
    {
        Formatter { stack: FilterStack::new() }
    }
}

impl Formatter {
    pub fn new(stack: FilterStack) -> (formatter: Self)
        ensures
            formatter.stack == stack,
    {
        Formatter { stack }
    }

    /// Makes the options consistent, adds the filters that they call for to
    /// the stack, behind those it holds, and formats `sql`, without the
    /// blank space at its ends if blank space is thinned out. Each call
    /// splits its text from the start of a statement.
    pub fn format(&mut self, sql: &str, options: &mut FormatOption) -> (out: String)
        ensures
            *final(options) == used_options(*old(options)),
            formats(
                old(self).stack.table.tree(),
                formatter::built_stack(old(self).stack@, formatter::validated(*old(options))),
                used_options(*old(options)).grouping,
                format_input(*old(options), sql@),
                out@,
                final(self).stack@,
            ),
            final(self).stack.table == old(self).stack.table,
    {
        formatter::validate_options(options);
        formatter::build_filter_stack(&mut self.stack, options);
        let input = if options.strip_whitespace {
            text::trim(sql)
        } else {
            String::from_str(sql)
        };
        let ghost stack = self.stack@;
        let ghost tree = self.stack.table.tree();
        let stmts = self.stack.format(input.as_str(), options.grouping);
        proof {
            lemma_formats(tree, stack, options.grouping, input@, stmts@, self.stack@);
        }
        render(&stmts)
    }

    /// Makes the options consistent and adds the filters that they call for
    /// to the stack, each behind the filters of its stage.
    pub fn build_filters(&mut self, options: &mut FormatOption)
        ensures
            *final(options) == used_options(*old(options)),
            final(self).stack@ == formatter::built_stack(
                old(self).stack@,
                formatter::validated(*old(options)),
            ),
            final(self).stack.spliter == old(self).stack.spliter,
            final(self).stack.table == old(self).stack.table,
    {
        formatter::validate_options(options);
        formatter::build_filter_stack(&mut self.stack, options);
    }

    /// Formats `sql` with the filters of the stack, on grouped statements
    /// if the options say so. Each call splits its text from the start of a
    /// statement.
    pub fn format_sql(&mut self, sql: &str, options: &FormatOption) -> (out: String)
        ensures
            formats(
                old(self).stack.table.tree(),
                old(self).stack@,
                options.grouping,
                sql@,
                out@,
                final(self).stack@,
            ),
            final(self).stack.preprocess == old(self).stack.preprocess,
            final(self).stack.table == old(self).stack.table,
    {
        let ghost stack = self.stack@;
        let ghost tree = self.stack.table.tree();
        let stmts = self.stack.format(sql, options.grouping);
        proof {
            lemma_formats(tree, stack, options.grouping, sql@, stmts@, self.stack@);
        }
        render(&stmts)
    }
}

/// Formats `sql` by `options`: makes the options consistent, builds the
/// stack of filters that they call for, and runs it on `sql`, without the
/// blank space at its ends if blank space is thinned out.
pub fn format(sql: &str, options: &mut FormatOption) -> (out: String)
    ensures
        *final(options) == used_options(*old(options)),
        exists|tree: Trie<TokenType>, after: engine::filter_stack::StackView|
            keywords::is_keyword_table(&tree) && #[trigger] formats(
                tree,
                formatter::built_stack(
                    engine::filter_stack::empty_stack(),
                    formatter::validated(*old(options)),
                ),
                used_options(*old(options)).grouping,
                format_input(*old(options), sql@),
                out@,
                after,
            ),
{
    let ghost text = sql@;
    let mut stack = FilterStack::new();
    formatter::validate_options(options);
    formatter::build_filter_stack(&mut stack, options);
    let input = if options.strip_whitespace {
        text::trim(sql)
    } else {
        String::from_str(sql)
    };
    let ghost built = stack@;
    let ghost tree = stack.table.tree();
    let stmts = stack.format(input.as_str(), options.grouping);
    proof {
        lemma_formats(tree, built, options.grouping, input@, stmts@, stack@);
        assert(input@ == format_input(*old(options), text));
        assert(keywords::is_keyword_table(&tree) && formats(
            tree,
            formatter::built_stack(
                engine::filter_stack::empty_stack(),
                formatter::validated(*old(options)),
            ),
            used_options(*old(options)).grouping,
            format_input(*old(options), text),
            rendered(statements_view(stmts@)),
            stack@,
        ));
    }
    render(&stmts)
}

} // verus!
