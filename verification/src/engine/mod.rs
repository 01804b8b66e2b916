//! The processing pipeline: statement splitter, grouper and filter stack.

pub mod filter_stack;
pub mod grouping;
pub mod passes;
pub mod splitter;

pub use filter_stack::FilterStack;
pub use splitter::StatementSplitter;
