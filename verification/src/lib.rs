//! Detection and removal of declarations that are never referenced.
//!
//! The library works on a syntax tree and symbol table held as arenas of
//! plain records. It classifies symbols as unused, resolves each unused
//! symbol to the node whose text has to go, orders the byte ranges of those
//! nodes, widens each range over adjoining separators and whitespace, and
//! cuts the ranges out of the source text.
//!
//! The tree and the symbols of a text come from the front end, which parses
//! with the `oxc` crates. Everything behind it is proved for every tree.

pub mod analyzer;
pub mod classifier;
pub mod cli;
pub mod expander;
pub mod frontend;
pub mod merger;
pub mod patcher;
pub mod pipeline;
pub mod resolver;
pub mod run;
pub mod span;
pub mod syntax;

pub use analyzer::UnusedDeclarationAnalyzer;
pub use cli::{Cli, Domain, TypescriptCommand};
pub use expander::expand_span_for_removal;
pub use merger::merge_spans;
pub use patcher::{apply_modifications, Patch};
pub use frontend::{parse_source, ParseResult};
pub use pipeline::{process_file, process_parsed, FileOutcome};
pub use run::{next_action, RunAction, RunEvent, RunState};
pub use span::Span;
pub use syntax::{Node, NodeKind, Pattern, SyntaxTree, Symbol};
