//! A pretty-printer for GitHub-Flavored Markdown and SQL text.
//!
//! The markdown pipeline extracts inline hyperlinks into a numbered table,
//! re-renders the text as CommonMark at a configured width (optionally
//! stripping bold and italic emphasis), and appends a footnote-style
//! reference block. The SQL pipeline delegates to a SQL pretty-printer.

pub mod formatting;
pub mod input;
pub mod links;
pub mod md_tree;
pub mod options;
pub mod output;
pub mod text;
