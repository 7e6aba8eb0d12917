//! The run configuration the formatter works from.

use vstd::prelude::*;

verus! {

/// The kind of payload the formatter is asked to work on.
#[derive(Debug, Clone, Copy, PartialEq, Eq, Structural)]
pub enum InputKind {
    Markdown,
    Sql,
}

/// Where the raw payload comes from.
#[derive(Debug, Clone, Copy, PartialEq, Eq, Structural)]
pub enum InputSource {
    Stdin,
    Clipboard,
}

/// Where the formatted output goes.
#[derive(Debug, Clone, Copy, PartialEq, Eq, Structural)]
pub enum OutputDestination {
    Stdout,
    Clipboard,
}

/// The configuration of one run.
#[derive(Debug, Clone)]
pub struct Options {
    /// The input source
    pub input_src: InputSource,
    /// The output destination
    pub output_dest: OutputDestination,
    /// Type of input
    pub kind: InputKind,
    /// Max line width
    pub width: usize,
    /// Keep bold and italic markdown formatting (by default, these are stripped)
    pub keep_emphasis: bool,
}

} // verus!
