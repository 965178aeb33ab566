//! Renders excerpts of source files as highlighted LaTeX or HTML listings.
use vstd::prelude::*;

pub mod ansi;
pub mod cache;
pub mod dedent;
pub mod from_tex;
pub mod output;
pub mod pipeline;
pub mod query;
pub mod range;
pub mod renderer;
pub mod snippet;
pub mod text;
pub mod theme;
pub mod ts;

pub use output::OutputWriter;
pub use pipeline::{finish_highlight, highlight, HighlightConfig, Outcome};
pub use range::{Offset, Range};
pub use theme::{CommentStyle, Theme, ThemeValue};

verus! {

/// What to render, and how.
#[derive(Debug)]
pub enum Mode {
    /// Tree-sitter highlighting of a file, or of ranges of its lines.
    TreeSitter {
        /// Escape the code without highlighting it.
        raw: bool,
        /// Hand the queries to the highlighter as they are written.
        raw_queries: bool,
        ranges: Vec<Range>,
        label: Option<String>,
        file_extension: String,
    },
    /// Tree-sitter highlighting of a short piece of code in running text.
    TreeSitterInline { file_extension: String },
    /// Text with ANSI escape sequences.
    Ansi,
}

} // verus!
