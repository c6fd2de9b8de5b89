//! Rendering of lint findings as annotated source excerpts.
//!
//! A finding carries a name, a message and a span into an immutable byte
//! buffer; the renderer emits a compiler-style diagnostic for it: a header,
//! a location line and, for non-empty spans, a row-numbered excerpt with
//! optional context lines and an underline or bracket marking the span.

pub mod args;
pub mod lines;
pub mod report;
pub mod text;

pub use args::{has_bpf_c_ext, parse_context_line_count, Args};
pub use report::{
    count_lines, find_context_lines_after, find_context_lines_before, find_line_start_by_row,
    report_terminal, report_terminal_opts, LintMatch, Opts, Point, Range, RenderError,
};
