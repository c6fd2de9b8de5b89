//! Terminal-style reporting of lint matches.
//!
//! A match is rendered as a header line, a location line and — for a
//! non-empty span — an excerpt of the source with row numbers in a gutter,
//! optional context rows before and after, and an underline (single-row
//! span) or bracket (multi-row span) marking the exact columns.

use crate::lines::Lines;
use crate::text::{
    append_num, append_repeat, digit_width, lemma_line_start_le_len, newline_index, spec_line_around,
    spec_line_end, spec_line_start, spec_num, spec_repeat, spec_total_rows, NEWLINE,
};
use vstd::string::StringExecFns;
use vstd::prelude::*;

verus! {

/// A position in source code: zero-indexed row (number of preceding newline
/// bytes) and zero-indexed byte column within that row.
#[derive(Clone, Copy, Debug, PartialEq, Eq, Structural)]
pub struct Point {
    pub row: usize,
    pub col: usize,
}

impl Default for Point {
    /// The origin: row 0, column 0.
    fn default() -> (r: Point)
        ensures
            r.row == 0 && r.col == 0,
    {
        Point { row: 0, col: 0 }
    }
}

/// A matched region of source code: a half-open byte range plus the
/// start and end positions it corresponds to.
#[derive(Debug, PartialEq)]
pub struct Range {
    /// Byte offsets `[start, end)` into the source buffer.
    pub bytes: core::ops::Range<usize>,
    /// Position of the first matched byte.
    pub start_point: Point,
    /// Position one past the last matched byte.
    pub end_point: Point,
}

/// A single lint finding: the lint's identifier, its human-readable
/// message, and the matched region.
#[derive(Debug, PartialEq)]
pub struct LintMatch {
    pub lint_name: String,
    pub message: String,
    pub range: Range,
}

/// Configuration options for terminal reporting.
#[derive(Clone, Copy, Debug, PartialEq, Eq)]
pub struct Opts {
    /// Extra context lines: (lines_before, lines_after).
    pub extra_lines: Option<(u8, u8)>,
}

impl Default for Opts {
    /// No extra context lines.
    fn default() -> (r: Opts)
        ensures
            r.extra_lines is None,
    {
        Opts { extra_lines: None }
    }
}

impl Opts {
    /// The configured number of context rows before the match.
    pub open spec fn spec_lines_before(self) -> nat {
        match self.extra_lines {
            None => 0,
            Some(p) => p.0 as nat,
        }
    }

    /// The configured number of context rows after the match.
    pub open spec fn spec_lines_after(self) -> nat {
        match self.extra_lines {
            None => 0,
            Some(p) => p.1 as nat,
        }
    }

    /// Get the number of lines to show before the error.
    pub fn lines_before(self) -> (r: usize)
        ensures
            r == self.spec_lines_before(),
    {
        match self.extra_lines {
            None => 0,
            Some((before, _)) => before as usize,
        }
    }

    /// Get the number of lines to show after the error.
    pub fn lines_after(self) -> (r: usize)
        ensures
            r == self.spec_lines_after(),
    {
        match self.extra_lines {
            None => 0,
            Some((_, after)) => after as usize,
        }
    }
}

/// Find the byte position of the start of a specific line number
/// (0-indexed).  Row 0 starts at offset 0; a row past the last newline
/// falls back to offset 0.
pub fn find_line_start_by_row(code: &[u8], target_row: usize) -> (r: usize)
    ensures
        r == spec_line_start(code@, target_row as nat),
{
    if target_row == 0 {
        return 0;
    }
    let mut current_row: usize = 0;
    let mut idx: usize = 0;
    while idx < code.len()
        invariant
            idx <= code@.len(),
            current_row < target_row,
            newline_index(code@, 0, (target_row - 1) as nat) == newline_index(
                code@,
                idx as int,
                (target_row - 1 - current_row) as nat,
            ),
        decreases code@.len() - idx,
    {
        if code[idx] == NEWLINE {
            current_row += 1;
            if current_row == target_row {
                return idx + 1;
            }
        }
        idx += 1;
    }
    // Not enough newlines: fall back to the start of the buffer.
    0
}

/// Find the total number of lines in the code.
pub fn count_lines(code: &[u8]) -> (r: usize)
    requires
        code@.len() < usize::MAX,
    ensures
        r == spec_total_rows(code@),
{
    if code.len() == 0 {
        return 0;
    }
    let mut cnt: usize = 0;
    let mut i: usize = 0;
    while i < code.len()
        invariant
            i <= code@.len(),
            cnt <= i,
            code@.len() < usize::MAX,
            cnt == crate::text::newline_count(code@.subrange(0, i as int)),
        decreases code@.len() - i,
    {
        if code[i] == NEWLINE {
            cnt += 1;
        }
        proof {
            assert(code@.subrange(0, i + 1).drop_last() =~= code@.subrange(0, i as int));
            assert(code@.subrange(0, i + 1).last() == code@[i as int]);
        }
        i += 1;
    }
    proof {
        assert(code@.subrange(0, code@.len() as int) =~= code@);
    }
    cnt + 1
}

/// How many context rows fit before the anchor: the requested count,
/// clipped to the rows that exist above the anchor row.
pub open spec fn before_n(start_row: nat, count: nat) -> nat {
    if count <= start_row {
        count
    } else {
        start_row
    }
}

/// The first row of the before-context window.
pub open spec fn before_from(start_row: nat, count: nat) -> nat {
    (start_row - before_n(start_row, count)) as nat
}

/// How many context rows fit after the anchor: none when the anchor is the
/// last row or no context is requested, otherwise the requested count
/// clipped to the rows that remain.
pub open spec fn after_n(total: nat, end_row: nat, count: nat) -> nat {
    if count == 0 || end_row + 1 >= total {
        0
    } else if count <= total - end_row - 1 {
        count
    } else {
        (total - end_row - 1) as nat
    }
}

/// Find context lines before the error line.  Each element pairs a row
/// number with the byte offset of that row's start; near the start of the
/// buffer the window silently shrinks.
pub fn find_context_lines_before(code: &[u8], start_row: usize, count: usize) -> (r: Vec<
    (usize, usize),
>)
    ensures
        r@.len() == before_n(start_row as nat, count as nat),
        forall|i: int|
            0 <= i < r@.len() ==> (#[trigger] r@[i]).0 == before_from(
                start_row as nat,
                count as nat,
            ) + i && r@[i].1 == spec_line_start(
                code@,
                (before_from(start_row as nat, count as nat) + i) as nat,
            ),
{
    let mut context_lines: Vec<(usize, usize)> = Vec::new();
    if start_row == 0 || count == 0 {
        return context_lines;
    }
    let start_search = if count > start_row {
        0
    } else {
        start_row - count
    };
    let mut row = start_search;
    while row < start_row
        invariant
            start_search == before_from(start_row as nat, count as nat),
            start_search <= row <= start_row,
            context_lines@.len() == row - start_search,
            forall|i: int|
                0 <= i < context_lines@.len() ==> (#[trigger] context_lines@[i]).0 == start_search
                    + i && context_lines@[i].1 == spec_line_start(
                    code@,
                    (start_search + i) as nat,
                ),
        decreases start_row - row,
    {
        let line_start = find_line_start_by_row(code, row);
        context_lines.push((row, line_start));
        row += 1;
    }
    context_lines
}

/// Find context lines after the error line (including empty lines).  Each
/// element pairs a row number with the byte offset of that row's start;
/// near the end of the buffer the window silently shrinks.
pub fn find_context_lines_after(code: &[u8], end_row: usize, count: usize) -> (r: Vec<
    (usize, usize),
>)
    requires
        code@.len() < usize::MAX,
    ensures
        r@.len() == after_n(spec_total_rows(code@), end_row as nat, count as nat),
        forall|i: int|
            0 <= i < r@.len() ==> (#[trigger] r@[i]).0 == end_row + 1 + i && r@[i].1
                == spec_line_start(code@, (end_row + 1 + i) as nat),
{
    let total_lines = count_lines(code);
    let mut context_lines: Vec<(usize, usize)> = Vec::new();
    if count == 0 || total_lines == 0 || end_row >= total_lines - 1 {
        return context_lines;
    }
    let avail = total_lines - end_row - 1;
    let take = if count < avail {
        count
    } else {
        avail
    };
    let mut i: usize = 0;
    while i < take
        invariant
            take == after_n(spec_total_rows(code@), end_row as nat, count as nat),
            end_row + 1 + take <= total_lines,
            i <= take,
            context_lines@.len() == i,
            forall|j: int|
                0 <= j < context_lines@.len() ==> (#[trigger] context_lines@[j]).0 == end_row + 1
                    + j && context_lines@[j].1 == spec_line_start(code@, (end_row + 1 + j) as nat),
        decreases take - i,
    {
        let row = end_row + 1 + i;
        let line_start = find_line_start_by_row(code, row);
        context_lines.push((row, line_start));
        i += 1;
    }
    context_lines
}

/// Before-context is empty whenever the anchor is the first row or no
/// context rows are requested, whatever the buffer.
pub proof fn lemma_before_context_empty(start_row: nat, count: nat)
    requires
        start_row == 0 || count == 0,
    ensures
        before_n(start_row, count) == 0,
{
}

/// After-context is empty whenever the anchor is the last row (or beyond),
/// whatever the buffer and the requested count.
pub proof fn lemma_after_context_empty_at_end(total: nat, end_row: nat, count: nat)
    requires
        end_row + 1 >= total,
    ensures
        after_n(total, end_row, count) == 0,
{
}

/// Asking for more before-context than there are rows above the anchor
/// yields exactly the available rows, from row 0 up to the anchor.
pub proof fn lemma_before_context_clipped(start_row: nat, count: nat)
    requires
        count >= start_row,
    ensures
        before_n(start_row, count) == start_row,
        before_from(start_row, count) == 0,
{
}

/// Asking for more after-context than there are rows below the anchor
/// yields exactly the available rows, down to the last row of the buffer.
pub proof fn lemma_after_context_clipped(total: nat, end_row: nat, count: nat)
    requires
        end_row + 1 < total,
        count >= total - end_row - 1,
    ensures
        after_n(total, end_row, count) == total - end_row - 1,
{
}

/// The error a render call can report: the line extractor produced nothing
/// at an offset the span promised to be within the buffer — a broken
/// contract of the upstream span producer, not a user-facing condition.
#[derive(Clone, Copy, Debug, PartialEq, Eq, Structural)]
pub enum RenderError {
    MissingExcerpt,
}

pub uninterp spec fn lossy_decode(bytes: Seq<u8>) -> Seq<char>;

/// Relies on `String::from_utf8_lossy`: the result is a function of the
/// input bytes alone — valid UTF-8 decodes to its characters, invalid
/// sequences are replaced.
#[verifier::external_body]
fn from_utf8_lossy(bytes: &[u8]) -> (r: String)
    ensures
        r@ == lossy_decode(bytes@),
{
    String::from_utf8_lossy(bytes).into_owned()
}

/// The header line of a report.
pub open spec fn spec_header(name: Seq<char>, msg: Seq<char>) -> Seq<char> {
    "warning: ["@ + name + "] "@ + msg + "\n"@
}

/// The location line of a report.
pub open spec fn spec_location(path: Seq<char>, row: nat, col: nat) -> Seq<char> {
    "  --> "@ + path + ":"@ + spec_num(row) + ":"@ + spec_num(col) + "\n"@
}

/// The gutter: left padding as wide as the largest row number shown,
/// followed by the column separator.
pub open spec fn spec_gutter(max_row: nat) -> Seq<char> {
    spec_repeat(' ', spec_num(max_row).len()) + " | "@
}

/// A numbered source line: the row number, the separator, and the
/// lossily-decoded content of the row containing byte offset `off`.
pub open spec fn spec_src_line(code: Seq<u8>, row: nat, off: nat) -> Seq<char> {
    spec_num(row) + " | "@ + lossy_decode(spec_line_around(code, off as int)) + "\n"@
}

/// `n` consecutive numbered source lines starting at row `from`.
pub open spec fn spec_context_block(code: Seq<u8>, from: nat, n: nat) -> Seq<char>
    decreases n,
{
    if n == 0 {
        Seq::empty()
    } else {
        spec_src_line(code, from, spec_line_start(code, from)) + spec_context_block(
            code,
            (from + 1) as nat,
            (n - 1) as nat,
        )
    }
}

/// The leading marker of a multi-row excerpt line: `/` opens the span,
/// `|` continues it.
pub open spec fn spec_marker(first: bool) -> Seq<char> {
    if first {
        "/"@
    } else {
        "|"@
    }
}

/// One line of a multi-row excerpt, taken from the cursor position `pos`;
/// nothing is emitted once the cursor has moved past the end of the buffer.
pub open spec fn spec_excerpt_row(code: Seq<u8>, pos: nat, row: nat, first: bool) -> Seq<char> {
    if pos <= code.len() {
        spec_num(row) + " |  "@ + spec_marker(first) + " "@ + lossy_decode(
            spec_line_around(code, pos as int),
        ) + "\n"@
    } else {
        Seq::empty()
    }
}

/// Where the excerpt cursor stands after handing out the line at `pos`.
pub open spec fn spec_next_pos(code: Seq<u8>, pos: nat) -> nat {
    if pos <= code.len() {
        (spec_line_end(code, pos as int) + 1) as nat
    } else {
        pos
    }
}

/// `n` lines of a multi-row excerpt, starting at cursor position `pos` and
/// row number `row`.
pub open spec fn spec_excerpt_block(code: Seq<u8>, pos: nat, row: nat, n: nat, first: bool) -> Seq<
    char,
>
    decreases n,
{
    if n == 0 {
        Seq::empty()
    } else {
        spec_excerpt_row(code, pos, row, first) + spec_excerpt_block(
            code,
            spec_next_pos(code, pos),
            (row + 1) as nat,
            (n - 1) as nat,
            false,
        )
    }
}

/// Whether a render call succeeds: always, except for a non-empty
/// single-row span whose byte start lies past the end of the buffer.
pub open spec fn render_ok(range: Range, code: Seq<u8>) -> bool {
    range.bytes.start >= range.bytes.end || range.start_point.row != range.end_point.row
        || range.bytes.start <= code.len()
}

/// Everything a render call appends after the header and location lines:
/// nothing for an empty span; otherwise the excerpt, framed by blank gutter
/// lines, with context rows and an underline (single-row span) or a bracket
/// with a closing caret (multi-row span).  For the one failing case the
/// text breaks off after the before-context.
pub open spec fn render_body(range: Range, code: Seq<u8>, opts: Opts) -> Seq<char> {
    let start_row = range.start_point.row as nat;
    let end_row = range.end_point.row as nat;
    let start_col = range.start_point.col as nat;
    let end_col = range.end_point.col as nat;
    if range.bytes.start >= range.bytes.end {
        Seq::empty()
    } else {
        let total = spec_total_rows(code);
        let bn = before_n(start_row, opts.spec_lines_before());
        let bfrom = before_from(start_row, opts.spec_lines_before());
        let an = after_n(total, end_row, opts.spec_lines_after());
        let max_row = (end_row + an) as nat;
        let gutter = spec_gutter(max_row);
        let before = spec_context_block(code, bfrom, bn);
        let after = spec_context_block(code, (end_row + 1) as nat, an);
        if start_row == end_row {
            if range.bytes.start <= code.len() {
                gutter + "\n"@ + before + spec_src_line(
                    code,
                    start_row,
                    range.bytes.start as nat,
                ) + gutter + spec_repeat(' ', start_col) + spec_repeat(
                    '^',
                    if end_col >= start_col {
                        (end_col - start_col) as nat
                    } else {
                        0
                    },
                ) + "\n"@ + after + gutter + "\n"@
            } else {
                gutter + "\n"@ + before
            }
        } else {
            let n = if start_row <= end_row {
                (end_row - start_row + 1) as nat
            } else {
                0
            };
            gutter + "\n"@ + before + spec_excerpt_block(
                code,
                range.bytes.start as nat,
                start_row,
                n,
                true,
            ) + gutter + " |"@ + spec_repeat('_', end_col) + "^"@ + "\n"@ + after + gutter + "\n"@
        }
    }
}

/// The exact text a render call appends to its sink: the header and
/// location lines, followed by the body of the report.
pub open spec fn render_spec(
    name: Seq<char>,
    msg: Seq<char>,
    range: Range,
    code: Seq<u8>,
    path: Seq<char>,
    opts: Opts,
) -> Seq<char> {
    spec_header(name, msg) + spec_location(
        path,
        range.start_point.row as nat,
        range.start_point.col as nat,
    ) + render_body(range, code, opts)
}

/// Append the gutter for a report whose largest shown row number is
/// `max_row`.
fn append_gutter(out: &mut String, max_row: usize)
    ensures
        final(out)@ == old(out)@ + spec_gutter(max_row as nat),
{
    let w = digit_width(max_row);
    proof {
        reveal_strlit(" ");
        assert(" "@ =~= seq![' ']);
    }
    append_repeat(out, " ", w);
    out.append(" | ");
    proof {
        assert(out@ =~= old(out)@ + spec_gutter(max_row as nat));
    }
}

/// Append one numbered source line per context row in `rows`.
fn append_context_lines(
    out: &mut String,
    code: &[u8],
    rows: &Vec<(usize, usize)>,
    Ghost(from): Ghost<nat>,
)
    requires
        code@.len() < usize::MAX,
        forall|i: int|
            0 <= i < rows@.len() ==> (#[trigger] rows@[i]).0 == from + i && rows@[i].1
                == spec_line_start(code@, (from + i) as nat),
    ensures
        final(out)@ == old(out)@ + spec_context_block(code@, from, rows@.len() as nat),
{
    let ghost w0 = out@;
    let ghost n_total = rows@.len() as nat;
    let mut i: usize = 0;
    while i < rows.len()
        invariant
            i <= rows@.len(),
            n_total == rows@.len(),
            code@.len() < usize::MAX,
            forall|k: int|
                0 <= k < rows@.len() ==> (#[trigger] rows@[k]).0 == from + k && rows@[k].1
                    == spec_line_start(code@, (from + k) as nat),
            w0 + spec_context_block(code@, from, n_total) == out@ + spec_context_block(
                code@,
                (from + i) as nat,
                (n_total - i) as nat,
            ),
        decreases rows@.len() - i,
    {
        let pair = rows[i];
        let row = pair.0;
        let off = pair.1;
        proof {
            lemma_line_start_le_len(code@, (from + i) as nat);
        }
        let ghost w_here = out@;
        let mut lines = Lines::new(code, off);
        let next = lines.next();
        if let Some(line) = next {
            append_num(out, row);
            out.append(" | ");
            let decoded = from_utf8_lossy(line);
            out.append(decoded.as_str());
            out.append("\n");
        }
        proof {
            assert(out@ =~= w_here + spec_src_line(
                code@,
                (from + i) as nat,
                spec_line_start(code@, (from + i) as nat),
            ));
            assert(w0 + spec_context_block(code@, from, n_total) =~= out@ + spec_context_block(
                code@,
                (from + i + 1) as nat,
                (n_total - i - 1) as nat,
            ));
        }
        i += 1;
    }
    proof {
        assert(out@ =~= w0 + spec_context_block(code@, from, n_total));
    }
}

/// Append one line of a multi-row excerpt and advance the extractor.
fn append_excerpt_row<'a>(out: &mut String, lines: &mut Lines<'a>, row: usize, first: bool)
    requires
        old(lines).code_view().len() < usize::MAX,
    ensures
        final(lines).code_view() == old(lines).code_view(),
        final(lines).pos_spec() == spec_next_pos(old(lines).code_view(), old(lines).pos_spec()),
        final(out)@ == old(out)@ + spec_excerpt_row(
            old(lines).code_view(),
            old(lines).pos_spec(),
            row as nat,
            first,
        ),
{
    let next = lines.next();
    if let Some(line) = next {
        append_num(out, row);
        out.append(" |  ");
        if first {
            out.append("/");
        } else {
            out.append("|");
        }
        out.append(" ");
        let decoded = from_utf8_lossy(line);
        out.append(decoded.as_str());
        out.append("\n");
        proof {
            assert(out@ =~= old(out)@ + spec_excerpt_row(
                old(lines).code_view(),
                old(lines).pos_spec(),
                row as nat,
                first,
            ));
        }
    }
}


/// Append the header and location lines for a match.
fn append_report_head(writer: &mut String, m: &LintMatch, path: &str)
    ensures
        final(writer)@ == old(writer)@ + spec_header(m.lint_name@, m.message@) + spec_location(
            path@,
            m.range.start_point.row as nat,
            m.range.start_point.col as nat,
        ),
{
    writer.append("warning: [");
    writer.append(m.lint_name.as_str());
    writer.append("] ");
    writer.append(m.message.as_str());
    writer.append("\n");
    writer.append("  --> ");
    writer.append(path);
    writer.append(":");
    append_num(writer, m.range.start_point.row);
    writer.append(":");
    append_num(writer, m.range.start_point.col);
    writer.append("\n");
    proof {
        assert(writer@ =~= old(writer)@ + spec_header(m.lint_name@, m.message@) + spec_location(
            path@,
            m.range.start_point.row as nat,
            m.range.start_point.col as nat,
        ));
    }
}

/// Append a blank gutter line.
fn append_gutter_line(writer: &mut String, max_row: usize)
    ensures
        final(writer)@ == old(writer)@ + spec_gutter(max_row as nat) + "\n"@,
{
    append_gutter(writer, max_row);
    writer.append("\n");
    proof {
        assert(writer@ =~= old(writer)@ + spec_gutter(max_row as nat) + "\n"@);
    }
}

/// Append the underline row of a single-row excerpt: gutter, indentation
/// up to the start column, and one caret per spanned column.
fn append_underline_single(writer: &mut String, max_row: usize, start_col: usize, end_col: usize)
    ensures
        final(writer)@ == old(writer)@ + spec_gutter(max_row as nat) + spec_repeat(
            ' ',
            start_col as nat,
        ) + spec_repeat(
            '^',
            if end_col >= start_col {
                (end_col - start_col) as nat
            } else {
                0
            },
        ) + "\n"@,
{
    append_gutter(writer, max_row);
    proof {
        reveal_strlit(" ");
        reveal_strlit("^");
        assert(" "@ =~= seq![' ']);
        assert("^"@ =~= seq!['^']);
    }
    append_repeat(writer, " ", start_col);
    let width = if end_col >= start_col {
        end_col - start_col
    } else {
        0
    };
    append_repeat(writer, "^", width);
    writer.append("\n");
    proof {
        assert(writer@ =~= old(writer)@ + spec_gutter(max_row as nat) + spec_repeat(
            ' ',
            start_col as nat,
        ) + spec_repeat('^', width as nat) + "\n"@);
    }
}

/// Append the underline row closing a multi-row bracket: gutter, the
/// continuation mark, underscores up to the end column, and a caret.
fn append_underline_multi(writer: &mut String, max_row: usize, end_col: usize)
    ensures
        final(writer)@ == old(writer)@ + spec_gutter(max_row as nat) + " |"@ + spec_repeat(
            '_',
            end_col as nat,
        ) + "^"@ + "\n"@,
{
    append_gutter(writer, max_row);
    writer.append(" |");
    proof {
        reveal_strlit("_");
        assert("_"@ =~= seq!['_']);
    }
    append_repeat(writer, "_", end_col);
    writer.append("^");
    writer.append("\n");
    proof {
        assert(writer@ =~= old(writer)@ + spec_gutter(max_row as nat) + " |"@ + spec_repeat(
            '_',
            end_col as nat,
        ) + "^"@ + "\n"@);
    }
}

/// Report a lint match in terminal style.
///
/// Appends the rendered report to `writer`; equivalent to
/// [`report_terminal_opts`] with default options (no extra context).
pub fn report_terminal(m: &LintMatch, code: &[u8], path: &str, writer: &mut String) -> (r: Result<
    (),
    RenderError,
>)
    requires
        code@.len() < usize::MAX,
    ensures
        final(writer)@ == old(writer)@ + render_spec(
            m.lint_name@,
            m.message@,
            m.range,
            code@,
            path@,
            Opts { extra_lines: None },
        ),
        (r is Ok) == render_ok(m.range, code@),
{
    report_terminal_opts(m, code, path, writer, Opts::default())
}

/// Report a lint match in terminal style with extra lines for context as
/// configured.
///
/// Writes, in order: the header line, the location line and — unless the
/// span is empty, in which case the report ends there — a blank gutter
/// line, the before-context rows, the excerpt (underlined for a single-row
/// span, bracketed for a multi-row span), the after-context rows, and a
/// closing blank gutter line.  The only failure is a single-row span whose
/// byte start lies past the end of the buffer: the span producer broke its
/// contract, and the report breaks off with [`RenderError::MissingExcerpt`].
pub fn report_terminal_opts(
    m: &LintMatch,
    code: &[u8],
    path: &str,
    writer: &mut String,
    opts: Opts,
) -> (r: Result<(), RenderError>)
    requires
        code@.len() < usize::MAX,
    ensures
        final(writer)@ == old(writer)@ + render_spec(
            m.lint_name@,
            m.message@,
            m.range,
            code@,
            path@,
            opts,
        ),
        (r is Ok) == render_ok(m.range, code@),
{
    append_report_head(writer, m, path);

    if m.range.bytes.start >= m.range.bytes.end {
        proof {
            assert(writer@ =~= old(writer)@ + render_spec(
                m.lint_name@,
                m.message@,
                m.range,
                code@,
                path@,
                opts,
            ));
        }
        return Ok(());
    }
    let r = append_report_body(m, code, writer, opts);
    proof {
        assert(writer@ =~= old(writer)@ + render_spec(
            m.lint_name@,
            m.message@,
            m.range,
            code@,
            path@,
            opts,
        ));
    }
    r
}

/// Append everything after the header and location lines of a report on a
/// non-empty span.
fn append_report_body(m: &LintMatch, code: &[u8], writer: &mut String, opts: Opts) -> (r: Result<
    (),
    RenderError,
>)
    requires
        code@.len() < usize::MAX,
        m.range.bytes.start < m.range.bytes.end,
    ensures
        final(writer)@ == old(writer)@ + render_body(m.range, code@, opts),
        (r is Ok) == render_ok(m.range, code@),
{
    let start_row = m.range.start_point.row;
    let end_row = m.range.end_point.row;

    // Find context lines
    let context_lines_before = find_context_lines_before(code, start_row, opts.lines_before());
    let context_lines_after = find_context_lines_after(code, end_row, opts.lines_after());
    let ghost an = after_n(spec_total_rows(code@), end_row as nat, opts.spec_lines_after());

    // Calculate the maximum row number for consistent indentation
    let max_row = if context_lines_after.len() > 0 {
        context_lines_after[context_lines_after.len() - 1].0
    } else {
        end_row
    };
    proof {
        if context_lines_after@.len() > 0 {
            assert(context_lines_after@[context_lines_after@.len() - 1].0 == end_row + an);
        }
        assert(max_row as nat == end_row + an);
    }
    if start_row == end_row {
        append_single_row_excerpt(m, code, writer, opts, &context_lines_before, &context_lines_after, max_row)
    } else {
        append_multi_row_excerpt(m, code, writer, opts, &context_lines_before, &context_lines_after, max_row);
        Ok(())
    }
}

/// Append a single-row excerpt: before-context, the matched line, its
/// underline, after-context and the closing gutter line.  Fails when the
/// span's byte start lies past the end of the buffer.
#[verifier::rlimit(50)]
fn append_single_row_excerpt(
    m: &LintMatch,
    code: &[u8],
    writer: &mut String,
    opts: Opts,
    ctx_before: &Vec<(usize, usize)>,
    ctx_after: &Vec<(usize, usize)>,
    max_row: usize,
) -> (r: Result<(), RenderError>)
    requires
        code@.len() < usize::MAX,
        m.range.bytes.start < m.range.bytes.end,
        m.range.start_point.row == m.range.end_point.row,
        ctx_before@.len() == before_n(m.range.start_point.row as nat, opts.spec_lines_before()),
        forall|i: int|
            0 <= i < ctx_before@.len() ==> (#[trigger] ctx_before@[i]).0 == before_from(
                m.range.start_point.row as nat,
                opts.spec_lines_before(),
            ) + i && ctx_before@[i].1 == spec_line_start(
                code@,
                (before_from(m.range.start_point.row as nat, opts.spec_lines_before()) + i) as nat,
            ),
        ctx_after@.len() == after_n(
            spec_total_rows(code@),
            m.range.end_point.row as nat,
            opts.spec_lines_after(),
        ),
        forall|i: int|
            0 <= i < ctx_after@.len() ==> (#[trigger] ctx_after@[i]).0 == m.range.end_point.row + 1
                + i && ctx_after@[i].1 == spec_line_start(
                code@,
                (m.range.end_point.row + 1 + i) as nat,
            ),
        max_row as nat == m.range.end_point.row + after_n(
            spec_total_rows(code@),
            m.range.end_point.row as nat,
            opts.spec_lines_after(),
        ),
    ensures
        final(writer)@ == old(writer)@ + render_body(m.range, code@, opts),
        (r is Ok) == render_ok(m.range, code@),
{
    let start_row = m.range.start_point.row;
    let end_row = m.range.end_point.row;
    let start_col = m.range.start_point.col;
    let end_col = m.range.end_point.col;
    let ghost bn = before_n(start_row as nat, opts.spec_lines_before());
    let ghost bfrom = before_from(start_row as nat, opts.spec_lines_before());
    let ghost an = after_n(spec_total_rows(code@), end_row as nat, opts.spec_lines_after());
    let ghost gutter = spec_gutter(max_row as nat);
    let ghost g_before = spec_context_block(code@, bfrom, bn);
    let ghost g_after = spec_context_block(code@, (end_row + 1) as nat, an);

    append_gutter_line(writer, max_row);

    // Show context lines before (if any)
    append_context_lines(writer, code, ctx_before, Ghost(bfrom));

    // Show the error line
    let mut lines = Lines::new(code, m.range.bytes.start);
    let next = lines.next();
    if let Some(line) = next {
        let ghost w_line = writer@;
        append_num(writer, start_row);
        writer.append(" | ");
        let decoded = from_utf8_lossy(line);
        writer.append(decoded.as_str());
        writer.append("\n");
        proof {
            assert(writer@ =~= w_line + spec_src_line(
                code@,
                start_row as nat,
                m.range.bytes.start as nat,
            ));
        }
        append_underline_single(writer, max_row, start_col, end_col);

        // Show context lines after (if any)
        append_context_lines(writer, code, ctx_after, Ghost((end_row + 1) as nat));
        append_gutter_line(writer, max_row);
        proof {
            assert(writer@ =~= old(writer)@ + render_body(m.range, code@, opts));
        }
        Ok(())
    } else {
        // The span guarantees content at its start offset; none is there,
        // so the upstream producer broke its contract.
        proof {
            assert(writer@ =~= old(writer)@ + render_body(m.range, code@, opts));
        }
        Err(RenderError::MissingExcerpt)
    }
}

/// Append a multi-row excerpt: before-context, the bracketed span rows,
/// the closing underline, after-context and the closing gutter line.
#[verifier::rlimit(50)]
fn append_multi_row_excerpt(
    m: &LintMatch,
    code: &[u8],
    writer: &mut String,
    opts: Opts,
    ctx_before: &Vec<(usize, usize)>,
    ctx_after: &Vec<(usize, usize)>,
    max_row: usize,
)
    requires
        code@.len() < usize::MAX,
        m.range.bytes.start < m.range.bytes.end,
        m.range.start_point.row != m.range.end_point.row,
        ctx_before@.len() == before_n(m.range.start_point.row as nat, opts.spec_lines_before()),
        forall|i: int|
            0 <= i < ctx_before@.len() ==> (#[trigger] ctx_before@[i]).0 == before_from(
                m.range.start_point.row as nat,
                opts.spec_lines_before(),
            ) + i && ctx_before@[i].1 == spec_line_start(
                code@,
                (before_from(m.range.start_point.row as nat, opts.spec_lines_before()) + i) as nat,
            ),
        ctx_after@.len() == after_n(
            spec_total_rows(code@),
            m.range.end_point.row as nat,
            opts.spec_lines_after(),
        ),
        forall|i: int|
            0 <= i < ctx_after@.len() ==> (#[trigger] ctx_after@[i]).0 == m.range.end_point.row + 1
                + i && ctx_after@[i].1 == spec_line_start(
                code@,
                (m.range.end_point.row + 1 + i) as nat,
            ),
        max_row as nat == m.range.end_point.row + after_n(
            spec_total_rows(code@),
            m.range.end_point.row as nat,
            opts.spec_lines_after(),
        ),
    ensures
        final(writer)@ == old(writer)@ + render_body(m.range, code@, opts),
{
    let start_row = m.range.start_point.row;
    let end_row = m.range.end_point.row;
    let end_col = m.range.end_point.col;
    let ghost bn = before_n(start_row as nat, opts.spec_lines_before());
    let ghost bfrom = before_from(start_row as nat, opts.spec_lines_before());
    let ghost an = after_n(spec_total_rows(code@), end_row as nat, opts.spec_lines_after());
    let ghost gutter = spec_gutter(max_row as nat);
    let ghost g_before = spec_context_block(code@, bfrom, bn);
    let ghost g_after = spec_context_block(code@, (end_row + 1) as nat, an);

    append_gutter_line(writer, max_row);

    // Show context lines before (if any)
    append_context_lines(writer, code, ctx_before, Ghost(bfrom));
    let ghost w_exc = writer@;

    // Show the error lines
    let mut lines = Lines::new(code, m.range.bytes.start);
    let ghost n_rows = if start_row <= end_row {
        (end_row - start_row + 1) as nat
    } else {
        0nat
    };
    let ghost g_excerpt = spec_excerpt_block(
        code@,
        m.range.bytes.start as nat,
        start_row as nat,
        n_rows,
        true,
    );
    if start_row <= end_row {
        let mut row = start_row;
        while row < end_row
            invariant
                start_row <= row <= end_row,
                lines.code_view() == code@,
                code@.len() < usize::MAX,
                w_exc + spec_excerpt_block(
                    code@,
                    m.range.bytes.start as nat,
                    start_row as nat,
                    (end_row - start_row + 1) as nat,
                    true,
                ) == writer@ + spec_excerpt_block(
                    code@,
                    lines.pos_spec(),
                    row as nat,
                    (end_row - row + 1) as nat,
                    row == start_row,
                ),
            decreases end_row - row,
        {
            append_excerpt_row(writer, &mut lines, row, row == start_row);
            row += 1;
        }
        let ghost p_last = lines.pos_spec();
        let ghost w_last = writer@;
        append_excerpt_row(writer, &mut lines, end_row, end_row == start_row);
        proof {
            assert(spec_excerpt_block(
                code@,
                spec_next_pos(code@, p_last),
                (end_row + 1) as nat,
                0nat,
                false,
            ) =~= Seq::<char>::empty());
            assert(spec_excerpt_block(code@, p_last, end_row as nat, 1nat, false)
                =~= spec_excerpt_row(code@, p_last, end_row as nat, false));
            assert(writer@ =~= w_last + spec_excerpt_row(code@, p_last, end_row as nat, false));
            assert(writer@ =~= w_exc + g_excerpt);
        }
    } else {
        proof {
            assert(g_excerpt =~= Seq::<char>::empty());
            assert(writer@ =~= w_exc + g_excerpt);
        }
    }

    // The underline row closing the bracket
    append_underline_multi(writer, max_row, end_col);

    // Show context lines after (if any)
    append_context_lines(writer, code, ctx_after, Ghost((end_row + 1) as nat));
    append_gutter_line(writer, max_row);
    proof {
        assert(writer@ =~= old(writer)@ + render_body(m.range, code@, opts));
    }
}

/// An empty span renders as header and location only — no gutter, no
/// excerpt lines — whatever the buffer and the context configuration.
pub proof fn lemma_empty_span_renders_location_only(
    name: Seq<char>,
    msg: Seq<char>,
    range: Range,
    code: Seq<u8>,
    path: Seq<char>,
    opts: Opts,
)
    requires
        range.bytes.start == range.bytes.end,
    ensures
        render_spec(name, msg, range, code, path, opts) == spec_header(name, msg) + spec_location(
            path,
            range.start_point.row as nat,
            range.start_point.col as nat,
        ),
        render_ok(range, code),
{
}

/// Rendering is deterministic: the same match, buffer, label and
/// configuration always yield the same text, so repeated renders into
/// independent sinks are identical.
pub proof fn lemma_render_deterministic(
    name1: Seq<char>,
    msg1: Seq<char>,
    range1: Range,
    code1: Seq<u8>,
    path1: Seq<char>,
    opts1: Opts,
    name2: Seq<char>,
    msg2: Seq<char>,
    range2: Range,
    code2: Seq<u8>,
    path2: Seq<char>,
    opts2: Opts,
)
    requires
        name1 == name2,
        msg1 == msg2,
        range1.bytes.start == range2.bytes.start,
        range1.bytes.end == range2.bytes.end,
        range1.start_point == range2.start_point,
        range1.end_point == range2.end_point,
        code1 == code2,
        path1 == path2,
        opts1 == opts2,
    ensures
        render_spec(name1, msg1, range1, code1, path1, opts1) == render_spec(
            name2,
            msg2,
            range2,
            code2,
            path2,
            opts2,
        ),
{
    assert(range1.bytes == range2.bytes);
    assert(range1 == range2);
}

} // verus!
