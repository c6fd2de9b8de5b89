//! The line extractor: a lazy, restartable sequence of line contents
//! starting at an arbitrary byte offset of a buffer.
//!
//! For any starting offset within or at the end of the buffer, at least
//! one line (possibly empty) is produced: first the full row containing
//! that offset, from the row's beginning; the extractor then continues
//! toward the end of the buffer, handing out one row per call, each
//! without its trailing newline.

use crate::text::{spec_line_around, spec_line_begin, spec_line_end, NEWLINE};
use vstd::prelude::*;
use vstd::slice::slice_subrange;

verus! {

/// Lines of `code`, starting at a byte offset and moving toward the end.
pub struct Lines<'a> {
    code: &'a [u8],
    pos: usize,
}

impl<'a> Lines<'a> {
    /// The buffer the lines are drawn from.
    pub closed spec fn code_view(self) -> Seq<u8> {
        self.code@
    }

    /// The offset at which the next line starts; once it exceeds the buffer
    /// length, the extractor is exhausted.
    pub closed spec fn pos_spec(self) -> nat {
        self.pos as nat
    }

    /// A fresh extractor positioned at `pos`.
    pub fn new(code: &'a [u8], pos: usize) -> (r: Lines<'a>)
        ensures
            r.code_view() == code@,
            r.pos_spec() == pos,
    {
        Lines { code, pos }
    }

    /// The next line: the full content of the row the current position
    /// lies in, without the trailing newline, or `None` once the position
    /// has moved past the end of the buffer.
    pub fn next(&mut self) -> (r: Option<&'a [u8]>)
        requires
            old(self).code_view().len() < usize::MAX,
        ensures
            final(self).code_view() == old(self).code_view(),
            old(self).pos_spec() <= old(self).code_view().len() ==> (r matches Some(line)
                && line@ == spec_line_around(old(self).code_view(), old(self).pos_spec() as int)
                && final(self).pos_spec() == spec_line_end(
                old(self).code_view(),
                old(self).pos_spec() as int,
            ) + 1),
            old(self).pos_spec() > old(self).code_view().len() ==> r is None
                && final(self).pos_spec() == old(self).pos_spec(),
    {
        if self.pos > self.code.len() {
            return None;
        }
        let mut b = self.pos;
        while b > 0 && self.code[b - 1] != NEWLINE
            invariant
                b <= self.pos <= self.code@.len(),
                spec_line_begin(self.code@, self.pos as int) == spec_line_begin(
                    self.code@,
                    b as int,
                ),
            decreases b,
        {
            b -= 1;
        }
        let mut e = self.pos;
        while e < self.code.len() && self.code[e] != NEWLINE
            invariant
                self.pos <= e <= self.code@.len(),
                crate::text::newline_index(self.code@, self.pos as int, 0) == crate::text::newline_index(
                    self.code@,
                    e as int,
                    0,
                ),
            decreases self.code@.len() - e,
        {
            e += 1;
        }
        let line = slice_subrange(self.code, b, e);
        proof {
            assert(line@ == spec_line_around(self.code@, self.pos as int));
        }
        self.pos = e + 1;
        Some(line)
    }
}

} // verus!
