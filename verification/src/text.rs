//! Byte-buffer line arithmetic and decimal rendering of row numbers.
//!
//! A buffer is split into rows by newline bytes; the functions here relate
//! row numbers, byte offsets and newline counts, and render row numbers in
//! decimal for the diagnostic gutter.

use vstd::prelude::*;
use vstd::string::StringExecFns;

verus! {

/// The byte that terminates a row.
pub const NEWLINE: u8 = 10;

/// Number of newline bytes in `s`.
pub open spec fn newline_count(s: Seq<u8>) -> nat
    decreases s.len(),
{
    if s.len() == 0 {
        0
    } else {
        newline_count(s.drop_last()) + if s.last() == NEWLINE {
            1nat
        } else {
            0nat
        }
    }
}

/// Index of the `(n + 1)`-th newline byte at or after position `i`, or `-1`
/// if `s` does not hold that many from `i` on.
pub open spec fn newline_index(s: Seq<u8>, i: int, n: nat) -> int
    decreases s.len() - i,
{
    if i < 0 || i >= s.len() {
        -1
    } else if s[i] == NEWLINE {
        if n == 0 {
            i
        } else {
            newline_index(s, i + 1, (n - 1) as nat)
        }
    } else {
        newline_index(s, i + 1, n)
    }
}

/// Byte offset at which row `row` begins: 0 for row 0, the offset just past
/// the `row`-th newline otherwise, and 0 again when the buffer holds fewer
/// newlines than that (the defined fallback, not an error).
pub open spec fn spec_line_start(s: Seq<u8>, row: nat) -> nat {
    if row == 0 {
        0
    } else {
        let p = newline_index(s, 0, (row - 1) as nat);
        if p >= 0 {
            (p + 1) as nat
        } else {
            0
        }
    }
}

/// Offset of the newline that ends the row starting at `pos`, or the buffer
/// length when that row is unterminated.
pub open spec fn spec_line_end(s: Seq<u8>, pos: int) -> int {
    let p = newline_index(s, pos, 0);
    if p >= 0 {
        p
    } else {
        s.len() as int
    }
}

/// Offset at which the row containing `pos` begins: just past the last
/// newline strictly before `pos`, or 0 when there is none.
pub open spec fn spec_line_begin(s: Seq<u8>, pos: int) -> int
    decreases pos,
{
    if pos <= 0 {
        0
    } else if s[pos - 1] == NEWLINE {
        pos
    } else {
        spec_line_begin(s, pos - 1)
    }
}

/// Content of the row containing `pos`, from the row's start up to but
/// excluding its trailing newline.
pub open spec fn spec_line_around(s: Seq<u8>, pos: int) -> Seq<u8> {
    s.subrange(spec_line_begin(s, pos), spec_line_end(s, pos))
}

/// Total number of rows: 0 for the empty buffer, otherwise one more than the
/// number of newline bytes (an unterminated final row counts as one row).
pub open spec fn spec_total_rows(s: Seq<u8>) -> nat {
    if s.len() == 0 {
        0
    } else {
        newline_count(s) + 1
    }
}

/// A newline appended at the end of a prefix adds one to its newline count.
proof fn lemma_newline_count_push(s: Seq<u8>, b: u8)
    ensures
        newline_count(s.push(b)) == newline_count(s) + if b == NEWLINE {
            1nat
        } else {
            0nat
        },
{
    assert(s.push(b).drop_last() =~= s);
}

/// Splitting a newline count at the first byte instead of the last.
proof fn lemma_newline_count_drop_first(s: Seq<u8>)
    requires
        s.len() > 0,
    ensures
        newline_count(s) == newline_count(s.drop_first()) + if s[0] == NEWLINE {
            1nat
        } else {
            0nat
        },
    decreases s.len(),
{
    assert(newline_count(s) == newline_count(s.drop_last()) + if s.last() == NEWLINE {
        1nat
    } else {
        0nat
    });
    if s.len() == 1 {
        assert(s.drop_first() =~= Seq::<u8>::empty());
        assert(s.drop_last() =~= Seq::<u8>::empty());
        assert(newline_count(Seq::<u8>::empty()) == 0);
        assert(s.last() == s[0]);
    } else {
        lemma_newline_count_drop_first(s.drop_last());
        assert(s.drop_last().drop_first() =~= s.drop_first().drop_last());
        assert(s.drop_first().last() == s.last());
        assert(s.drop_last()[0] == s[0]);
        assert(s.drop_first().len() > 0);
        assert(newline_count(s.drop_first()) == newline_count(s.drop_first().drop_last())
            + if s.drop_first().last() == NEWLINE {
            1nat
        } else {
            0nat
        });
    }
}

/// What a found or missing newline index means in terms of newline counts.
proof fn lemma_newline_index_props(s: Seq<u8>, i: int, n: nat)
    requires
        0 <= i <= s.len(),
    ensures
        newline_index(s, i, n) >= 0 ==> i <= newline_index(s, i, n) < s.len() && s[newline_index(
            s,
            i,
            n,
        )] == NEWLINE && newline_count(s.subrange(i, newline_index(s, i, n) + 1)) == n + 1,
        newline_index(s, i, n) < 0 ==> newline_count(s.subrange(i, s.len() as int)) <= n,
    decreases s.len() - i,
{
    if i == s.len() {
        assert(s.subrange(i, s.len() as int) =~= Seq::<u8>::empty());
    } else {
        if s[i] == NEWLINE && n == 0 {
            assert(s.subrange(i, i + 1) =~= seq![s[i]]);
            assert(newline_count(seq![s[i]].drop_last()) == 0) by {
                assert(seq![s[i]].drop_last() =~= Seq::<u8>::empty());
            }
        } else {
            let m: nat = if s[i] == NEWLINE {
                (n - 1) as nat
            } else {
                n
            };
            lemma_newline_index_props(s, i + 1, m);
            let p = newline_index(s, i + 1, m);
            if p >= 0 {
                assert(s.subrange(i, p + 1).drop_first() =~= s.subrange(i + 1, p + 1));
                lemma_newline_count_drop_first(s.subrange(i, p + 1));
            } else {
                assert(s.subrange(i, s.len() as int).drop_first() =~= s.subrange(
                    i + 1,
                    s.len() as int,
                ));
                lemma_newline_count_drop_first(s.subrange(i, s.len() as int));
            }
        }
    }
}

/// A newline index exists exactly when the tail holds enough newlines.
proof fn lemma_newline_index_exists(s: Seq<u8>, i: int, n: nat)
    requires
        0 <= i <= s.len(),
        newline_count(s.subrange(i, s.len() as int)) > n,
    ensures
        newline_index(s, i, n) >= 0,
    decreases s.len() - i,
{
    if i == s.len() {
        assert(s.subrange(i, s.len() as int) =~= Seq::<u8>::empty());
    } else {
        lemma_newline_count_drop_first(s.subrange(i, s.len() as int));
        assert(s.subrange(i, s.len() as int).drop_first() =~= s.subrange(i + 1, s.len() as int));
        if !(s[i] == NEWLINE && n == 0) {
            let m: nat = if s[i] == NEWLINE {
                (n - 1) as nat
            } else {
                n
            };
            lemma_newline_index_exists(s, i + 1, m);
        }
    }
}

/// A row's start offset never lies past the end of the buffer.
pub proof fn lemma_line_start_le_len(s: Seq<u8>, row: nat)
    ensures
        spec_line_start(s, row) <= s.len(),
{
    if row > 0 {
        lemma_newline_index_props(s, 0, (row - 1) as nat);
    }
}

/// The row that an offset lies in, counted as the number of newline bytes
/// strictly before it.
pub open spec fn spec_row_of_offset(s: Seq<u8>, off: nat) -> nat {
    newline_count(s.subrange(0, off as int))
}

/// The Line Index round-trips: for a row within range, the byte offset
/// reported for it begins a line, and re-scanning the buffer up to that
/// offset counts exactly that row number again.
pub proof fn lemma_row_start_round_trip(s: Seq<u8>, row: nat)
    requires
        row < spec_total_rows(s),
    ensures
        spec_line_start(s, row) <= s.len(),
        spec_row_of_offset(s, spec_line_start(s, row)) == row,
        spec_line_start(s, row) == 0 || s[spec_line_start(s, row) - 1] == NEWLINE,
{
    lemma_line_start_le_len(s, row);
    if row == 0 {
        assert(s.subrange(0, 0) =~= Seq::<u8>::empty());
    } else {
        assert(newline_count(s.subrange(0, s.len() as int)) > row - 1) by {
            assert(s.subrange(0, s.len() as int) =~= s);
        }
        lemma_newline_index_exists(s, 0, (row - 1) as nat);
        lemma_newline_index_props(s, 0, (row - 1) as nat);
    }
}

/// Appending a newline to a non-empty buffer adds exactly one row; the empty
/// buffer has no rows at all.
pub proof fn lemma_total_rows_push_newline(s: Seq<u8>)
    requires
        s.len() > 0,
    ensures
        spec_total_rows(s.push(NEWLINE)) == spec_total_rows(s) + 1,
        spec_total_rows(Seq::<u8>::empty()) == 0,
{
    lemma_newline_count_push(s, NEWLINE);
}

/// The decimal digit character for a value below ten.
pub open spec fn spec_digit(d: nat) -> char {
    if d == 0 {
        '0'
    } else if d == 1 {
        '1'
    } else if d == 2 {
        '2'
    } else if d == 3 {
        '3'
    } else if d == 4 {
        '4'
    } else if d == 5 {
        '5'
    } else if d == 6 {
        '6'
    } else if d == 7 {
        '7'
    } else if d == 8 {
        '8'
    } else {
        '9'
    }
}

/// Decimal rendering of `n`, most significant digit first, no leading zeros
/// (except for `n == 0`, which renders as a single `'0'`).
pub open spec fn spec_num(n: nat) -> Seq<char>
    decreases n,
{
    if n < 10 {
        seq![spec_digit(n)]
    } else {
        spec_num(n / 10).push(spec_digit(n % 10))
    }
}

/// `n` copies of the character `c`.
pub open spec fn spec_repeat(c: char, n: nat) -> Seq<char> {
    Seq::new(n, |i: int| c)
}

/// A decimal rendering is never longer than one digit per unit of value.
proof fn lemma_spec_num_len(n: nat)
    ensures
        1 <= spec_num(n).len() <= n + 1,
    decreases n,
{
    if n >= 10 {
        lemma_spec_num_len(n / 10);
    }
}

/// Append the single decimal digit `d` to `out`.
fn append_digit(out: &mut String, d: usize)
    requires
        d < 10,
    ensures
        final(out)@ == old(out)@ + seq![spec_digit(d as nat)],
{
    if d == 0 {
        out.append("0");
        proof {
            reveal_strlit("0");
            assert(out@ =~= old(out)@ + seq![spec_digit(d as nat)]);
        }
    } else if d == 1 {
        out.append("1");
        proof {
            reveal_strlit("1");
            assert(out@ =~= old(out)@ + seq![spec_digit(d as nat)]);
        }
    } else if d == 2 {
        out.append("2");
        proof {
            reveal_strlit("2");
            assert(out@ =~= old(out)@ + seq![spec_digit(d as nat)]);
        }
    } else if d == 3 {
        out.append("3");
        proof {
            reveal_strlit("3");
            assert(out@ =~= old(out)@ + seq![spec_digit(d as nat)]);
        }
    } else if d == 4 {
        out.append("4");
        proof {
            reveal_strlit("4");
            assert(out@ =~= old(out)@ + seq![spec_digit(d as nat)]);
        }
    } else if d == 5 {
        out.append("5");
        proof {
            reveal_strlit("5");
            assert(out@ =~= old(out)@ + seq![spec_digit(d as nat)]);
        }
    } else if d == 6 {
        out.append("6");
        proof {
            reveal_strlit("6");
            assert(out@ =~= old(out)@ + seq![spec_digit(d as nat)]);
        }
    } else if d == 7 {
        out.append("7");
        proof {
            reveal_strlit("7");
            assert(out@ =~= old(out)@ + seq![spec_digit(d as nat)]);
        }
    } else if d == 8 {
        out.append("8");
        proof {
            reveal_strlit("8");
            assert(out@ =~= old(out)@ + seq![spec_digit(d as nat)]);
        }
    } else {
        out.append("9");
        proof {
            reveal_strlit("9");
            assert(out@ =~= old(out)@ + seq![spec_digit(d as nat)]);
        }
    }
}

/// Append the decimal rendering of `n` to `out`.
pub fn append_num(out: &mut String, n: usize)
    ensures
        final(out)@ == old(out)@ + spec_num(n as nat),
    decreases n,
{
    if n >= 10 {
        append_num(out, n / 10);
        append_digit(out, n % 10);
        proof {
            assert(out@ =~= old(out)@ + spec_num(n as nat));
        }
    } else {
        append_digit(out, n);
    }
}

/// Number of characters in the decimal rendering of `n`.
pub fn digit_width(n: usize) -> (w: usize)
    ensures
        w == spec_num(n as nat).len(),
    decreases n,
{
    if n < 10 {
        1
    } else {
        proof {
            lemma_spec_num_len(n as nat / 10);
        }
        let rest = digit_width(n / 10);
        1 + rest
    }
}

/// Append `n` copies of the only character of `one` to `out`.
pub fn append_repeat(out: &mut String, one: &str, n: usize)
    requires
        one@.len() == 1,
    ensures
        final(out)@ == old(out)@ + spec_repeat(one@[0], n as nat),
{
    let mut i: usize = 0;
    while i < n
        invariant
            i <= n,
            one@.len() == 1,
            out@ == old(out)@ + spec_repeat(one@[0], i as nat),
        decreases n - i,
    {
        out.append(one);
        proof {
            assert(out@ =~= old(out)@ + spec_repeat(one@[0], (i + 1) as nat));
        }
        i += 1;
    }
}

} // verus!
