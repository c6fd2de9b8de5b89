//! Command-line–facing helpers: the parsed argument record, the context
//! line-count parser, and the source-file extension check.

use crate::report::Opts;
use vstd::prelude::*;
use vstd::string::{StrSliceExecFns, StringExecFns};

verus! {

/// The command line arguments, after parsing: the source files to lint,
/// the output switches, and the context line counts.
#[derive(Debug)]
pub struct Args {
    /// The BPF C source files to lint, one group per argument.
    pub srcs: Vec<Vec<String>>,
    /// Print a list of available lints.
    pub print_lints: bool,
    /// Increase verbosity (can be supplied multiple times).
    pub verbosity: u8,
    /// Number of lines to show before the error line.
    pub before: Option<u8>,
    /// Number of lines to show after the error line.
    pub after: Option<u8>,
    /// Number of lines to show before and after the error line.
    pub context: Option<u8>,
}

impl Args {
    /// The effective context configuration: the shared count when one was
    /// given, else the two individual counts, and no configuration at all
    /// when both come out as zero.
    pub open spec fn spec_additional_options(self) -> Opts {
        let b = match self.context {
            Some(c) => c,
            None => match self.before {
                Some(x) => x,
                None => 0u8,
            },
        };
        let a = match self.context {
            Some(c) => c,
            None => match self.after {
                Some(x) => x,
                None => 0u8,
            },
        };
        if b == 0 && a == 0 {
            Opts { extra_lines: None }
        } else {
            Opts { extra_lines: Some((b, a)) }
        }
    }

    /// Calculate the effective context configuration.
    pub fn additional_options(&self) -> (r: Opts)
        ensures
            r == self.spec_additional_options(),
    {
        let (before, after) = if let Some(context) = self.context {
            // A shared count sets both before and after to the same value
            (context, context)
        } else {
            // Use the individual values directly (they can be combined)
            let b = match self.before {
                Some(b) => b,
                None => 0,
            };
            let a = match self.after {
                Some(a) => a,
                None => 0,
            };
            (b, a)
        };
        // If both are 0 (the default), use no extra context at all
        if before == 0 && after == 0 {
            Opts { extra_lines: None }
        } else {
            Opts { extra_lines: Some((before, after)) }
        }
    }
}

/// Whether `c` is a decimal digit.
pub open spec fn is_dec_digit(c: char) -> bool {
    48 <= c as int <= 57
}

/// The numeric value of a decimal digit character.
pub open spec fn digit_val(c: char) -> nat {
    (c as int - 48) as nat
}

/// Whether every character of `s` is a decimal digit.
pub open spec fn dec_digits(s: Seq<char>) -> bool {
    forall|i: int| 0 <= i < s.len() ==> is_dec_digit(#[trigger] s[i])
}

/// The value of a sequence of decimal digit characters.
pub open spec fn dec_value(s: Seq<char>) -> nat
    decreases s.len(),
{
    if s.len() == 0 {
        0
    } else {
        dec_value(s.drop_last()) * 10 + digit_val(s.last())
    }
}

/// The digit part of an unsigned integer literal: everything after an
/// optional leading plus sign.
pub open spec fn spec_digits_part(s: Seq<char>) -> Seq<char> {
    if s.len() > 0 && s[0] == '+' {
        s.drop_first()
    } else {
        s
    }
}

/// Whether `s` is a valid `u8` literal: an optional leading plus sign,
/// then at least one decimal digit, with a value of at most 255.
pub open spec fn parses_as_u8(s: Seq<char>) -> bool {
    let d = spec_digits_part(s);
    d.len() > 0 && dec_digits(d) && dec_value(d) <= 255
}

/// The complaint returned for an input that is no valid context count.
pub open spec fn spec_count_error(s: Seq<char>) -> Seq<char> {
    "invalid context line count: '"@ + s + "' (must be 0-255)"@
}

/// A digit prefix never exceeds the value of the whole digit sequence.
proof fn lemma_dec_value_prefix(s: Seq<char>, k: int)
    requires
        0 <= k <= s.len(),
    ensures
        dec_value(s.subrange(0, k)) <= dec_value(s),
    decreases s.len(),
{
    if k == s.len() {
        assert(s.subrange(0, k) =~= s);
    } else {
        lemma_dec_value_prefix(s.drop_last(), k);
        assert(s.drop_last().subrange(0, k) =~= s.subrange(0, k));
    }
}

/// The complaint for an input that is no valid context count.
fn count_error(s: &str) -> (r: String)
    ensures
        r@ == spec_count_error(s@),
{
    let mut msg = String::new();
    msg.append("invalid context line count: '");
    msg.append(s);
    msg.append("' (must be 0-255)");
    proof {
        assert(msg@ =~= spec_count_error(s@));
    }
    msg
}

/// Parse a context line count, with a clear complaint when the input is
/// invalid.
///
/// The input is expected to be a number from 0 to 255 inclusive; an
/// optional leading plus sign is accepted, anything else — an empty
/// input, another non-digit character, or a value above 255 — is not.
pub fn parse_context_line_count(s: &str) -> (r: Result<u8, String>)
    ensures
        (r is Ok) == parses_as_u8(s@),
        r matches Ok(v) ==> v as nat == dec_value(spec_digits_part(s@)),
        r matches Err(e) ==> e@ == spec_count_error(s@),
{
    let n = s.unicode_len();
    let offset: usize = if n > 0 && s.get_char(0) == '+' {
        1
    } else {
        0
    };
    proof {
        if offset == 1 {
            assert(spec_digits_part(s@) =~= s@.subrange(1, n as int));
        } else {
            assert(spec_digits_part(s@) =~= s@.subrange(0, n as int));
        }
    }
    if n == offset {
        return Err(count_error(s));
    }
    let mut acc: u32 = 0;
    let mut j = offset;
    while j < n
        invariant
            offset <= j <= n,
            n == s@.len(),
            offset == 0 || offset == 1,
            spec_digits_part(s@) == s@.subrange(offset as int, n as int),
            forall|k: int| offset <= k < j ==> is_dec_digit(#[trigger] s@[k]),
            acc as nat == dec_value(s@.subrange(offset as int, j as int)),
            acc <= 255,
        decreases n - j,
    {
        let c = s.get_char(j);
        let cv = c as u32;
        if cv < 48 || cv > 57 {
            proof {
                assert(!is_dec_digit(spec_digits_part(s@)[j - offset]));
            }
            return Err(count_error(s));
        }
        acc = acc * 10 + (cv - 48);
        proof {
            assert(s@.subrange(offset as int, j + 1).drop_last() =~= s@.subrange(
                offset as int,
                j as int,
            ));
            assert(s@.subrange(offset as int, j + 1).last() == s@[j as int]);
        }
        if acc > 255 {
            proof {
                let d = spec_digits_part(s@);
                if dec_digits(d) {
                    lemma_dec_value_prefix(d, j + 1 - offset);
                    assert(d.subrange(0, j + 1 - offset) =~= s@.subrange(offset as int, j + 1));
                }
            }
            return Err(count_error(s));
        }
        j += 1;
    }
    proof {
        assert(dec_digits(spec_digits_part(s@)));
    }
    Ok(acc as u8)
}

/// What is left of a path after trailing separators are dropped.
pub open spec fn spec_trim_trailing_slashes(p: Seq<char>) -> Seq<char>
    decreases p.len(),
{
    if p.len() > 0 && p.last() == '/' {
        spec_trim_trailing_slashes(p.drop_last())
    } else {
        p
    }
}

/// The suffix after the last separator.
pub open spec fn spec_after_last_slash(p: Seq<char>) -> Seq<char>
    decreases p.len(),
{
    if p.len() == 0 {
        p
    } else if p.last() == '/' {
        Seq::empty()
    } else {
        spec_after_last_slash(p.drop_last()).push(p.last())
    }
}

/// The file name of a path: the part after the last separator, trailing
/// separators dropped first.
pub open spec fn spec_file_name(p: Seq<char>) -> Seq<char> {
    spec_after_last_slash(spec_trim_trailing_slashes(p))
}

/// The conventional extension of BPF C source files.
pub open spec fn spec_bpf_c_ext() -> Seq<char> {
    seq!['.', 'b', 'p', 'f', '.', 'c']
}

/// Whether a path's file name carries the conventional BPF C extension.
pub open spec fn spec_has_bpf_c_ext(p: Seq<char>) -> bool {
    let f = spec_file_name(p);
    f.len() >= 6 && f.subrange(f.len() - 6, f.len() as int) == spec_bpf_c_ext()
}

/// Where everything from `b` on is free of separators and `b` sits right
/// after one (or at the start), the suffix after the last separator is
/// exactly the part from `b` on.
proof fn lemma_after_last_slash(q: Seq<char>, b: int)
    requires
        0 <= b <= q.len(),
        forall|k: int| b <= k < q.len() ==> q[k] != '/',
        b > 0 ==> q[b - 1] == '/',
    ensures
        spec_after_last_slash(q) == q.subrange(b, q.len() as int),
    decreases q.len(),
{
    if q.len() == b {
        if b == 0 {
            assert(q.subrange(0, 0) =~= q);
        } else {
            assert(q.subrange(b, q.len() as int) =~= Seq::<char>::empty());
        }
    } else {
        assert(q.last() != '/');
        lemma_after_last_slash(q.drop_last(), b);
        assert(q.drop_last().subrange(b, q.len() - 1) =~= q.subrange(b, q.len() - 1));
        assert(q.subrange(b, q.len() - 1).push(q.last()) =~= q.subrange(b, q.len() as int));
    }
}

/// Whether the path names a file with the conventional `.bpf.c` extension
/// of BPF C source code.
pub fn has_bpf_c_ext(path: &str) -> (r: bool)
    ensures
        r == spec_has_bpf_c_ext(path@),
{
    let n = path.unicode_len();
    proof {
        assert(path@.subrange(0, n as int) =~= path@);
    }
    let mut t = n;
    while t > 0 && path.get_char(t - 1) == '/'
        invariant
            t <= n,
            n == path@.len(),
            spec_trim_trailing_slashes(path@) == spec_trim_trailing_slashes(
                path@.subrange(0, t as int),
            ),
        decreases t,
    {
        proof {
            assert(path@.subrange(0, t as int).drop_last() =~= path@.subrange(0, t - 1));
        }
        t -= 1;
    }
    proof {
        assert(spec_trim_trailing_slashes(path@) == path@.subrange(0, t as int));
    }
    let mut b = t;
    while b > 0 && path.get_char(b - 1) != '/'
        invariant
            b <= t,
            t <= n,
            n == path@.len(),
            forall|k: int| b <= k < t ==> path@[k] != '/',
        decreases b,
    {
        b -= 1;
    }
    proof {
        lemma_after_last_slash(path@.subrange(0, t as int), b as int);
        assert(path@.subrange(0, t as int).subrange(b as int, t as int) =~= path@.subrange(
            b as int,
            t as int,
        ));
        assert(spec_file_name(path@) == path@.subrange(b as int, t as int));
    }
    if t - b < 6 {
        return false;
    }
    let matches = path.get_char(t - 6) == '.' && path.get_char(t - 5) == 'b' && path.get_char(
        t - 4,
    ) == 'p' && path.get_char(t - 3) == 'f' && path.get_char(t - 2) == '.' && path.get_char(t - 1)
        == 'c';
    proof {
        let f = spec_file_name(path@);
        if matches {
            assert(f.subrange(f.len() - 6, f.len() as int) =~= spec_bpf_c_ext());
        } else {
            if f.subrange(f.len() - 6, f.len() as int) == spec_bpf_c_ext() {
                assert(forall|i: int|
                    0 <= i < 6 ==> #[trigger] f.subrange(f.len() - 6, f.len() as int)[i]
                        == spec_bpf_c_ext()[i]);
                assert(false);
            }
        }
    }
    matches
}

} // verus!
