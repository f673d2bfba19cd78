//! Token extraction and number conversion over byte buffers.
use vstd::prelude::*;
use vstd::string::StringSliceAdditionalSpecFns;

verus! {

/// The value of a string of decimal digits.
pub open spec fn digits_value(d: Seq<u8>) -> int
    decreases d.len(),
{
    if d.len() == 0 {
        0
    } else {
        digits_value(d.drop_last()) * 10 + (d.last() - 48)
    }
}

pub open spec fn is_digit(c: u8) -> bool {
    48 <= c <= 57
}

pub open spec fn all_digits(d: Seq<u8>) -> bool {
    forall|i: int| 0 <= i < d.len() ==> is_digit(#[trigger] d[i])
}

/// Base-10 signed integer syntax: an optional `+` or `-`, then one or more
/// digits, with a value that fits in a cell.
pub open spec fn decimal(s: Seq<u8>) -> Option<i64> {
    let neg = s.len() > 0 && s[0] == 45u8;
    let signed = s.len() > 0 && (s[0] == 45u8 || s[0] == 43u8);
    let d = if signed { s.drop_first() } else { s };
    let v = if neg { -digits_value(d) } else { digits_value(d) };
    if d.len() == 0 || !all_digits(d) || v < i64::MIN || v > i64::MAX {
        None
    } else {
        Some(v as i64)
    }
}

/// The bound past which a digit string no longer fits a cell, either sign.
pub const NUMBER_CAP: i128 = 0x10000000000000000;

proof fn lemma_digits_nonneg(d: Seq<u8>)
    requires
        all_digits(d),
    ensures
        digits_value(d) >= 0,
    decreases d.len(),
{
    if d.len() > 0 {
        assert(all_digits(d.drop_last()));
        lemma_digits_nonneg(d.drop_last());
        assert(is_digit(d[d.len() - 1]));
    }
}

/// Parses a base-10 signed integer, as `decimal` states.
pub fn parse_decimal(s: &[u8]) -> (r: Option<i64>)
    ensures
        r == decimal(s@),
{
    let n = s.len();
    let mut i: usize = 0;
    let mut neg = false;
    if n > 0 && (s[0] == 45u8 || s[0] == 43u8) {
        neg = s[0] == 45u8;
        i = 1;
    }
    let start = i;
    let ghost d = s@.subrange(start as int, n as int);
    if start == n {
        assert(d.len() == 0);
        assert(if n > 0 && (s@[0] == 45u8 || s@[0] == 43u8) { s@.drop_first() =~= d } else { s@ =~= d });
        return None;
    }
    let mut acc: i128 = 0;
    while i < n
        invariant
            start <= i <= n,
            n == s@.len(),
            start == (if n > 0 && (s@[0] == 45u8 || s@[0] == 43u8) { 1usize } else { 0usize }),
            neg == (n > 0 && s@[0] == 45u8),
            d == s@.subrange(start as int, n as int),
            all_digits(s@.subrange(start as int, i as int)),
            0 <= acc <= NUMBER_CAP,
            acc == if digits_value(s@.subrange(start as int, i as int)) < NUMBER_CAP {
                digits_value(s@.subrange(start as int, i as int))
            } else {
                NUMBER_CAP as int
            },
        decreases n - i,
    {
        let c = s[i];
        if c < 48u8 || c > 57u8 {
            assert(!all_digits(d)) by {
                assert(d[i - start] == c);
            }
            assert(if n > 0 && (s@[0] == 45u8 || s@[0] == 43u8) { s@.drop_first() =~= d } else { s@ =~= d });
            return None;
        }
        let ghost prev = s@.subrange(start as int, i as int);
        let ghost next = s@.subrange(start as int, i + 1);
        assert(next.drop_last() =~= prev);
        assert(all_digits(next));
        proof {
            lemma_digits_nonneg(prev);
        }
        let dig = (c - 48u8) as i128;
        let grown = acc * 10 + dig;
        acc = if grown > NUMBER_CAP { NUMBER_CAP } else { grown };
        proof {
            let dv = digits_value(prev);
            assert(digits_value(next) == dv * 10 + dig);
            if dv >= NUMBER_CAP {
                assert(dv * 10 + dig >= NUMBER_CAP) by (nonlinear_arith)
                    requires
                        dv >= NUMBER_CAP,
                        dig >= 0,
                ;
            }
        }
        i = i + 1;
    }
    assert(s@.subrange(start as int, n as int) =~= d);
    assert(if n > 0 && (s@[0] == 45u8 || s@[0] == 43u8) { s@.drop_first() =~= d } else { s@ =~= d });
    if neg {
        if acc > 0x8000000000000000i128 {
            None
        } else {
            Some((-acc) as i64)
        }
    } else {
        if acc > 0x7fffffffffffffffi128 {
            None
        } else {
            Some(acc as i64)
        }
    }
}

/// Whether `s` reads as a base-10 signed integer that fits in a cell.
pub fn u_is_integer(s: &str) -> (r: bool)
    ensures
        r == (decimal(s.spec_bytes()) is Some),
{
    parse_decimal(s.as_bytes()).is_some()
}

/// The number of leading delimiter bytes of `b` (before `end`).
pub open spec fn skipped(b: Seq<u8>, delim: u8, i: int, end: int) -> bool {
    &&& 0 <= i <= end
    &&& forall|k: int| 0 <= k < i ==> #[trigger] b[k] == delim
    &&& (i == end || b[i] != delim)
}

/// The token that starts at `i` ends at `j` (before `end`).
pub open spec fn token_end(b: Seq<u8>, delim: u8, i: int, j: int, end: int) -> bool {
    &&& i <= j <= end
    &&& forall|k: int| i <= k < j ==> #[trigger] b[k] != delim
    &&& (j == end || b[j] == delim)
}

/// Scans the first `end` bytes of `b`: skips leading `delim` bytes, then
/// runs to the next `delim` or to `end`. Returns the number of bytes skipped
/// and the token's length.
pub fn scan_token(b: &[u8], end: usize, delim: u8) -> (r: (usize, usize))
    requires
        end <= b@.len(),
    ensures
        skipped(b@, delim, r.0 as int, end as int),
        token_end(b@, delim, r.0 as int, r.0 + r.1, end as int),
{
    let mut i: usize = 0;
    while i < end && b[i] == delim
        invariant
            i <= end,
            end <= b@.len(),
            forall|k: int| 0 <= k < i ==> #[trigger] b@[k] == delim,
        decreases end - i,
    {
        i = i + 1;
    }
    let mut j: usize = i;
    while j < end && b[j] != delim
        invariant
            i <= j <= end,
            end <= b@.len(),
            forall|k: int| i <= k < j ==> #[trigger] b@[k] != delim,
        decreases end - j,
    {
        j = j + 1;
    }
    (i, j - i)
}

} // verus!
