//! Confidence values: decimal fractions, kept in ten-thousandths.

use vstd::prelude::*;
use crate::numbers::{all_digits, digit_value, digits_value, read_digit_range};
use crate::text::{chars_of, find_char, first_index_of, lemma_first_index_of};

verus! {

/// The largest whole part that a confidence may have.
pub const WHOLE_LIMIT: u64 = 100_000_000_000;

/// The value of the digit at index `i`; 0 behind the end.
pub open spec fn digit_at(s: Seq<char>, i: int) -> int {
    if 0 <= i < s.len() {
        digit_value(s[i])
    } else {
        0
    }
}

/// The ten-thousandths that the digits behind the point stand for, the
/// fifth digit rounding the fourth.
pub open spec fn fraction_units(fraction: Seq<char>) -> int {
    digit_at(fraction, 0) * 1000 + digit_at(fraction, 1) * 100 + digit_at(fraction, 2) * 10
        + digit_at(fraction, 3) + (if digit_at(fraction, 4) >= 5 {
        1int
    } else {
        0int
    })
}

/// The ten-thousandths of a numeral without a sign: digits, then a point
/// and more digits if there are any, with a digit on one side of the point
/// at least.
pub open spec fn unsigned_confidence(body: Seq<char>) -> Option<int> {
    let (whole, fraction, pointed) = match first_index_of(body, '.') {
        Some(i) => (body.take(i), body.skip(i + 1), true),
        None => (body, Seq::<char>::empty(), false),
    };
    if all_digits(whole) && all_digits(fraction) && whole.len() + fraction.len() > 0 && (pointed
        || whole.len() > 0) && digits_value(whole) <= WHOLE_LIMIT {
        Some(digits_value(whole) * 10000 + fraction_units(fraction))
    } else {
        None
    }
}

/// The confidence that a text names, in ten-thousandths: an optional sign
/// and a decimal numeral such as `0.95`, `1` or `.5`.
pub open spec fn confidence_of(text: Seq<char>) -> Option<i64> {
    if text.len() > 0 && (text[0] == '+' || text[0] == '-') {
        match unsigned_confidence(text.drop_first()) {
            Some(v) => Some(
                (if text[0] == '-' {
                    -v
                } else {
                    v
                }) as i64,
            ),
            None => None,
        }
    } else {
        match unsigned_confidence(text) {
            Some(v) => Some(v as i64),
            None => None,
        }
    }
}

fn digit_or_zero(v: &Vec<char>, i: usize) -> (d: i64)
    requires
        forall|k: int| 0 <= k < v.len() ==> crate::text::is_ascii_digit(#[trigger] v@[k]),
    ensures
        d == digit_at(v@, i as int),
        0 <= d <= 9,
{
    if i < v.len() {
        (v[i] as u8 - 48u8) as i64
    } else {
        0
    }
}

fn read_unsigned(body: &Vec<char>) -> (r: Option<i64>)
    ensures
        match r {
            Some(v) => unsigned_confidence(body@) == Some(v as int) && 0 <= v
                <= 1_000_000_000_000_000 + 10_000,
            None => unsigned_confidence(body@) is None,
        },
{
    let n = body.len();
    let (whole_end, fraction_start, pointed) = match find_char(body, '.') {
        Some(i) => (i, i + 1, true),
        None => (n, n, false),
    };
    proof {
        lemma_first_index_of(body@, '.');
        assert(body@.subrange(0, whole_end as int) =~= body@.take(whole_end as int));
        if pointed {
            assert(body@.subrange(fraction_start as int, n as int) =~= body@.skip(
                fraction_start as int,
            ));
        } else {
            assert(body@.subrange(0, n as int) =~= body@);
            assert(body@.subrange(n as int, n as int) =~= Seq::<char>::empty());
        }
    }
    let whole = match read_digit_range(body, 0, whole_end, WHOLE_LIMIT) {
        Some(w) => w,
        None => {
            return None;
        },
    };
    let mut fraction: Vec<char> = Vec::new();
    let mut k: usize = fraction_start;
    while k < n
        invariant
            fraction_start <= k <= n,
            n == body.len(),
            match first_index_of(body@, '.') {
                Some(i) => pointed && i == whole_end && fraction_start == i + 1,
                None => !pointed && whole_end == n && fraction_start == n,
            },
            fraction@ == body@.subrange(fraction_start as int, k as int),
            forall|j: int| 0 <= j < fraction.len() ==> crate::text::is_ascii_digit(
                #[trigger] fraction@[j],
            ),
        decreases n - k,
    {
        let c = body[k];
        if !(('0' <= c) && (c <= '9')) {
            proof {
                let all = body@.skip(fraction_start as int);
                assert(all[k - fraction_start] == c);
                assert(!crate::text::is_ascii_digit(all[k - fraction_start]));
            }
            return None;
        }
        fraction.push(c);
        k += 1;
        assert(fraction@ =~= body@.subrange(fraction_start as int, k as int));
    }
    if whole_end + fraction.len() == 0 || (!pointed && whole_end == 0) {
        return None;
    }
    let units: i64 = digit_or_zero(&fraction, 0) * 1000 + digit_or_zero(&fraction, 1) * 100
        + digit_or_zero(&fraction, 2) * 10 + digit_or_zero(&fraction, 3) + (if digit_or_zero(
        &fraction,
        4,
    ) >= 5 {
        1
    } else {
        0
    });
    Some(whole as i64 * 10000 + units)
}

/// Reads a confidence.
pub fn parse_confidence(text: &str) -> (r: Option<i64>)
    ensures
        r == confidence_of(text@),
{
    let v = chars_of(text);
    if v.len() > 0 && (v[0] == '+' || v[0] == '-') {
        let mut body: Vec<char> = Vec::new();
        let mut i: usize = 1;
        while i < v.len()
            invariant
                1 <= i <= v.len(),
                body@ == v@.subrange(1, i as int),
            decreases v.len() - i,
        {
            body.push(v[i]);
            i += 1;
            assert(body@ =~= v@.subrange(1, i as int));
        }
        assert(v@.subrange(1, v.len() as int) =~= v@.drop_first());
        match read_unsigned(&body) {
            Some(value) => Some(
                if v[0] == '-' {
                    -value
                } else {
                    value
                },
            ),
            None => None,
        }
    } else {
        read_unsigned(&v)
    }
}

} // verus!
