//! Decimal numerals: reading integers from text and writing them.

use vstd::prelude::*;
use crate::text::{ascii_digit, chars_of, is_ascii_digit, string_of};

verus! {

/// The character of a digit `0..=9`.
pub open spec fn digit_char(d: int) -> char {
    (('0' as u8) + d) as u8 as char
}

/// The value of an ASCII digit.
pub open spec fn digit_value(c: char) -> int {
    (c as u8) - ('0' as u8)
}

/// The decimal numeral of `n`, without leading zeros.
pub open spec fn decimal(n: nat) -> Seq<char>
    decreases n,
{
    if n < 10 {
        seq![digit_char(n as int)]
    } else {
        decimal(n / 10).push(digit_char((n % 10) as int))
    }
}

/// `count` zeros.
pub open spec fn zeros(count: int) -> Seq<char> {
    Seq::new(
        if count > 0 {
            count as nat
        } else {
            0
        },
        |i: int| '0',
    )
}

/// The decimal numeral of `i`, with a minus sign where it is negative.
pub open spec fn int_text(i: int) -> Seq<char> {
    if i < 0 {
        seq!['-'] + decimal((-i) as nat)
    } else {
        decimal(i as nat)
    }
}

/// The decimal numeral of `i`, filled with zeros after the sign up to `width`
/// characters in all.
pub open spec fn zero_padded(i: int, width: int) -> Seq<char> {
    if i < 0 {
        seq!['-'] + zeros(width - 1 - decimal((-i) as nat).len()) + decimal((-i) as nat)
    } else {
        zeros(width - decimal(i as nat).len()) + decimal(i as nat)
    }
}

pub proof fn lemma_decimal_len(n: nat)
    ensures
        1 <= decimal(n).len(),
        n <= u64::MAX ==> decimal(n).len() <= 20,
        n < 10 ==> decimal(n).len() == 1,
        10 <= n < 100 ==> decimal(n).len() == 2,
        100 <= n < 1000 ==> decimal(n).len() == 3,
        1000 <= n < 10000 ==> decimal(n).len() == 4,
{
    reveal_with_fuel(decimal, 5);
    if n <= u64::MAX {
        reveal_with_fuel(pow10, 21);
        assert(pow10(20) == 100000000000000000000);
        lemma_decimal_len_bound(n, 20);
    }
}

spec fn pow10(e: nat) -> nat
    decreases e,
{
    if e == 0 {
        1
    } else {
        10 * pow10((e - 1) as nat)
    }
}

proof fn lemma_decimal_len_bound(n: nat, e: nat)
    requires
        n < pow10(e),
        e >= 1,
    ensures
        decimal(n).len() <= e,
    decreases n,
{
    if n >= 10 {
        assert(pow10(e) == 10 * pow10((e - 1) as nat));
        if e == 1 {
            assert(pow10(0) == 1);
        } else {
            lemma_decimal_len_bound(n / 10, (e - 1) as nat);
        }
    }
}

/// Appends the decimal numeral of `n` to `out`.
pub fn push_decimal(out: &mut Vec<char>, n: u64)
    ensures
        final(out)@ == old(out)@ + decimal(n as nat),
    decreases n,
{
    if n >= 10 {
        push_decimal(out, n / 10);
    }
    let d: u8 = (n % 10) as u8;
    out.push((48u8 + d) as char);
    assert(final(out)@ =~= old(out)@ + decimal(n as nat));
}

/// Appends `count` zeros to `out`.
pub fn push_zeros(out: &mut Vec<char>, count: usize)
    ensures
        final(out)@ == old(out)@ + zeros(count as int),
{
    let ghost before = out@;
    let mut i: usize = 0;
    while i < count
        invariant
            i <= count,
            out@ == before + zeros(i as int),
        decreases count - i,
    {
        out.push('0');
        i += 1;
        assert(out@ =~= before + zeros(i as int));
    }
}

/// Appends the numeral of `i`, zero-filled to `width`, to `out`.
pub fn push_padded(out: &mut Vec<char>, i: i64, width: usize)
    requires
        width <= 32,
    ensures
        final(out)@ == old(out)@ + zero_padded(i as int, width as int),
{
    let ghost before = out@;
    let magnitude: u64 = if i < 0 {
        (-(i as i128)) as u64
    } else {
        i as u64
    };
    let mut digits: Vec<char> = Vec::new();
    push_decimal(&mut digits, magnitude);
    assert(digits@ =~= decimal(magnitude as nat));
    proof {
        lemma_decimal_len(magnitude as nat);
    }
    let mut used: usize = digits.len();
    if i < 0 {
        out.push('-');
        used += 1;
    }
    if used < width {
        push_zeros(out, width - used);
    } else {
        assert(out@ + zeros(width - used) =~= out@);
    }
    let mut k: usize = 0;
    let ghost mid = out@;
    while k < digits.len()
        invariant
            k <= digits.len(),
            out@ == mid + digits@.take(k as int),
        decreases digits.len() - k,
    {
        out.push(digits[k]);
        k += 1;
        assert(out@ =~= mid + digits@.take(k as int));
    }
    assert(digits@.take(digits.len() as int) =~= digits@);
    assert(out@ =~= before + zero_padded(i as int, width as int));
}

/// The decimal numeral of `i`.
pub fn int_to_string(i: i64) -> (out: String)
    ensures
        out@ == int_text(i as int),
{
    let mut v: Vec<char> = Vec::new();
    push_padded(&mut v, i, 0);
    proof {
        let m = if i < 0 {
            decimal((-i) as nat)
        } else {
            decimal(i as nat)
        };
        assert(zeros(0 - m.len()) =~= Seq::<char>::empty());
        assert(zeros(0 - 1 - m.len()) =~= Seq::<char>::empty());
        assert(v@ =~= int_text(i as int));
    }
    string_of(&v)
}

/// The decimal numeral of `n`.
pub fn usize_to_string(n: usize) -> (out: String)
    ensures
        out@ == decimal(n as nat),
{
    let mut v: Vec<char> = Vec::new();
    push_decimal(&mut v, n as u64);
    assert(v@ =~= decimal(n as nat));
    string_of(&v)
}

// ---------------------------------------------------------------------------
// Reading
// ---------------------------------------------------------------------------

pub open spec fn all_digits(s: Seq<char>) -> bool {
    forall|i: int| 0 <= i < s.len() ==> is_ascii_digit(#[trigger] s[i])
}

/// The number that a run of ASCII digits denotes.
pub open spec fn digits_value(s: Seq<char>) -> nat
    decreases s.len(),
{
    if s.len() == 0 {
        0
    } else {
        (digits_value(s.drop_last()) * 10 + digit_value(s.last())) as nat
    }
}

/// The numeral of a number is made of digits and reads back as the number.
pub proof fn lemma_decimal_reads_back(n: nat)
    ensures
        all_digits(decimal(n)),
        digits_value(decimal(n)) == n,
        decimal(n).len() >= 1,
    decreases n,
{
    if n < 10 {
        let s = decimal(n);
        assert(s.len() == 1);
        assert(is_ascii_digit(s[0]));
        assert(s.drop_last() =~= Seq::<char>::empty());
        assert(digits_value(s.drop_last()) == 0);
        assert(digit_value(s.last()) == n);
    } else {
        lemma_decimal_reads_back(n / 10);
        let front = decimal(n / 10);
        let s = decimal(n);
        assert(s.drop_last() =~= front);
        assert(is_ascii_digit(s.last()));
        assert(digit_value(s.last()) == n % 10);
        assert forall|i: int| 0 <= i < s.len() implies is_ascii_digit(#[trigger] s[i]) by {
            if i < front.len() {
                assert(s[i] == front[i]);
            }
        }
    }
}

/// The numeral of an integer reads back as the integer.
pub proof fn lemma_int_text_reads_back(i: i32)
    ensures
        parse_i32_of(int_text(i as int)) == Some(i),
{
    let s = int_text(i as int);
    if i < 0 {
        let n = (-(i as int)) as nat;
        lemma_decimal_reads_back(n);
        assert(s[0] == '-');
        assert(s.drop_first() =~= decimal(n));
    } else {
        lemma_decimal_reads_back(i as nat);
        assert(is_ascii_digit(s[0]));
    }
}

/// Whether `s` is exactly four ASCII digits.
pub open spec fn four_digits(s: Seq<char>) -> bool {
    s.len() == 4 && all_digits(s)
}

/// Says whether a text is exactly four ASCII digits.
pub fn is_four_digits(s: &str) -> (r: bool)
    ensures
        r == four_digits(s@),
{
    let v = chars_of(s);
    if v.len() != 4 {
        return false;
    }
    let mut i: usize = 0;
    while i < 4
        invariant
            i <= 4,
            v.len() == 4,
            v@ == s@,
            forall|j: int| 0 <= j < i ==> is_ascii_digit(#[trigger] v@[j]),
        decreases 4 - i,
    {
        if !ascii_digit(v[i]) {
            assert(!is_ascii_digit(s@[i as int]));
            return false;
        }
        i += 1;
    }
    true
}

/// The integer that `s` denotes: an optional sign (`-` only where
/// `allow_minus`), then at least one ASCII digit and nothing else.
pub open spec fn parse_int(s: Seq<char>, allow_minus: bool) -> Option<int> {
    if s.len() > 0 && (s[0] == '+' || s[0] == '-') {
        let rest = s.drop_first();
        if rest.len() == 0 || !all_digits(rest) || (s[0] == '-' && !allow_minus) {
            None
        } else if s[0] == '-' {
            Some(-(digits_value(rest) as int))
        } else {
            Some(digits_value(rest) as int)
        }
    } else if s.len() > 0 && all_digits(s) {
        Some(digits_value(s) as int)
    } else {
        None
    }
}

/// `parse_int`, where the value lies in `lo..=hi`.
pub open spec fn parse_within(s: Seq<char>, allow_minus: bool, lo: int, hi: int) -> Option<int> {
    match parse_int(s, allow_minus) {
        Some(v) => if lo <= v <= hi {
            Some(v)
        } else {
            None
        },
        None => None,
    }
}

pub open spec fn parse_i32_of(s: Seq<char>) -> Option<i32> {
    match parse_within(s, true, i32::MIN as int, i32::MAX as int) {
        Some(v) => Some(v as i32),
        None => None,
    }
}

pub open spec fn parse_u8_of(s: Seq<char>) -> Option<u8> {
    match parse_within(s, false, 0, u8::MAX as int) {
        Some(v) => Some(v as u8),
        None => None,
    }
}

pub open spec fn parse_usize_of(s: Seq<char>) -> Option<usize> {
    match parse_within(s, false, 0, usize::MAX as int) {
        Some(v) => Some(v as usize),
        None => None,
    }
}

proof fn lemma_digits_value_monotone(s: Seq<char>, k: int)
    requires
        0 <= k <= s.len(),
        all_digits(s),
    ensures
        digits_value(s.take(k)) <= digits_value(s),
    decreases s.len() - k,
{
    if k < s.len() {
        lemma_digits_value_monotone(s, k + 1);
        assert(s.take(k + 1).drop_last() =~= s.take(k));
        assert(is_ascii_digit(s[k]));
    } else {
        assert(s.take(k) =~= s);
    }
}

/// The value of the digits `v[from..]`, where they are all digits, there is
/// at least one, and the value is at most `limit`.
fn read_digits(v: &Vec<char>, from: usize, limit: u64) -> (r: Option<u64>)
    requires
        from <= v.len(),
    ensures
        r == ({
            let rest = v@.subrange(from as int, v.len() as int);
            if rest.len() > 0 && all_digits(rest) && digits_value(rest) <= limit {
                Some(digits_value(rest) as u64)
            } else {
                None
            }
        }),
{
    let ghost rest = v@.subrange(from as int, v.len() as int);
    if from == v.len() {
        return None;
    }
    let mut acc: u64 = 0;
    let mut i: usize = from;
    assert(rest.take(0) =~= Seq::<char>::empty());
    while i < v.len()
        invariant
            from <= i <= v.len(),
            rest == v@.subrange(from as int, v.len() as int),
            all_digits(rest.take(i - from)),
            acc == digits_value(rest.take(i - from)),
            acc <= limit,
        decreases v.len() - i,
    {
        let c = v[i];
        assert(rest[i - from] == c);
        if !(('0' <= c) && (c <= '9')) {
            return None;
        }
        let d: u64 = (c as u8 - 48u8) as u64;
        proof {
            assert(rest.take(i - from + 1).drop_last() =~= rest.take(i - from));
            assert(rest.take(i - from + 1).last() == c);
            assert forall|j: int| 0 <= j < i - from + 1 implies is_ascii_digit(
                #[trigger] rest.take(i - from + 1)[j],
            ) by {
                if j < i - from {
                    assert(rest.take(i - from)[j] == rest.take(i - from + 1)[j]);
                }
            }
        }
        if d > limit || acc > (limit - d) / 10 {
            proof {
                assert(digits_value(rest.take(i - from + 1)) > limit);
                if all_digits(rest) {
                    lemma_digits_value_monotone(rest, i - from + 1);
                }
            }
            return None;
        }
        acc = acc * 10 + d;
        i += 1;
    }
    assert(rest.take(v.len() - from) =~= rest);
    Some(acc)
}

/// The value of the digits `v[from..to]`, where they are all digits and the
/// value is at most `limit`; no digits have the value 0.
pub fn read_digit_range(v: &Vec<char>, from: usize, to: usize, limit: u64) -> (r: Option<u64>)
    requires
        from <= to <= v.len(),
    ensures
        r == ({
            let part = v@.subrange(from as int, to as int);
            if all_digits(part) && digits_value(part) <= limit {
                Some(digits_value(part) as u64)
            } else {
                None
            }
        }),
{
    let ghost part = v@.subrange(from as int, to as int);
    let mut acc: u64 = 0;
    let mut i: usize = from;
    assert(part.take(0) =~= Seq::<char>::empty());
    while i < to
        invariant
            from <= i <= to <= v.len(),
            part == v@.subrange(from as int, to as int),
            all_digits(part.take(i - from)),
            acc == digits_value(part.take(i - from)),
            acc <= limit,
        decreases to - i,
    {
        let c = v[i];
        assert(part[i - from] == c);
        if !(('0' <= c) && (c <= '9')) {
            return None;
        }
        let d: u64 = (c as u8 - 48u8) as u64;
        proof {
            assert(part.take(i - from + 1).drop_last() =~= part.take(i - from));
            assert(part.take(i - from + 1).last() == c);
            assert forall|j: int| 0 <= j < i - from + 1 implies is_ascii_digit(
                #[trigger] part.take(i - from + 1)[j],
            ) by {
                if j < i - from {
                    assert(part.take(i - from)[j] == part.take(i - from + 1)[j]);
                }
            }
        }
        if d > limit || acc > (limit - d) / 10 {
            proof {
                assert(digits_value(part.take(i - from + 1)) > limit);
                if all_digits(part) {
                    lemma_digits_value_monotone(part, i - from + 1);
                }
            }
            return None;
        }
        acc = acc * 10 + d;
        i += 1;
    }
    assert(part.take(to - from) =~= part);
    Some(acc)
}

/// Reads an integer in `lo..=hi` from `s`.
pub fn parse_bounded(s: &str, allow_minus: bool, lo: i64, hi: u64) -> (r: Option<(bool, u64)>)
    requires
        lo <= 0,
    ensures
        match parse_within(s@, allow_minus, lo as int, hi as int) {
            Some(v) => r == Some((v < 0, (if v < 0 {
                -v
            } else {
                v
            }) as u64)),
            None => r is None,
        },
{
    let v = chars_of(s);
    if v.len() == 0 {
        return None;
    }
    let first = v[0];
    let signed = first == '+' || first == '-';
    let from: usize = if signed {
        1
    } else {
        0
    };
    assert(v@.subrange(0, v.len() as int) =~= v@);
    assert(v@.subrange(1, v.len() as int) =~= v@.drop_first());
    if first == '-' {
        if !allow_minus {
            return None;
        }
        let limit: u64 = (-(lo as i128)) as u64;
        match read_digits(&v, from, limit) {
            Some(m) => Some((m > 0, m)),
            None => None,
        }
    } else {
        match read_digits(&v, from, hi) {
            Some(m) => Some((false, m)),
            None => None,
        }
    }
}

/// Reads an `i32` as `str::parse::<i32>` does.
pub fn parse_i32(s: &str) -> (r: Option<i32>)
    ensures
        r == parse_i32_of(s@),
{
    match parse_bounded(s, true, i32::MIN as i64, i32::MAX as u64) {
        Some((negative, m)) => if negative {
            Some((-(m as i64)) as i32)
        } else {
            Some(m as i32)
        },
        None => None,
    }
}

/// Reads a `u8` as `str::parse::<u8>` does.
pub fn parse_u8(s: &str) -> (r: Option<u8>)
    ensures
        r == parse_u8_of(s@),
{
    match parse_bounded(s, false, 0, u8::MAX as u64) {
        Some((_, m)) => Some(m as u8),
        None => None,
    }
}

/// Reads a `usize` as `str::parse::<usize>` does.
pub fn parse_usize(s: &str) -> (r: Option<usize>)
    ensures
        r == parse_usize_of(s@),
{
    match parse_bounded(s, false, 0, usize::MAX as u64) {
        Some((_, m)) => Some(m as usize),
        None => None,
    }
}

} // verus!
