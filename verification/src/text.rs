//! Character and string helpers shared by the whole crate.
//!
//! Every string is modelled by its sequence of characters (`s@`); byte lengths
//! are derived from that sequence by `utf8_len`.

use vstd::prelude::*;

verus! {

/// `String::push` appends exactly one character to the end of the string.
pub assume_specification[ String::push ](s: &mut String, c: char)
    ensures
        final(s)@ == old(s)@.push(c),
;

/// Two string slices compare equal exactly when they hold the same characters.
pub assume_specification[ <str as PartialEq>::eq ](a: &str, b: &str) -> (r: bool)
    ensures
        r == (a@ == b@),
;

// ---------------------------------------------------------------------------
// Conversions between strings and character vectors
// ---------------------------------------------------------------------------

/// The characters of `s`, in order.
pub fn chars_of(s: &str) -> (out: Vec<char>)
    ensures
        out@ == s@,
{
    let mut out: Vec<char> = Vec::new();
    for c in it: s.chars()
        invariant
            out@ == it.seq().take(it.index()),
            it.seq() == s@,
    {
        out.push(c);
    }
    out
}

/// The string whose characters are `v[from..to]`.
pub fn string_of_range(v: &Vec<char>, from: usize, to: usize) -> (out: String)
    requires
        from <= to <= v.len(),
    ensures
        out@ == v@.subrange(from as int, to as int),
{
    let mut out = String::new();
    let mut i: usize = from;
    while i < to
        invariant
            from <= i <= to <= v.len(),
            out@ == v@.subrange(from as int, i as int),
        decreases to - i,
    {
        out.push(v[i]);
        i += 1;
        assert(v@.subrange(from as int, i as int) == v@.subrange(from as int, i - 1).push(
            v@[i - 1],
        ));
    }
    out
}

/// The string whose characters are those of `v`, in order.
pub fn string_of(v: &Vec<char>) -> (out: String)
    ensures
        out@ == v@,
{
    let out = string_of_range(v, 0, v.len());
    assert(v@.subrange(0, v.len() as int) == v@);
    out
}

/// Appends the characters of `tail` to `out`.
pub fn push_str(out: &mut Vec<char>, tail: &str)
    ensures
        final(out)@ == old(out)@ + tail@,
{
    let ghost before = out@;
    for c in it: tail.chars()
        invariant
            out@ == before + it.seq().take(it.index()),
            it.seq() == tail@,
    {
        out.push(c);
        assert(before + tail@.take(it.index() + 1) == (before + tail@.take(it.index())).push(
            tail@[it.index()],
        ));
    }
    assert(tail@.take(tail@.len() as int) == tail@);
}

/// Appends the elements of `tail` to `out`.
pub fn push_chars(out: &mut Vec<char>, tail: &Vec<char>)
    ensures
        final(out)@ == old(out)@ + tail@,
{
    let ghost before = out@;
    let mut i: usize = 0;
    while i < tail.len()
        invariant
            i <= tail.len(),
            out@ == before + tail@.take(i as int),
        decreases tail.len() - i,
    {
        out.push(tail[i]);
        i += 1;
        assert(before + tail@.take(i as int) == (before + tail@.take(i - 1)).push(tail@[i - 1]));
    }
    assert(tail@.take(tail@.len() as int) == tail@);
}

/// `a` followed by `b`.
pub fn concat2(a: &str, b: &str) -> (out: String)
    ensures
        out@ == a@ + b@,
{
    let mut v = chars_of(a);
    push_str(&mut v, b);
    string_of(&v)
}

/// `a`, `b` and `c` in a row.
pub fn concat3(a: &str, b: &str, c: &str) -> (out: String)
    ensures
        out@ == a@ + b@ + c@,
{
    let mut v = chars_of(a);
    push_str(&mut v, b);
    push_str(&mut v, c);
    string_of(&v)
}

/// An owned copy of `s`.
pub fn owned(s: &str) -> (out: String)
    ensures
        out@ == s@,
{
    let v = chars_of(s);
    string_of(&v)
}

/// An owned copy of an optional string.
pub fn clone_opt(s: &Option<String>) -> (out: Option<String>)
    ensures
        opt_view(out) == opt_view(*s),
{
    match s {
        Some(v) => Some(v.clone()),
        None => None,
    }
}

/// The view of an optional string.
pub open spec fn opt_view(s: Option<String>) -> Option<Seq<char>> {
    match s {
        Some(v) => Some(v@),
        None => None,
    }
}

/// The views of a list of strings.
pub open spec fn views(list: Seq<String>) -> Seq<Seq<char>> {
    list.map_values(|s: String| s@)
}

/// An owned copy of a list of strings.
pub fn clone_strings(list: &Vec<String>) -> (out: Vec<String>)
    ensures
        views(out@) == views(list@),
{
    let mut out: Vec<String> = Vec::new();
    let mut i: usize = 0;
    while i < list.len()
        invariant
            i <= list.len(),
            out.len() == i,
            forall|j: int| 0 <= j < i ==> (#[trigger] out@[j])@ == list@[j]@,
        decreases list.len() - i,
    {
        out.push(list[i].clone());
        i += 1;
    }
    assert(views(out@) =~= views(list@));
    out
}

// ---------------------------------------------------------------------------
// ASCII classes and case
// ---------------------------------------------------------------------------

pub open spec fn is_ascii_digit(c: char) -> bool {
    '0' <= c && c <= '9'
}

pub open spec fn is_ascii_alnum(c: char) -> bool {
    is_ascii_digit(c) || ('a' <= c && c <= 'z') || ('A' <= c && c <= 'Z')
}

pub fn ascii_digit(c: char) -> (b: bool)
    ensures
        b == is_ascii_digit(c),
{
    '0' <= c && c <= '9'
}

pub fn ascii_alnum(c: char) -> (b: bool)
    ensures
        b == is_ascii_alnum(c),
{
    ('0' <= c && c <= '9') || ('a' <= c && c <= 'z') || ('A' <= c && c <= 'Z')
}

/// The ASCII upper-case form of `c`; characters outside `a..=z` are unchanged.
pub open spec fn upper_char(c: char) -> char {
    if 'a' <= c && c <= 'z' {
        ((c as u8) - 32) as char
    } else {
        c
    }
}

/// The ASCII lower-case form of `c`; characters outside `A..=Z` are unchanged.
pub open spec fn lower_char(c: char) -> char {
    if 'A' <= c && c <= 'Z' {
        ((c as u8) + 32) as char
    } else {
        c
    }
}

pub fn to_upper_char(c: char) -> (r: char)
    ensures
        r == upper_char(c),
{
    if 'a' <= c && c <= 'z' {
        ((c as u8) - 32) as char
    } else {
        c
    }
}

pub fn to_lower_char(c: char) -> (r: char)
    ensures
        r == lower_char(c),
{
    if 'A' <= c && c <= 'Z' {
        ((c as u8) + 32) as char
    } else {
        c
    }
}

pub open spec fn ascii_upper(s: Seq<char>) -> Seq<char> {
    s.map_values(|c: char| upper_char(c))
}

pub open spec fn ascii_lower(s: Seq<char>) -> Seq<char> {
    s.map_values(|c: char| lower_char(c))
}

/// `s` with every ASCII lower-case letter replaced by its upper-case form.
pub fn to_ascii_upper(s: &str) -> (out: String)
    ensures
        out@ == ascii_upper(s@),
{
    let v = chars_of(s);
    let mut out: Vec<char> = Vec::new();
    let mut i: usize = 0;
    while i < v.len()
        invariant
            i <= v.len(),
            v@ == s@,
            out@ == ascii_upper(s@).take(i as int),
        decreases v.len() - i,
    {
        out.push(to_upper_char(v[i]));
        i += 1;
        assert(out@ =~= ascii_upper(s@).take(i as int));
    }
    assert(ascii_upper(s@).take(v.len() as int) =~= ascii_upper(s@));
    string_of(&out)
}

/// `s` with every ASCII upper-case letter replaced by its lower-case form.
pub fn to_ascii_lower(s: &str) -> (out: String)
    ensures
        out@ == ascii_lower(s@),
{
    let v = chars_of(s);
    let mut out: Vec<char> = Vec::new();
    let mut i: usize = 0;
    while i < v.len()
        invariant
            i <= v.len(),
            v@ == s@,
            out@ == ascii_lower(s@).take(i as int),
        decreases v.len() - i,
    {
        out.push(to_lower_char(v[i]));
        i += 1;
        assert(out@ =~= ascii_lower(s@).take(i as int));
    }
    assert(ascii_lower(s@).take(v.len() as int) =~= ascii_lower(s@));
    string_of(&out)
}

/// Whether two strings are equal once ASCII letters are folded to lower case.
pub open spec fn eq_ignoring_ascii_case(a: Seq<char>, b: Seq<char>) -> bool {
    ascii_lower(a) == ascii_lower(b)
}

pub fn eq_ignore_ascii_case(a: &str, b: &str) -> (r: bool)
    ensures
        r == eq_ignoring_ascii_case(a@, b@),
{
    let x = chars_of(a);
    let y = chars_of(b);
    if x.len() != y.len() {
        assert(ascii_lower(a@).len() != ascii_lower(b@).len());
        return false;
    }
    let mut i: usize = 0;
    while i < x.len()
        invariant
            i <= x.len(),
            x.len() == y.len(),
            x@ == a@,
            y@ == b@,
            ascii_lower(a@).take(i as int) == ascii_lower(b@).take(i as int),
        decreases x.len() - i,
    {
        if to_lower_char(x[i]) != to_lower_char(y[i]) {
            assert(ascii_lower(a@)[i as int] != ascii_lower(b@)[i as int]);
            return false;
        }
        i += 1;
        assert(ascii_lower(a@).take(i as int) =~= ascii_lower(a@).take(i - 1).push(
            ascii_lower(a@)[i - 1],
        ));
        assert(ascii_lower(b@).take(i as int) =~= ascii_lower(b@).take(i - 1).push(
            ascii_lower(b@)[i - 1],
        ));
    }
    assert(ascii_lower(a@).take(x.len() as int) =~= ascii_lower(a@));
    assert(ascii_lower(b@).take(x.len() as int) =~= ascii_lower(b@));
    true
}

// ---------------------------------------------------------------------------
// White space and trimming
// ---------------------------------------------------------------------------

/// Space, tab, line feed, form feed and carriage return.
pub open spec fn is_ascii_space(c: char) -> bool {
    c == ' ' || c == '\t' || c == '\n' || c == '\x0C' || c == '\r'
}

/// The characters with the Unicode property `White_Space`.
pub open spec fn is_space(c: char) -> bool {
    let u = c as u32;
    (0x09 <= u && u <= 0x0D) || u == 0x20 || u == 0x85 || u == 0xA0 || u == 0x1680 || (0x2000 <= u
        && u <= 0x200A) || u == 0x2028 || u == 0x2029 || u == 0x202F || u == 0x205F || u == 0x3000
}

/// The white-space class that a trim uses: all of Unicode, or ASCII alone.
pub open spec fn is_blank(c: char, ascii_only: bool) -> bool {
    if ascii_only {
        is_ascii_space(c)
    } else {
        is_space(c)
    }
}

pub fn blank(c: char, ascii_only: bool) -> (b: bool)
    ensures
        b == is_blank(c, ascii_only),
{
    if ascii_only {
        c == ' ' || c == '\t' || c == '\n' || c == '\x0C' || c == '\r'
    } else {
        let u: u32 = c as u32;
        (0x09 <= u && u <= 0x0D) || u == 0x20 || u == 0x85 || u == 0xA0 || u == 0x1680 || (0x2000
            <= u && u <= 0x200A) || u == 0x2028 || u == 0x2029 || u == 0x202F || u == 0x205F || u
            == 0x3000
    }
}

/// `s` without its leading blanks.
pub open spec fn trim_start_of(s: Seq<char>, ascii_only: bool) -> Seq<char>
    decreases s.len(),
{
    if s.len() > 0 && is_blank(s[0], ascii_only) {
        trim_start_of(s.drop_first(), ascii_only)
    } else {
        s
    }
}

/// `s` without its trailing blanks.
pub open spec fn trim_end_of(s: Seq<char>, ascii_only: bool) -> Seq<char>
    decreases s.len(),
{
    if s.len() > 0 && is_blank(s.last(), ascii_only) {
        trim_end_of(s.drop_last(), ascii_only)
    } else {
        s
    }
}

/// `s` without leading and trailing blanks.
pub open spec fn trimmed(s: Seq<char>, ascii_only: bool) -> Seq<char> {
    trim_end_of(trim_start_of(s, ascii_only), ascii_only)
}

/// `s` without leading and trailing Unicode white space.
pub open spec fn trim_of(s: Seq<char>) -> Seq<char> {
    trimmed(s, false)
}

/// The bounds `(a, b)` of the trimmed part of `v[from..to]`.
pub fn trim_bounds(v: &Vec<char>, from: usize, to: usize, ascii_only: bool) -> (r: (usize, usize))
    requires
        from <= to <= v.len(),
    ensures
        from <= r.0 <= r.1 <= to,
        v@.subrange(r.0 as int, r.1 as int) == trimmed(
            v@.subrange(from as int, to as int),
            ascii_only,
        ),
{
    let mut a: usize = from;
    while a < to && blank(v[a], ascii_only)
        invariant
            from <= a <= to <= v.len(),
            trim_start_of(v@.subrange(from as int, to as int), ascii_only) == trim_start_of(
                v@.subrange(a as int, to as int),
                ascii_only,
            ),
        decreases to - a,
    {
        assert(v@.subrange(a as int, to as int).drop_first() == v@.subrange(a + 1, to as int));
        a += 1;
    }
    let mut b: usize = to;
    while a < b && blank(v[b - 1], ascii_only)
        invariant
            a <= b <= to <= v.len(),
            trim_end_of(v@.subrange(a as int, to as int), ascii_only) == trim_end_of(
                v@.subrange(a as int, b as int),
                ascii_only,
            ),
        decreases b,
    {
        assert(v@.subrange(a as int, b as int).drop_last() == v@.subrange(a as int, b - 1));
        b -= 1;
    }
    (a, b)
}

/// `s` without leading and trailing blanks of the chosen class.
pub fn trim_with(s: &str, ascii_only: bool) -> (out: String)
    ensures
        out@ == trimmed(s@, ascii_only),
{
    let v = chars_of(s);
    assert(v@.subrange(0, v.len() as int) == v@);
    let (a, b) = trim_bounds(&v, 0, v.len(), ascii_only);
    string_of_range(&v, a, b)
}

/// `s` without leading and trailing Unicode white space.
pub fn trim(s: &str) -> (out: String)
    ensures
        out@ == trim_of(s@),
{
    trim_with(s, false)
}

/// Whether `s` holds nothing but Unicode white space.
pub fn is_blank_text(s: &str) -> (r: bool)
    ensures
        r == (trim_of(s@).len() == 0),
{
    let t = trim_with(s, false);
    t.as_str().unicode_len() == 0
}

// ---------------------------------------------------------------------------
// Parts of strings
// ---------------------------------------------------------------------------

/// Whether `part` stands in `s` at index `at`.
pub open spec fn occurs_at(s: Seq<char>, at: int, part: Seq<char>) -> bool {
    0 <= at && at + part.len() <= s.len() && s.subrange(at, at + part.len()) == part
}

pub open spec fn has_prefix(s: Seq<char>, prefix: Seq<char>) -> bool {
    occurs_at(s, 0, prefix)
}

pub open spec fn has_suffix(s: Seq<char>, suffix: Seq<char>) -> bool {
    occurs_at(s, s.len() - suffix.len(), suffix)
}

/// `s` without the prefix, if it has it.
pub open spec fn without_prefix(s: Seq<char>, prefix: Seq<char>) -> Option<Seq<char>> {
    if has_prefix(s, prefix) {
        Some(s.skip(prefix.len() as int))
    } else {
        None
    }
}

/// `s` without the suffix, if it has it.
pub open spec fn without_suffix(s: Seq<char>, suffix: Seq<char>) -> Option<Seq<char>> {
    if has_suffix(s, suffix) {
        Some(s.take(s.len() - suffix.len()))
    } else {
        None
    }
}

/// Whether `part` stands in `v` at index `at`.
pub fn part_at(v: &Vec<char>, at: usize, part: &Vec<char>) -> (r: bool)
    ensures
        r == occurs_at(v@, at as int, part@),
{
    if at > v.len() || part.len() > v.len() - at {
        return false;
    }
    let mut i: usize = 0;
    while i < part.len()
        invariant
            i <= part.len(),
            at + part.len() <= v.len(),
            v@.subrange(at as int, at + i) == part@.take(i as int),
        decreases part.len() - i,
    {
        if v[at + i] != part[i] {
            assert(v@.subrange(at as int, at + part.len())[i as int] != part@[i as int]);
            return false;
        }
        i += 1;
        assert(v@.subrange(at as int, at + i) =~= v@.subrange(at as int, at + i - 1).push(
            v@[at + i - 1],
        ));
        assert(part@.take(i as int) =~= part@.take(i - 1).push(part@[i - 1]));
    }
    assert(part@.take(part.len() as int) =~= part@);
    true
}

pub fn starts_with(s: &str, prefix: &str) -> (r: bool)
    ensures
        r == has_prefix(s@, prefix@),
{
    let v = chars_of(s);
    let p = chars_of(prefix);
    part_at(&v, 0, &p)
}

pub fn ends_with(s: &str, suffix: &str) -> (r: bool)
    ensures
        r == has_suffix(s@, suffix@),
{
    let v = chars_of(s);
    let p = chars_of(suffix);
    if p.len() > v.len() {
        return false;
    }
    part_at(&v, v.len() - p.len(), &p)
}

/// `s` without the prefix, if it has it.
pub fn strip_prefix(s: &str, prefix: &str) -> (r: Option<String>)
    ensures
        opt_view(r) == without_prefix(s@, prefix@),
{
    let v = chars_of(s);
    let p = chars_of(prefix);
    if part_at(&v, 0, &p) {
        assert(v@.subrange(p.len() as int, v.len() as int) =~= v@.skip(p.len() as int));
        Some(string_of_range(&v, p.len(), v.len()))
    } else {
        None
    }
}

/// `s` without the suffix, if it has it.
pub fn strip_suffix(s: &str, suffix: &str) -> (r: Option<String>)
    ensures
        opt_view(r) == without_suffix(s@, suffix@),
{
    let v = chars_of(s);
    let p = chars_of(suffix);
    if p.len() <= v.len() && part_at(&v, v.len() - p.len(), &p) {
        assert(v@.subrange(0, v.len() - p.len()) =~= v@.take(v.len() - p.len()));
        Some(string_of_range(&v, 0, v.len() - p.len()))
    } else {
        None
    }
}

/// `s` with every occurrence of `from` replaced by `to`, the occurrences
/// taken from left to right without overlap. An empty `from` occurs nowhere.
pub open spec fn replaced(s: Seq<char>, from: Seq<char>, to: Seq<char>) -> Seq<char>
    decreases s.len(),
{
    if s.len() == 0 || from.len() == 0 {
        s
    } else if occurs_at(s, 0, from) {
        to + replaced(s.skip(from.len() as int), from, to)
    } else {
        seq![s[0]] + replaced(s.drop_first(), from, to)
    }
}

/// `s` with every occurrence of `from` replaced by `to`.
pub fn replace(s: &str, from: &str, to: &str) -> (out: String)
    ensures
        out@ == replaced(s@, from@, to@),
{
    let v = chars_of(s);
    let f = chars_of(from);
    let t = chars_of(to);
    if f.len() == 0 {
        return string_of(&v);
    }
    let mut out: Vec<char> = Vec::new();
    let mut i: usize = 0;
    assert(v@.skip(0) =~= v@);
    while i < v.len()
        invariant
            i <= v.len(),
            f.len() > 0,
            v@ == s@,
            f@ == from@,
            t@ == to@,
            out@ + replaced(v@.skip(i as int), f@, t@) == replaced(v@, f@, t@),
        decreases v.len() - i,
    {
        let ghost rest = v@.skip(i as int);
        let hit = part_at(&v, i, &f);
        assert(hit == occurs_at(rest, 0, f@)) by {
            if i + f.len() <= v.len() {
                assert(rest.subrange(0, f.len() as int) =~= v@.subrange(i as int, i + f.len()));
            }
        }
        let ghost before = out@;
        if hit {
            push_chars(&mut out, &t);
            assert(rest.skip(f.len() as int) =~= v@.skip(i + f.len()));
            i += f.len();
            assert(out@ + replaced(v@.skip(i as int), f@, t@) =~= before + replaced(rest, f@, t@));
        } else {
            out.push(v[i]);
            assert(rest.drop_first() =~= v@.skip(i + 1));
            assert(rest[0] == v@[i as int]);
            i += 1;
            assert(out@ + replaced(v@.skip(i as int), f@, t@) =~= before + replaced(rest, f@, t@));
        }
    }
    assert(out@ + Seq::<char>::empty() =~= out@);
    string_of(&out)
}

/// The index of the first character of `v[from..]` that is `c`.
pub open spec fn first_index_of(s: Seq<char>, c: char) -> Option<int>
    decreases s.len(),
{
    if s.len() == 0 {
        None
    } else if s[0] == c {
        Some(0int)
    } else {
        match first_index_of(s.drop_first(), c) {
            Some(i) => Some(i + 1),
            None => None,
        }
    }
}

/// The index of the last character of `s` that is `c`.
pub open spec fn last_index_of(s: Seq<char>, c: char) -> Option<int>
    decreases s.len(),
{
    if s.len() == 0 {
        None
    } else if s.last() == c {
        Some(s.len() - 1)
    } else {
        last_index_of(s.drop_last(), c)
    }
}

pub fn find_char(v: &Vec<char>, c: char) -> (r: Option<usize>)
    ensures
        match r {
            Some(i) => first_index_of(v@, c) == Some(i as int) && i < v.len() && v@[i as int] == c,
            None => first_index_of(v@, c) is None,
        },
{
    let mut i: usize = 0;
    assert(v@.skip(0) =~= v@);
    while i < v.len()
        invariant
            i <= v.len(),
            first_index_of(v@, c) == (match first_index_of(v@.skip(i as int), c) {
                Some(k) => Some(k + i),
                None => None,
            }),
        decreases v.len() - i,
    {
        assert(v@.skip(i as int)[0] == v@[i as int]);
        if v[i] == c {
            return Some(i);
        }
        assert(v@.skip(i as int).drop_first() =~= v@.skip(i + 1));
        i += 1;
    }
    None
}

pub fn rfind_char(v: &Vec<char>, c: char) -> (r: Option<usize>)
    ensures
        match r {
            Some(i) => last_index_of(v@, c) == Some(i as int) && i < v.len() && v@[i as int] == c,
            None => last_index_of(v@, c) is None,
        },
{
    let mut i: usize = v.len();
    assert(v@.take(v.len() as int) =~= v@);
    while i > 0
        invariant
            i <= v.len(),
            last_index_of(v@, c) == last_index_of(v@.take(i as int), c),
        decreases i,
    {
        assert(v@.take(i as int).last() == v@[i - 1]);
        if v[i - 1] == c {
            return Some(i - 1);
        }
        assert(v@.take(i as int).drop_last() =~= v@.take(i - 1));
        i -= 1;
    }
    None
}

/// The parts of `s` between the occurrences of `c`. A string without `c` is
/// its own single part; an empty string has one empty part.
pub open spec fn split_on(s: Seq<char>, c: char) -> Seq<Seq<char>>
    decreases s.len(),
{
    match first_index_of(s, c) {
        Some(i) => if 0 <= i < s.len() {
            seq![s.take(i)] + split_on(s.skip(i + 1), c)
        } else {
            seq![s]
        },
        None => seq![s],
    }
}

pub proof fn lemma_first_index_of(s: Seq<char>, c: char)
    ensures
        match first_index_of(s, c) {
            Some(i) => 0 <= i < s.len() && s[i] == c && forall|j: int| 0 <= j < i ==> s[j] != c,
            None => forall|j: int| 0 <= j < s.len() ==> s[j] != c,
        },
    decreases s.len(),
{
    if s.len() > 0 && s[0] != c {
        let rest = s.drop_first();
        lemma_first_index_of(rest, c);
        match first_index_of(rest, c) {
            Some(i) => {
                assert forall|j: int| 0 <= j < i + 1 implies s[j] != c by {
                    if j > 0 {
                        assert(rest[j - 1] == s[j]);
                    }
                }
            },
            None => {
                assert forall|j: int| 0 <= j < s.len() implies s[j] != c by {
                    if j > 0 {
                        assert(rest[j - 1] == s[j]);
                    }
                }
            },
        }
    }
}

/// The index of the first `c` in `v[from..]`, counted from the start of `v`.
pub fn find_char_from(v: &Vec<char>, from: usize, c: char) -> (r: Option<usize>)
    requires
        from <= v.len(),
    ensures
        match r {
            Some(i) => from <= i < v.len() && first_index_of(v@.skip(from as int), c) == Some(
                i - from,
            ),
            None => first_index_of(v@.skip(from as int), c) is None,
        },
{
    let mut i: usize = from;
    let ghost rest = v@.skip(from as int);
    assert(rest.skip(0) =~= rest);
    while i < v.len()
        invariant
            from <= i <= v.len(),
            rest == v@.skip(from as int),
            first_index_of(rest, c) == (match first_index_of(rest.skip(i - from), c) {
                Some(k) => Some(k + (i - from)),
                None => None,
            }),
        decreases v.len() - i,
    {
        assert(rest.skip(i - from)[0] == v@[i as int]);
        if v[i] == c {
            return Some(i);
        }
        assert(rest.skip(i - from).drop_first() =~= rest.skip(i - from + 1));
        i += 1;
    }
    None
}

/// The parts of `s` between the occurrences of `c`.
pub fn split(s: &str, c: char) -> (out: Vec<String>)
    ensures
        views(out@) == split_on(s@, c),
        out.len() >= 1,
{
    let v = chars_of(s);
    let mut out: Vec<String> = Vec::new();
    let mut from: usize = 0;
    assert(v@.skip(0) =~= v@);
    loop
        invariant
            from <= v.len(),
            v@ == s@,
            views(out@) + split_on(v@.skip(from as int), c) == split_on(v@, c),
        decreases v.len() - from,
    {
        let ghost rest = v@.skip(from as int);
        let ghost before = views(out@);
        match find_char_from(&v, from, c) {
            Some(i) => {
                out.push(string_of_range(&v, from, i));
                proof {
                    assert(v@.subrange(from as int, i as int) =~= rest.take(i - from));
                    assert(rest.skip(i - from + 1) =~= v@.skip(i + 1));
                    assert(views(out@) =~= before.push(rest.take(i - from)));
                    assert(views(out@) + split_on(v@.skip(i + 1), c) =~= before + split_on(
                        rest,
                        c,
                    ));
                }
                from = i + 1;
            },
            None => {
                out.push(string_of_range(&v, from, v.len()));
                proof {
                    assert(v@.subrange(from as int, v.len() as int) =~= rest);
                    assert(views(out@) =~= before.push(rest));
                    assert(views(out@) =~= before + split_on(rest, c));
                }
                return out;
            },
        }
    }
}

/// The number of leading characters of `s` that are no white space.
pub open spec fn word_len(s: Seq<char>) -> nat
    decreases s.len(),
{
    if s.len() == 0 || is_space(s[0]) {
        0
    } else {
        1 + word_len(s.drop_first())
    }
}

/// The number of leading characters of `s` that are white space.
pub open spec fn gap_len(s: Seq<char>) -> nat
    decreases s.len(),
{
    if s.len() > 0 && is_space(s[0]) {
        1 + gap_len(s.drop_first())
    } else {
        0
    }
}

pub proof fn lemma_word_gap_len(s: Seq<char>)
    ensures
        word_len(s) <= s.len(),
        gap_len(s) <= s.len(),
        s.len() > 0 && !is_space(s[0]) ==> word_len(s) >= 1,
        gap_len(s) < s.len() ==> !is_space(s[gap_len(s) as int]),
    decreases s.len(),
{
    if s.len() > 0 {
        lemma_word_gap_len(s.drop_first());
        if is_space(s[0]) && gap_len(s) < s.len() {
            assert(s[gap_len(s) as int] == s.drop_first()[gap_len(s.drop_first()) as int]);
        }
    }
}

/// The words of `s`: its longest runs of characters that are no white
/// space, in their order.
pub open spec fn words(s: Seq<char>) -> Seq<Seq<char>>
    decreases s.len(),
{
    let g = gap_len(s) as int;
    let n = word_len(s.skip(g)) as int;
    if g >= s.len() || n < 1 || g + n > s.len() {
        Seq::<Seq<char>>::empty()
    } else {
        seq![s.subrange(g, g + n)] + words(s.skip(g + n))
    }
}

/// The words of `s`.
pub fn split_whitespace(s: &str) -> (out: Vec<String>)
    ensures
        views(out@) == words(s@),
{
    let v = chars_of(s);
    let mut out: Vec<String> = Vec::new();
    let mut pos: usize = 0;
    assert(v@.skip(0) =~= v@);
    assert(views(out@) =~= Seq::<Seq<char>>::empty());
    while pos < v.len()
        invariant
            pos <= v.len(),
            v@ == s@,
            views(out@) + words(v@.skip(pos as int)) == words(v@),
        decreases v.len() - pos,
    {
        let ghost rest = v@.skip(pos as int);
        let mut a: usize = pos;
        assert(rest.skip(0) =~= rest);
        while a < v.len() && blank(v[a], false)
            invariant
                pos <= a <= v.len(),
                rest == v@.skip(pos as int),
                gap_len(rest) == (a - pos) + gap_len(rest.skip(a - pos)),
            decreases v.len() - a,
        {
            assert(rest.skip(a - pos)[0] == v@[a as int]);
            assert(rest.skip(a - pos).drop_first() =~= rest.skip(a - pos + 1));
            a += 1;
        }
        proof {
            if a < v.len() {
                assert(rest.skip(a - pos)[0] == v@[a as int]);
            }
        }
        assert(gap_len(rest) == a - pos);
        let ghost tail = rest.skip(a - pos);
        let mut b: usize = a;
        assert(tail.skip(0) =~= tail);
        while b < v.len() && !blank(v[b], false)
            invariant
                a <= b <= v.len(),
                pos <= a,
                rest == v@.skip(pos as int),
                tail == rest.skip(a - pos),
                word_len(tail) == (b - a) + word_len(tail.skip(b - a)),
            decreases v.len() - b,
        {
            assert(tail.skip(b - a)[0] == v@[b as int]);
            assert(tail.skip(b - a).drop_first() =~= tail.skip(b - a + 1));
            b += 1;
        }
        proof {
            if b < v.len() {
                assert(tail.skip(b - a)[0] == v@[b as int]);
            }
        }
        assert(word_len(tail) == b - a);
        let ghost before = views(out@);
        if a >= v.len() || b == a {
            proof {
                if a < v.len() {
                    assert(tail[0] == v@[a as int]);
                    lemma_word_gap_len(tail);
                }
                assert(words(rest) =~= Seq::<Seq<char>>::empty());
                assert(views(out@) =~= words(v@));
                assert(a >= v.len());
            }
            pos = v.len();
            assert(v@.skip(pos as int) =~= Seq::<char>::empty());
            assert(words(Seq::<char>::empty()) =~= Seq::<Seq<char>>::empty());
        } else {
            out.push(string_of_range(&v, a, b));
            proof {
                assert(v@.subrange(a as int, b as int) =~= rest.subrange(a - pos, b - pos));
                assert(rest.skip(b - pos) =~= v@.skip(b as int));
                assert(views(out@) =~= before.push(rest.subrange(a - pos, b - pos)));
                assert(views(out@) + words(v@.skip(b as int)) =~= before + words(rest));
            }
            pos = b;
        }
    }
    assert(v@.skip(pos as int) =~= Seq::<char>::empty());
    assert(words(Seq::<char>::empty()) =~= Seq::<Seq<char>>::empty());
    assert(views(out@) + Seq::<Seq<char>>::empty() =~= views(out@));
    out
}

// ---------------------------------------------------------------------------
// Order
// ---------------------------------------------------------------------------

/// Lexicographic order by code point, the order of the strings' UTF-8 bytes.
pub open spec fn str_lt(a: Seq<char>, b: Seq<char>) -> bool
    decreases a.len(),
{
    if b.len() == 0 {
        false
    } else if a.len() == 0 {
        true
    } else if a[0] != b[0] {
        a[0] < b[0]
    } else {
        str_lt(a.drop_first(), b.drop_first())
    }
}

pub proof fn lemma_str_lt_irreflexive(a: Seq<char>)
    ensures
        !str_lt(a, a),
    decreases a.len(),
{
    if a.len() > 0 {
        lemma_str_lt_irreflexive(a.drop_first());
    }
}

pub proof fn lemma_str_lt_transitive(a: Seq<char>, b: Seq<char>, c: Seq<char>)
    requires
        str_lt(a, b),
        str_lt(b, c),
    ensures
        str_lt(a, c),
    decreases a.len(),
{
    if a.len() > 0 && b.len() > 0 && c.len() > 0 {
        if a[0] == b[0] && b[0] == c[0] {
            lemma_str_lt_transitive(a.drop_first(), b.drop_first(), c.drop_first());
        }
    }
}

pub proof fn lemma_str_lt_total(a: Seq<char>, b: Seq<char>)
    ensures
        str_lt(a, b) || a == b || str_lt(b, a),
    decreases a.len(),
{
    if a.len() > 0 && b.len() > 0 {
        if a[0] == b[0] {
            lemma_str_lt_total(a.drop_first(), b.drop_first());
            if a.drop_first() == b.drop_first() {
                assert(a =~= seq![a[0]] + a.drop_first());
                assert(b =~= seq![b[0]] + b.drop_first());
            }
        }
    } else if a.len() == 0 && b.len() == 0 {
        assert(a =~= b);
    }
}

pub proof fn lemma_str_lt_asymmetric(a: Seq<char>, b: Seq<char>)
    requires
        str_lt(a, b),
    ensures
        !str_lt(b, a),
        a != b,
{
    if str_lt(b, a) {
        lemma_str_lt_transitive(a, b, a);
    }
    lemma_str_lt_irreflexive(a);
}

/// Whether `v` sorts strictly before `w`.
pub fn chars_less(v: &Vec<char>, w: &Vec<char>) -> (r: bool)
    ensures
        r == str_lt(v@, w@),
{
    let mut i: usize = 0;
    assert(v@.skip(0) == v@ && w@.skip(0) == w@);
    while i < v.len() && i < w.len()
        invariant
            i <= v.len(),
            i <= w.len(),
            str_lt(v@, w@) == str_lt(v@.skip(i as int), w@.skip(i as int)),
        decreases v.len() - i,
    {
        let x = v[i];
        let y = w[i];
        assert(v@.skip(i as int)[0] == x);
        assert(w@.skip(i as int)[0] == y);
        if x != y {
            return x < y;
        }
        assert(v@.skip(i as int).drop_first() == v@.skip(i + 1));
        assert(w@.skip(i as int).drop_first() == w@.skip(i + 1));
        i += 1;
    }
    i < w.len()
}

/// Whether `a` sorts strictly before `b`.
pub fn str_less(a: &str, b: &str) -> (r: bool)
    ensures
        r == str_lt(a@, b@),
{
    let v = chars_of(a);
    let w = chars_of(b);
    chars_less(&v, &w)
}

// ---------------------------------------------------------------------------
// Byte lengths
// ---------------------------------------------------------------------------

/// The number of bytes that `c` takes in UTF-8.
pub open spec fn char_width(c: char) -> nat {
    let u = c as u32;
    if u < 0x80 {
        1
    } else if u < 0x800 {
        2
    } else if u < 0x10000 {
        3
    } else {
        4
    }
}

pub fn width_of(c: char) -> (w: usize)
    ensures
        w == char_width(c),
        1 <= w <= 4,
{
    let u: u32 = c as u32;
    if u < 0x80 {
        1
    } else if u < 0x800 {
        2
    } else if u < 0x10000 {
        3
    } else {
        4
    }
}

/// The number of bytes that `s` takes in UTF-8.
pub open spec fn utf8_len(s: Seq<char>) -> nat
    decreases s.len(),
{
    if s.len() == 0 {
        0
    } else {
        utf8_len(s.drop_last()) + char_width(s.last())
    }
}

pub proof fn lemma_utf8_len_bounds(s: Seq<char>)
    ensures
        s.len() <= utf8_len(s) <= 4 * s.len(),
    decreases s.len(),
{
    if s.len() > 0 {
        lemma_utf8_len_bounds(s.drop_last());
    }
}

pub proof fn lemma_utf8_len_single(c: char)
    ensures
        utf8_len(seq![c]) == char_width(c),
{
    assert(seq![c].drop_last() =~= Seq::<char>::empty());
    assert(utf8_len(Seq::<char>::empty()) == 0);
}

pub proof fn lemma_utf8_len_concat(a: Seq<char>, b: Seq<char>)
    ensures
        utf8_len(a + b) == utf8_len(a) + utf8_len(b),
    decreases b.len(),
{
    if b.len() == 0 {
        assert(a + b =~= a);
    } else {
        assert((a + b).drop_last() =~= a + b.drop_last());
        lemma_utf8_len_concat(a, b.drop_last());
    }
}

} // verus!
