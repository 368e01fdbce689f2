//! Text documents: how the text is tidied and cut into records.

use vstd::prelude::*;
use crate::config::SourceConfig;
use crate::keyed::{lemma_text_map_empty, put, text_map, StrMap};
use crate::lines::{join, joined};
use crate::pattern::{
    all_matches, group_of, match_views, pattern_compiles, regex_captures_all, InvalidPattern,
    MatchView, PatternMatch,
};
use crate::text::{
    char_width, chars_of, eq_ignore_ascii_case, eq_ignoring_ascii_case, occurs_at, opt_view,
    owned, part_at, replace, replaced, split, split_on, string_of, string_of_range, trim,
    trim_bounds, trim_of, trimmed, views, width_of,
};

verus! {

// ---------------------------------------------------------------------------
// Lines
// ---------------------------------------------------------------------------

/// `s` without one carriage return at its end.
pub open spec fn without_cr(s: Seq<char>) -> Seq<char> {
    if s.len() > 0 && s.last() == '\r' {
        s.drop_last()
    } else {
        s
    }
}

/// The lines of a text: what stands before each line feed, without a
/// carriage return at its end, and what follows the last line feed where
/// that is not empty.
pub open spec fn lines_of(s: Seq<char>) -> Seq<Seq<char>> {
    let parts = split_on(s, '\n');
    let ended = parts.drop_last().map_values(|p: Seq<char>| without_cr(p));
    if parts.len() > 0 && parts.last().len() > 0 {
        ended.push(parts.last())
    } else {
        ended
    }
}

/// The lines of a text.
pub fn lines(s: &str) -> (out: Vec<String>)
    ensures
        views(out@) == lines_of(s@),
{
    let parts = split(s, '\n');
    let mut out: Vec<String> = Vec::new();
    let n = parts.len();
    let mut i: usize = 0;
    while i + 1 < n
        invariant
            i + 1 <= n,
            n == parts.len(),
            out.len() == i,
            forall|k: int| 0 <= k < i ==> (#[trigger] out@[k])@ == without_cr(parts@[k]@),
        decreases n - i,
    {
        let v = chars_of(parts[i].as_str());
        let m = v.len();
        if m > 0 && v[m - 1] == '\r' {
            assert(v@.subrange(0, m - 1) =~= v@.drop_last());
            out.push(string_of_range(&v, 0, m - 1));
        } else {
            out.push(parts[i].clone());
        }
        i += 1;
    }
    let ghost ended = views(parts@).drop_last().map_values(|p: Seq<char>| without_cr(p));
    assert(views(out@) =~= ended);
    if parts[n - 1].as_str().unicode_len() > 0 {
        out.push(parts[n - 1].clone());
        assert(views(out@) =~= ended.push(parts@[n - 1]@));
    }
    out
}

/// Every string trimmed, and the ones that are empty then left out.
pub open spec fn trimmed_filled(parts: Seq<Seq<char>>) -> Seq<Seq<char>>
    decreases parts.len(),
{
    if parts.len() == 0 {
        Seq::<Seq<char>>::empty()
    } else if trim_of(parts.last()).len() == 0 {
        trimmed_filled(parts.drop_last())
    } else {
        trimmed_filled(parts.drop_last()).push(trim_of(parts.last()))
    }
}

/// Trims every string and leaves out the ones that are empty then.
pub fn trim_and_fill(parts: &Vec<String>) -> (out: Vec<String>)
    ensures
        views(out@) == trimmed_filled(views(parts@)),
{
    let mut out: Vec<String> = Vec::new();
    let mut i: usize = 0;
    assert(views(parts@).take(0) =~= Seq::<Seq<char>>::empty());
    assert(views(out@) =~= Seq::<Seq<char>>::empty());
    while i < parts.len()
        invariant
            i <= parts.len(),
            views(out@) == trimmed_filled(views(parts@).take(i as int)),
        decreases parts.len() - i,
    {
        let t = trim(parts[i].as_str());
        let ghost before = views(out@);
        if t.as_str().unicode_len() > 0 {
            out.push(t);
            assert(views(out@) =~= before.push(trim_of(parts@[i as int]@)));
        }
        i += 1;
        proof {
            let now = views(parts@).take(i as int);
            assert(now.drop_last() =~= views(parts@).take(i - 1));
            assert(now.last() == parts@[i - 1]@);
        }
    }
    assert(views(parts@).take(i as int) =~= views(parts@));
    out
}

/// Every string trimmed.
pub open spec fn all_trimmed(parts: Seq<Seq<char>>) -> Seq<Seq<char>> {
    parts.map_values(|p: Seq<char>| trim_of(p))
}

// ---------------------------------------------------------------------------
// Tidying
// ---------------------------------------------------------------------------

pub open spec fn is_space_or_tab(c: char) -> bool {
    c == ' ' || c == '\t'
}

/// `s` with every run of spaces and tabs replaced by one space.
pub open spec fn collapsed(s: Seq<char>) -> Seq<char>
    decreases s.len(),
{
    if s.len() == 0 {
        Seq::<char>::empty()
    } else if !is_space_or_tab(s.last()) {
        collapsed(s.drop_last()).push(s.last())
    } else if s.len() >= 2 && is_space_or_tab(s[s.len() - 2]) {
        collapsed(s.drop_last())
    } else {
        collapsed(s.drop_last()).push(' ')
    }
}

/// Replaces every run of spaces and tabs by one space.
pub fn collapse_blanks(s: &str) -> (out: String)
    ensures
        out@ == collapsed(s@),
{
    let v = chars_of(s);
    let mut out: Vec<char> = Vec::new();
    let mut i: usize = 0;
    assert(v@.take(0) =~= Seq::<char>::empty());
    while i < v.len()
        invariant
            i <= v.len(),
            v@ == s@,
            out@ == collapsed(v@.take(i as int)),
        decreases v.len() - i,
    {
        let c = v[i];
        let blank = c == ' ' || c == '\t';
        let after_blank = i > 0 && (v[i - 1] == ' ' || v[i - 1] == '\t');
        proof {
            let now = v@.take(i + 1);
            assert(now.drop_last() =~= v@.take(i as int));
            assert(now.last() == c);
            if i > 0 {
                assert(now[now.len() - 2] == v@[i - 1]);
            }
        }
        if !blank {
            out.push(c);
        } else if !after_blank {
            out.push(' ');
        }
        i += 1;
    }
    assert(v@.take(v.len() as int) =~= v@);
    string_of(&out)
}

/// The text as it is cut into records: line ends made uniform; runs of
/// spaces and tabs made one space, where that is asked for; and every line
/// trimmed, where that is asked for.
pub open spec fn normalized_text(text: Seq<char>, normalize_ws: bool, join_lines: bool) -> Seq<
    char,
> {
    let a = replaced(text, "\r\n"@, "\n"@);
    let b = if normalize_ws {
        collapsed(a)
    } else {
        a
    };
    if join_lines {
        joined(all_trimmed(lines_of(b)), seq!['\n'])
    } else {
        b
    }
}

/// Tidies a text before it is cut into records.
pub fn normalize_text(text: &str, normalize_ws: bool, join_lines: bool) -> (out: String)
    ensures
        out@ == normalized_text(text@, normalize_ws, join_lines),
{
    let mut working = replace(text, "\r\n", "\n");
    if normalize_ws {
        working = collapse_blanks(working.as_str());
    }
    if join_lines {
        let all = lines(working.as_str());
        let mut trimmed_lines: Vec<String> = Vec::new();
        let mut i: usize = 0;
        while i < all.len()
            invariant
                i <= all.len(),
                trimmed_lines.len() == i,
                forall|k: int| 0 <= k < i ==> (#[trigger] trimmed_lines@[k])@ == trim_of(all@[k]@),
            decreases all.len() - i,
        {
            trimmed_lines.push(trim(all[i].as_str()));
            i += 1;
        }
        assert(views(trimmed_lines@) =~= all_trimmed(views(all@)));
        proof {
            reveal_strlit("\n");
            assert("\n"@ =~= seq!['\n']);
        }
        working = join(&trimmed_lines, "\n");
    }
    working
}

// ---------------------------------------------------------------------------
// Cutting at a separator
// ---------------------------------------------------------------------------

/// The index of the first occurrence of `part` in `s`.
pub open spec fn index_of_part(s: Seq<char>, part: Seq<char>) -> Option<int>
    decreases s.len(),
{
    if part.len() == 0 || s.len() < part.len() {
        None
    } else if occurs_at(s, 0, part) {
        Some(0int)
    } else {
        match index_of_part(s.drop_first(), part) {
            Some(i) => Some(i + 1),
            None => None,
        }
    }
}

pub proof fn lemma_index_of_part(s: Seq<char>, part: Seq<char>)
    ensures
        match index_of_part(s, part) {
            Some(i) => 0 <= i && i + part.len() <= s.len() && part.len() > 0,
            None => true,
        },
    decreases s.len(),
{
    if !(part.len() == 0 || s.len() < part.len()) && !occurs_at(s, 0, part) {
        lemma_index_of_part(s.drop_first(), part);
    }
}

/// The parts of `s` between the occurrences of `sep`, taken from left to
/// right without overlap. An empty separator occurs nowhere.
pub open spec fn split_by(s: Seq<char>, sep: Seq<char>) -> Seq<Seq<char>>
    decreases s.len(),
{
    match index_of_part(s, sep) {
        Some(i) => if 0 <= i && i + sep.len() <= s.len() && sep.len() > 0 {
            seq![s.take(i)] + split_by(s.skip(i + sep.len()), sep)
        } else {
            seq![s]
        },
        None => seq![s],
    }
}

/// The index of the first occurrence of `part` in `v[from..]`, counted from
/// the start of `v`.
fn find_part_from(v: &Vec<char>, from: usize, part: &Vec<char>) -> (r: Option<usize>)
    requires
        from <= v.len(),
    ensures
        match r {
            Some(i) => from <= i && i + part.len() <= v.len() && part.len() > 0 && index_of_part(
                v@.skip(from as int),
                part@,
            ) == Some(i - from),
            None => index_of_part(v@.skip(from as int), part@) is None,
        },
{
    if part.len() == 0 {
        return None;
    }
    let mut i: usize = from;
    let ghost rest = v@.skip(from as int);
    assert(rest.skip(0) =~= rest);
    while i < v.len() && v.len() - i >= part.len()
        invariant
            from <= i <= v.len(),
            part.len() > 0,
            rest == v@.skip(from as int),
            index_of_part(rest, part@) == (match index_of_part(rest.skip(i - from), part@) {
                Some(k) => Some(k + (i - from)),
                None => None,
            }),
        decreases v.len() - i,
    {
        let ghost tail = rest.skip(i - from);
        let hit = part_at(v, i, part);
        assert(hit == occurs_at(tail, 0, part@)) by {
            assert(tail.subrange(0, part.len() as int) =~= v@.subrange(i as int, i + part.len()));
        }
        if hit {
            return Some(i);
        }
        assert(tail.drop_first() =~= rest.skip(i - from + 1));
        i += 1;
    }
    None
}

/// The parts of `s` between the occurrences of `sep`.
pub fn split_str(s: &str, sep: &str) -> (out: Vec<String>)
    ensures
        views(out@) == split_by(s@, sep@),
{
    let v = chars_of(s);
    let p = chars_of(sep);
    let mut out: Vec<String> = Vec::new();
    let mut from: usize = 0;
    assert(v@.skip(0) =~= v@);
    assert(views(out@) =~= Seq::<Seq<char>>::empty());
    loop
        invariant
            from <= v.len(),
            v@ == s@,
            p@ == sep@,
            views(out@) + split_by(v@.skip(from as int), p@) == split_by(v@, p@),
        decreases v.len() - from,
    {
        let ghost rest = v@.skip(from as int);
        let ghost before = views(out@);
        match find_part_from(&v, from, &p) {
            Some(i) => {
                out.push(string_of_range(&v, from, i));
                proof {
                    assert(v@.subrange(from as int, i as int) =~= rest.take(i - from));
                    assert(rest.skip(i - from + p.len()) =~= v@.skip(i + p.len()));
                    assert(views(out@) =~= before.push(rest.take(i - from)));
                    assert(views(out@) + split_by(v@.skip(i + p.len()), p@) =~= before + split_by(
                        rest,
                        p@,
                    ));
                }
                from = i + p.len();
            },
            None => {
                out.push(string_of_range(&v, from, v.len()));
                proof {
                    assert(v@.subrange(from as int, v.len() as int) =~= rest);
                    assert(views(out@) =~= before.push(rest));
                    assert(views(out@) =~= before + split_by(rest, p@));
                }
                return out;
            },
        }
    }
}

// ---------------------------------------------------------------------------
// Cutting at matches
// ---------------------------------------------------------------------------

/// The number of leading characters of `s` that take `bytes` bytes in
/// UTF-8; none where `bytes` bytes end inside a character or behind the
/// text.
pub open spec fn chars_in_bytes(s: Seq<char>, bytes: nat) -> Option<nat>
    decreases s.len(),
{
    if bytes == 0 {
        Some(0nat)
    } else if s.len() == 0 || char_width(s[0]) > bytes {
        None
    } else {
        match chars_in_bytes(s.drop_first(), (bytes - char_width(s[0])) as nat) {
            Some(n) => Some(n + 1),
            None => None,
        }
    }
}

pub proof fn lemma_chars_in_bytes(s: Seq<char>, bytes: nat)
    ensures
        match chars_in_bytes(s, bytes) {
            Some(n) => n <= s.len(),
            None => true,
        },
    decreases s.len(),
{
    if !(bytes == 0 || s.len() == 0 || char_width(s[0]) > bytes) {
        lemma_chars_in_bytes(s.drop_first(), (bytes - char_width(s[0])) as nat);
    }
}

/// The index of the character of `v` that starts at byte `bytes`.
pub fn char_index_of_byte(v: &Vec<char>, bytes: usize) -> (r: Option<usize>)
    ensures
        match r {
            Some(n) => chars_in_bytes(v@, bytes as nat) == Some(n as nat) && n <= v.len(),
            None => chars_in_bytes(v@, bytes as nat) is None,
        },
{
    let mut i: usize = 0;
    let mut left: usize = bytes;
    assert(v@.skip(0) =~= v@);
    while left > 0
        invariant
            i <= v.len(),
            left <= bytes,
            chars_in_bytes(v@, bytes as nat) == (match chars_in_bytes(
                v@.skip(i as int),
                left as nat,
            ) {
                Some(n) => Some((n + i) as nat),
                None => None,
            }),
        decreases left,
    {
        if i >= v.len() {
            return None;
        }
        assert(v@.skip(i as int)[0] == v@[i as int]);
        let w = width_of(v[i]);
        if w > left {
            return None;
        }
        assert(v@.skip(i as int).drop_first() =~= v@.skip(i + 1));
        left -= w;
        i += 1;
    }
    Some(i)
}

/// The text of a row that a record pattern matched: that of group 1 where
/// it took part in the match, else that of the whole match; trimmed.
pub open spec fn row_of(m: MatchView) -> Option<Seq<char>> {
    match group_of(m, 1) {
        Some(g) => Some(trim_of(g)),
        None => match group_of(m, 0) {
            Some(g) => Some(trim_of(g)),
            None => None,
        },
    }
}

/// The rows of the matches of a record pattern, in their order.
pub open spec fn rows_of(matches: Seq<MatchView>) -> Seq<Seq<char>>
    decreases matches.len(),
{
    if matches.len() == 0 {
        Seq::<Seq<char>>::empty()
    } else {
        match row_of(matches.last()) {
            Some(row) => rows_of(matches.drop_last()).push(row),
            None => rows_of(matches.drop_last()),
        }
    }
}

/// The rows of the matches of a record pattern.
pub fn rows_from_matches(matches: &Vec<PatternMatch>) -> (out: Vec<String>)
    ensures
        views(out@) == rows_of(match_views(matches@)),
{
    let mut out: Vec<String> = Vec::new();
    let mut i: usize = 0;
    let ghost all = match_views(matches@);
    assert(all.take(0) =~= Seq::<MatchView>::empty());
    assert(views(out@) =~= Seq::<Seq<char>>::empty());
    while i < matches.len()
        invariant
            i <= matches.len(),
            all == match_views(matches@),
            views(out@) == rows_of(all.take(i as int)),
        decreases matches.len() - i,
    {
        let m = &matches[i];
        let ghost before = views(out@);
        let row = match crate::pattern::group_text(m, 1) {
            Some(g) => Some(trim(g.as_str())),
            None => match crate::pattern::group_text(m, 0) {
                Some(g) => Some(trim(g.as_str())),
                None => None,
            },
        };
        match row {
            Some(r) => {
                out.push(r);
                assert(views(out@) =~= before.push(row_of(m@)->0));
            },
            None => {},
        }
        i += 1;
        proof {
            let now = all.take(i as int);
            assert(now.drop_last() =~= all.take(i - 1));
            assert(now.last() == m@);
        }
    }
    assert(all.take(i as int) =~= all);
    out
}

/// The character index at which every match starts; none where a match has
/// no range or its start is not the start of a character.
pub open spec fn starts_of(text: Seq<char>, matches: Seq<MatchView>) -> Option<Seq<nat>>
    decreases matches.len(),
{
    if matches.len() == 0 {
        Some(Seq::<nat>::empty())
    } else {
        match (starts_of(text, matches.drop_last()), matches.last().span) {
            (Some(front), Some(span)) => match chars_in_bytes(text, span.0 as nat) {
                Some(n) => Some(front.push(n)),
                None => None,
            },
            _ => None,
        }
    }
}

/// The piece that starts at the start with index `k`: it runs up to the next
/// start, or to the end of the text where there is none, and is trimmed.
pub open spec fn piece_at(text: Seq<char>, starts: Seq<nat>, k: int) -> Seq<char> {
    let a = starts[k] as int;
    let b = if k + 1 < starts.len() {
        starts[k + 1] as int
    } else {
        text.len() as int
    };
    if 0 <= a <= b <= text.len() {
        trim_of(text.subrange(a, b))
    } else {
        Seq::<char>::empty()
    }
}

/// The pieces of a text that start where the matches of a split pattern
/// start.
pub open spec fn pieces_from(text: Seq<char>, starts: Seq<nat>) -> Seq<Seq<char>> {
    Seq::new(starts.len(), |k: int| piece_at(text, starts, k))
}

/// The character indices at which the matches start.
fn match_starts(v: &Vec<char>, matches: &Vec<PatternMatch>) -> (r: Option<Vec<usize>>)
    ensures
        match r {
            Some(starts) => starts_of(v@, match_views(matches@)) == Some(
                starts@.map_values(|n: usize| n as nat),
            ) && forall|k: int| 0 <= k < starts.len() ==> #[trigger] starts@[k] <= v.len(),
            None => starts_of(v@, match_views(matches@)) is None,
        },
{
    let mut starts: Vec<usize> = Vec::new();
    let mut i: usize = 0;
    let ghost all = match_views(matches@);
    assert(all.take(0) =~= Seq::<MatchView>::empty());
    assert(starts@.map_values(|n: usize| n as nat) =~= Seq::<nat>::empty());
    while i < matches.len()
        invariant
            i <= matches.len(),
            all == match_views(matches@),
            starts_of(v@, all.take(i as int)) == Some(starts@.map_values(|n: usize| n as nat)),
            forall|k: int| 0 <= k < starts.len() ==> #[trigger] starts@[k] <= v.len(),
        decreases matches.len() - i,
    {
        let ghost before = starts@.map_values(|n: usize| n as nat);
        proof {
            let now = all.take(i + 1);
            assert(now.drop_last() =~= all.take(i as int));
            assert(now.last() == matches@[i as int]@);
        }
        let found = match matches[i].span {
            Some(span) => char_index_of_byte(v, span.0),
            None => None,
        };
        match found {
            Some(n) => {
                starts.push(n);
                assert(starts@.map_values(|n: usize| n as nat) =~= before.push(n as nat));
            },
            None => {
                proof {
                    lemma_starts_prefix(v@, all, i + 1);
                }
                return None;
            },
        }
        i += 1;
    }
    assert(all.take(i as int) =~= all);
    Some(starts)
}

proof fn lemma_starts_prefix(text: Seq<char>, matches: Seq<MatchView>, upto: int)
    requires
        0 <= upto <= matches.len(),
        starts_of(text, matches.take(upto)) is None,
    ensures
        starts_of(text, matches) is None,
    decreases matches.len() - upto,
{
    if upto < matches.len() {
        assert(matches.take(upto + 1).drop_last() =~= matches.take(upto));
        lemma_starts_prefix(text, matches, upto + 1);
    } else {
        assert(matches.take(upto) =~= matches);
    }
}

/// The pieces that start at the given character indices.
fn cut_at(v: &Vec<char>, starts: &Vec<usize>) -> (out: Vec<String>)
    requires
        forall|k: int| 0 <= k < starts.len() ==> #[trigger] starts@[k] <= v.len(),
    ensures
        views(out@) == pieces_from(v@, starts@.map_values(|n: usize| n as nat)),
{
    let ghost all = starts@.map_values(|n: usize| n as nat);
    let mut out: Vec<String> = Vec::new();
    let mut k: usize = 0;
    while k < starts.len()
        invariant
            k <= starts.len(),
            all == starts@.map_values(|n: usize| n as nat),
            forall|j: int| 0 <= j < starts.len() ==> #[trigger] starts@[j] <= v.len(),
            out.len() == k,
            forall|j: int| 0 <= j < k ==> (#[trigger] out@[j])@ == piece_at(v@, all, j),
        decreases starts.len() - k,
    {
        let a = starts[k];
        let b = if k + 1 < starts.len() {
            starts[k + 1]
        } else {
            v.len()
        };
        assert(all[k as int] == a as nat);
        if a <= b {
            let (x, y) = trim_bounds(v, a, b, false);
            out.push(string_of_range(v, x, y));
        } else {
            out.push(String::new());
        }
        k += 1;
    }
    assert(views(out@) =~= pieces_from(v@, all));
    out
}

// ---------------------------------------------------------------------------
// Records
// ---------------------------------------------------------------------------

/// The records that the last two ways of cutting find: the parts between
/// empty lines, where there is more than one; else the lines. Each is
/// trimmed, and empty ones are left out.
pub open spec fn plain_records(text: Seq<char>) -> Seq<Seq<char>> {
    let parts = trimmed_filled(split_by(text, "\n\n"@));
    if parts.len() > 1 {
        parts
    } else {
        trimmed_filled(lines_of(text))
    }
}

/// The records that the split pattern of a source finds, where the source
/// has one of the strategy `regex` and it matches more than once; else the
/// plain records. A pattern that does not compile is an error.
pub open spec fn split_records(source: SourceConfig, text: Seq<char>) -> Result<
    Seq<Seq<char>>,
    Seq<char>,
> {
    if source.pdf.record_split@.len() > 0 && eq_ignoring_ascii_case(
        source.pdf.record_split@[0].strategy@,
        "regex"@,
    ) {
        let pattern = source.pdf.record_split@[0].pattern@;
        if !pattern_compiles(pattern) {
            Err(pattern)
        } else {
            match starts_of(text, all_matches(pattern, text)) {
                Some(starts) if starts.len() > 1 => Ok(pieces_from(text, starts)),
                _ => Ok(plain_records(text)),
            }
        }
    } else {
        Ok(plain_records(text))
    }
}

/// The records of a text.
///
/// Where the source has a record pattern, every match of it is a record:
/// its first group, or the whole match where the group took no part. Where
/// that finds nothing, the split pattern of the source is tried: a record
/// starts with each of its matches. Where that does not apply, the text is
/// cut at empty lines, and where that gives one part only, into lines. A
/// pattern that does not compile is an error.
pub open spec fn text_records(source: SourceConfig, text: Seq<char>) -> Result<
    Seq<Seq<char>>,
    Seq<char>,
> {
    match source.extract.record_regex {
        Some(p) => if !pattern_compiles(p@) {
            Err(p@)
        } else if rows_of(all_matches(p@, text)).len() > 0 {
            Ok(rows_of(all_matches(p@, text)))
        } else {
            split_records(source, text)
        },
        None => split_records(source, text),
    }
}

fn cut_plain(text: &str) -> (out: Vec<String>)
    ensures
        views(out@) == plain_records(text@),
{
    let parts = trim_and_fill(&split_str(text, "\n\n"));
    if parts.len() > 1 {
        return parts;
    }
    trim_and_fill(&lines(text))
}

fn cut_by_split(source: &SourceConfig, text: &str) -> (r: Result<Vec<String>, InvalidPattern>)
    ensures
        match r {
            Ok(rows) => split_records(*source, text@) == Ok::<Seq<Seq<char>>, Seq<char>>(
                views(rows@),
            ),
            Err(e) => split_records(*source, text@) == Err::<Seq<Seq<char>>, Seq<char>>(
                e.pattern@,
            ),
        },
{
    if source.pdf.record_split.len() > 0 {
        let first = &source.pdf.record_split[0];
        if eq_ignore_ascii_case(first.strategy.as_str(), "regex") {
            let matches = match regex_captures_all(first.pattern.as_str(), text) {
                Ok(m) => m,
                Err(_) => {
                    return Err(InvalidPattern { pattern: first.pattern.clone() });
                },
            };
            let v = chars_of(text);
            match match_starts(&v, &matches) {
                Some(starts) => {
                    if starts.len() > 1 {
                        return Ok(cut_at(&v, &starts));
                    }
                },
                None => {},
            }
        }
    }
    Ok(cut_plain(text))
}

/// Cuts a text into records.
pub fn split_text_records(source: &SourceConfig, text: &str) -> (r: Result<
    Vec<String>,
    InvalidPattern,
>)
    ensures
        match r {
            Ok(rows) => text_records(*source, text@) == Ok::<Seq<Seq<char>>, Seq<char>>(
                views(rows@),
            ),
            Err(e) => text_records(*source, text@) == Err::<Seq<Seq<char>>, Seq<char>>(e.pattern@),
        },
{
    match &source.extract.record_regex {
        Some(p) => {
            let matches = match regex_captures_all(p.as_str(), text) {
                Ok(m) => m,
                Err(_) => {
                    return Err(InvalidPattern { pattern: p.clone() });
                },
            };
            let rows = rows_from_matches(&matches);
            if rows.len() > 0 {
                return Ok(rows);
            }
        },
        None => {},
    }
    cut_by_split(source, text)
}

/// The fields of a record of the form `date | title | url`: the parts
/// between the bars, trimmed, without the empty ones; none where fewer than
/// two are left. The third part, where there is one, is the address.
pub open spec fn pipe_fields(line: Seq<char>) -> Option<Map<Seq<char>, Seq<char>>> {
    let parts = trimmed_filled(split_on(line, '|'));
    if parts.len() < 2 {
        None
    } else {
        let m = Map::<Seq<char>, Seq<char>>::empty().insert("date"@, parts[0]).insert(
            "title"@,
            parts[1],
        );
        if parts.len() > 2 {
            Some(m.insert("url"@, parts[2]))
        } else {
            Some(m)
        }
    }
}

/// Reads a record of the form `date | title | url`.
pub fn parse_pipe_record(line: &str) -> (r: Option<StrMap<String>>)
    ensures
        match r {
            Some(m) => m.wf() && pipe_fields(line@) == Some(text_map(m)),
            None => pipe_fields(line@) is None,
        },
{
    let parts = trim_and_fill(&split(line, '|'));
    if parts.len() < 2 {
        return None;
    }
    let mut m: StrMap<String> = StrMap::new();
    proof {
        lemma_text_map_empty(m);
    }
    put(&mut m, "date".to_string(), parts[0].clone());
    put(&mut m, "title".to_string(), parts[1].clone());
    if parts.len() > 2 {
        put(&mut m, "url".to_string(), parts[2].clone());
    }
    Some(m)
}

} // verus!
