//! Content lines of a calendar file: escaping, folding and joining.

use vstd::prelude::*;
use crate::text::{
    chars_of, char_width, lemma_utf8_len_concat, lemma_utf8_len_single, push_chars, string_of, string_of_range, utf8_len,
    views, width_of,
};

verus! {

/// The longest line, in bytes, that a calendar file may hold.
pub const LINE_LIMIT: usize = 75;

// ---------------------------------------------------------------------------
// Escaping
// ---------------------------------------------------------------------------

/// What stands for `c` in an escaped text value.
pub open spec fn escaped_char(c: char) -> Seq<char> {
    if c == '\\' {
        seq!['\\', '\\']
    } else if c == ';' {
        seq!['\\', ';']
    } else if c == ',' {
        seq!['\\', ',']
    } else if c == '\n' {
        seq!['\\', 'n']
    } else {
        seq![c]
    }
}

/// `s` with backslash, semicolon, comma and line feed escaped.
pub open spec fn escaped(s: Seq<char>) -> Seq<char>
    decreases s.len(),
{
    if s.len() == 0 {
        Seq::<char>::empty()
    } else {
        escaped(s.drop_last()) + escaped_char(s.last())
    }
}

/// Appends the escaped form of `c` to `out`.
fn push_escaped_char(out: &mut Vec<char>, c: char)
    ensures
        final(out)@ == old(out)@ + escaped_char(c),
{
    if c == '\\' {
        out.push('\\');
        out.push('\\');
    } else if c == ';' {
        out.push('\\');
        out.push(';');
    } else if c == ',' {
        out.push('\\');
        out.push(',');
    } else if c == '\n' {
        out.push('\\');
        out.push('n');
    } else {
        out.push(c);
    }
    assert(final(out)@ =~= old(out)@ + escaped_char(c));
}

/// Escapes a text value: `\` becomes `\\`, `;` becomes `\;`, `,` becomes
/// `\,` and a line feed becomes `\n`.
pub fn escape_text(value: &str) -> (out: String)
    ensures
        out@ == escaped(value@),
{
    let v = chars_of(value);
    let mut out: Vec<char> = Vec::new();
    let mut i: usize = 0;
    while i < v.len()
        invariant
            i <= v.len(),
            v@ == value@,
            out@ == escaped(v@.take(i as int)),
        decreases v.len() - i,
    {
        push_escaped_char(&mut out, v[i]);
        i += 1;
        assert(v@.take(i as int).drop_last() == v@.take(i - 1));
    }
    assert(v@.take(v.len() as int) == v@);
    string_of(&out)
}

// ---------------------------------------------------------------------------
// Folding
// ---------------------------------------------------------------------------

/// The number of leading characters of `s` that fit into `budget` bytes.
pub open spec fn fit_count(s: Seq<char>, budget: nat) -> nat
    decreases s.len(),
{
    if s.len() == 0 || char_width(s[0]) > budget {
        0
    } else {
        1 + fit_count(s.drop_first(), (budget - char_width(s[0])) as nat)
    }
}

/// The continuation lines that carry `s`: each starts with one space and
/// holds as many further characters as fit into the line limit.
pub open spec fn continuation_lines(s: Seq<char>) -> Seq<Seq<char>>
    decreases s.len(),
{
    let n = fit_count(s, (LINE_LIMIT - 1) as nat) as int;
    if s.len() == 0 || n < 1 || n > s.len() {
        Seq::<Seq<char>>::empty()
    } else {
        seq![seq![' '] + s.take(n)] + continuation_lines(s.skip(n))
    }
}

/// The physical lines that carry one content line: the line itself where it
/// fits into the limit, else as long a first line as fits, followed by
/// continuation lines.
pub open spec fn fold(line: Seq<char>) -> Seq<Seq<char>> {
    let n = fit_count(line, LINE_LIMIT as nat) as int;
    if n >= line.len() {
        seq![line]
    } else {
        seq![line.take(n)] + continuation_lines(line.skip(n))
    }
}

/// The physical lines that carry a list of content lines.
pub open spec fn folded(lines: Seq<Seq<char>>) -> Seq<Seq<char>>
    decreases lines.len(),
{
    if lines.len() == 0 {
        Seq::<Seq<char>>::empty()
    } else {
        folded(lines.drop_last()) + fold(lines.last())
    }
}

/// Every line takes at most `LINE_LIMIT` bytes.
pub open spec fn within_limit(lines: Seq<Seq<char>>) -> bool {
    forall|i: int| 0 <= i < lines.len() ==> utf8_len(#[trigger] lines[i]) <= LINE_LIMIT
}

pub proof fn lemma_fit_count(s: Seq<char>, budget: nat)
    ensures
        fit_count(s, budget) <= s.len(),
        utf8_len(s.take(fit_count(s, budget) as int)) <= budget,
        fit_count(s, budget) == s.len() <==> utf8_len(s) <= budget,
        s.len() > 0 && budget >= 4 ==> fit_count(s, budget) >= 1,
    decreases s.len(),
{
    if s.len() == 0 {
        assert(s.take(0) =~= s);
    } else if char_width(s[0]) > budget {
        assert(s.take(0) =~= Seq::<char>::empty());
        assert(s =~= seq![s[0]] + s.drop_first());
        lemma_utf8_len_concat(seq![s[0]], s.drop_first());
        lemma_utf8_len_single(s[0]);
    } else {
        let rest = s.drop_first();
        let left = (budget - char_width(s[0])) as nat;
        lemma_fit_count(rest, left);
        let n = fit_count(rest, left) as int;
        assert(s.take(n + 1) =~= seq![s[0]] + rest.take(n));
        lemma_utf8_len_concat(seq![s[0]], rest.take(n));
        lemma_utf8_len_single(s[0]);
        assert(s =~= seq![s[0]] + rest);
        lemma_utf8_len_concat(seq![s[0]], rest);
    }
}

pub proof fn lemma_continuation_within_limit(s: Seq<char>)
    ensures
        within_limit(continuation_lines(s)),
    decreases s.len(),
{
    let n = fit_count(s, (LINE_LIMIT - 1) as nat) as int;
    if !(s.len() == 0 || n < 1 || n > s.len()) {
        lemma_fit_count(s, (LINE_LIMIT - 1) as nat);
        lemma_continuation_within_limit(s.skip(n));
        lemma_utf8_len_concat(seq![' '], s.take(n));
        lemma_utf8_len_single(' ');
        assert forall|i: int| 0 <= i < continuation_lines(s).len() implies utf8_len(
            #[trigger] continuation_lines(s)[i],
        ) <= LINE_LIMIT by {
            if i > 0 {
                assert(continuation_lines(s)[i] == continuation_lines(s.skip(n))[i - 1]);
            }
        }
    }
}

/// No physical line of a folded content line is longer than the limit.
pub proof fn lemma_fold_within_limit(line: Seq<char>)
    ensures
        within_limit(fold(line)),
{
    let n = fit_count(line, LINE_LIMIT as nat) as int;
    lemma_fit_count(line, LINE_LIMIT as nat);
    if n < line.len() {
        lemma_continuation_within_limit(line.skip(n));
    }
}

/// No physical line of a folded list of content lines is longer than the
/// limit.
pub proof fn lemma_folded_within_limit(lines: Seq<Seq<char>>)
    ensures
        within_limit(folded(lines)),
    decreases lines.len(),
{
    if lines.len() > 0 {
        lemma_folded_within_limit(lines.drop_last());
        lemma_fold_within_limit(lines.last());
    }
}

/// The text that a run of continuation lines carries: the lines without
/// their leading space, in a row.
pub open spec fn unfolded(lines: Seq<Seq<char>>) -> Seq<char>
    decreases lines.len(),
{
    if lines.len() == 0 {
        Seq::<char>::empty()
    } else {
        lines[0].drop_first() + unfolded(lines.drop_first())
    }
}

proof fn lemma_continuation_unfolds(s: Seq<char>)
    ensures
        unfolded(continuation_lines(s)) == s,
    decreases s.len(),
{
    let n = fit_count(s, (LINE_LIMIT - 1) as nat) as int;
    lemma_fit_count(s, (LINE_LIMIT - 1) as nat);
    if s.len() == 0 {
        assert(unfolded(continuation_lines(s)) =~= s);
    } else {
        lemma_continuation_unfolds(s.skip(n));
        let lines = continuation_lines(s);
        assert(lines.drop_first() =~= continuation_lines(s.skip(n)));
        assert(lines[0].drop_first() =~= s.take(n));
        assert(s.take(n) + s.skip(n) =~= s);
    }
}

/// Folding loses nothing: the first physical line followed by what the
/// continuation lines carry is the content line.
pub proof fn lemma_fold_unfolds(line: Seq<char>)
    ensures
        fold(line).len() >= 1,
        fold(line)[0] + unfolded(fold(line).drop_first()) == line,
        forall|i: int| 1 <= i < fold(line).len() ==> (#[trigger] fold(line)[i]).len() >= 1 && fold(
            line,
        )[i][0] == ' ',
{
    let n = fit_count(line, LINE_LIMIT as nat) as int;
    lemma_fit_count(line, LINE_LIMIT as nat);
    if n >= line.len() {
        assert(fold(line).drop_first() =~= Seq::<Seq<char>>::empty());
        assert(line + Seq::<char>::empty() =~= line);
    } else {
        lemma_continuation_unfolds(line.skip(n));
        assert(fold(line).drop_first() =~= continuation_lines(line.skip(n)));
        assert(line.take(n) + line.skip(n) =~= line);
        lemma_continuation_starts(line.skip(n));
    }
}

proof fn lemma_continuation_starts(s: Seq<char>)
    ensures
        forall|i: int|
            0 <= i < continuation_lines(s).len() ==> (#[trigger] continuation_lines(s)[i]).len()
                >= 1 && continuation_lines(s)[i][0] == ' ',
    decreases s.len(),
{
    let n = fit_count(s, (LINE_LIMIT - 1) as nat) as int;
    if !(s.len() == 0 || n < 1 || n > s.len()) {
        lemma_continuation_starts(s.skip(n));
        assert forall|i: int| 0 <= i < continuation_lines(s).len() implies (
        #[trigger] continuation_lines(s)[i]).len() >= 1 && continuation_lines(s)[i][0] == ' ' by {
            if i > 0 {
                assert(continuation_lines(s)[i] == continuation_lines(s.skip(n))[i - 1]);
            }
        }
    }
}

/// How many characters of `v[from..]` fit into `budget` bytes.
fn fit(v: &Vec<char>, from: usize, budget: usize) -> (n: usize)
    requires
        from <= v.len(),
    ensures
        n == fit_count(v@.skip(from as int), budget as nat),
        from + n <= v.len(),
{
    let mut i: usize = from;
    let mut left: usize = budget;
    while i < v.len() && width_of(v[i]) <= left
        invariant
            from <= i <= v.len(),
            left <= budget,
            fit_count(v@.skip(from as int), budget as nat) == (i - from) + fit_count(
                v@.skip(i as int),
                left as nat,
            ),
        decreases v.len() - i,
    {
        assert(v@.skip(i as int)[0] == v@[i as int]);
        assert(v@.skip(i as int).drop_first() == v@.skip(i + 1));
        left -= width_of(v[i]);
        i += 1;
    }
    proof {
        if i < v.len() {
            assert(v@.skip(i as int)[0] == v@[i as int]);
        }
    }
    i - from
}

/// Folds one content line into physical lines of at most `LINE_LIMIT` bytes.
/// A line is split between characters only, and every continuation line
/// starts with a single space.
pub fn fold_line(line: &str) -> (out: Vec<String>)
    ensures
        views(out@) == fold(line@),
        within_limit(views(out@)),
{
    let v = chars_of(line);
    assert(v@.skip(0) == v@);
    let n = fit(&v, 0, LINE_LIMIT);
    let mut out: Vec<String> = Vec::new();
    proof {
        lemma_fold_within_limit(line@);
    }
    if n >= v.len() {
        assert(v@.subrange(0, v.len() as int) == v@);
        out.push(string_of(&v));
        assert(views(out@) =~= fold(line@));
        return out;
    }
    out.push(string_of_range(&v, 0, n));
    let mut pos: usize = n;
    assert(views(out@) =~= seq![line@.take(n as int)]);
    while pos < v.len()
        invariant
            pos <= v.len(),
            v@ == line@,
            views(out@) + continuation_lines(v@.skip(pos as int)) == fold(line@),
        decreases v.len() - pos,
    {
        let ghost rest = v@.skip(pos as int);
        let m = fit(&v, pos, LINE_LIMIT - 1);
        proof {
            lemma_fit_count(rest, (LINE_LIMIT - 1) as nat);
        }
        let mut piece: Vec<char> = Vec::new();
        piece.push(' ');
        let mut k: usize = pos;
        while k < pos + m
            invariant
                pos <= k <= pos + m <= v.len(),
                piece@ == seq![' '] + v@.subrange(pos as int, k as int),
            decreases pos + m - k,
        {
            piece.push(v[k]);
            k += 1;
            assert(piece@ =~= seq![' '] + v@.subrange(pos as int, k as int));
        }
        assert(v@.subrange(pos as int, pos + m) =~= rest.take(m as int));
        assert(rest.skip(m as int) =~= v@.skip(pos + m));
        let ghost before = views(out@);
        out.push(string_of(&piece));
        assert(views(out@) =~= before.push(piece@));
        assert(before.push(piece@) + continuation_lines(v@.skip(pos + m)) =~= before
            + continuation_lines(rest));
        pos += m;
    }
    assert(continuation_lines(v@.skip(pos as int)) =~= Seq::<Seq<char>>::empty());
    assert(views(out@) + Seq::<Seq<char>>::empty() =~= views(out@));
    out
}

/// Appends the physical lines of one content line to `lines`.
pub fn push_line(lines: &mut Vec<String>, line: String)
    ensures
        views(final(lines)@) == views(old(lines)@) + fold(line@),
{
    let pieces = fold_line(line.as_str());
    let ghost before = views(lines@);
    let mut pieces = pieces;
    let ghost all = views(pieces@);
    let mut rest: Vec<String> = Vec::new();
    // Move the pieces over in order.
    let mut i: usize = 0;
    let n = pieces.len();
    while i < n
        invariant
            i <= n,
            n == pieces.len(),
            views(pieces@) == all,
            views(lines@) == before + all.take(i as int),
        decreases n - i,
    {
        let piece = pieces[i].clone();
        let ghost sofar = views(lines@);
        lines.push(piece);
        assert(views(lines@) =~= sofar.push(all[i as int]));
        i += 1;
        assert(before + all.take(i as int) =~= (before + all.take(i - 1)).push(all[i - 1]));
    }
    assert(all.take(n as int) =~= all);
}

// ---------------------------------------------------------------------------
// Joining
// ---------------------------------------------------------------------------

/// The items in a row, with `sep` between each two.
pub open spec fn joined(items: Seq<Seq<char>>, sep: Seq<char>) -> Seq<char>
    decreases items.len(),
{
    if items.len() == 0 {
        Seq::<char>::empty()
    } else if items.len() == 1 {
        items[0]
    } else {
        joined(items.drop_last(), sep) + sep + items.last()
    }
}

/// The items in a row, with `sep` between each two.
pub fn join(items: &Vec<String>, sep: &str) -> (out: String)
    ensures
        out@ == joined(views(items@), sep@),
{
    let mut out: Vec<char> = Vec::new();
    let separator = chars_of(sep);
    let mut i: usize = 0;
    while i < items.len()
        invariant
            i <= items.len(),
            separator@ == sep@,
            out@ == joined(views(items@).take(i as int), sep@),
        decreases items.len() - i,
    {
        if i > 0 {
            push_chars(&mut out, &separator);
        }
        let item = chars_of(items[i].as_str());
        push_chars(&mut out, &item);
        i += 1;
        proof {
            let now = views(items@).take(i as int);
            assert(now.drop_last() =~= views(items@).take(i - 1));
            assert(now.last() == item@);
            if i == 1 {
                assert(out@ =~= item@);
            }
        }
    }
    assert(views(items@).take(items.len() as int) =~= views(items@));
    string_of(&out)
}

/// Every line followed by a carriage return and a line feed.
pub open spec fn terminated(lines: Seq<Seq<char>>) -> Seq<char>
    decreases lines.len(),
{
    if lines.len() == 0 {
        Seq::<char>::empty()
    } else {
        terminated(lines.drop_last()) + lines.last() + seq!['\r', '\n']
    }
}

/// The text of a file that holds the given lines, each ended by CRLF.
pub fn terminate_lines(lines: &Vec<String>) -> (out: String)
    ensures
        out@ == terminated(views(lines@)),
{
    let mut out: Vec<char> = Vec::new();
    let mut i: usize = 0;
    while i < lines.len()
        invariant
            i <= lines.len(),
            out@ == terminated(views(lines@).take(i as int)),
        decreases lines.len() - i,
    {
        let item = chars_of(lines[i].as_str());
        push_chars(&mut out, &item);
        out.push('\r');
        out.push('\n');
        i += 1;
        proof {
            let now = views(lines@).take(i as int);
            assert(now.drop_last() =~= views(lines@).take(i - 1));
            assert(now.last() == item@);
            assert(out@ =~= terminated(now.drop_last()) + now.last() + seq!['\r', '\n']);
        }
    }
    assert(views(lines@).take(lines.len() as int) =~= views(lines@));
    string_of(&out)
}

} // verus!
