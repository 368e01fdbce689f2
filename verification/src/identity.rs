//! The stable identity of an event and the hash of its content.

use vstd::prelude::*;
use crate::digest::{hash_text, hex_digit, sha256_hex};
use crate::lines::{join, joined};
use crate::model::{CandidateEvent, CandidateView};
use crate::numbers::{decimal, int_text, push_decimal, push_padded, zero_padded, zeros};
use crate::text::{chars_of, opt_view, push_chars, push_str, string_of, string_of_range, views};
use crate::time::{CalendarDate, EventTimeSpec, TimeView, UtcInstant};

verus! {

/// The lower-case form of a string, as `str::to_lowercase` defines it.
pub uninterp spec fn lowercase_of(s: Seq<char>) -> Seq<char>;

/// `str::to_lowercase`. The contract claims that the result depends on the
/// characters of `s` alone.
#[verifier::external_body]
pub(crate) fn to_lowercase(s: &str) -> (out: String)
    ensures
        out@ == lowercase_of(s@),
{
    s.to_lowercase()
}

// ---------------------------------------------------------------------------
// Identity
// ---------------------------------------------------------------------------

/// What tells one event of a source from another: the source's own id for
/// it; else its address; else its title in lower case and the year under
/// which it is filed.
#[verifier::opaque]
pub open spec fn identity_string(c: CandidateView) -> Seq<char> {
    match c.source_event_id {
        Some(id) => c.source_key + "::"@ + id,
        None => match c.source_url {
            Some(url) => c.source_key + "::"@ + url,
            None => c.source_key + "::"@ + lowercase_of(c.title) + "::"@ + (match c.time.year_bucket() {
                Some(y) => int_text(y as int),
                None => "undated"@,
            }),
        },
    }
}

/// The identifier that belongs to an identity string: the first 24
/// hexadecimal digits of its SHA-256 digest, then `@rics.local`.
pub open spec fn uid_of(identity: Seq<char>) -> Seq<char> {
    sha256_hex(identity).take(24) + "@rics.local"@
}

/// The stable identifier of a candidate.
pub open spec fn stable_uid_of(c: CandidateView) -> Seq<char> {
    uid_of(identity_string(c))
}

/// The identifier of a candidate. It is computed from the candidate's
/// identity string and from nothing else, and it is 35 characters long: 24
/// hexadecimal digits and `@rics.local`.
pub fn stable_uid(candidate: &CandidateEvent) -> (uid: String)
    ensures
        uid@ == stable_uid_of(candidate@),
        uid@.len() == 35,
{
    reveal(identity_string);
    let mut identity = chars_of(candidate.source_key.as_str());
    push_str(&mut identity, "::");
    match &candidate.source_event_id {
        Some(id) => {
            push_str(&mut identity, id.as_str());
        },
        None => match &candidate.source_url {
            Some(url) => {
                push_str(&mut identity, url.as_str());
            },
            None => {
                push_str(&mut identity, to_lowercase(candidate.title.as_str()).as_str());
                push_str(&mut identity, "::");
                match candidate.time.year_bucket() {
                    Some(y) => {
                        push_padded(&mut identity, y as i64, 0);
                        proof {
                            lemma_unpadded(y as int);
                        }
                    },
                    None => {
                        push_str(&mut identity, "undated");
                    },
                }
            },
        },
    }
    assert(identity@ =~= identity_string(candidate@));
    let text = string_of(&identity);
    let hex = chars_of(hash_text(text.as_str()).as_str());
    let mut uid: Vec<char> = Vec::new();
    let mut i: usize = 0;
    while i < 24
        invariant
            i <= 24,
            hex@.len() == 64,
            uid@ == hex@.take(i as int),
        decreases 24 - i,
    {
        uid.push(hex[i]);
        i += 1;
        assert(uid@ =~= hex@.take(i as int));
    }
    push_str(&mut uid, "@rics.local");
    proof {
        reveal_strlit("@rics.local");
        assert("@rics.local"@.len() == 11);
    }
    string_of(&uid)
}

pub proof fn lemma_unpadded(i: int)
    ensures
        zero_padded(i, 0) == int_text(i),
{
    let m = if i < 0 {
        decimal((-i) as nat)
    } else {
        decimal(i as nat)
    };
    assert(zeros(0 - m.len()) =~= Seq::<char>::empty());
    assert(zeros(0 - 1 - m.len()) =~= Seq::<char>::empty());
    assert(zero_padded(i, 0) =~= int_text(i));
}

/// Two candidates of one source get the same identifier where they agree on
/// the source's id for the event; where neither has one, on the address;
/// where neither has that either, on the title and the year.
pub proof fn lemma_uid_is_stable(a: CandidateView, b: CandidateView)
    requires
        a.source_key == b.source_key,
        a.source_event_id == b.source_event_id,
        a.source_event_id is None ==> a.source_url == b.source_url,
        a.source_event_id is None && a.source_url is None ==> a.title == b.title
            && a.time.year_bucket() == b.time.year_bucket(),
    ensures
        stable_uid_of(a) == stable_uid_of(b),
{
    reveal(identity_string);
}

// ---------------------------------------------------------------------------
// Revision material
// ---------------------------------------------------------------------------

/// What stands for `c` inside a quoted string of the canonical text.
pub open spec fn quoted_char(c: char) -> Seq<char> {
    if c == '"' {
        seq!['\\', '"']
    } else if c == '\\' {
        seq!['\\', '\\']
    } else if c == '\x08' {
        seq!['\\', 'b']
    } else if c == '\x0C' {
        seq!['\\', 'f']
    } else if c == '\n' {
        seq!['\\', 'n']
    } else if c == '\r' {
        seq!['\\', 'r']
    } else if c == '\t' {
        seq!['\\', 't']
    } else if (c as u32) < 0x20 {
        seq!['\\', 'u', '0', '0', hex_digit((c as u32) as int / 16), hex_digit((c as u32) as int % 16)]
    } else {
        seq![c]
    }
}

pub open spec fn quoted_body(s: Seq<char>) -> Seq<char>
    decreases s.len(),
{
    if s.len() == 0 {
        Seq::<char>::empty()
    } else {
        quoted_body(s.drop_last()) + quoted_char(s.last())
    }
}

/// `s` as a quoted string of the canonical text.
pub open spec fn quoted(s: Seq<char>) -> Seq<char> {
    seq!['"'] + quoted_body(s) + seq!['"']
}

/// An optional string: quoted, or `null`.
pub open spec fn quoted_opt(s: Option<Seq<char>>) -> Seq<char> {
    match s {
        Some(v) => quoted(v),
        None => "null"@,
    }
}

/// The year of a date in the canonical text: four digits for the years 0 to
/// 9999, else a sign and at least four digits.
pub open spec fn iso_year(year: int) -> Seq<char> {
    if 0 <= year <= 9999 {
        zero_padded(year, 4)
    } else if year < 0 {
        zero_padded(year, 5)
    } else {
        seq!['+'] + zero_padded(year, 4)
    }
}

/// `YYYY-MM-DD`.
pub open spec fn iso_date(d: CalendarDate) -> Seq<char> {
    iso_year(d.year as int) + seq!['-'] + zero_padded(d.month as int, 2) + seq!['-'] + zero_padded(
        d.day as int,
        2,
    )
}

/// The fraction of a second: nothing, or a point and three, six or nine
/// digits, as few as say it exactly.
pub open spec fn iso_fraction(nano: int) -> Seq<char> {
    if nano == 0 {
        Seq::<char>::empty()
    } else if nano % 1_000_000 == 0 {
        seq!['.'] + zero_padded(nano / 1_000_000, 3)
    } else if nano % 1_000 == 0 {
        seq!['.'] + zero_padded(nano / 1_000, 6)
    } else {
        seq!['.'] + zero_padded(nano, 9)
    }
}

/// `HH:MM:SS` and the fraction of the second.
pub open spec fn iso_clock(hour: int, minute: int, second: int, nano: int) -> Seq<char> {
    zero_padded(hour, 2) + seq![':'] + zero_padded(minute, 2) + seq![':'] + zero_padded(second, 2)
        + iso_fraction(nano)
}

/// `YYYY-MM-DDTHH:MM:SS`, the fraction of the second, and `Z`. A leap second
/// is written as second 60.
pub open spec fn iso_instant(t: UtcInstant) -> Seq<char> {
    let leap = t.nano >= 1_000_000_000;
    let second = if leap {
        t.second + 1
    } else {
        t.second as int
    };
    let nano = if leap {
        t.nano - 1_000_000_000
    } else {
        t.nano as int
    };
    iso_date(t.date) + seq!['T'] + iso_clock(t.hour as int, t.minute as int, second, nano) + seq![
        'Z',
    ]
}

/// The canonical text of an event's time.
pub open spec fn time_text(t: TimeView) -> Seq<char> {
    match t {
        TimeView::DateTime { start, end } => "{\"kind\":\"date_time\",\"start\":"@ + quoted(
            iso_instant(start),
        ) + ",\"end\":"@ + quoted_opt(
            match end {
                Some(e) => Some(iso_instant(e)),
                None => None,
            },
        ) + seq!['}'],
        TimeView::Date { start, end } => "{\"kind\":\"date\",\"start\":"@ + quoted(iso_date(start))
            + ",\"end\":"@ + quoted_opt(
            match end {
                Some(e) => Some(iso_date(e)),
                None => None,
            },
        ) + seq!['}'],
        TimeView::Month { year, month } => "{\"kind\":\"month\",\"year\":"@ + int_text(year as int)
            + ",\"month\":"@ + int_text(month as int) + seq!['}'],
        TimeView::Quarter { year, quarter } => "{\"kind\":\"quarter\",\"year\":"@ + int_text(
            year as int,
        ) + ",\"quarter\":"@ + int_text(quarter as int) + seq!['}'],
        TimeView::Year { year } => "{\"kind\":\"year\",\"year\":"@ + int_text(year as int) + seq![
            '}',
        ],
        TimeView::Tbd { note } => "{\"kind\":\"tbd\",\"note\":"@ + quoted_opt(note) + seq!['}'],
    }
}

/// The quoted form of every string of a list.
pub open spec fn quoted_all(items: Seq<Seq<char>>) -> Seq<Seq<char>> {
    items.map_values(|s: Seq<char>| quoted(s))
}

/// Every entry as `"key":"value"`.
pub open spec fn quoted_entries(entries: Seq<(Seq<char>, Seq<char>)>) -> Seq<Seq<char>> {
    entries.map_values(|e: (Seq<char>, Seq<char>)| quoted(e.0) + seq![':'] + quoted(e.1))
}

/// The canonical text of the fields that make up a revision: one object with
/// the fields in a fixed order, the categories in stored order, the metadata
/// in ascending order of their keys, and no white space between tokens.
/// `source_name`, `timezone`, `importance`, `confidence`, `jurisdiction` and
/// `country` are no part of it.
#[verifier::opaque]
pub open spec fn material_text(c: CandidateView) -> Seq<char> {
    "{\"source_key\":"@ + quoted(c.source_key) + ",\"source_event_id\":"@ + quoted_opt(
        c.source_event_id,
    ) + ",\"source_url\":"@ + quoted_opt(c.source_url) + ",\"title\":"@ + quoted(c.title)
        + ",\"description\":"@ + quoted_opt(c.description) + ",\"time\":"@ + time_text(c.time)
        + ",\"status\":"@ + quoted(c.status) + ",\"event_type\":"@ + quoted(c.event_type)
        + ",\"subtype\":"@ + quoted_opt(c.subtype) + ",\"categories\":["@ + joined(
        quoted_all(c.categories),
        seq![','],
    ) + "],\"metadata\":{"@ + joined(quoted_entries(c.metadata), seq![',']) + "}}"@
}

/// The revision hash of a candidate: the SHA-256 digest of its canonical
/// text, as 64 hexadecimal digits.
pub open spec fn revision_hash_of(c: CandidateView) -> Seq<char> {
    sha256_hex(material_text(c))
}

fn hex_char(n: u8) -> (c: char)
    requires
        n < 16,
    ensures
        c == hex_digit(n as int),
{
    if n < 10 {
        (48u8 + n) as char
    } else {
        (97u8 + n - 10) as char
    }
}

fn push_quoted_char(out: &mut Vec<char>, c: char)
    ensures
        final(out)@ == old(out)@ + quoted_char(c),
{
    if c == '"' {
        out.push('\\');
        out.push('"');
    } else if c == '\\' {
        out.push('\\');
        out.push('\\');
    } else if c == '\x08' {
        out.push('\\');
        out.push('b');
    } else if c == '\x0C' {
        out.push('\\');
        out.push('f');
    } else if c == '\n' {
        out.push('\\');
        out.push('n');
    } else if c == '\r' {
        out.push('\\');
        out.push('r');
    } else if c == '\t' {
        out.push('\\');
        out.push('t');
    } else if (c as u32) < 0x20 {
        let u: u8 = c as u8;
        out.push('\\');
        out.push('u');
        out.push('0');
        out.push('0');
        out.push(hex_char(u / 16));
        out.push(hex_char(u % 16));
    } else {
        out.push(c);
    }
    assert(final(out)@ =~= old(out)@ + quoted_char(c));
}

fn push_quoted(out: &mut Vec<char>, s: &str)
    ensures
        final(out)@ == old(out)@ + quoted(s@),
{
    let ghost before = out@;
    let v = chars_of(s);
    out.push('"');
    let mut i: usize = 0;
    while i < v.len()
        invariant
            i <= v.len(),
            v@ == s@,
            out@ == before + seq!['"'] + quoted_body(v@.take(i as int)),
        decreases v.len() - i,
    {
        let ghost sofar = out@;
        push_quoted_char(out, v[i]);
        i += 1;
        proof {
            assert(v@.take(i as int).drop_last() == v@.take(i - 1));
            assert(out@ =~= before + seq!['"'] + quoted_body(v@.take(i as int)));
        }
    }
    assert(v@.take(v.len() as int) == v@);
    out.push('"');
    assert(out@ =~= before + quoted(s@));
}

fn push_quoted_opt(out: &mut Vec<char>, s: &Option<String>)
    ensures
        final(out)@ == old(out)@ + quoted_opt(opt_view(*s)),
{
    match s {
        Some(v) => push_quoted(out, v.as_str()),
        None => push_str(out, "null"),
    }
}

fn push_iso_date(out: &mut Vec<char>, d: &CalendarDate)
    ensures
        final(out)@ == old(out)@ + iso_date(*d),
{
    if 0 <= d.year && d.year <= 9999 {
        push_padded(out, d.year as i64, 4);
    } else if d.year < 0 {
        push_padded(out, d.year as i64, 5);
    } else {
        out.push('+');
        push_padded(out, d.year as i64, 4);
    }
    out.push('-');
    push_padded(out, d.month as i64, 2);
    out.push('-');
    push_padded(out, d.day as i64, 2);
    assert(final(out)@ =~= old(out)@ + iso_date(*d));
}

fn push_iso_fraction(out: &mut Vec<char>, nano: i64)
    requires
        0 <= nano,
    ensures
        final(out)@ == old(out)@ + iso_fraction(nano as int),
{
    if nano == 0 {
    } else if nano % 1_000_000 == 0 {
        out.push('.');
        push_padded(out, nano / 1_000_000, 3);
    } else if nano % 1_000 == 0 {
        out.push('.');
        push_padded(out, nano / 1_000, 6);
    } else {
        out.push('.');
        push_padded(out, nano, 9);
    }
    assert(final(out)@ =~= old(out)@ + iso_fraction(nano as int));
}

fn push_iso_clock(out: &mut Vec<char>, hour: i64, minute: i64, second: i64, nano: i64)
    requires
        0 <= nano,
    ensures
        final(out)@ == old(out)@ + iso_clock(hour as int, minute as int, second as int, nano as int),
{
    push_padded(out, hour, 2);
    out.push(':');
    push_padded(out, minute, 2);
    out.push(':');
    push_padded(out, second, 2);
    push_iso_fraction(out, nano);
    assert(final(out)@ =~= old(out)@ + iso_clock(
        hour as int,
        minute as int,
        second as int,
        nano as int,
    ));
}

fn push_iso_instant(out: &mut Vec<char>, t: &UtcInstant)
    ensures
        final(out)@ == old(out)@ + iso_instant(*t),
{
    let leap = t.nano >= 1_000_000_000;
    let second: i64 = if leap {
        t.second as i64 + 1
    } else {
        t.second as i64
    };
    let nano: i64 = if leap {
        t.nano as i64 - 1_000_000_000
    } else {
        t.nano as i64
    };
    push_iso_date(out, &t.date);
    out.push('T');
    push_iso_clock(out, t.hour as i64, t.minute as i64, second, nano);
    out.push('Z');
    assert(final(out)@ =~= old(out)@ + iso_instant(*t));
}

pub fn iso_date_string(d: &CalendarDate) -> (out: String)
    ensures
        out@ == iso_date(*d),
{
    let mut v: Vec<char> = Vec::new();
    push_iso_date(&mut v, d);
    assert(v@ =~= iso_date(*d));
    string_of(&v)
}

fn iso_instant_string(t: &UtcInstant) -> (out: String)
    ensures
        out@ == iso_instant(*t),
{
    let mut v: Vec<char> = Vec::new();
    push_iso_instant(&mut v, t);
    assert(v@ =~= iso_instant(*t));
    string_of(&v)
}

fn push_int(out: &mut Vec<char>, i: i64)
    ensures
        final(out)@ == old(out)@ + int_text(i as int),
{
    push_padded(out, i, 0);
    proof {
        lemma_unpadded(i as int);
    }
}

fn push_time_text(out: &mut Vec<char>, time: &EventTimeSpec)
    ensures
        final(out)@ == old(out)@ + time_text(time@),
{
    match time {
        EventTimeSpec::DateTime { start, end } => {
            push_str(out, "{\"kind\":\"date_time\",\"start\":");
            push_quoted(out, iso_instant_string(start).as_str());
            push_str(out, ",\"end\":");
            let text = match end {
                Some(e) => Some(iso_instant_string(e)),
                None => None,
            };
            push_quoted_opt(out, &text);
            out.push('}');
        },
        EventTimeSpec::Date { start, end } => {
            push_str(out, "{\"kind\":\"date\",\"start\":");
            push_quoted(out, iso_date_string(start).as_str());
            push_str(out, ",\"end\":");
            let text = match end {
                Some(e) => Some(iso_date_string(e)),
                None => None,
            };
            push_quoted_opt(out, &text);
            out.push('}');
        },
        EventTimeSpec::Month { year, month } => {
            push_str(out, "{\"kind\":\"month\",\"year\":");
            push_int(out, *year as i64);
            push_str(out, ",\"month\":");
            push_int(out, *month as i64);
            out.push('}');
        },
        EventTimeSpec::Quarter { year, quarter } => {
            push_str(out, "{\"kind\":\"quarter\",\"year\":");
            push_int(out, *year as i64);
            push_str(out, ",\"quarter\":");
            push_int(out, *quarter as i64);
            out.push('}');
        },
        EventTimeSpec::Year { year } => {
            push_str(out, "{\"kind\":\"year\",\"year\":");
            push_int(out, *year as i64);
            out.push('}');
        },
        EventTimeSpec::Tbd { note } => {
            push_str(out, "{\"kind\":\"tbd\",\"note\":");
            push_quoted_opt(out, note);
            out.push('}');
        },
    }
    assert(final(out)@ =~= old(out)@ + time_text(time@));
}

fn push_categories(out: &mut Vec<char>, categories: &Vec<String>)
    ensures
        final(out)@ == old(out)@ + joined(quoted_all(views(categories@)), seq![',']),
{
    let mut items: Vec<String> = Vec::new();
    let mut i: usize = 0;
    while i < categories.len()
        invariant
            i <= categories.len(),
            items.len() == i,
            forall|j: int| 0 <= j < i ==> (#[trigger] items@[j])@ == quoted(categories@[j]@),
        decreases categories.len() - i,
    {
        let mut v: Vec<char> = Vec::new();
        push_quoted(&mut v, categories[i].as_str());
        assert(v@ =~= quoted(categories@[i as int]@));
        items.push(string_of(&v));
        i += 1;
    }
    assert(views(items@) =~= quoted_all(views(categories@)));
    let text = join(&items, ",");
    proof {
        reveal_strlit(",");
        assert(","@ =~= seq![',']);
    }
    push_str(out, text.as_str());
}

fn push_metadata(out: &mut Vec<char>, metadata: &crate::keyed::StrMap<String>)
    requires
        metadata.wf(),
    ensures
        final(out)@ == old(out)@ + joined(
            quoted_entries(crate::model::pairs(*metadata)),
            seq![','],
        ),
{
    let mut items: Vec<String> = Vec::new();
    let mut i: usize = 0;
    while i < metadata.len()
        invariant
            metadata.wf(),
            i <= metadata.keys().len(),
            items.len() == i,
            forall|j: int|
                0 <= j < i ==> (#[trigger] items@[j])@ == quoted(metadata.keys()[j]) + seq![':']
                    + quoted(metadata.values()[j]@),
        decreases metadata.keys().len() - i,
    {
        let mut v: Vec<char> = Vec::new();
        push_quoted(&mut v, metadata.key_at(i).as_str());
        v.push(':');
        push_quoted(&mut v, metadata.value_at(i).as_str());
        assert(v@ =~= quoted(metadata.keys()[i as int]) + seq![':'] + quoted(
            metadata.values()[i as int]@,
        ));
        items.push(string_of(&v));
        i += 1;
    }
    assert(views(items@) =~= quoted_entries(crate::model::pairs(*metadata)));
    let text = join(&items, ",");
    proof {
        reveal_strlit(",");
        assert(","@ =~= seq![',']);
    }
    push_str(out, text.as_str());
}

/// The canonical text of the fields that make up a candidate's revision.
pub fn canonical_material(candidate: &CandidateEvent) -> (out: String)
    requires
        candidate.wf(),
    ensures
        out@ == material_text(candidate@),
{
    reveal(material_text);
    let mut v: Vec<char> = Vec::new();
    push_str(&mut v, "{\"source_key\":");
    push_quoted(&mut v, candidate.source_key.as_str());
    push_str(&mut v, ",\"source_event_id\":");
    push_quoted_opt(&mut v, &candidate.source_event_id);
    push_str(&mut v, ",\"source_url\":");
    push_quoted_opt(&mut v, &candidate.source_url);
    push_str(&mut v, ",\"title\":");
    push_quoted(&mut v, candidate.title.as_str());
    push_str(&mut v, ",\"description\":");
    push_quoted_opt(&mut v, &candidate.description);
    push_str(&mut v, ",\"time\":");
    push_time_text(&mut v, &candidate.time);
    push_str(&mut v, ",\"status\":");
    push_quoted(&mut v, candidate.status.as_str());
    push_str(&mut v, ",\"event_type\":");
    push_quoted(&mut v, candidate.event_type.as_str());
    push_str(&mut v, ",\"subtype\":");
    push_quoted_opt(&mut v, &candidate.subtype);
    push_str(&mut v, ",\"categories\":[");
    push_categories(&mut v, &candidate.categories);
    push_str(&mut v, "],\"metadata\":{");
    push_metadata(&mut v, &candidate.metadata);
    push_str(&mut v, "}}");
    assert(v@ =~= material_text(candidate@));
    string_of(&v)
}

/// The revision hash of a candidate: 64 hexadecimal digits that depend on
/// the revision material alone.
pub fn revision_hash(candidate: &CandidateEvent) -> (hash: String)
    requires
        candidate.wf(),
    ensures
        hash@ == revision_hash_of(candidate@),
        hash@.len() == 64,
{
    let text = canonical_material(candidate);
    hash_text(text.as_str())
}

/// The fields that a revision is made of.
pub open spec fn same_material(a: CandidateView, b: CandidateView) -> bool {
    &&& a.source_key == b.source_key
    &&& a.source_event_id == b.source_event_id
    &&& a.source_url == b.source_url
    &&& a.title == b.title
    &&& a.description == b.description
    &&& a.time == b.time
    &&& a.status == b.status
    &&& a.event_type == b.event_type
    &&& a.subtype == b.subtype
    &&& a.categories == b.categories
    &&& a.metadata == b.metadata
}

/// Two candidates that differ only in `source_name`, `timezone`,
/// `importance`, `confidence`, `jurisdiction` or `country` have the same
/// identifier and the same revision hash.
pub proof fn lemma_revision_ignores_other_fields(a: CandidateView, b: CandidateView)
    requires
        same_material(a, b),
    ensures
        revision_hash_of(a) == revision_hash_of(b),
        stable_uid_of(a) == stable_uid_of(b),
{
    reveal(identity_string);
    reveal(material_text);
}

} // verus!
