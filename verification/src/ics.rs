//! The calendar writer: the content lines of an event and of a year's
//! calendar, and the text of the file that holds them.

use vstd::prelude::*;
use crate::keyed::{sort_dedup, sorted_set};
use crate::lines::{
    escape_text, escaped, folded, join, joined, lemma_folded_within_limit, push_line,
    terminate_lines, terminated, within_limit,
};
use crate::model::{EventRecord, RecordView};
pub use crate::rebuild::write_source_year_calendar;
use crate::numbers::{decimal, int_text, push_decimal, push_padded, zero_padded};
use crate::text::{
    ascii_alnum, ascii_upper, chars_of, concat2, is_ascii_alnum, push_str, string_of,
    to_ascii_upper, to_upper_char, upper_char, views,
};
use crate::time::{CalendarDate, EventTimeSpec, TimeView, UtcInstant};

verus! {

// ---------------------------------------------------------------------------
// Values
// ---------------------------------------------------------------------------

/// A date in basic form: `YYYYMMDD`.
pub open spec fn date_basic(d: CalendarDate) -> Seq<char> {
    zero_padded(d.year as int, 4) + zero_padded(d.month as int, 2) + zero_padded(d.day as int, 2)
}

/// An instant in basic form: `YYYYMMDDTHHMMSSZ`.
pub open spec fn utc_basic(t: UtcInstant) -> Seq<char> {
    date_basic(t.date) + seq!['T'] + zero_padded(t.hour as int, 2) + zero_padded(
        t.minute as int,
        2,
    ) + zero_padded(t.second as int, 2) + seq!['Z']
}

fn push_date_basic(out: &mut Vec<char>, d: &CalendarDate)
    ensures
        final(out)@ == old(out)@ + date_basic(*d),
{
    push_padded(out, d.year as i64, 4);
    push_padded(out, d.month as i64, 2);
    push_padded(out, d.day as i64, 2);
    assert(final(out)@ =~= old(out)@ + date_basic(*d));
}

/// `prefix` followed by the date in basic form.
pub fn format_date(prefix: &str, value: &CalendarDate) -> (out: String)
    ensures
        out@ == prefix@ + date_basic(*value),
{
    let mut v = chars_of(prefix);
    push_date_basic(&mut v, value);
    string_of(&v)
}

/// `prefix` followed by the instant in basic form.
pub fn format_utc(prefix: &str, value: &UtcInstant) -> (out: String)
    ensures
        out@ == prefix@ + utc_basic(*value),
{
    let mut v = chars_of(prefix);
    push_date_basic(&mut v, &value.date);
    v.push('T');
    push_padded(&mut v, value.hour as i64, 2);
    push_padded(&mut v, value.minute as i64, 2);
    push_padded(&mut v, value.second as i64, 2);
    v.push('Z');
    assert(v@ =~= prefix@ + utc_basic(*value));
    string_of(&v)
}

/// A confidence, given in ten-thousandths, with four decimals.
pub open spec fn confidence_text(c: int) -> Seq<char> {
    let m = if c < 0 {
        -c
    } else {
        c
    };
    (if c < 0 {
        seq!['-']
    } else {
        Seq::<char>::empty()
    }) + decimal((m / 10000) as nat) + seq!['.'] + zero_padded(m % 10000, 4)
}

/// `prefix` followed by the confidence with four decimals.
pub fn format_confidence(prefix: &str, c: i64) -> (out: String)
    ensures
        out@ == prefix@ + confidence_text(c as int),
{
    let mut v = chars_of(prefix);
    let m: u64 = if c < 0 {
        (-(c as i128)) as u64
    } else {
        c as u64
    };
    if c < 0 {
        v.push('-');
    }
    push_decimal(&mut v, m / 10000);
    v.push('.');
    push_padded(&mut v, (m % 10000) as i64, 4);
    assert(v@ =~= prefix@ + confidence_text(c as int));
    string_of(&v)
}

/// The name of a proprietary property: ASCII letters in upper case, ASCII
/// digits as they are, and `-` for every other character.
pub open spec fn sanitized_x_key(raw: Seq<char>) -> Seq<char> {
    raw.map_values(
        |c: char|
            if is_ascii_alnum(c) {
                upper_char(c)
            } else {
                '-'
            },
    )
}

pub fn sanitize_x_key(raw: &str) -> (out: String)
    ensures
        out@ == sanitized_x_key(raw@),
{
    let v = chars_of(raw);
    let mut out: Vec<char> = Vec::new();
    let mut i: usize = 0;
    while i < v.len()
        invariant
            i <= v.len(),
            v@ == raw@,
            out@ == sanitized_x_key(raw@).take(i as int),
        decreases v.len() - i,
    {
        let c = v[i];
        if ascii_alnum(c) {
            out.push(to_upper_char(c));
        } else {
            out.push('-');
        }
        i += 1;
        assert(out@ =~= sanitized_x_key(raw@).take(i as int));
    }
    assert(sanitized_x_key(raw@).take(v.len() as int) =~= sanitized_x_key(raw@));
    string_of(&out)
}

/// The escaped form of every string of a list.
pub open spec fn escaped_all(items: Seq<Seq<char>>) -> Seq<Seq<char>> {
    items.map_values(|s: Seq<char>| escaped(s))
}

/// The value of a `CATEGORIES` line: the escaped categories in ascending
/// order, each one once, with commas between them.
pub open spec fn categories_value(categories: Seq<Seq<char>>) -> Seq<char> {
    joined(sorted_set(escaped_all(categories)), seq![','])
}

fn format_categories(categories: &Vec<String>) -> (out: String)
    ensures
        out@ == "CATEGORIES:"@ + categories_value(views(categories@)),
{
    let mut all: Vec<String> = Vec::new();
    let mut i: usize = 0;
    while i < categories.len()
        invariant
            i <= categories.len(),
            all.len() == i,
            forall|j: int| 0 <= j < i ==> (#[trigger] all@[j])@ == escaped(categories@[j]@),
        decreases categories.len() - i,
    {
        all.push(escape_text(categories[i].as_str()));
        i += 1;
    }
    assert(views(all@) =~= escaped_all(views(categories@)));
    let unique = sort_dedup(&all);
    let value = join(&unique, ",");
    proof {
        reveal_strlit(",");
        assert(","@ =~= seq![',']);
    }
    concat2("CATEGORIES:", value.as_str())
}

// ---------------------------------------------------------------------------
// The content lines of an event
// ---------------------------------------------------------------------------

/// `lines`, followed by the line `prefix` + `value` where there is a value.
pub open spec fn with_optional(
    lines: Seq<Seq<char>>,
    prefix: Seq<char>,
    value: Option<Seq<char>>,
) -> Seq<Seq<char>> {
    match value {
        Some(v) => lines.push(prefix + v),
        None => lines,
    }
}

pub open spec fn escaped_opt(value: Option<Seq<char>>) -> Option<Seq<char>> {
    match value {
        Some(v) => Some(escaped(v)),
        None => None,
    }
}

/// The `DTSTART` and `DTEND` of a whole-day span that starts on `start`.
pub open spec fn day_span_lines(start: CalendarDate, end: Option<CalendarDate>) -> Seq<Seq<char>> {
    with_optional(
        seq!["DTSTART;VALUE=DATE:"@ + date_basic(start)],
        "DTEND;VALUE=DATE:"@,
        match end {
            Some(e) => Some(date_basic(e)),
            None => None,
        },
    )
}

/// The lines that say when the event takes place.
pub open spec fn time_lines(t: TimeView) -> Seq<Seq<char>> {
    match t {
        TimeView::DateTime { start, end } => with_optional(
            seq!["DTSTART:"@ + utc_basic(start)],
            "DTEND:"@,
            match end {
                Some(e) => Some(utc_basic(e)),
                None => None,
            },
        ),
        TimeView::Date { start, end } => {
            let last = match end {
                Some(e) => e,
                None => start,
            };
            day_span_lines(
                start,
                Some(
                    match last.next() {
                        Some(n) => n,
                        None => start,
                    },
                ),
            )
        },
        TimeView::Tbd { note } => with_optional(
            Seq::<Seq<char>>::empty(),
            "X-RICS-TBD-NOTE:"@,
            escaped_opt(note),
        ),
        _ => match t.start_date() {
            Some(s) => day_span_lines(s, t.end_date_exclusive()),
            None => Seq::<Seq<char>>::empty(),
        },
    }
}

/// The line of one metadata entry; none where key or value is empty.
pub open spec fn metadata_line(entry: (Seq<char>, Seq<char>)) -> Option<Seq<char>> {
    if entry.0.len() == 0 || entry.1.len() == 0 {
        None
    } else {
        Some(sanitized_x_key(entry.0) + seq![':'] + escaped(entry.1))
    }
}

/// `lines`, followed by the lines of the metadata entries in their order.
pub open spec fn with_metadata(
    lines: Seq<Seq<char>>,
    entries: Seq<(Seq<char>, Seq<char>)>,
) -> Seq<Seq<char>>
    decreases entries.len(),
{
    if entries.len() == 0 {
        lines
    } else {
        with_optional(
            with_metadata(lines, entries.drop_last()),
            "X-RICS-"@,
            metadata_line(entries.last()),
        )
    }
}

/// The lines of an event up to and including its time.
pub open spec fn event_head(r: RecordView) -> Seq<Seq<char>> {
    seq![
        "BEGIN:VEVENT"@,
        "UID:"@ + escaped(r.uid),
        "DTSTAMP:"@ + utc_basic(r.last_modified),
        "CREATED:"@ + utc_basic(r.created_at),
        "LAST-MODIFIED:"@ + utc_basic(r.last_modified),
        "SEQUENCE:"@ + decimal(r.sequence as nat),
    ] + time_lines(r.content.time)
}

/// The lines of an event from its summary to its categories.
pub open spec fn event_description(r: RecordView, head: Seq<Seq<char>>) -> Seq<Seq<char>> {
    let c = r.content;
    let a = head.push("SUMMARY:"@ + escaped(c.title));
    let b = with_optional(a, "DESCRIPTION:"@, escaped_opt(c.description));
    let d = with_optional(b, "URL:"@, escaped_opt(c.source_url));
    with_optional(
        d,
        "CATEGORIES:"@,
        if c.categories.len() > 0 {
            Some(categories_value(c.categories))
        } else {
            None
        },
    )
}

/// The lines of an event from its status to its revision hash.
pub open spec fn event_properties(r: RecordView, before: Seq<Seq<char>>) -> Seq<Seq<char>> {
    let c = r.content;
    let a = before.push("STATUS:"@ + ascii_upper(c.status)).push("TRANSP:TRANSPARENT"@).push(
        "X-RICS-SOURCE-KEY:"@ + escaped(c.source_key),
    ).push("X-RICS-EVENT-TYPE:"@ + escaped(c.event_type));
    let b = with_optional(a, "X-RICS-EVENT-SUBTYPE:"@, escaped_opt(c.subtype));
    let d = with_optional(
        b,
        "X-RICS-IMPORTANCE:"@,
        match c.importance {
            Some(i) => Some(decimal(i as nat)),
            None => None,
        },
    );
    let e = with_optional(
        d,
        "X-RICS-CONFIDENCE:"@,
        match c.confidence {
            Some(v) => Some(confidence_text(v as int)),
            None => None,
        },
    );
    e.push("X-RICS-TIME-PRECISION:"@ + ascii_upper(c.time.precision())).push(
        "X-RICS-REVISION-HASH:"@ + r.revision_hash,
    )
}

/// The content lines of one event, from `BEGIN:VEVENT` to `END:VEVENT`.
pub open spec fn event_lines(r: RecordView) -> Seq<Seq<char>> {
    with_metadata(
        event_properties(r, event_description(r, event_head(r))),
        r.content.metadata,
    ).push("END:VEVENT"@)
}

/// Appends one content line and keeps the account of what has been written:
/// `lines` holds `base` and then the folded form of the content lines so far.
fn emit(
    lines: &mut Vec<String>,
    line: String,
    Ghost(base): Ghost<Seq<Seq<char>>>,
    Ghost(written): Ghost<Seq<Seq<char>>>,
) -> (next: Ghost<Seq<Seq<char>>>)
    requires
        views(old(lines)@) == base + folded(written),
    ensures
        next@ == written.push(line@),
        views(final(lines)@) == base + folded(next@),
{
    push_line(lines, line);
    proof {
        assert(written.push(line@).drop_last() =~= written);
        assert(base + folded(written) + crate::lines::fold(line@) =~= base + (folded(written)
            + crate::lines::fold(line@)));
    }
    Ghost(written.push(line@))
}

/// `emit`, for a line that is written only where it has a value.
fn emit_optional(
    lines: &mut Vec<String>,
    prefix: &str,
    value: Option<String>,
    Ghost(base): Ghost<Seq<Seq<char>>>,
    Ghost(written): Ghost<Seq<Seq<char>>>,
) -> (next: Ghost<Seq<Seq<char>>>)
    requires
        views(old(lines)@) == base + folded(written),
    ensures
        next@ == with_optional(written, prefix@, crate::text::opt_view(value)),
        views(final(lines)@) == base + folded(next@),
{
    match value {
        Some(v) => emit(lines, concat2(prefix, v.as_str()), Ghost(base), Ghost(written)),
        None => Ghost(written),
    }
}

fn escape_opt(value: &Option<String>) -> (out: Option<String>)
    ensures
        crate::text::opt_view(out) == escaped_opt(crate::text::opt_view(*value)),
{
    match value {
        Some(v) => Some(escape_text(v.as_str())),
        None => None,
    }
}

fn basic_date_opt(value: Option<CalendarDate>) -> (out: Option<String>)
    ensures
        crate::text::opt_view(out) == (match value {
            Some(d) => Some(date_basic(d)),
            None => None,
        }),
{
    match value {
        Some(d) => {
            let s = format_date("", &d);
            proof {
                reveal_strlit("");
                assert(""@ + date_basic(d) =~= date_basic(d));
            }
            Some(s)
        },
        None => None,
    }
}

fn emit_day_span(
    lines: &mut Vec<String>,
    start: CalendarDate,
    end: Option<CalendarDate>,
    Ghost(base): Ghost<Seq<Seq<char>>>,
    Ghost(written): Ghost<Seq<Seq<char>>>,
) -> (next: Ghost<Seq<Seq<char>>>)
    requires
        views(old(lines)@) == base + folded(written),
    ensures
        next@ == written + day_span_lines(start, end),
        views(final(lines)@) == base + folded(next@),
{
    let g = emit(lines, format_date("DTSTART;VALUE=DATE:", &start), Ghost(base), Ghost(written));
    let g = emit_optional(lines, "DTEND;VALUE=DATE:", basic_date_opt(end), Ghost(base), g);
    assert(g@ =~= written + day_span_lines(start, end));
    g
}

fn emit_time(
    lines: &mut Vec<String>,
    time: &EventTimeSpec,
    Ghost(base): Ghost<Seq<Seq<char>>>,
    Ghost(written): Ghost<Seq<Seq<char>>>,
) -> (next: Ghost<Seq<Seq<char>>>)
    requires
        views(old(lines)@) == base + folded(written),
    ensures
        next@ == written + time_lines(time@),
        views(final(lines)@) == base + folded(next@),
{
    match time {
        EventTimeSpec::DateTime { start, end } => {
            let g = emit(lines, format_utc("DTSTART:", start), Ghost(base), Ghost(written));
            let value = match end {
                Some(e) => {
                    let s = format_utc("", e);
                    proof {
                        reveal_strlit("");
                        assert(""@ + utc_basic(*e) =~= utc_basic(*e));
                    }
                    Some(s)
                },
                None => None,
            };
            let g = emit_optional(lines, "DTEND:", value, Ghost(base), g);
            assert(g@ =~= written + time_lines(time@));
            g
        },
        EventTimeSpec::Date { start, end } => {
            let last = match end {
                Some(e) => *e,
                None => *start,
            };
            let exclusive = match last.succ() {
                Some(n) => n,
                None => *start,
            };
            emit_day_span(lines, *start, Some(exclusive), Ghost(base), Ghost(written))
        },
        EventTimeSpec::Tbd { note } => {
            let g = emit_optional(
                lines,
                "X-RICS-TBD-NOTE:",
                escape_opt(note),
                Ghost(base),
                Ghost(written),
            );
            assert(g@ =~= written + time_lines(time@));
            g
        },
        _ => match time.start_date() {
            Some(s) => emit_day_span(
                lines,
                s,
                time.end_date_exclusive(),
                Ghost(base),
                Ghost(written),
            ),
            None => {
                assert(written =~= written + time_lines(time@));
                Ghost(written)
            },
        },
    }
}

fn metadata_value(key: &String, value: &String) -> (out: Option<String>)
    ensures
        crate::text::opt_view(out) == metadata_line((key@, value@)),
{
    if key.as_str().unicode_len() == 0 || value.as_str().unicode_len() == 0 {
        None
    } else {
        let mut v = chars_of(sanitize_x_key(key.as_str()).as_str());
        v.push(':');
        push_str(&mut v, escape_text(value.as_str()).as_str());
        assert(v@ =~= sanitized_x_key(key@) + seq![':'] + escaped(value@));
        Some(string_of(&v))
    }
}

/// Appends the physical lines of one event to `lines`.
pub fn append_event_lines(lines: &mut Vec<String>, event: &EventRecord)
    requires
        event.wf(),
    ensures
        views(final(lines)@) == views(old(lines)@) + folded(event_lines(event@)),
{
    let ghost base = views(lines@);
    let ghost r = event@;
    let g: Ghost<Seq<Seq<char>>> = Ghost(Seq::empty());
    assert(base + folded(g@) =~= base);
    let g = emit(lines, "BEGIN:VEVENT".to_string(), Ghost(base), g);
    let g = emit(lines, concat2("UID:", escape_text(event.uid.as_str()).as_str()), Ghost(base), g);
    let g = emit(lines, format_utc("DTSTAMP:", &event.last_modified), Ghost(base), g);
    let g = emit(lines, format_utc("CREATED:", &event.created_at), Ghost(base), g);
    let g = emit(lines, format_utc("LAST-MODIFIED:", &event.last_modified), Ghost(base), g);
    let mut sequence = chars_of("SEQUENCE:");
    push_decimal(&mut sequence, event.sequence as u64);
    let g = emit(lines, string_of(&sequence), Ghost(base), g);
    let g = emit_time(lines, &event.time, Ghost(base), g);
    assert(g@ =~= event_head(r));

    let g = emit(
        lines,
        concat2("SUMMARY:", escape_text(event.title.as_str()).as_str()),
        Ghost(base),
        g,
    );
    let g = emit_optional(lines, "DESCRIPTION:", escape_opt(&event.description), Ghost(base), g);
    let g = emit_optional(lines, "URL:", escape_opt(&event.source_url), Ghost(base), g);
    let g = if event.categories.len() > 0 {
        emit(lines, format_categories(&event.categories), Ghost(base), g)
    } else {
        g
    };
    assert(g@ == event_description(r, event_head(r)));

    let g = emit(
        lines,
        concat2("STATUS:", to_ascii_upper(event.status.as_str()).as_str()),
        Ghost(base),
        g,
    );
    let g = emit(lines, "TRANSP:TRANSPARENT".to_string(), Ghost(base), g);
    let g = emit(
        lines,
        concat2("X-RICS-SOURCE-KEY:", escape_text(event.source_key.as_str()).as_str()),
        Ghost(base),
        g,
    );
    let g = emit(
        lines,
        concat2("X-RICS-EVENT-TYPE:", escape_text(event.event_type.as_str()).as_str()),
        Ghost(base),
        g,
    );
    let g = emit_optional(
        lines,
        "X-RICS-EVENT-SUBTYPE:",
        escape_opt(&event.subtype),
        Ghost(base),
        g,
    );
    let g = match event.importance {
        Some(i) => {
            let mut v = chars_of("X-RICS-IMPORTANCE:");
            push_decimal(&mut v, i as u64);
            emit(lines, string_of(&v), Ghost(base), g)
        },
        None => g,
    };
    let g = match event.confidence {
        Some(c) => emit(lines, format_confidence("X-RICS-CONFIDENCE:", c), Ghost(base), g),
        None => g,
    };
    let g = emit(
        lines,
        concat2("X-RICS-TIME-PRECISION:", to_ascii_upper(event.time.precision()).as_str()),
        Ghost(base),
        g,
    );
    let g = emit(
        lines,
        concat2("X-RICS-REVISION-HASH:", event.revision_hash.as_str()),
        Ghost(base),
        g,
    );
    assert(g@ == event_properties(r, event_description(r, event_head(r))));

    let ghost stem = g@;
    let mut g = g;
    let mut i: usize = 0;
    assert(r.content.metadata.take(0) =~= Seq::<(Seq<char>, Seq<char>)>::empty());
    while i < event.metadata.len()
        invariant
            event.wf(),
            r == event@,
            i <= event.metadata.keys().len(),
            g@ == with_metadata(stem, r.content.metadata.take(i as int)),
            views(lines@) == base + folded(g@),
        decreases event.metadata.keys().len() - i,
    {
        let key = event.metadata.key_at(i);
        let value = event.metadata.value_at(i);
        g = emit_optional(lines, "X-RICS-", metadata_value(key, value), Ghost(base), g);
        i += 1;
        proof {
            let now = r.content.metadata.take(i as int);
            assert(now.drop_last() =~= r.content.metadata.take(i - 1));
            assert(now.last() == (key@, value@));
        }
    }
    assert(r.content.metadata.take(i as int) =~= r.content.metadata);
    let g = emit(lines, "END:VEVENT".to_string(), Ghost(base), g);
    assert(g@ == event_lines(r));
}

// ---------------------------------------------------------------------------
// The calendar of one year
// ---------------------------------------------------------------------------

/// The views of a list of borrowed records.
pub open spec fn views_of(records: Seq<&EventRecord>) -> Seq<RecordView> {
    records.map_values(|r: &EventRecord| r@)
}

/// The lines that open a calendar.
pub open spec fn calendar_head(source_name: Seq<char>, year: int) -> Seq<Seq<char>> {
    seq![
        "BEGIN:VCALENDAR"@,
        "VERSION:2.0"@,
        "PRODID:-//rics//ICS Generator 1.0//EN"@,
        "CALSCALE:GREGORIAN"@,
        "METHOD:PUBLISH"@,
        "X-WR-CALNAME:"@ + escaped(source_name) + seq![' '] + int_text(year),
        "X-WR-TIMEZONE:UTC"@,
    ]
}

/// The content lines of the given events, in their order.
pub open spec fn events_lines(records: Seq<RecordView>) -> Seq<Seq<char>>
    decreases records.len(),
{
    if records.len() == 0 {
        Seq::<Seq<char>>::empty()
    } else {
        events_lines(records.drop_last()) + event_lines(records.last())
    }
}

/// The content lines of a year's calendar.
pub open spec fn calendar_content(
    source_name: Seq<char>,
    year: int,
    records: Seq<RecordView>,
) -> Seq<Seq<char>> {
    (calendar_head(source_name, year) + events_lines(records)).push("END:VCALENDAR"@)
}

/// The text of a year's calendar file: its content lines, folded, each ended
/// by CRLF.
pub open spec fn calendar_file(
    source_name: Seq<char>,
    year: int,
    records: Seq<RecordView>,
) -> Seq<char> {
    terminated(folded(calendar_content(source_name, year, records)))
}

pub proof fn lemma_folded_concat(a: Seq<Seq<char>>, b: Seq<Seq<char>>)
    ensures
        folded(a + b) == folded(a) + folded(b),
    decreases b.len(),
{
    if b.len() == 0 {
        assert(a + b =~= a);
        assert(folded(a) + folded(b) =~= folded(a));
    } else {
        assert((a + b).drop_last() =~= a + b.drop_last());
        lemma_folded_concat(a, b.drop_last());
        assert((folded(a) + folded(b.drop_last())) + crate::lines::fold(b.last()) =~= folded(a) + (
        folded(b.drop_last()) + crate::lines::fold(b.last())));
    }
}

/// The physical lines of the calendar of one year of one source. The events
/// are written in the order given; no line is longer than 75 bytes.
pub fn calendar_lines(source_name: &str, year: i32, events: &Vec<&EventRecord>) -> (out: Vec<
    String,
>)
    requires
        forall|i: int| 0 <= i < events.len() ==> (#[trigger] events@[i]).wf(),
    ensures
        views(out@) == folded(calendar_content(source_name@, year as int, views_of(events@))),
        within_limit(views(out@)),
{
    let mut lines: Vec<String> = Vec::new();
    let ghost base = Seq::<Seq<char>>::empty();
    let g: Ghost<Seq<Seq<char>>> = Ghost(Seq::empty());
    assert(base + folded(g@) =~= views(lines@));
    let g = emit(&mut lines, "BEGIN:VCALENDAR".to_string(), Ghost(base), g);
    let g = emit(&mut lines, "VERSION:2.0".to_string(), Ghost(base), g);
    let g = emit(&mut lines, "PRODID:-//rics//ICS Generator 1.0//EN".to_string(), Ghost(base), g);
    let g = emit(&mut lines, "CALSCALE:GREGORIAN".to_string(), Ghost(base), g);
    let g = emit(&mut lines, "METHOD:PUBLISH".to_string(), Ghost(base), g);
    let mut name = chars_of("X-WR-CALNAME:");
    push_str(&mut name, escape_text(source_name).as_str());
    name.push(' ');
    push_padded(&mut name, year as i64, 0);
    proof {
        let m = if year < 0 {
            decimal((-year) as nat)
        } else {
            decimal(year as nat)
        };
        assert(crate::numbers::zeros(0 - m.len()) =~= Seq::<char>::empty());
        assert(crate::numbers::zeros(0 - 1 - m.len()) =~= Seq::<char>::empty());
        assert(zero_padded(year as int, 0) =~= int_text(year as int));
        assert(name@ =~= "X-WR-CALNAME:"@ + escaped(source_name@) + seq![' '] + int_text(
            year as int,
        ));
    }
    let g = emit(&mut lines, string_of(&name), Ghost(base), g);
    let g = emit(&mut lines, "X-WR-TIMEZONE:UTC".to_string(), Ghost(base), g);
    let ghost head = calendar_head(source_name@, year as int);
    assert(g@ =~= head);
    assert(base + folded(head) =~= folded(head));

    let mut i: usize = 0;
    assert(views_of(events@).take(0) =~= Seq::<RecordView>::empty());
    assert(head + events_lines(Seq::<RecordView>::empty()) =~= head);
    while i < events.len()
        invariant
            i <= events.len(),
            forall|k: int| 0 <= k < events.len() ==> (#[trigger] events@[k]).wf(),
            views(lines@) == folded(head + events_lines(views_of(events@).take(i as int))),
        decreases events.len() - i,
    {
        append_event_lines(&mut lines, events[i]);
        i += 1;
        proof {
            let now = views_of(events@).take(i as int);
            assert(now.drop_last() =~= views_of(events@).take(i - 1));
            assert(now.last() == events@[i - 1]@);
            lemma_folded_concat(head + events_lines(now.drop_last()), event_lines(now.last()));
            assert(head + events_lines(now) =~= (head + events_lines(now.drop_last()))
                + event_lines(now.last()));
        }
    }
    assert(views_of(events@).take(i as int) =~= views_of(events@));
    let ghost body = head + events_lines(views_of(events@));
    assert(folded(body) =~= Seq::<Seq<char>>::empty() + folded(body));
    let g = emit(
        &mut lines,
        "END:VCALENDAR".to_string(),
        Ghost(Seq::<Seq<char>>::empty()),
        Ghost(body),
    );
    proof {
        assert(Seq::<Seq<char>>::empty() + folded(g@) =~= folded(g@));
        lemma_folded_within_limit(g@);
    }
    lines
}

/// The text of the calendar file of one year of one source.
pub fn calendar_text(source_name: &str, year: i32, events: &Vec<&EventRecord>) -> (out: String)
    requires
        forall|i: int| 0 <= i < events.len() ==> (#[trigger] events@[i]).wf(),
    ensures
        out@ == calendar_file(source_name@, year as int, views_of(events@)),
{
    let lines = calendar_lines(source_name, year, events);
    terminate_lines(&lines)
}

} // verus!
