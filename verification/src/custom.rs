//! The parsers that are made for one kind of source each.

use vstd::prelude::*;
use crate::chunks::{
    lines, lines_of, parse_pipe_record, pipe_fields, trim_and_fill, trimmed_filled,
};
use crate::config::SourceConfig;
use crate::dates::{
    date_from, event_time_of, instant_from, localize_datetime, localized_in, naive_date,
    naive_datetime, parse_event_time, read_naive_date, read_naive_datetime, to_date, to_instant,
};
use crate::documents::{lossy_text, utf8_lossy, with_field, FetchedDocument};
use crate::identity::{iso_date, iso_date_string};
use crate::keyed::{lemma_text_map_empty, put, text_map, value_of, StrMap};
use crate::lines::{join, joined};
use crate::model::{lemma_pairs_map, pairs_map, CandidateEvent, CandidateView};
use crate::pattern::{
    first_match, group_of, group_text, match_opt_view, pattern_compiles, regex_captures,
    MatchView, PatternMatch,
};
use crate::rules::field_value;
use crate::text::{
    ascii_upper, blank, chars_of, clone_opt, clone_strings, concat2, concat3,
    eq_ignore_ascii_case, eq_ignoring_ascii_case, gap_len, is_space, opt_view, owned, push_str,
    replace, replaced, string_of, string_of_range, to_ascii_upper, trim, trim_of, views,
};
use crate::time::{CalendarDate, EventTimeSpec, TimeView, UtcInstant};

verus! {

/// The parsers that a source can name.
#[derive(Clone, Copy, Debug, PartialEq, Eq, Structural)]
pub enum CustomParserKind {
    OecdPublications,
    RoughTextLines,
    EconIndicatorsCalendar,
}

/// The parser that a key names.
pub open spec fn parser_of_key(key: Seq<char>) -> Option<CustomParserKind> {
    if key == "oecd_publications_v1"@ {
        Some(CustomParserKind::OecdPublications)
    } else if key == "rough_text_lines_v1"@ {
        Some(CustomParserKind::RoughTextLines)
    } else if key == "econ_indicators_calendar_v1"@ {
        Some(CustomParserKind::EconIndicatorsCalendar)
    } else {
        None
    }
}

/// The key of a parser.
pub open spec fn key_of_parser(kind: CustomParserKind) -> Seq<char> {
    match kind {
        CustomParserKind::OecdPublications => "oecd_publications_v1"@,
        CustomParserKind::RoughTextLines => "rough_text_lines_v1"@,
        CustomParserKind::EconIndicatorsCalendar => "econ_indicators_calendar_v1"@,
    }
}

impl CustomParserKind {
    /// The parser with this key, if there is one.
    pub fn from_key(key: &str) -> (r: Option<CustomParserKind>)
        ensures
            r == parser_of_key(key@),
    {
        if *key == *"oecd_publications_v1" {
            Some(CustomParserKind::OecdPublications)
        } else if *key == *"rough_text_lines_v1" {
            Some(CustomParserKind::RoughTextLines)
        } else if *key == *"econ_indicators_calendar_v1" {
            Some(CustomParserKind::EconIndicatorsCalendar)
        } else {
            None
        }
    }

    /// The key under which sources name the parser.
    pub fn key(&self) -> (r: &'static str)
        ensures
            r@ == key_of_parser(*self),
    {
        match self {
            CustomParserKind::OecdPublications => "oecd_publications_v1",
            CustomParserKind::RoughTextLines => "rough_text_lines_v1",
            CustomParserKind::EconIndicatorsCalendar => "econ_indicators_calendar_v1",
        }
    }
}

/// The parser that the source asks for: the one that it names, where custom
/// parsing is enabled and the name is known.
pub open spec fn parser_for(source: SourceConfig) -> Option<CustomParserKind> {
    match source.custom.parser {
        Some(key) if source.custom.enabled => parser_of_key(key@),
        _ => None,
    }
}

/// Finds the parser that a source asks for.
pub fn custom_parser(source: &SourceConfig) -> (r: Option<CustomParserKind>)
    ensures
        r == parser_for(*source),
{
    match &source.custom.parser {
        Some(key) => if source.custom.enabled {
            CustomParserKind::from_key(key.as_str())
        } else {
            None
        },
        None => None,
    }
}

// ---------------------------------------------------------------------------
// Rough text lines
// ---------------------------------------------------------------------------

/// The fields of a line of a rough text: none for an empty line, for a line
/// that starts with `#`, and for one that is no record of the form
/// `date | title | url`.
pub open spec fn rough_line_fields(line: Seq<char>) -> Option<Map<Seq<char>, Seq<char>>> {
    let t = trim_of(line);
    if t.len() == 0 || t[0] == '#' {
        None
    } else {
        pipe_fields(t)
    }
}

/// The fields of the lines that are records, in the order of the lines.
pub open spec fn rough_lines_fields(all: Seq<Seq<char>>) -> Seq<Map<Seq<char>, Seq<char>>>
    decreases all.len(),
{
    if all.len() == 0 {
        Seq::<Map<Seq<char>, Seq<char>>>::empty()
    } else {
        match rough_line_fields(all.last()) {
            Some(m) => rough_lines_fields(all.drop_last()).push(m),
            None => rough_lines_fields(all.drop_last()),
        }
    }
}

/// The fields of the records of the documents, in the order of the
/// documents.
pub open spec fn rough_fields(docs: Seq<FetchedDocument>) -> Seq<Map<Seq<char>, Seq<char>>>
    decreases docs.len(),
{
    if docs.len() == 0 {
        Seq::<Map<Seq<char>, Seq<char>>>::empty()
    } else {
        rough_fields(docs.drop_last()) + rough_lines_fields(
            lines_of(lossy_text(docs.last().body@)),
        )
    }
}

/// The confidence of the events of rough text lines, in ten-thousandths.
pub const ROUGH_CONFIDENCE: i64 = 5000;

/// Whether `c` is the event of a record of a rough text. The third part of
/// the record is both the event's own id and its address.
pub open spec fn is_rough_event(
    c: CandidateView,
    source: SourceConfig,
    fields: Map<Seq<char>, Seq<char>>,
) -> bool {
    &&& c.source_key == source.source.key@
    &&& c.source_name == source.source.name@
    &&& c.source_event_id == field_value(fields, "url"@)
    &&& c.source_url == field_value(fields, "url"@)
    &&& Some(c.title) == field_value(fields, "title"@)
    &&& c.description is None
    &&& c.time == (match field_value(fields, "date"@) {
        Some(d) => event_time_of(
            d,
            None,
            views(source.date.formats@),
            opt_view(source.source.timezone),
            source.date.allow_month_only,
            source.date.allow_year_only,
        ),
        None => TimeView::Tbd { note: None },
    })
    &&& c.timezone == opt_view(source.source.timezone)
    &&& c.status == source.event.status@
    &&& c.event_type == source.event.event_type@
    &&& c.subtype == opt_view(source.event.subtype)
    &&& c.categories == views(source.event.categories@)
    &&& c.jurisdiction == opt_view(source.source.jurisdiction)
    &&& c.country == opt_view(source.source.default_country)
    &&& c.importance == source.event.importance
    &&& c.confidence == Some(ROUGH_CONFIDENCE)
    &&& pairs_map(c.metadata) == Map::<Seq<char>, Seq<char>>::empty().insert(
        "custom_parser"@,
        "rough_text_lines_v1"@,
    )
}

/// Whether the events are those of the records, one for each, in their
/// order.
pub open spec fn are_rough_events(
    events: Seq<CandidateView>,
    source: SourceConfig,
    fields: Seq<Map<Seq<char>, Seq<char>>>,
) -> bool {
    &&& events.len() == fields.len()
    &&& forall|i: int|
        0 <= i < events.len() ==> is_rough_event(#[trigger] events[i], source, fields[i])
}

fn rough_event(source: &SourceConfig, fields: &StrMap<String>) -> (r: Option<CandidateEvent>)
    requires
        fields.wf(),
    ensures
        match r {
            Some(c) => c.wf() && is_rough_event(c@, *source, text_map(*fields)),
            None => field_value(text_map(*fields), "title"@) is None,
        },
{
    let title = match value_of(fields, "title") {
        Some(t) => t,
        None => {
            return None;
        },
    };
    let zone: Option<&str> = match &source.source.timezone {
        Some(z) => Some(z.as_str()),
        None => None,
    };
    let time = match value_of(fields, "date") {
        Some(d) => parse_event_time(d.as_str(), None, &source.date, zone),
        None => EventTimeSpec::Tbd { note: None },
    };
    let mut metadata: StrMap<String> = StrMap::new();
    proof {
        lemma_text_map_empty(metadata);
    }
    put(&mut metadata, "custom_parser".to_string(), "rough_text_lines_v1".to_string());
    proof {
        lemma_pairs_map(metadata);
    }
    Some(
        CandidateEvent {
            source_key: source.source.key.clone(),
            source_name: source.source.name.clone(),
            source_event_id: value_of(fields, "url"),
            source_url: value_of(fields, "url"),
            title,
            description: None,
            time,
            timezone: clone_opt(&source.source.timezone),
            status: source.event.status.clone(),
            event_type: source.event.event_type.clone(),
            subtype: clone_opt(&source.event.subtype),
            categories: clone_strings(&source.event.categories),
            jurisdiction: clone_opt(&source.source.jurisdiction),
            country: clone_opt(&source.source.default_country),
            importance: source.event.importance,
            confidence: Some(ROUGH_CONFIDENCE),
            metadata,
        },
    )
}

/// The fields of a line of a rough text.
fn rough_line(line: &str) -> (r: Option<StrMap<String>>)
    ensures
        match r {
            Some(m) => m.wf() && rough_line_fields(line@) == Some(text_map(m)),
            None => rough_line_fields(line@) is None,
        },
{
    let t = trim(line);
    let v = chars_of(t.as_str());
    if v.len() == 0 || v[0] == '#' {
        return None;
    }
    parse_pipe_record(t.as_str())
}

/// A record of the form `date | title | url` has a title.
proof fn lemma_pipe_fields_have_title(line: Seq<char>)
    ensures
        match pipe_fields(line) {
            Some(m) => field_value(m, "title"@) is Some,
            None => true,
        },
{
    reveal_strlit("title");
    reveal_strlit("url");
    reveal_strlit("date");
}

/// Reads the events of a rough text: every line of the form
/// `date | title | url` is one; empty lines and lines that start with `#`
/// are passed over.
pub fn parse_rough_text_lines(source: &SourceConfig, docs: &Vec<FetchedDocument>) -> (events: Vec<
    CandidateEvent,
>)
    ensures
        forall|i: int| 0 <= i < events.len() ==> (#[trigger] events@[i]).wf(),
        are_rough_events(crate::merge::candidate_views(events@), *source, rough_fields(docs@)),
{
    let mut events: Vec<CandidateEvent> = Vec::new();
    let mut d: usize = 0;
    assert(docs@.take(0) =~= Seq::<FetchedDocument>::empty());
    while d < docs.len()
        invariant
            d <= docs.len(),
            forall|i: int| 0 <= i < events.len() ==> (#[trigger] events@[i]).wf(),
            are_rough_events(
                crate::merge::candidate_views(events@),
                *source,
                rough_fields(docs@.take(d as int)),
            ),
        decreases docs.len() - d,
    {
        let text = utf8_lossy(docs[d].body.as_slice());
        let all = lines(text.as_str());
        let ghost base = rough_fields(docs@.take(d as int));
        let ghost every = views(all@);
        proof {
            assert(docs@.take(d + 1).drop_last() =~= docs@.take(d as int));
            assert(docs@.take(d + 1).last() == docs@[d as int]);
            assert(every.take(0) =~= Seq::<Seq<char>>::empty());
            assert(base + rough_lines_fields(every.take(0)) =~= base);
        }
        let mut i: usize = 0;
        while i < all.len()
            invariant
                i <= all.len(),
                every == views(all@),
                forall|k: int| 0 <= k < events.len() ==> (#[trigger] events@[k]).wf(),
                are_rough_events(
                    crate::merge::candidate_views(events@),
                    *source,
                    base + rough_lines_fields(every.take(i as int)),
                ),
            decreases all.len() - i,
        {
            proof {
                assert(every.take(i + 1).drop_last() =~= every.take(i as int));
                assert(every.take(i + 1).last() == all@[i as int]@);
                lemma_pipe_fields_have_title(trim_of(all@[i as int]@));
            }
            let ghost before = events@;
            let ghost sofar = base + rough_lines_fields(every.take(i as int));
            match rough_line(all[i].as_str()) {
                Some(fields) => {
                    match rough_event(source, &fields) {
                        Some(event) => {
                            events.push(event);
                            proof {
                                let now = base + rough_lines_fields(every.take(i + 1));
                                assert(now =~= sofar.push(text_map(fields)));
                                assert forall|k: int| 0 <= k < events.len() implies is_rough_event(
                                    #[trigger] crate::merge::candidate_views(events@)[k],
                                    *source,
                                    now[k],
                                ) by {
                                    if k < before.len() {
                                        assert(events@[k] == before[k]);
                                        assert(crate::merge::candidate_views(before)[k]
                                            == before[k]@);
                                    }
                                }
                            }
                        },
                        None => {},
                    }
                },
                None => {},
            }
            i += 1;
        }
        proof {
            assert(every.take(i as int) =~= every);
        }
        d += 1;
    }
    assert(docs@.take(d as int) =~= docs@);
    events
}

// ---------------------------------------------------------------------------
// Economic indicators
// ---------------------------------------------------------------------------

/// The confidence of the events of an indicators calendar, in
/// ten-thousandths.
pub const ECON_CONFIDENCE: i64 = 9000;

/// The index at which the first run of two or more white-space characters
/// starts.
pub open spec fn wide_gap_at(s: Seq<char>) -> Option<int>
    decreases s.len(),
{
    if s.len() < 2 {
        None
    } else if is_space(s[0]) && is_space(s[1]) {
        Some(0int)
    } else {
        match wide_gap_at(s.drop_first()) {
            Some(i) => Some(i + 1),
            None => None,
        }
    }
}

/// The parts of `s` between its runs of two or more white-space characters.
pub open spec fn wide_split(s: Seq<char>) -> Seq<Seq<char>>
    decreases s.len(),
{
    match wide_gap_at(s) {
        Some(i) => {
            let g = gap_len(s.skip(i)) as int;
            if 0 <= i < s.len() && g >= 1 && i + g <= s.len() {
                seq![s.take(i)] + wide_split(s.skip(i + g))
            } else {
                seq![s]
            }
        },
        None => seq![s],
    }
}

/// The columns of a row: its parts between runs of two or more white-space
/// characters, trimmed, without the empty ones.
pub open spec fn columns_of(line: Seq<char>) -> Seq<Seq<char>> {
    trimmed_filled(wide_split(line))
}

/// The index of the first run of two or more white-space characters in
/// `v[from..]`, counted from the start of `v`.
fn find_wide_gap(v: &Vec<char>, from: usize) -> (r: Option<usize>)
    requires
        from <= v.len(),
    ensures
        match r {
            Some(i) => from <= i && i + 1 < v.len() && is_space(v@[i as int]) && is_space(
                v@[i + 1],
            ) && wide_gap_at(v@.skip(from as int)) == Some(i - from),
            None => wide_gap_at(v@.skip(from as int)) is None,
        },
{
    let mut i: usize = from;
    let ghost rest = v@.skip(from as int);
    assert(rest.skip(0) =~= rest);
    while i < v.len() && v.len() - i >= 2
        invariant
            from <= i <= v.len(),
            rest == v@.skip(from as int),
            wide_gap_at(rest) == (match wide_gap_at(rest.skip(i - from)) {
                Some(k) => Some(k + (i - from)),
                None => None,
            }),
        decreases v.len() - i,
    {
        let ghost tail = rest.skip(i - from);
        assert(tail[0] == v@[i as int] && tail[1] == v@[i + 1]);
        if blank(v[i], false) && blank(v[i + 1], false) {
            return Some(i);
        }
        assert(tail.drop_first() =~= rest.skip(i - from + 1));
        i += 1;
    }
    None
}

/// The parts of a text between its runs of two or more white-space
/// characters.
pub fn split_wide(s: &str) -> (out: Vec<String>)
    ensures
        views(out@) == wide_split(s@),
{
    let v = chars_of(s);
    let mut out: Vec<String> = Vec::new();
    let mut from: usize = 0;
    assert(v@.skip(0) =~= v@);
    assert(views(out@) =~= Seq::<Seq<char>>::empty());
    loop
        invariant
            from <= v.len(),
            v@ == s@,
            views(out@) + wide_split(v@.skip(from as int)) == wide_split(v@),
        decreases v.len() - from,
    {
        let ghost rest = v@.skip(from as int);
        let ghost before = views(out@);
        match find_wide_gap(&v, from) {
            Some(i) => {
                let mut j: usize = i;
                let ghost tail = rest.skip(i - from);
                assert(tail.skip(0) =~= tail);
                while j < v.len() && blank(v[j], false)
                    invariant
                        i <= j <= v.len(),
                        from <= i,
                        rest == v@.skip(from as int),
                        tail == rest.skip(i - from),
                        gap_len(tail) == (j - i) + gap_len(tail.skip(j - i)),
                    decreases v.len() - j,
                {
                    assert(tail.skip(j - i)[0] == v@[j as int]);
                    assert(tail.skip(j - i).drop_first() =~= tail.skip(j - i + 1));
                    j += 1;
                }
                proof {
                    if j < v.len() {
                        assert(tail.skip(j - i)[0] == v@[j as int]);
                    }
                    assert(tail[0] == v@[i as int]);
                    assert(is_space(tail[0]));
                    assert(gap_len(tail) == j - i);
                    assert(gap_len(tail) >= 1);
                    assert(j > i);
                }
                out.push(string_of_range(&v, from, i));
                proof {
                    assert(v@.subrange(from as int, i as int) =~= rest.take(i - from));
                    assert(rest.skip(i - from + (j - i)) =~= v@.skip(j as int));
                    assert(views(out@) =~= before.push(rest.take(i - from)));
                    assert(views(out@) + wide_split(v@.skip(j as int)) =~= before + wide_split(
                        rest,
                    ));
                }
                from = j;
            },
            None => {
                out.push(string_of_range(&v, from, v.len()));
                proof {
                    assert(v@.subrange(from as int, v.len() as int) =~= rest);
                    assert(views(out@) =~= before.push(rest));
                    assert(views(out@) =~= before + wide_split(rest));
                }
                return out;
            },
        }
    }
}

/// The description of an indicator: a line for each of the values that it
/// has, in the order actual, previous, consensus, forecast.
pub open spec fn econ_description(
    actual: Option<Seq<char>>,
    previous: Option<Seq<char>>,
    consensus: Option<Seq<char>>,
    forecast: Option<Seq<char>>,
) -> Option<Seq<char>> {
    let a = with_line(Seq::<Seq<char>>::empty(), "Actual: "@, actual);
    let b = with_line(a, "Previous: "@, previous);
    let c = with_line(b, "Consensus: "@, consensus);
    let d = with_line(c, "Forecast: "@, forecast);
    if d.len() == 0 {
        None
    } else {
        Some(joined(d, seq!['\n']))
    }
}

/// `lines`, followed by `label` and the value where there is a value.
pub open spec fn with_line(lines: Seq<Seq<char>>, label: Seq<char>, value: Option<Seq<char>>) -> Seq<
    Seq<char>,
> {
    match value {
        Some(v) => lines.push(label + v),
        None => lines,
    }
}

fn push_labelled(lines: &mut Vec<String>, label: &str, value: &Option<String>)
    ensures
        views(final(lines)@) == with_line(views(old(lines)@), label@, opt_view(*value)),
{
    match value {
        Some(v) => {
            let ghost before = views(lines@);
            lines.push(concat2(label, v.as_str()));
            assert(views(lines@) =~= before.push(label@ + v@));
        },
        None => {},
    }
}

/// Writes the description of an indicator.
pub fn build_econ_description(
    actual: Option<String>,
    previous: Option<String>,
    consensus: Option<String>,
    forecast: Option<String>,
) -> (r: Option<String>)
    ensures
        opt_view(r) == econ_description(
            opt_view(actual),
            opt_view(previous),
            opt_view(consensus),
            opt_view(forecast),
        ),
{
    let mut lines: Vec<String> = Vec::new();
    assert(views(lines@) =~= Seq::<Seq<char>>::empty());
    push_labelled(&mut lines, "Actual: ", &actual);
    push_labelled(&mut lines, "Previous: ", &previous);
    push_labelled(&mut lines, "Consensus: ", &consensus);
    push_labelled(&mut lines, "Forecast: ", &forecast);
    if lines.len() == 0 {
        None
    } else {
        proof {
            reveal_strlit("\n");
            assert("\n"@ =~= seq!['\n']);
        }
        Some(join(&lines, "\n"))
    }
}

/// The pattern of the line that names a day, such as
/// `Monday May 4 2026`.
pub open spec fn day_header_pattern() -> Seq<char> {
    "^(Monday|Tuesday|Wednesday|Thursday|Friday|Saturday|Sunday)\\s+([A-Za-z]+)\\s+(\\d{1,2})\\s+(\\d{4})"@
}

/// The pattern of the line that names a time of day, such as `8:30 AM`.
pub open spec fn time_line_pattern() -> Seq<char> {
    "^(\\d{1,2}:\\d{2}\\s*[AP]M)$"@
}

/// The match of a pattern in a line; none where the pattern does not
/// compile.
pub open spec fn matched(pattern: Seq<char>, line: Seq<char>) -> Option<MatchView> {
    if pattern_compiles(pattern) {
        first_match(pattern, line)
    } else {
        None
    }
}

/// The text of a group of a match, empty where the group took no part.
pub open spec fn group_or_empty(m: MatchView, group: int) -> Seq<char> {
    match group_of(m, group) {
        Some(g) => g,
        None => Seq::<char>::empty(),
    }
}

/// The date that a text names under a format, where it is one.
pub open spec fn date_by(text: Seq<char>, format: Seq<char>) -> Option<CalendarDate> {
    match naive_date(text, format) {
        Some(raw) => date_from(raw),
        None => None,
    }
}

/// The day that a day line names: its month, day and year, read with the
/// full name of the month or its short one.
pub open spec fn header_date(m: MatchView) -> Option<CalendarDate> {
    let text = group_or_empty(m, 2) + seq![' '] + group_or_empty(m, 3) + seq![' ']
        + group_or_empty(m, 4);
    match date_by(text, "%B %d %Y"@) {
        Some(d) => Some(d),
        None => date_by(text, "%b %d %Y"@),
    }
}

/// The instant of a day and a time of day such as `8:30 AM`, in the zone
/// given.
pub open spec fn combined(date: CalendarDate, time_text: Seq<char>, zone: Option<Seq<char>>) -> Option<
    UtcInstant,
> {
    let day = iso_date(date);
    let raw = match naive_datetime(
        day + seq![' '] + replaced(time_text, " "@, ""@),
        "%Y-%m-%d %I:%M%p"@,
    ) {
        Some(r) => Some(r),
        None => naive_datetime(day + seq![' '] + time_text, "%Y-%m-%d %I:%M %p"@),
    };
    match raw {
        Some(r) => match instant_from(r) {
            Some(local) => Some(localized_in(local, zone)),
            None => None,
        },
        None => None,
    }
}

/// Puts a day and a time of day together.
pub fn combine_date_time(date: &CalendarDate, time_text: &str, timezone: Option<&str>) -> (r: Option<
    UtcInstant,
>)
    ensures
        r == combined(
            *date,
            time_text@,
            match timezone {
                Some(z) => Some(z@),
                None => None,
            },
        ),
{
    let day = iso_date_string(date);
    proof {
        reveal_strlit(" ");
        assert(" "@ =~= seq![' ']);
    }
    let first = concat3(day.as_str(), " ", replace(time_text, " ", "").as_str());
    let raw = match read_naive_datetime(first.as_str(), "%Y-%m-%d %I:%M%p") {
        Some(r) => Some(r),
        None => {
            let second = concat3(day.as_str(), " ", time_text);
            read_naive_datetime(second.as_str(), "%Y-%m-%d %I:%M %p")
        },
    };
    match raw {
        Some(r) => match to_instant(r) {
            Some(local) => Some(localize_datetime(local, timezone)),
            None => None,
        },
        None => None,
    }
}

/// What the reader of an indicators calendar remembers from line to line:
/// the day and the time of day that the rows below belong to, and whether
/// the next line may be the country line.
pub struct EconState {
    pub date: Option<CalendarDate>,
    pub time: Option<String>,
    pub waiting: bool,
}

/// The mathematical value of an `EconState`.
pub struct EconStateView {
    pub date: Option<CalendarDate>,
    pub time: Option<Seq<char>>,
    pub waiting: bool,
}

impl View for EconState {
    type V = EconStateView;

    open spec fn view(&self) -> EconStateView {
        EconStateView { date: self.date, time: opt_view(self.time), waiting: self.waiting }
    }
}

/// A row of an indicators calendar: its day, its time of day, the instant of
/// the two, and its columns.
pub struct EconRow {
    pub date: CalendarDate,
    pub time_text: Seq<char>,
    pub start: UtcInstant,
    pub columns: Seq<Seq<char>>,
}

/// The row that a line is, given what was read before: a line below a day
/// and a time of day that can be put together, with a column at least.
pub open spec fn row_of_line(state: EconStateView, line: Seq<char>, zone: Option<Seq<char>>) -> Option<
    EconRow,
> {
    match (state.date, state.time) {
        (Some(date), Some(time_text)) => match combined(date, time_text, zone) {
            Some(start) => if columns_of(line).len() > 0 {
                Some(EconRow { date, time_text, start, columns: columns_of(line) })
            } else {
                None
            },
            None => None,
        },
        _ => None,
    }
}

/// What one line does: a blank line does nothing; a day line sets the day
/// and forgets the time of day; a time line sets the time of day, and the
/// line after it may name the country; a country line in that place is
/// passed over; any other line is a row, if it can be one.
pub open spec fn econ_step(
    state: EconStateView,
    raw: Seq<char>,
    country: Seq<char>,
    zone: Option<Seq<char>>,
) -> (EconStateView, Option<EconRow>) {
    let line = trim_of(raw);
    if line.len() == 0 {
        (state, None)
    } else if matched(day_header_pattern(), line) is Some {
        (
            EconStateView {
                date: header_date(matched(day_header_pattern(), line)->0),
                time: None,
                waiting: false,
            },
            None,
        )
    } else if matched(time_line_pattern(), line) is Some {
        (
            EconStateView {
                date: state.date,
                time: group_of(matched(time_line_pattern(), line)->0, 1),
                waiting: true,
            },
            None,
        )
    } else if state.waiting && eq_ignoring_ascii_case(line, country) {
        (EconStateView { waiting: false, ..state }, None)
    } else {
        (EconStateView { waiting: false, ..state }, row_of_line(state, line, zone))
    }
}

/// The state after the lines, and the rows that they are.
pub open spec fn econ_lines(
    all: Seq<Seq<char>>,
    country: Seq<char>,
    zone: Option<Seq<char>>,
) -> (EconStateView, Seq<EconRow>)
    decreases all.len(),
{
    if all.len() == 0 {
        (EconStateView { date: None, time: None, waiting: false }, Seq::<EconRow>::empty())
    } else {
        let before = econ_lines(all.drop_last(), country, zone);
        let step = econ_step(before.0, all.last(), country, zone);
        (
            step.0,
            match step.1 {
                Some(row) => before.1.push(row),
                None => before.1,
            },
        )
    }
}

/// The country of an indicators calendar: the template variable `country`
/// of the source, else its default country, else `US`; in upper case.
pub open spec fn econ_country(source: SourceConfig) -> Seq<char> {
    ascii_upper(
        match field_value(text_map(source.fetch.template_vars), "country"@) {
            Some(c) => c,
            None => match source.source.default_country {
                Some(c) => c@,
                None => "US"@,
            },
        },
    )
}

/// The column at index `i`, if the row has it.
pub open spec fn column(columns: Seq<Seq<char>>, i: int) -> Option<Seq<char>> {
    if 0 <= i < columns.len() {
        Some(columns[i])
    } else {
        None
    }
}

/// The metadata of the event of a row.
pub open spec fn econ_metadata(country: Seq<char>, columns: Seq<Seq<char>>) -> Map<
    Seq<char>,
    Seq<char>,
> {
    let a = Map::<Seq<char>, Seq<char>>::empty().insert("country"@, country).insert(
        "custom_parser"@,
        "econ_indicators_calendar_v1"@,
    );
    let b = with_field(a, "actual"@, column(columns, 1));
    let c = with_field(b, "previous"@, column(columns, 2));
    let d = with_field(c, "consensus"@, column(columns, 3));
    with_field(d, "forecast"@, column(columns, 4))
}

/// Whether `c` is the event of a row of the document at `source_url`.
pub open spec fn is_econ_event(
    c: CandidateView,
    source: SourceConfig,
    source_url: Seq<char>,
    row: EconRow,
) -> bool {
    let country = econ_country(source);
    &&& row.columns.len() > 0
    &&& c.source_key == source.source.key@
    &&& c.source_name == source.source.name@
    &&& c.source_event_id == Some(
        country + seq!['|'] + iso_date(row.date) + seq!['|'] + row.time_text + seq!['|']
            + row.columns[0],
    )
    &&& c.source_url == Some(source_url)
    &&& c.title == row.columns[0]
    &&& c.description == econ_description(
        column(row.columns, 1),
        column(row.columns, 2),
        column(row.columns, 3),
        column(row.columns, 4),
    )
    &&& c.time == (TimeView::DateTime { start: row.start, end: None })
    &&& c.timezone == opt_view(source.source.timezone)
    &&& c.status == source.event.status@
    &&& c.event_type == source.event.event_type@
    &&& c.subtype == opt_view(source.event.subtype)
    &&& c.categories == views(source.event.categories@)
    &&& c.jurisdiction == opt_view(source.source.jurisdiction)
    &&& c.country == Some(country)
    &&& c.importance == source.event.importance
    &&& c.confidence == Some(ECON_CONFIDENCE)
    &&& pairs_map(c.metadata) == econ_metadata(country, row.columns)
}

/// Whether the events are those of the rows of one document, one for each,
/// in their order.
pub open spec fn are_econ_events(
    events: Seq<CandidateView>,
    source: SourceConfig,
    source_url: Seq<char>,
    rows: Seq<EconRow>,
) -> bool {
    &&& events.len() == rows.len()
    &&& forall|i: int|
        0 <= i < events.len() ==> is_econ_event(#[trigger] events[i], source, source_url, rows[i])
}

/// The rows of a document.
pub open spec fn econ_rows(source: SourceConfig, doc: FetchedDocument) -> Seq<EconRow> {
    econ_lines(
        lines_of(lossy_text(doc.body@)),
        econ_country(source),
        opt_view(source.source.timezone),
    ).1
}

/// Whether the events are those of the rows of the documents, in the order
/// of the documents.
pub open spec fn are_econ_events_of(
    events: Seq<CandidateView>,
    source: SourceConfig,
    docs: Seq<FetchedDocument>,
) -> bool
    decreases docs.len(),
{
    if docs.len() == 0 {
        events.len() == 0
    } else {
        let rows = econ_rows(source, docs.last());
        &&& events.len() >= rows.len()
        &&& are_econ_events_of(events.take(events.len() - rows.len()), source, docs.drop_last())
        &&& are_econ_events(
            events.skip(events.len() - rows.len()),
            source,
            docs.last().source_url@,
            rows,
        )
    }
}

fn match_line(pattern: &str, line: &str) -> (r: Option<PatternMatch>)
    ensures
        match_opt_view(r) == matched(pattern@, line@),
{
    match regex_captures(pattern, line) {
        Ok(found) => found,
        Err(_) => None,
    }
}

fn group_text_or_empty(m: &PatternMatch, group: usize) -> (r: String)
    ensures
        r@ == group_or_empty(m@, group as int),
{
    match group_text(m, group) {
        Some(g) => g,
        None => String::new(),
    }
}

fn read_date_by(text: &str, format: &str) -> (r: Option<CalendarDate>)
    ensures
        r == date_by(text@, format@),
{
    match read_naive_date(text, format) {
        Some(raw) => to_date(raw),
        None => None,
    }
}

fn read_header_date(m: &PatternMatch) -> (r: Option<CalendarDate>)
    ensures
        r == header_date(m@),
{
    let mut v = chars_of(group_text_or_empty(m, 2).as_str());
    v.push(' ');
    push_str(&mut v, group_text_or_empty(m, 3).as_str());
    v.push(' ');
    push_str(&mut v, group_text_or_empty(m, 4).as_str());
    let text = string_of(&v);
    assert(text@ =~= group_or_empty(m@, 2) + seq![' '] + group_or_empty(m@, 3) + seq![' ']
        + group_or_empty(m@, 4));
    match read_date_by(text.as_str(), "%B %d %Y") {
        Some(d) => Some(d),
        None => read_date_by(text.as_str(), "%b %d %Y"),
    }
}

fn column_at(columns: &Vec<String>, i: usize) -> (r: Option<String>)
    ensures
        opt_view(r) == column(views(columns@), i as int),
{
    if i < columns.len() {
        Some(columns[i].clone())
    } else {
        None
    }
}

fn put_opt(m: &mut StrMap<String>, name: &str, value: &Option<String>)
    requires
        old(m).wf(),
    ensures
        final(m).wf(),
        text_map(*final(m)) == with_field(text_map(*old(m)), name@, opt_view(*value)),
{
    match value {
        Some(v) => {
            put(m, owned(name), v.clone());
        },
        None => {},
    }
}

fn country_of(source: &SourceConfig) -> (r: String)
    requires
        source.wf(),
    ensures
        r@ == econ_country(*source),
{
    let raw = match value_of(&source.fetch.template_vars, "country") {
        Some(c) => c,
        None => match &source.source.default_country {
            Some(c) => c.clone(),
            None => "US".to_string(),
        },
    };
    to_ascii_upper(raw.as_str())
}

/// The row that a line is, with its event.
fn econ_row_event(
    source: &SourceConfig,
    country: &str,
    source_url: &str,
    state: &EconState,
    line: &str,
) -> (r: Option<CandidateEvent>)
    requires
        country@ == econ_country(*source),
    ensures
        match r {
            Some(c) => c.wf() && row_of_line(state@, line@, opt_view(source.source.timezone))
                is Some && is_econ_event(
                c@,
                *source,
                source_url@,
                row_of_line(state@, line@, opt_view(source.source.timezone))->0,
            ),
            None => row_of_line(state@, line@, opt_view(source.source.timezone)) is None,
        },
{
    let date = match state.date {
        Some(d) => d,
        None => {
            return None;
        },
    };
    let time_text = match &state.time {
        Some(t) => t,
        None => {
            return None;
        },
    };
    let zone: Option<&str> = match &source.source.timezone {
        Some(z) => Some(z.as_str()),
        None => None,
    };
    let start = match combine_date_time(&date, time_text.as_str(), zone) {
        Some(s) => s,
        None => {
            return None;
        },
    };
    let columns = trim_and_fill(&split_wide(line));
    if columns.len() == 0 {
        return None;
    }
    let title = columns[0].clone();
    let actual = column_at(&columns, 1);
    let previous = column_at(&columns, 2);
    let consensus = column_at(&columns, 3);
    let forecast = column_at(&columns, 4);
    let mut metadata: StrMap<String> = StrMap::new();
    proof {
        lemma_text_map_empty(metadata);
    }
    put(&mut metadata, "country".to_string(), owned(country));
    put(&mut metadata, "custom_parser".to_string(), "econ_indicators_calendar_v1".to_string());
    put_opt(&mut metadata, "actual", &actual);
    put_opt(&mut metadata, "previous", &previous);
    put_opt(&mut metadata, "consensus", &consensus);
    put_opt(&mut metadata, "forecast", &forecast);
    proof {
        lemma_pairs_map(metadata);
    }
    let mut id = chars_of(country);
    id.push('|');
    push_str(&mut id, iso_date_string(&date).as_str());
    id.push('|');
    push_str(&mut id, time_text.as_str());
    id.push('|');
    push_str(&mut id, title.as_str());
    let id_text = string_of(&id);
    assert(id_text@ =~= country@ + seq!['|'] + iso_date(date) + seq!['|'] + time_text@ + seq!['|']
        + title@);
    let description = build_econ_description(actual, previous, consensus, forecast);
    Some(
        CandidateEvent {
            source_key: source.source.key.clone(),
            source_name: source.source.name.clone(),
            source_event_id: Some(id_text),
            source_url: Some(owned(source_url)),
            title,
            description,
            time: EventTimeSpec::DateTime { start, end: None },
            timezone: clone_opt(&source.source.timezone),
            status: source.event.status.clone(),
            event_type: source.event.event_type.clone(),
            subtype: clone_opt(&source.event.subtype),
            categories: clone_strings(&source.event.categories),
            jurisdiction: clone_opt(&source.source.jurisdiction),
            country: Some(owned(country)),
            importance: source.event.importance,
            confidence: Some(ECON_CONFIDENCE),
            metadata,
        },
    )
}

/// Reads one line of an indicators calendar.
fn econ_read_line(
    source: &SourceConfig,
    country: &str,
    source_url: &str,
    state: EconState,
    raw: &str,
) -> (r: (EconState, Option<CandidateEvent>))
    requires
        country@ == econ_country(*source),
    ensures
        r.0@ == econ_step(state@, raw@, country@, opt_view(source.source.timezone)).0,
        match r.1 {
            Some(c) => c.wf() && econ_step(
                state@,
                raw@,
                country@,
                opt_view(source.source.timezone),
            ).1 is Some && is_econ_event(
                c@,
                *source,
                source_url@,
                econ_step(state@, raw@, country@, opt_view(source.source.timezone)).1->0,
            ),
            None => econ_step(state@, raw@, country@, opt_view(source.source.timezone)).1 is None,
        },
{
    let line = trim(raw);
    if line.as_str().unicode_len() == 0 {
        return (state, None);
    }
    match match_line(
        "^(Monday|Tuesday|Wednesday|Thursday|Friday|Saturday|Sunday)\\s+([A-Za-z]+)\\s+(\\d{1,2})\\s+(\\d{4})",
        line.as_str(),
    ) {
        Some(m) => {
            return (EconState { date: read_header_date(&m), time: None, waiting: false }, None);
        },
        None => {},
    }
    match match_line("^(\\d{1,2}:\\d{2}\\s*[AP]M)$", line.as_str()) {
        Some(m) => {
            return (
                EconState { date: state.date, time: group_text(&m, 1), waiting: true },
                None,
            );
        },
        None => {},
    }
    if state.waiting && eq_ignore_ascii_case(line.as_str(), country) {
        return (EconState { date: state.date, time: state.time, waiting: false }, None);
    }
    let event = econ_row_event(source, country, source_url, &state, line.as_str());
    (EconState { date: state.date, time: state.time, waiting: false }, event)
}

/// Reads the events of one document of an indicators calendar.
fn econ_document(source: &SourceConfig, country: &str, doc: &FetchedDocument) -> (events: Vec<
    CandidateEvent,
>)
    requires
        country@ == econ_country(*source),
    ensures
        forall|i: int| 0 <= i < events.len() ==> (#[trigger] events@[i]).wf(),
        are_econ_events(
            crate::merge::candidate_views(events@),
            *source,
            doc.source_url@,
            econ_rows(*source, *doc),
        ),
{
    let text = utf8_lossy(doc.body.as_slice());
    let all = lines(text.as_str());
    let ghost every = views(all@);
    let ghost zone = opt_view(source.source.timezone);
    let mut state = EconState { date: None, time: None, waiting: false };
    let mut events: Vec<CandidateEvent> = Vec::new();
    let mut i: usize = 0;
    assert(every.take(0) =~= Seq::<Seq<char>>::empty());
    while i < all.len()
        invariant
            i <= all.len(),
            every == views(all@),
            country@ == econ_country(*source),
            zone == opt_view(source.source.timezone),
            state@ == econ_lines(every.take(i as int), country@, zone).0,
            forall|k: int| 0 <= k < events.len() ==> (#[trigger] events@[k]).wf(),
            are_econ_events(
                crate::merge::candidate_views(events@),
                *source,
                doc.source_url@,
                econ_lines(every.take(i as int), country@, zone).1,
            ),
        decreases all.len() - i,
    {
        proof {
            assert(every.take(i + 1).drop_last() =~= every.take(i as int));
            assert(every.take(i + 1).last() == all@[i as int]@);
        }
        let ghost before = events@;
        let ghost rows = econ_lines(every.take(i as int), country@, zone).1;
        let (next, event) = econ_read_line(
            source,
            country,
            doc.source_url.as_str(),
            state,
            all[i].as_str(),
        );
        state = next;
        match event {
            Some(e) => {
                events.push(e);
                proof {
                    let now = econ_lines(every.take(i + 1), country@, zone).1;
                    assert forall|k: int| 0 <= k < events.len() implies is_econ_event(
                        #[trigger] crate::merge::candidate_views(events@)[k],
                        *source,
                        doc.source_url@,
                        now[k],
                    ) by {
                        if k < before.len() {
                            assert(events@[k] == before[k]);
                            assert(crate::merge::candidate_views(before)[k] == before[k]@);
                        }
                    }
                }
            },
            None => {},
        }
        i += 1;
    }
    assert(every.take(i as int) =~= every);
    events
}

/// Reads the events of an indicators calendar: a day line and a time line
/// set the day and the time of day of the rows below them, and every row
/// is an event, named by its first column.
pub fn parse_econ_indicators(source: &SourceConfig, docs: &Vec<FetchedDocument>) -> (events: Vec<
    CandidateEvent,
>)
    requires
        source.wf(),
    ensures
        forall|i: int| 0 <= i < events.len() ==> (#[trigger] events@[i]).wf(),
        are_econ_events_of(crate::merge::candidate_views(events@), *source, docs@),
{
    let country = country_of(source);
    let mut events: Vec<CandidateEvent> = Vec::new();
    let mut d: usize = 0;
    assert(docs@.take(0) =~= Seq::<FetchedDocument>::empty());
    while d < docs.len()
        invariant
            d <= docs.len(),
            country@ == econ_country(*source),
            forall|i: int| 0 <= i < events.len() ==> (#[trigger] events@[i]).wf(),
            are_econ_events_of(
                crate::merge::candidate_views(events@),
                *source,
                docs@.take(d as int),
            ),
        decreases docs.len() - d,
    {
        let found = econ_document(source, country.as_str(), &docs[d]);
        let ghost before = crate::merge::candidate_views(events@);
        let ghost added = crate::merge::candidate_views(found@);
        let n = found.len();
        let mut k: usize = 0;
        while k < n
            invariant
                k <= n,
                n == found.len(),
                added == crate::merge::candidate_views(found@),
                crate::merge::candidate_views(events@) == before + added.take(k as int),
                forall|j: int| 0 <= j < events.len() ==> (#[trigger] events@[j]).wf(),
                forall|j: int| 0 <= j < found.len() ==> (#[trigger] found@[j]).wf(),
            decreases n - k,
        {
            let ghost sofar = crate::merge::candidate_views(events@);
            events.push(found[k].copy());
            k += 1;
            assert(crate::merge::candidate_views(events@) =~= sofar.push(added[k - 1]));
            assert(before + added.take(k as int) =~= (before + added.take(k - 1)).push(
                added[k - 1],
            ));
        }
        proof {
            assert(added.take(n as int) =~= added);
            let all = crate::merge::candidate_views(events@);
            assert(all =~= before + added);
            assert(docs@.take(d + 1).drop_last() =~= docs@.take(d as int));
            assert(docs@.take(d + 1).last() == docs@[d as int]);
            assert(all.take(all.len() - added.len()) =~= before);
            assert(all.skip(all.len() - added.len()) =~= added);
        }
        d += 1;
    }
    assert(docs@.take(d as int) =~= docs@);
    events
}

} // verus!
