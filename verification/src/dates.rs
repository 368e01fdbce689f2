//! How the text of a date becomes the time of an event.

use chrono::{Datelike, TimeZone, Timelike};
use vstd::prelude::*;
use crate::config::DateConfig;
use crate::numbers::{
    four_digits, is_four_digits, parse_i32, parse_i32_of, parse_u8, parse_u8_of,
};
use crate::pattern::{
    first_match, group_of, group_text, match_opt_view, pattern_compiles, regex_captures, MatchView,
    PatternMatch,
};
use crate::text::{concat2, opt_view, owned, trim, trim_of, views};
use crate::time::{date_of, instant_of, CalendarDate, EventTimeSpec, TimeView, UtcInstant};

verus! {

/// The fields of a date and a time of day, as a parser read them.
#[derive(Clone, Copy, Debug, PartialEq, Eq, Structural)]
pub struct RawInstant {
    pub year: i32,
    pub month: u32,
    pub day: u32,
    pub hour: u32,
    pub minute: u32,
    pub second: u32,
    pub nano: u32,
}

/// The fields of a date, as a parser read them.
#[derive(Clone, Copy, Debug, PartialEq, Eq, Structural)]
pub struct RawDate {
    pub year: i32,
    pub month: u32,
    pub day: u32,
}

/// The instant that an RFC 3339 text names, on the UTC scale.
pub uninterp spec fn rfc3339_utc(text: Seq<char>) -> Option<RawInstant>;

/// The date and time of day that a text names under a format.
pub uninterp spec fn naive_datetime(text: Seq<char>, format: Seq<char>) -> Option<RawInstant>;

/// The date that a text names under a format.
pub uninterp spec fn naive_date(text: Seq<char>, format: Seq<char>) -> Option<RawDate>;

/// Whether the time zone data base has a zone of this name.
pub uninterp spec fn known_zone(name: Seq<char>) -> bool;

/// The instant on the UTC scale of a local date and time in a named zone:
/// the earlier one where the local time occurs twice, none where it does not
/// occur.
pub uninterp spec fn utc_of_local(zone: Seq<char>, local: RawInstant) -> Option<RawInstant>;

/// `chrono::DateTime::parse_from_rfc3339`, moved to UTC with
/// `DateTime::with_timezone`. The contract claims that the result depends on
/// the text alone.
#[verifier::external_body]
pub(crate) fn read_rfc3339(text: &str) -> (r: Option<RawInstant>)
    ensures
        r == rfc3339_utc(text@),
{
    let t = chrono::DateTime::parse_from_rfc3339(text).ok()?.with_timezone(&chrono::Utc);
    let (year, month, day) = (t.year(), t.month(), t.day());
    let (hour, minute, second, nano) = (t.hour(), t.minute(), t.second(), t.nanosecond());
    Some(RawInstant { year, month, day, hour, minute, second, nano })
}

/// `chrono::NaiveDateTime::parse_from_str`. The contract claims that the
/// result depends on the text and the format alone.
#[verifier::external_body]
pub(crate) fn read_naive_datetime(text: &str, format: &str) -> (r: Option<RawInstant>)
    ensures
        r == naive_datetime(text@, format@),
{
    let t = chrono::NaiveDateTime::parse_from_str(text, format).ok()?;
    let (year, month, day) = (t.year(), t.month(), t.day());
    let (hour, minute, second, nano) = (t.hour(), t.minute(), t.second(), t.nanosecond());
    Some(RawInstant { year, month, day, hour, minute, second, nano })
}

/// `chrono::NaiveDate::parse_from_str`. The contract claims that the result
/// depends on the text and the format alone.
#[verifier::external_body]
pub(crate) fn read_naive_date(text: &str, format: &str) -> (r: Option<RawDate>)
    ensures
        r == naive_date(text@, format@),
{
    let d = chrono::NaiveDate::parse_from_str(text, format).ok()?;
    Some(RawDate { year: d.year(), month: d.month(), day: d.day() })
}

/// The parsing of a zone name by `chrono_tz::Tz`. The contract claims that
/// whether a name is known depends on the name alone.
#[verifier::external_body]
pub(crate) fn zone_is_known(name: &str) -> (r: bool)
    ensures
        r == known_zone(name@),
{
    name.parse::<chrono_tz::Tz>().is_ok()
}

/// `TimeZone::from_local_datetime` of the zone `chrono_tz::Tz` with the
/// given name, its earliest result, read on the UTC scale with
/// `DateTime::naive_utc`. The contract claims that the result depends on the
/// zone's name and the local fields alone. It is called for known zones and
/// for fields that name an instant.
#[verifier::external_body]
pub(crate) fn local_to_utc(zone: &str, local: RawInstant) -> (r: Option<RawInstant>)
    requires
        known_zone(zone@),
        instant_of(
            local.year as int,
            local.month as int,
            local.day as int,
            local.hour as int,
            local.minute as int,
            local.second as int,
            local.nano as int,
        ) is Some,
    ensures
        r == utc_of_local(zone@, local),
{
    let tz: chrono_tz::Tz = zone.parse().ok()?;
    let date = chrono::NaiveDate::from_ymd_opt(local.year, local.month, local.day)?;
    let naive = date.and_hms_nano_opt(local.hour, local.minute, local.second, local.nano)?;
    let t = tz.from_local_datetime(&naive).earliest()?.naive_utc();
    let (year, month, day) = (t.year(), t.month(), t.day());
    let (hour, minute, second, nano) = (t.hour(), t.minute(), t.second(), t.nanosecond());
    Some(RawInstant { year, month, day, hour, minute, second, nano })
}

// ---------------------------------------------------------------------------
// From raw fields to dates and instants
// ---------------------------------------------------------------------------

pub open spec fn instant_from(raw: RawInstant) -> Option<UtcInstant> {
    instant_of(
        raw.year as int,
        raw.month as int,
        raw.day as int,
        raw.hour as int,
        raw.minute as int,
        raw.second as int,
        raw.nano as int,
    )
}

pub open spec fn date_from(raw: RawDate) -> Option<CalendarDate> {
    date_of(raw.year as int, raw.month as int, raw.day as int)
}

/// The instant with the raw fields, if they name one.
pub fn to_instant(raw: RawInstant) -> (r: Option<UtcInstant>)
    ensures
        r == instant_from(raw),
{
    UtcInstant::from_parts(
        raw.year,
        raw.month,
        raw.day,
        raw.hour,
        raw.minute,
        raw.second,
        raw.nano,
    )
}

/// The date with the raw fields, if they name one.
pub fn to_date(raw: RawDate) -> (r: Option<CalendarDate>)
    ensures
        r == date_from(raw),
{
    CalendarDate::from_ymd(raw.year, raw.month, raw.day)
}

/// The instant on the UTC scale of a local date and time: converted from the
/// zone where the zone is known and the local time occurs in it, else taken
/// as UTC.
pub open spec fn localized(
    local: UtcInstant,
    known: bool,
    converted: Option<RawInstant>,
) -> UtcInstant {
    if known {
        match converted {
            Some(raw) => match instant_from(raw) {
                Some(t) => t,
                None => local,
            },
            None => local,
        }
    } else {
        local
    }
}

/// The fields of an instant.
pub open spec fn raw_of(t: UtcInstant) -> RawInstant {
    RawInstant {
        year: t.date.year,
        month: t.date.month,
        day: t.date.day,
        hour: t.hour,
        minute: t.minute,
        second: t.second,
        nano: t.nano,
    }
}

/// The instant on the UTC scale of a local date and time in the zone named,
/// if one is named.
pub open spec fn localized_in(local: UtcInstant, zone: Option<Seq<char>>) -> UtcInstant {
    match zone {
        Some(z) => localized(local, known_zone(z), utc_of_local(z, raw_of(local))),
        None => local,
    }
}

/// Decides the instant from what the zone data base answered.
pub fn choose_localized(local: UtcInstant, known: bool, converted: Option<RawInstant>) -> (r:
    UtcInstant)
    ensures
        r == localized(local, known, converted),
{
    if known {
        match converted {
            Some(raw) => match to_instant(raw) {
                Some(t) => t,
                None => local,
            },
            None => local,
        }
    } else {
        local
    }
}

/// Moves a local date and time to the UTC scale.
pub fn localize_datetime(value: UtcInstant, timezone: Option<&str>) -> (r: UtcInstant)
    requires
        value.is_valid(),
    ensures
        r == localized_in(
            value,
            match timezone {
                Some(z) => Some(z@),
                None => None,
            },
        ),
{
    match timezone {
        Some(zone) => {
            if zone_is_known(zone) {
                let raw = RawInstant {
                    year: value.date.year,
                    month: value.date.month,
                    day: value.date.day,
                    hour: value.hour,
                    minute: value.minute,
                    second: value.second,
                    nano: value.nano,
                };
                let converted = local_to_utc(zone, raw);
                choose_localized(value, true, converted)
            } else {
                value
            }
        },
        None => value,
    }
}

// ---------------------------------------------------------------------------
// Months and quarters
// ---------------------------------------------------------------------------

/// The four formats of a month and a year.
pub open spec fn month_formats() -> Seq<Seq<char>> {
    seq!["%B %Y"@, "%b %Y"@, "%Y-%m"@, "%Y/%m"@]
}

/// The month and the year that `value` names under the first of the formats
/// `formats` that fits, the first day of the month being added to make a
/// date.
pub open spec fn month_year_by(value: Seq<char>, formats: Seq<Seq<char>>) -> Option<(u32, i32)>
    decreases formats.len(),
{
    if formats.len() == 0 {
        None
    } else {
        match naive_date(value + "-01"@, formats[0] + "-%d"@) {
            Some(d) => Some((d.month, d.year)),
            None => month_year_by(value, formats.drop_first()),
        }
    }
}

/// The month and the year that `value` names: `May 2026`, `Jan 2026`,
/// `2026-05` or `2026/05`.
pub open spec fn month_year_of(value: Seq<char>) -> Option<(u32, i32)> {
    month_year_by(value, month_formats())
}

/// Reads a month and a year.
pub fn parse_month_year(value: &str) -> (r: Option<(u32, i32)>)
    ensures
        r == month_year_of(value@),
{
    let mut formats: Vec<String> = Vec::new();
    formats.push("%B %Y".to_string());
    formats.push("%b %Y".to_string());
    formats.push("%Y-%m".to_string());
    formats.push("%Y/%m".to_string());
    assert(views(formats@) =~= month_formats());
    let text = concat2(value, "-01");
    let mut i: usize = 0;
    assert(views(formats@).skip(0) =~= views(formats@));
    while i < formats.len()
        invariant
            i <= formats.len(),
            text@ == value@ + "-01"@,
            views(formats@) == month_formats(),
            month_year_by(value@, views(formats@)) == month_year_by(
                value@,
                views(formats@).skip(i as int),
            ),
        decreases formats.len() - i,
    {
        let format = concat2(formats[i].as_str(), "-%d");
        assert(views(formats@).skip(i as int)[0] == formats@[i as int]@);
        match read_naive_date(text.as_str(), format.as_str()) {
            Some(d) => {
                return Some((d.month, d.year));
            },
            None => {},
        }
        assert(views(formats@).skip(i as int).drop_first() =~= views(formats@).skip(i + 1));
        i += 1;
    }
    None
}

/// The pattern of a quarter and a year: `Q`, a digit from 1 to 4, white
/// space or one dash or neither, and four digits; the case of the letter
/// does not matter.
pub open spec fn quarter_pattern() -> Seq<char> {
    "(?i)^Q([1-4])\\s*[- ]?\\s*(\\d{4})$"@
}

/// The quarter and the year in a match of the quarter pattern.
pub open spec fn quarter_in(found: Option<MatchView>) -> Option<(u8, i32)> {
    match found {
        Some(m) => match (group_of(m, 1), group_of(m, 2)) {
            (Some(q), Some(y)) => match (parse_u8_of(q), parse_i32_of(y)) {
                (Some(quarter), Some(year)) => Some((quarter, year)),
                _ => None,
            },
            _ => None,
        },
        None => None,
    }
}

/// The quarter and the year that `value` names, such as `Q3 2026`.
pub open spec fn quarter_year_of(value: Seq<char>) -> Option<(u8, i32)> {
    if pattern_compiles(quarter_pattern()) {
        quarter_in(first_match(quarter_pattern(), trim_of(value)))
    } else {
        None
    }
}

/// Reads the quarter and the year from a match of the quarter pattern.
pub fn quarter_from_match(found: &Option<PatternMatch>) -> (r: Option<(u8, i32)>)
    ensures
        r == quarter_in(match_opt_view(*found)),
{
    match found {
        Some(m) => {
            let q = group_text(m, 1);
            let y = group_text(m, 2);
            match (q, y) {
                (Some(q), Some(y)) => match (parse_u8(q.as_str()), parse_i32(y.as_str())) {
                    (Some(quarter), Some(year)) => Some((quarter, year)),
                    _ => None,
                },
                _ => None,
            }
        },
        None => None,
    }
}

/// Reads a quarter and a year.
pub fn parse_quarter_year(value: &str) -> (r: Option<(u8, i32)>)
    ensures
        r == quarter_year_of(value@),
{
    let text = trim(value);
    match regex_captures("(?i)^Q([1-4])\\s*[- ]?\\s*(\\d{4})$", text.as_str()) {
        Ok(found) => quarter_from_match(&found),
        Err(_) => None,
    }
}

// ---------------------------------------------------------------------------
// The time of an event
// ---------------------------------------------------------------------------

/// The text of the end, trimmed, if there is one.
pub open spec fn trimmed_opt(text: Option<Seq<char>>) -> Option<Seq<char>> {
    match text {
        Some(t) => Some(trim_of(t)),
        None => None,
    }
}

/// The instant that a text names under a format, in the zone given.
pub open spec fn instant_under(text: Seq<char>, format: Seq<char>, zone: Option<Seq<char>>) -> Option<
    UtcInstant,
> {
    match naive_datetime(text, format) {
        Some(raw) => match instant_from(raw) {
            Some(local) => Some(localized_in(local, zone)),
            None => None,
        },
        None => None,
    }
}

/// The date that a text names under a format.
pub open spec fn date_under(text: Seq<char>, format: Seq<char>) -> Option<CalendarDate> {
    match naive_date(text, format) {
        Some(raw) => date_from(raw),
        None => None,
    }
}

/// The end under a format: only where the end reads under it.
pub open spec fn end_instant(end: Option<Seq<char>>, format: Seq<char>, zone: Option<Seq<char>>) -> Option<
    UtcInstant,
> {
    match end {
        Some(e) => instant_under(e, format, zone),
        None => None,
    }
}

/// The end under a format: only where the end reads under it.
pub open spec fn end_date(end: Option<Seq<char>>, format: Seq<char>) -> Option<CalendarDate> {
    match end {
        Some(e) => date_under(e, format),
        None => None,
    }
}

/// What the first of the formats under which the start is a date with a
/// time of day makes of start and end.
pub open spec fn instants_by_formats(
    start: Seq<char>,
    end: Option<Seq<char>>,
    formats: Seq<Seq<char>>,
    zone: Option<Seq<char>>,
) -> Option<TimeView>
    decreases formats.len(),
{
    if formats.len() == 0 {
        None
    } else {
        match instant_under(start, formats[0], zone) {
            Some(s) => Some(
                TimeView::DateTime { start: s, end: end_instant(end, formats[0], zone) },
            ),
            None => instants_by_formats(start, end, formats.drop_first(), zone),
        }
    }
}

/// What the first of the formats under which the start is a date makes of
/// start and end.
pub open spec fn dates_by_formats(
    start: Seq<char>,
    end: Option<Seq<char>>,
    formats: Seq<Seq<char>>,
) -> Option<TimeView>
    decreases formats.len(),
{
    if formats.len() == 0 {
        None
    } else {
        match date_under(start, formats[0]) {
            Some(s) => Some(TimeView::Date { start: s, end: end_date(end, formats[0]) }),
            None => dates_by_formats(start, end, formats.drop_first()),
        }
    }
}

/// What the formats make of start and end: every format is tried for a date
/// with a time of day, in their order; then every format for a date.
pub open spec fn time_by_formats(
    start: Seq<char>,
    end: Option<Seq<char>>,
    formats: Seq<Seq<char>>,
    zone: Option<Seq<char>>,
) -> Option<TimeView> {
    match instants_by_formats(start, end, formats, zone) {
        Some(t) => Some(t),
        None => dates_by_formats(start, end, formats),
    }
}

/// The year that a text of exactly four ASCII digits names.
pub open spec fn bare_year_of(text: Seq<char>) -> Option<i32> {
    if four_digits(text) {
        parse_i32_of(text)
    } else {
        None
    }
}

/// Reads a year of exactly four ASCII digits.
pub fn parse_bare_year(text: &str) -> (r: Option<i32>)
    ensures
        r == bare_year_of(text@),
{
    if is_four_digits(text) {
        parse_i32(text)
    } else {
        None
    }
}

/// What is made of a start that is neither an RFC 3339 instant nor fits a
/// format: a month, where months are allowed; else a quarter; else a year
/// of four digits, where years are allowed; else a time to be decided, with
/// the text as its note.
pub open spec fn loose_time(start: Seq<char>, allow_month_only: bool, allow_year_only: bool) -> TimeView {
    match month_year_of(start) {
        Some((month, year)) if allow_month_only => TimeView::Month { year, month },
        _ => match quarter_year_of(start) {
            Some((quarter, year)) => TimeView::Quarter { year, quarter },
            None => match bare_year_of(start) {
                Some(year) if allow_year_only => TimeView::Year { year },
                _ => TimeView::Tbd { note: Some(start) },
            },
        },
    }
}

/// The time of an event with the given texts for start and end.
///
/// The start is trimmed. An empty start gives a time to be decided. A start
/// that is an RFC 3339 instant gives that instant on the UTC scale, with the
/// end where it is one too. Else the formats are tried in their order for a
/// date with a time of day, which is read in the zone; then for a date. The
/// end counts only where it reads under the format that the start fits.
/// Else the start is read as a month, a quarter or a year.
pub open spec fn event_time_of(
    start_raw: Seq<char>,
    end_raw: Option<Seq<char>>,
    formats: Seq<Seq<char>>,
    zone: Option<Seq<char>>,
    allow_month_only: bool,
    allow_year_only: bool,
) -> TimeView {
    let start = trim_of(start_raw);
    let end = trimmed_opt(end_raw);
    if start.len() == 0 {
        TimeView::Tbd { note: None }
    } else {
        match rfc3339_utc(start) {
            Some(raw) if instant_from(raw) is Some => TimeView::DateTime {
                start: instant_from(raw)->0,
                end: match end {
                    Some(e) => match rfc3339_utc(e) {
                        Some(r) => instant_from(r),
                        None => None,
                    },
                    None => None,
                },
            },
            _ => match time_by_formats(start, end, formats, zone) {
                Some(t) => t,
                None => loose_time(start, allow_month_only, allow_year_only),
            },
        }
    }
}

/// Reads an instant under a format, in the zone given.
fn read_instant_under(text: &str, format: &str, zone: Option<&str>) -> (r: Option<UtcInstant>)
    ensures
        r == instant_under(
            text@,
            format@,
            match zone {
                Some(z) => Some(z@),
                None => None,
            },
        ),
{
    match read_naive_datetime(text, format) {
        Some(raw) => match to_instant(raw) {
            Some(local) => Some(localize_datetime(local, zone)),
            None => None,
        },
        None => None,
    }
}

/// Reads a date under a format.
fn read_date_under(text: &str, format: &str) -> (r: Option<CalendarDate>)
    ensures
        r == date_under(text@, format@),
{
    match read_naive_date(text, format) {
        Some(raw) => to_date(raw),
        None => None,
    }
}

/// Reads a start that fits no format.
fn read_loose_time(start: &str, allow_month_only: bool, allow_year_only: bool) -> (r: EventTimeSpec)
    ensures
        r@ == loose_time(start@, allow_month_only, allow_year_only),
{
    match parse_month_year(start) {
        Some((month, year)) => {
            if allow_month_only {
                return EventTimeSpec::Month { year, month };
            }
        },
        None => {},
    }
    match parse_quarter_year(start) {
        Some((quarter, year)) => {
            return EventTimeSpec::Quarter { year, quarter };
        },
        None => {},
    }
    match parse_bare_year(start) {
        Some(year) => {
            if allow_year_only {
                return EventTimeSpec::Year { year };
            }
        },
        None => {},
    }
    EventTimeSpec::Tbd { note: Some(owned(start)) }
}

/// Infers the time of an event from the texts of its start and its end.
pub fn parse_event_time(
    start_raw: &str,
    end_raw: Option<&str>,
    date_cfg: &DateConfig,
    timezone: Option<&str>,
) -> (time: EventTimeSpec)
    ensures
        time@ == event_time_of(
            start_raw@,
            match end_raw {
                Some(e) => Some(e@),
                None => None,
            },
            views(date_cfg.formats@),
            match timezone {
                Some(z) => Some(z@),
                None => None,
            },
            date_cfg.allow_month_only,
            date_cfg.allow_year_only,
        ),
{
    let start = trim(start_raw);
    let end: Option<String> = match end_raw {
        Some(e) => Some(trim(e)),
        None => None,
    };
    if start.as_str().unicode_len() == 0 {
        return EventTimeSpec::Tbd { note: None };
    }
    match read_rfc3339(start.as_str()) {
        Some(raw) => match to_instant(raw) {
            Some(s) => {
                let e = match &end {
                    Some(e) => match read_rfc3339(e.as_str()) {
                        Some(r) => to_instant(r),
                        None => None,
                    },
                    None => None,
                };
                return EventTimeSpec::DateTime { start: s, end: e };
            },
            None => {},
        },
        None => {},
    }
    let ghost formats = views(date_cfg.formats@);
    let ghost zone = match timezone {
        Some(z) => Some(z@),
        None => None,
    };
    let mut i: usize = 0;
    assert(formats.skip(0) =~= formats);
    while i < date_cfg.formats.len()
        invariant
            i <= date_cfg.formats.len(),
            formats == views(date_cfg.formats@),
            start@ == trim_of(start_raw@),
            start@.len() != 0,
            opt_view(end) == trimmed_opt(
                match end_raw {
                    Some(e) => Some(e@),
                    None => None,
                },
            ),
            match rfc3339_utc(start@) {
                Some(raw) => instant_from(raw) is None,
                None => true,
            },
            zone == (match timezone {
                Some(z) => Some(z@),
                None => None,
            }),
            instants_by_formats(start@, opt_view(end), formats, zone) == instants_by_formats(
                start@,
                opt_view(end),
                formats.skip(i as int),
                zone,
            ),
        decreases date_cfg.formats.len() - i,
    {
        assert(formats.skip(i as int)[0] == date_cfg.formats@[i as int]@);
        let format = date_cfg.formats[i].as_str();
        match read_instant_under(start.as_str(), format, timezone) {
            Some(s) => {
                let e = match &end {
                    Some(e) => read_instant_under(e.as_str(), format, timezone),
                    None => None,
                };
                return EventTimeSpec::DateTime { start: s, end: e };
            },
            None => {},
        }
        assert(formats.skip(i as int).drop_first() =~= formats.skip(i + 1));
        i += 1;
    }
    let mut j: usize = 0;
    while j < date_cfg.formats.len()
        invariant
            j <= date_cfg.formats.len(),
            formats == views(date_cfg.formats@),
            start@ == trim_of(start_raw@),
            start@.len() != 0,
            opt_view(end) == trimmed_opt(
                match end_raw {
                    Some(e) => Some(e@),
                    None => None,
                },
            ),
            match rfc3339_utc(start@) {
                Some(raw) => instant_from(raw) is None,
                None => true,
            },
            zone == (match timezone {
                Some(z) => Some(z@),
                None => None,
            }),
            instants_by_formats(start@, opt_view(end), formats, zone) is None,
            dates_by_formats(start@, opt_view(end), formats) == dates_by_formats(
                start@,
                opt_view(end),
                formats.skip(j as int),
            ),
        decreases date_cfg.formats.len() - j,
    {
        assert(formats.skip(j as int)[0] == date_cfg.formats@[j as int]@);
        let format = date_cfg.formats[j].as_str();
        match read_date_under(start.as_str(), format) {
            Some(s) => {
                let e = match &end {
                    Some(e) => read_date_under(e.as_str(), format),
                    None => None,
                };
                return EventTimeSpec::Date { start: s, end: e };
            },
            None => {},
        }
        assert(formats.skip(j as int).drop_first() =~= formats.skip(j + 1));
        j += 1;
    }
    read_loose_time(start.as_str(), date_cfg.allow_month_only, date_cfg.allow_year_only)
}

} // verus!
