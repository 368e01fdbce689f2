use rics::ics::{
    append_event_lines, calendar_lines, calendar_text, format_confidence, format_date,
    format_utc, sanitize_x_key,
};
use rics::keyed::StrMap;
use rics::lines::escape_text;
use rics::model::EventRecord;
use rics::rebuild::{sort_records, stands_before, write_source_year_calendar};
use rics::time::{CalendarDate, EventTimeSpec, UtcInstant};

fn date(year: i32, month: u32, day: u32) -> CalendarDate {
    CalendarDate { year, month, day }
}

fn at(year: i32, month: u32, day: u32, hour: u32, minute: u32, second: u32) -> UtcInstant {
    UtcInstant { date: date(year, month, day), hour, minute, second, nano: 0 }
}

fn record(uid: &str, title: &str, time: EventTimeSpec) -> EventRecord {
    EventRecord {
        uid: uid.to_string(),
        source_key: "src.one".to_string(),
        source_name: "Source One".to_string(),
        source_event_id: None,
        source_url: None,
        title: title.to_string(),
        description: None,
        time,
        timezone: None,
        status: "scheduled".to_string(),
        event_type: "release".to_string(),
        subtype: None,
        categories: Vec::new(),
        jurisdiction: None,
        country: None,
        importance: None,
        confidence: None,
        metadata: StrMap::new(),
        sequence: 0,
        revision_hash: "abc123".to_string(),
        created_at: at(2026, 1, 2, 3, 4, 5),
        last_modified: at(2026, 1, 3, 13, 14, 15),
        last_seen_at: at(2026, 1, 4, 0, 0, 0),
    }
}

#[test]
fn values_are_written_in_basic_form() {
    assert_eq!(format_date("DTSTART;VALUE=DATE:", &date(2026, 5, 1)), "DTSTART;VALUE=DATE:20260501");
    assert_eq!(format_date("", &date(987, 12, 31)), "09871231");
    assert_eq!(format_date("", &date(-5, 1, 2)), "-0050102");
    assert_eq!(format_date("", &date(12345, 1, 2)), "123450102");
    assert_eq!(format_utc("DTSTAMP:", &at(2026, 5, 1, 8, 5, 9)), "DTSTAMP:20260501T080509Z");
    assert_eq!(format_utc("", &at(2026, 12, 31, 23, 59, 59)), "20261231T235959Z");
}

#[test]
fn basic_dates_agree_with_rust_formatting() {
    for (y, m, d) in [(2026, 5, 1), (987, 12, 31), (-5, 1, 2), (12345, 1, 2), (0, 1, 1), (-12345, 10, 10)] {
        assert_eq!(format_date("", &date(y, m, d)), format!("{:04}{:02}{:02}", y, m, d));
    }
}

#[test]
fn confidence_is_written_with_four_decimals() {
    assert_eq!(format_confidence("X-RICS-CONFIDENCE:", 9500), "X-RICS-CONFIDENCE:0.9500");
    assert_eq!(format_confidence("", 0), "0.0000");
    assert_eq!(format_confidence("", 1), "0.0001");
    assert_eq!(format_confidence("", 10000), "1.0000");
    assert_eq!(format_confidence("", 12345678), "1234.5678");
    assert_eq!(format_confidence("", -5000), "-0.5000");
    assert_eq!(format_confidence("", 9500), format!("{:.4}", 0.95f32));
    assert_eq!(format_confidence("", 5000), format!("{:.4}", 0.5f32));
    assert_eq!(format_confidence("", 9000), format!("{:.4}", 0.9f32));
}

#[test]
fn proprietary_keys_are_sanitized() {
    assert_eq!(sanitize_x_key("time_precision"), "TIME-PRECISION");
    assert_eq!(sanitize_x_key("api total!"), "API-TOTAL-");
    assert_eq!(sanitize_x_key("Ünï9"), "-N-9");
    assert_eq!(sanitize_x_key(""), "");
}

#[test]
fn text_is_escaped() {
    assert_eq!(escape_text("a, b; c\\d\ne"), "a\\, b\\; c\\\\d\\ne");
    assert_eq!(escape_text("\r"), "\r");
    assert_eq!(escape_text(""), "");
}

#[test]
fn the_lines_of_a_plain_event() {
    let r = record("uid-1@rics.local", "Plain", EventTimeSpec::Date { start: date(2026, 5, 1), end: None });
    let mut lines = Vec::new();
    append_event_lines(&mut lines, &r);
    assert_eq!(
        lines,
        vec![
            "BEGIN:VEVENT",
            "UID:uid-1@rics.local",
            "DTSTAMP:20260103T131415Z",
            "CREATED:20260102T030405Z",
            "LAST-MODIFIED:20260103T131415Z",
            "SEQUENCE:0",
            "DTSTART;VALUE=DATE:20260501",
            "DTEND;VALUE=DATE:20260502",
            "SUMMARY:Plain",
            "STATUS:SCHEDULED",
            "TRANSP:TRANSPARENT",
            "X-RICS-SOURCE-KEY:src.one",
            "X-RICS-EVENT-TYPE:release",
            "X-RICS-TIME-PRECISION:DATE",
            "X-RICS-REVISION-HASH:abc123",
            "END:VEVENT",
        ]
    );
}

#[test]
fn the_lines_of_a_full_event() {
    let mut r = record(
        "uid-2@rics.local",
        "Rates, prices; wages",
        EventTimeSpec::DateTime {
            start: at(2026, 5, 1, 12, 30, 0),
            end: Some(at(2026, 5, 1, 13, 0, 0)),
        },
    );
    r.description = Some("Two\nlines".to_string());
    r.source_url = Some("https://example.org/a,b".to_string());
    r.categories = vec!["zeta".to_string(), "alpha".to_string(), "zeta".to_string(), "a,b".to_string()];
    r.status = "Tentative".to_string();
    r.subtype = Some("cpi".to_string());
    r.importance = Some(200);
    r.confidence = Some(9500);
    r.sequence = 12;
    r.metadata.insert("time_precision".to_string(), "datetime".to_string());
    r.metadata.insert("empty".to_string(), String::new());
    r.metadata.insert("api tags".to_string(), "x;y".to_string());
    let mut lines = vec!["before".to_string()];
    append_event_lines(&mut lines, &r);
    assert_eq!(
        lines,
        vec![
            "before",
            "BEGIN:VEVENT",
            "UID:uid-2@rics.local",
            "DTSTAMP:20260103T131415Z",
            "CREATED:20260102T030405Z",
            "LAST-MODIFIED:20260103T131415Z",
            "SEQUENCE:12",
            "DTSTART:20260501T123000Z",
            "DTEND:20260501T130000Z",
            "SUMMARY:Rates\\, prices\\; wages",
            "DESCRIPTION:Two\\nlines",
            "URL:https://example.org/a\\,b",
            "CATEGORIES:a\\,b,alpha,zeta",
            "STATUS:TENTATIVE",
            "TRANSP:TRANSPARENT",
            "X-RICS-SOURCE-KEY:src.one",
            "X-RICS-EVENT-TYPE:release",
            "X-RICS-EVENT-SUBTYPE:cpi",
            "X-RICS-IMPORTANCE:200",
            "X-RICS-CONFIDENCE:0.9500",
            "X-RICS-TIME-PRECISION:DATETIME",
            "X-RICS-REVISION-HASH:abc123",
            "X-RICS-API-TAGS:x\\;y",
            "X-RICS-TIME-PRECISION:datetime",
            "END:VEVENT",
        ]
    );
}

#[test]
fn the_time_lines_of_every_shape() {
    let lines_of = |time: EventTimeSpec| {
        let mut lines = Vec::new();
        append_event_lines(&mut lines, &record("u", "T", time));
        lines.into_iter().filter(|l| l.starts_with("DT") && !l.starts_with("DTSTAMP") || l.starts_with("X-RICS-TBD")).collect::<Vec<_>>()
    };
    assert_eq!(
        lines_of(EventTimeSpec::Month { year: 2026, month: 5 }),
        vec!["DTSTART;VALUE=DATE:20260501", "DTEND;VALUE=DATE:20260601"]
    );
    assert_eq!(
        lines_of(EventTimeSpec::Month { year: 2026, month: 12 }),
        vec!["DTSTART;VALUE=DATE:20261201", "DTEND;VALUE=DATE:20270101"]
    );
    assert_eq!(lines_of(EventTimeSpec::Month { year: 2026, month: 13 }), Vec::<String>::new());
    assert_eq!(
        lines_of(EventTimeSpec::Quarter { year: 2026, quarter: 2 }),
        vec!["DTSTART;VALUE=DATE:20260401", "DTEND;VALUE=DATE:20260701"]
    );
    assert_eq!(
        lines_of(EventTimeSpec::Quarter { year: 2026, quarter: 4 }),
        vec!["DTSTART;VALUE=DATE:20261001", "DTEND;VALUE=DATE:20270101"]
    );
    assert_eq!(
        lines_of(EventTimeSpec::Year { year: 2026 }),
        vec!["DTSTART;VALUE=DATE:20260101", "DTEND;VALUE=DATE:20270101"]
    );
    assert_eq!(
        lines_of(EventTimeSpec::Date { start: date(2026, 5, 1), end: Some(date(2026, 5, 31)) }),
        vec!["DTSTART;VALUE=DATE:20260501", "DTEND;VALUE=DATE:20260601"]
    );
    assert_eq!(
        lines_of(EventTimeSpec::Date { start: date(262142, 12, 31), end: None }),
        vec!["DTSTART;VALUE=DATE:2621421231", "DTEND;VALUE=DATE:2621421231"]
    );
    assert_eq!(
        lines_of(EventTimeSpec::DateTime { start: at(2026, 5, 1, 0, 0, 0), end: None }),
        vec!["DTSTART:20260501T000000Z"]
    );
    assert_eq!(
        lines_of(EventTimeSpec::Tbd { note: Some("to be, or not".to_string()) }),
        vec!["X-RICS-TBD-NOTE:to be\\, or not"]
    );
    assert_eq!(lines_of(EventTimeSpec::Tbd { note: None }), Vec::<String>::new());
}

#[test]
fn a_calendar_wraps_its_events() {
    let a = record("a@rics.local", "A", EventTimeSpec::Date { start: date(2026, 5, 1), end: None });
    let b = record("b@rics.local", "B", EventTimeSpec::Date { start: date(2026, 6, 1), end: None });
    let lines = calendar_lines("Source, One", 2026, &vec![&a, &b]);
    assert_eq!(
        &lines[..7],
        &[
            "BEGIN:VCALENDAR",
            "VERSION:2.0",
            "PRODID:-//rics//ICS Generator 1.0//EN",
            "CALSCALE:GREGORIAN",
            "METHOD:PUBLISH",
            "X-WR-CALNAME:Source\\, One 2026",
            "X-WR-TIMEZONE:UTC",
        ]
    );
    assert_eq!(lines[7], "BEGIN:VEVENT");
    assert_eq!(lines[8], "UID:a@rics.local");
    assert_eq!(lines.last().map(String::as_str), Some("END:VCALENDAR"));
    assert_eq!(lines.iter().filter(|l| *l == "BEGIN:VEVENT").count(), 2);
    let first = lines.iter().position(|l| l == "UID:a@rics.local").expect("a");
    let second = lines.iter().position(|l| l == "UID:b@rics.local").expect("b");
    assert!(first < second);

    let text = calendar_text("Source, One", 2026, &vec![&a, &b]);
    assert_eq!(text, lines.iter().map(|l| format!("{l}\r\n")).collect::<String>());
    assert!(text.ends_with("END:VCALENDAR\r\n"));
}

#[test]
fn an_empty_calendar_has_its_frame_only() {
    let text = calendar_text("S", -3, &Vec::new());
    assert_eq!(
        text,
        "BEGIN:VCALENDAR\r\nVERSION:2.0\r\nPRODID:-//rics//ICS Generator 1.0//EN\r\n\
CALSCALE:GREGORIAN\r\nMETHOD:PUBLISH\r\nX-WR-CALNAME:S -3\r\nX-WR-TIMEZONE:UTC\r\nEND:VCALENDAR\r\n"
    );
}

#[test]
fn no_line_of_a_calendar_is_longer_than_75_bytes() {
    let mut r = record(
        "a@rics.local",
        &"Ein sehr langer Titel mit Umlauten äöü und Zeichen, die escaped werden; ".repeat(5),
        EventTimeSpec::Date { start: date(2026, 5, 1), end: None },
    );
    r.description = Some("€".repeat(200));
    r.metadata.insert("note".to_string(), "n".repeat(300));
    let text = calendar_text(&"Name ".repeat(30), 2026, &vec![&r]);
    let mut folded = 0;
    for line in text.split("\r\n") {
        assert!(line.len() <= 75, "line of {} bytes", line.len());
        if line.starts_with(' ') {
            folded += 1;
        }
    }
    assert!(folded > 10);
    let unfolded = text.replace("\r\n ", "");
    assert!(unfolded.contains(&format!("DESCRIPTION:{}\r\n", "€".repeat(200))));
    assert!(unfolded.contains(&format!("X-RICS-NOTE:{}\r\n", "n".repeat(300))));
}

#[test]
fn events_are_sorted_by_day_and_then_by_uid() {
    let a = record("b@rics.local", "Second of the day", EventTimeSpec::Date { start: date(2026, 5, 1), end: None });
    let b = record("a@rics.local", "First of the day", EventTimeSpec::DateTime { start: at(2026, 5, 1, 23, 0, 0), end: None });
    let c = record("z@rics.local", "Earlier", EventTimeSpec::Month { year: 2026, month: 4 });
    let d = record("0@rics.local", "No day", EventTimeSpec::Month { year: 2026, month: 13 });
    let e = record("c@rics.local", "Late", EventTimeSpec::Date { start: date(2026, 12, 31), end: None });
    let sorted = sort_records(&vec![&a, &b, &c, &d, &e]);
    let uids: Vec<&str> = sorted.iter().map(|r| r.uid.as_str()).collect();
    assert_eq!(uids, vec!["z@rics.local", "a@rics.local", "b@rics.local", "c@rics.local", "0@rics.local"]);
    assert!(stands_before(&c, &a));
    assert!(stands_before(&b, &a));
    assert!(!stands_before(&a, &b));
    assert!(!stands_before(&a, &a));
    assert!(stands_before(&e, &d));
    assert_eq!(sort_records(&Vec::new()).len(), 0);
}

#[test]
fn write_source_year_calendar_names_the_calendar_after_the_source() {
    let source = calendar_source();
    let a = record("a@rics.local", "A", EventTimeSpec::Year { year: 2026 });
    let text = write_source_year_calendar(&source, 2026, &vec![&a]);
    assert!(text.contains("X-WR-CALNAME:Fixture 2026\r\n"));
    assert!(text.contains("SUMMARY:A\r\n"));
    assert_eq!(text, calendar_text("Fixture", 2026, &vec![&a]));
}

fn calendar_source() -> rics::config::SourceConfig {
    rics::config::SourceConfig {
        source: rics::config::SourceMeta {
            key: "fixture".to_string(),
            name: "Fixture".to_string(),
            domain: "test".to_string(),
            enabled: true,
            timezone: None,
            jurisdiction: None,
            default_country: None,
        },
        fetch: Default::default(),
        pagination: Default::default(),
        extract: Default::default(),
        map: StrMap::new(),
        date: Default::default(),
        event: Default::default(),
        pdf: Default::default(),
        custom: Default::default(),
        publish: Default::default(),
    }
}
