use rics::digest::hash_text;
use rics::identity::{canonical_material, revision_hash, stable_uid};
use rics::keyed::StrMap;
use rics::model::CandidateEvent;
use rics::time::{CalendarDate, EventTimeSpec, UtcInstant};
use sha2::Digest;

fn candidate() -> CandidateEvent {
    CandidateEvent {
        source_key: "src.one".to_string(),
        source_name: "Source One".to_string(),
        source_event_id: None,
        source_url: None,
        title: "Quarterly Outlook".to_string(),
        description: None,
        time: EventTimeSpec::Date { start: CalendarDate { year: 2026, month: 5, day: 1 }, end: None },
        timezone: None,
        status: "scheduled".to_string(),
        event_type: "event".to_string(),
        subtype: None,
        categories: vec!["a".to_string(), "b".to_string()],
        jurisdiction: None,
        country: None,
        importance: None,
        confidence: None,
        metadata: StrMap::new(),
    }
}

fn expected_uid(identity: &str) -> String {
    let digest = sha2::Sha256::digest(identity.as_bytes());
    format!("{}@rics.local", &hex::encode(digest)[..24])
}

#[test]
fn hash_text_is_sha256_in_lower_case_hex() {
    assert_eq!(
        hash_text("abc"),
        "ba7816bf8f01cfea414140de5dae2223b00361a396177a9cb410ff61f20015ad"
    );
    assert_eq!(
        hash_text(""),
        "e3b0c44298fc1c149afbf4c8996fb92427ae41e4649b934ca495991b7852b855"
    );
    assert_eq!(hash_text("é").len(), 64);
    assert_eq!(hash_text("é"), hex::encode(sha2::Sha256::digest("é".as_bytes())));
}

#[test]
fn uid_comes_from_the_event_id_first() {
    let mut c = candidate();
    c.source_event_id = Some("ev-1".to_string());
    c.source_url = Some("https://example.org/1".to_string());
    assert_eq!(stable_uid(&c), expected_uid("src.one::ev-1"));
    assert_eq!(stable_uid(&c).len(), 24 + "@rics.local".len());
    assert_eq!(stable_uid(&c).len(), 35);
}

#[test]
fn uid_comes_from_the_url_without_an_event_id() {
    let mut c = candidate();
    c.source_url = Some("https://example.org/1".to_string());
    assert_eq!(stable_uid(&c), expected_uid("src.one::https://example.org/1"));
}

#[test]
fn uid_comes_from_title_and_year_as_a_last_resort() {
    let c = candidate();
    assert_eq!(stable_uid(&c), expected_uid("src.one::quarterly outlook::2026"));
    let mut undated = candidate();
    undated.time = EventTimeSpec::Tbd { note: None };
    assert_eq!(stable_uid(&undated), expected_uid("src.one::quarterly outlook::undated"));
    let mut early = candidate();
    early.time = EventTimeSpec::Year { year: -5 };
    assert_eq!(stable_uid(&early), expected_uid("src.one::quarterly outlook::-5"));
}

#[test]
fn uid_folds_the_title_to_lower_case() {
    let mut upper = candidate();
    upper.title = "QUARTERLY ÖUTLOOK".to_string();
    let mut lower = candidate();
    lower.title = "quarterly öutlook".to_string();
    assert_eq!(stable_uid(&upper), stable_uid(&lower));
    assert_eq!(stable_uid(&upper), expected_uid("src.one::quarterly öutlook::2026"));
}

#[test]
fn uid_does_not_depend_on_other_fields() {
    let mut a = candidate();
    a.source_event_id = Some("ev-1".to_string());
    let mut b = candidate();
    b.source_event_id = Some("ev-1".to_string());
    b.title = "Another title".to_string();
    b.source_url = Some("https://x".to_string());
    b.time = EventTimeSpec::Tbd { note: None };
    b.status = "cancelled".to_string();
    assert_eq!(stable_uid(&a), stable_uid(&b));
    let mut other_source = candidate();
    other_source.source_event_id = Some("ev-1".to_string());
    other_source.source_key = "src.two".to_string();
    assert_ne!(stable_uid(&a), stable_uid(&other_source));
}

#[test]
fn canonical_material_of_a_plain_candidate() {
    let c = candidate();
    assert_eq!(
        canonical_material(&c),
        "{\"source_key\":\"src.one\",\"source_event_id\":null,\"source_url\":null,\
\"title\":\"Quarterly Outlook\",\"description\":null,\
\"time\":{\"kind\":\"date\",\"start\":\"2026-05-01\",\"end\":null},\
\"status\":\"scheduled\",\"event_type\":\"event\",\"subtype\":null,\
\"categories\":[\"a\",\"b\"],\"metadata\":{}}"
    );
    assert_eq!(revision_hash(&c), hash_text(&canonical_material(&c)));
    assert_eq!(revision_hash(&c).len(), 64);
}

#[test]
fn canonical_material_of_a_full_candidate() {
    let mut c = candidate();
    c.source_event_id = Some("id \"1\"".to_string());
    c.source_url = Some("https://example.org/a\\b".to_string());
    c.description = Some("line one\nline\ttwo\u{0001}".to_string());
    c.subtype = Some("release".to_string());
    c.categories = Vec::new();
    c.time = EventTimeSpec::DateTime {
        start: UtcInstant { date: CalendarDate { year: 2026, month: 5, day: 1 }, hour: 8, minute: 5, second: 9, nano: 0 },
        end: Some(UtcInstant { date: CalendarDate { year: 2026, month: 5, day: 1 }, hour: 9, minute: 0, second: 0, nano: 250_000_000 }),
    };
    c.metadata.insert("z".to_string(), "last".to_string());
    c.metadata.insert("a".to_string(), "first".to_string());
    assert_eq!(
        canonical_material(&c),
        "{\"source_key\":\"src.one\",\"source_event_id\":\"id \\\"1\\\"\",\
\"source_url\":\"https://example.org/a\\\\b\",\
\"title\":\"Quarterly Outlook\",\"description\":\"line one\\nline\\ttwo\\u0001\",\
\"time\":{\"kind\":\"date_time\",\"start\":\"2026-05-01T08:05:09Z\",\"end\":\"2026-05-01T09:00:00.250Z\"},\
\"status\":\"scheduled\",\"event_type\":\"event\",\"subtype\":\"release\",\
\"categories\":[],\"metadata\":{\"a\":\"first\",\"z\":\"last\"}}"
    );
}

#[test]
fn canonical_material_of_the_other_shapes_of_time() {
    let mut c = candidate();
    c.time = EventTimeSpec::Month { year: 2026, month: 5 };
    assert!(canonical_material(&c).contains("\"time\":{\"kind\":\"month\",\"year\":2026,\"month\":5}"));
    c.time = EventTimeSpec::Quarter { year: 2026, quarter: 3 };
    assert!(canonical_material(&c).contains("\"time\":{\"kind\":\"quarter\",\"year\":2026,\"quarter\":3}"));
    c.time = EventTimeSpec::Year { year: -12 };
    assert!(canonical_material(&c).contains("\"time\":{\"kind\":\"year\",\"year\":-12}"));
    c.time = EventTimeSpec::Tbd { note: Some("later".to_string()) };
    assert!(canonical_material(&c).contains("\"time\":{\"kind\":\"tbd\",\"note\":\"later\"}"));
    c.time = EventTimeSpec::Tbd { note: None };
    assert!(canonical_material(&c).contains("\"time\":{\"kind\":\"tbd\",\"note\":null}"));
    c.time = EventTimeSpec::Date {
        start: CalendarDate { year: 12345, month: 1, day: 2 },
        end: Some(CalendarDate { year: -44, month: 3, day: 15 }),
    };
    assert!(canonical_material(&c).contains("\"start\":\"+12345-01-02\",\"end\":\"-0044-03-15\""));
}

#[test]
fn canonical_dates_agree_with_chrono() {
    for (y, m, d) in [(2026, 5, 1), (12345, 1, 2), (-44, 3, 15), (0, 12, 31), (9999, 1, 1), (10000, 1, 1), (-1, 1, 1)] {
        let mut c = candidate();
        c.time = EventTimeSpec::Date { start: CalendarDate { year: y, month: m, day: d }, end: None };
        let expected = format!("{:?}", chrono::NaiveDate::from_ymd_opt(y, m, d).expect("valid"));
        assert!(canonical_material(&c).contains(&format!("\"start\":\"{expected}\"")));
    }
}

#[test]
fn revision_hash_ignores_the_fields_that_are_no_part_of_a_revision() {
    let a = candidate();
    let mut b = candidate();
    b.source_name = "Renamed".to_string();
    b.timezone = Some("Europe/Paris".to_string());
    b.importance = Some(7);
    b.confidence = Some(9500);
    b.jurisdiction = Some("EU".to_string());
    b.country = Some("FR".to_string());
    assert_eq!(revision_hash(&a), revision_hash(&b));
    assert_eq!(stable_uid(&a), stable_uid(&b));
}

#[test]
fn revision_hash_changes_with_every_field_of_the_revision() {
    let base = revision_hash(&candidate());
    let mut variants: Vec<CandidateEvent> = Vec::new();
    let mut c = candidate();
    c.source_key = "src.two".to_string();
    variants.push(c);
    let mut c = candidate();
    c.source_event_id = Some("x".to_string());
    variants.push(c);
    let mut c = candidate();
    c.source_url = Some("x".to_string());
    variants.push(c);
    let mut c = candidate();
    c.title = "Other".to_string();
    variants.push(c);
    let mut c = candidate();
    c.description = Some("x".to_string());
    variants.push(c);
    let mut c = candidate();
    c.time = EventTimeSpec::Date { start: CalendarDate { year: 2026, month: 5, day: 2 }, end: None };
    variants.push(c);
    let mut c = candidate();
    c.status = "cancelled".to_string();
    variants.push(c);
    let mut c = candidate();
    c.event_type = "release".to_string();
    variants.push(c);
    let mut c = candidate();
    c.subtype = Some("x".to_string());
    variants.push(c);
    let mut c = candidate();
    c.categories = vec!["b".to_string(), "a".to_string()];
    variants.push(c);
    let mut c = candidate();
    c.metadata.insert("k".to_string(), "v".to_string());
    variants.push(c);
    for v in &variants {
        assert_ne!(revision_hash(v), base);
    }
}
