use rics::keyed::StrMap;
use rics::merge::{merge_source_events, normalize, upsert_candidate, Outcome};
use rics::identity::{revision_hash, stable_uid};
use rics::model::{CandidateEvent, SourceRunReport};
use rics::state::State;
use rics::time::{CalendarDate, EventTimeSpec, UtcInstant};

fn date(year: i32, month: u32, day: u32) -> CalendarDate {
    CalendarDate { year, month, day }
}

fn at(year: i32, month: u32, day: u32) -> UtcInstant {
    UtcInstant { date: date(year, month, day), hour: 6, minute: 0, second: 0, nano: 0 }
}

fn candidate(id: &str, title: &str, start: CalendarDate) -> CandidateEvent {
    CandidateEvent {
        source_key: "src".to_string(),
        source_name: "Source".to_string(),
        source_event_id: Some(id.to_string()),
        source_url: None,
        title: title.to_string(),
        description: None,
        time: EventTimeSpec::Date { start, end: None },
        timezone: None,
        status: "scheduled".to_string(),
        event_type: "event".to_string(),
        subtype: None,
        categories: vec!["zeta".to_string(), "alpha".to_string(), "zeta".to_string()],
        jurisdiction: None,
        country: None,
        importance: None,
        confidence: None,
        metadata: StrMap::new(),
    }
}

fn run(state: &mut State, candidates: &Vec<CandidateEvent>, now: UtcInstant) -> (SourceRunReport, Vec<i32>) {
    let mut report = SourceRunReport::default();
    let changed = merge_source_events(state, "src", candidates, &mut report, now, now.date);
    let mut years = Vec::new();
    for i in 0..changed.len() {
        years.push(changed.year_at(i));
    }
    (report, years)
}

#[test]
fn a_new_candidate_is_inserted() {
    let mut state = State::new();
    let c = candidate("a", "Alpha", date(2026, 5, 1));
    let (report, years) = run(&mut state, &vec![c.clone()], at(2026, 1, 1));
    assert_eq!((report.inserted, report.updated, report.unchanged, report.cancelled), (1, 0, 0, 0));
    assert_eq!(years, vec![2026]);
    assert_eq!(state.len(), 1);
    let record = state.get(&stable_uid(&c)).expect("stored under its uid");
    assert_eq!(record.uid, stable_uid(&c));
    assert_eq!(record.sequence, 0);
    assert_eq!(record.created_at, at(2026, 1, 1));
    assert_eq!(record.last_modified, at(2026, 1, 1));
    assert_eq!(record.last_seen_at, at(2026, 1, 1));
    assert_eq!(record.categories, vec!["alpha", "zeta"]);
    assert_eq!(record.revision_hash, revision_hash(&normalize(&c)));
    assert_eq!(record.title, "Alpha");
    assert_eq!(state.schema_version, 1);
}

#[test]
fn an_unchanged_candidate_is_only_seen_again() {
    let mut state = State::new();
    let c = candidate("a", "Alpha", date(2026, 5, 1));
    run(&mut state, &vec![c.clone()], at(2026, 1, 1));
    let (report, years) = run(&mut state, &vec![c.clone()], at(2026, 1, 2));
    assert_eq!((report.inserted, report.updated, report.unchanged, report.cancelled), (0, 0, 1, 0));
    assert!(years.is_empty());
    let record = state.get(&stable_uid(&c)).expect("record");
    assert_eq!(record.sequence, 0);
    assert_eq!(record.created_at, at(2026, 1, 1));
    assert_eq!(record.last_modified, at(2026, 1, 1));
    assert_eq!(record.last_seen_at, at(2026, 1, 2));
}

#[test]
fn a_changed_candidate_is_updated() {
    let mut state = State::new();
    run(&mut state, &vec![candidate("a", "Alpha", date(2026, 5, 1))], at(2026, 1, 1));
    let revised = candidate("a", "Alpha revised", date(2027, 5, 1));
    let (report, years) = run(&mut state, &vec![revised.clone()], at(2026, 1, 2));
    assert_eq!((report.inserted, report.updated, report.unchanged, report.cancelled), (0, 1, 0, 0));
    assert_eq!(years, vec![2027]);
    let record = state.get(&stable_uid(&revised)).expect("record");
    assert_eq!(record.sequence, 1);
    assert_eq!(record.title, "Alpha revised");
    assert_eq!(record.created_at, at(2026, 1, 1));
    assert_eq!(record.last_modified, at(2026, 1, 2));
    assert_eq!(record.last_seen_at, at(2026, 1, 2));
    assert_eq!(state.len(), 1);
}

#[test]
fn the_sequence_number_stops_at_its_maximum() {
    let mut state = State::new();
    let c = candidate("a", "Alpha", date(2026, 5, 1));
    run(&mut state, &vec![c.clone()], at(2026, 1, 1));
    let mut record = state.get(&stable_uid(&c)).expect("record").clone();
    record.sequence = u32::MAX;
    state.insert(record);
    run(&mut state, &vec![candidate("a", "Alpha revised", date(2026, 5, 1))], at(2026, 1, 2));
    assert_eq!(state.get(&stable_uid(&c)).expect("record").sequence, u32::MAX);
    run(&mut state, &Vec::new(), at(2026, 1, 3));
    let record = state.get(&stable_uid(&c)).expect("record");
    assert_eq!(record.status, "cancelled");
    assert_eq!(record.sequence, u32::MAX);
}

#[test]
fn an_event_without_a_time_touches_no_year() {
    let mut state = State::new();
    let mut c = candidate("a", "Alpha", date(2026, 5, 1));
    c.time = EventTimeSpec::Tbd { note: Some("later".to_string()) };
    let (report, years) = run(&mut state, &vec![c], at(2026, 1, 1));
    assert_eq!(report.inserted, 1);
    assert!(years.is_empty());
}

#[test]
fn the_sweep_cancels_future_events_of_the_source_that_were_not_seen() {
    let mut state = State::new();
    let future = candidate("future", "Future", date(2026, 5, 1));
    let past = candidate("past", "Past", date(2025, 5, 1));
    let today = candidate("today", "Today", date(2026, 1, 10));
    let mut already = candidate("already", "Already", date(2026, 6, 1));
    already.status = "CANCELLED".to_string();
    let mut undated = candidate("undated", "Undated", date(2026, 6, 1));
    undated.time = EventTimeSpec::Tbd { note: None };
    let mut foreign = candidate("foreign", "Foreign", date(2026, 7, 1));
    foreign.source_key = "other".to_string();
    let kept = candidate("kept", "Kept", date(2028, 7, 1));
    run(
        &mut state,
        &vec![future.clone(), past.clone(), today.clone(), already.clone(), undated.clone(), foreign.clone(), kept.clone()],
        at(2026, 1, 1),
    );
    let (report, years) = run(&mut state, &vec![kept.clone()], at(2026, 1, 10));
    assert_eq!((report.inserted, report.updated, report.unchanged, report.cancelled), (0, 0, 1, 3));
    assert_eq!(years, vec![2026]);

    let f = state.get(&stable_uid(&future)).expect("future");
    assert_eq!(f.status, "cancelled");
    assert_eq!(f.sequence, 1);
    assert_eq!(f.last_modified, at(2026, 1, 10));
    assert_eq!(f.last_seen_at, at(2026, 1, 10));
    assert_eq!(f.created_at, at(2026, 1, 1));
    assert_eq!(f.title, "Future");

    assert_eq!(state.get(&stable_uid(&today)).expect("today").status, "cancelled");
    assert_eq!(state.get(&stable_uid(&undated)).expect("undated").status, "cancelled");

    let p = state.get(&stable_uid(&past)).expect("past");
    assert_eq!(p.status, "scheduled");
    assert_eq!(p.sequence, 0);
    assert_eq!(p.last_seen_at, at(2026, 1, 1));

    let a = state.get(&stable_uid(&already)).expect("already");
    assert_eq!(a.status, "CANCELLED");
    assert_eq!(a.sequence, 0);
    assert_eq!(a.last_modified, at(2026, 1, 1));

    let o = state.get(&stable_uid(&foreign)).expect("foreign");
    assert_eq!(o.status, "scheduled");
    assert_eq!(o.sequence, 0);

    let k = state.get(&stable_uid(&kept)).expect("kept");
    assert_eq!(k.status, "scheduled");
    assert_eq!(k.last_seen_at, at(2026, 1, 10));
    assert_eq!(state.len(), 7);
}

#[test]
fn a_cancelled_event_that_comes_back_is_updated() {
    let mut state = State::new();
    let c = candidate("a", "Alpha", date(2026, 5, 1));
    run(&mut state, &vec![c.clone()], at(2026, 1, 1));
    run(&mut state, &Vec::new(), at(2026, 1, 2));
    assert_eq!(state.get(&stable_uid(&c)).expect("record").status, "cancelled");
    let (report, years) = run(&mut state, &vec![c.clone()], at(2026, 1, 3));
    assert_eq!((report.inserted, report.updated, report.unchanged, report.cancelled), (0, 1, 0, 0));
    assert_eq!(years, vec![2026]);
    let record = state.get(&stable_uid(&c)).expect("record");
    assert_eq!(record.status, "scheduled");
    assert_eq!(record.sequence, 2);
    assert_eq!(record.created_at, at(2026, 1, 1));
    assert_eq!(record.revision_hash, revision_hash(&normalize(&c)));
}

#[test]
fn a_cancelled_record_carries_the_hash_of_its_cancelled_content() {
    let mut state = State::new();
    let c = candidate("a", "Alpha", date(2026, 5, 1));
    run(&mut state, &vec![c.clone()], at(2026, 1, 1));
    run(&mut state, &Vec::new(), at(2026, 1, 2));
    let mut cancelled = normalize(&c);
    cancelled.status = "cancelled".to_string();
    let record = state.get(&stable_uid(&c)).expect("record");
    assert_eq!(record.revision_hash, revision_hash(&cancelled));
}

#[test]
fn a_cancelled_event_that_comes_back_changed_is_scheduled_again() {
    let mut state = State::new();
    let c = candidate("a", "Alpha", date(2026, 5, 1));
    run(&mut state, &vec![c.clone()], at(2026, 1, 1));
    run(&mut state, &Vec::new(), at(2026, 1, 2));
    let (report, years) = run(&mut state, &vec![candidate("a", "Alpha again", date(2026, 5, 1))], at(2026, 1, 3));
    assert_eq!((report.inserted, report.updated, report.unchanged, report.cancelled), (0, 1, 0, 0));
    assert_eq!(years, vec![2026]);
    let record = state.get(&stable_uid(&c)).expect("record");
    assert_eq!(record.status, "scheduled");
    assert_eq!(record.sequence, 2);
}

#[test]
fn the_last_of_two_candidates_with_one_uid_wins() {
    let mut state = State::new();
    let first = candidate("a", "First", date(2026, 5, 1));
    let second = candidate("a", "Second", date(2027, 5, 1));
    let (report, years) = run(&mut state, &vec![first.clone(), second], at(2026, 1, 1));
    assert_eq!((report.inserted, report.updated, report.unchanged, report.cancelled), (1, 1, 0, 0));
    assert_eq!(years, vec![2026, 2027]);
    let record = state.get(&stable_uid(&first)).expect("record");
    assert_eq!(record.title, "Second");
    assert_eq!(record.sequence, 1);
    assert_eq!(state.len(), 1);
}

#[test]
fn two_runs_with_the_same_candidates_change_nothing() {
    let mut state = State::new();
    let candidates = vec![
        candidate("a", "Alpha", date(2026, 5, 1)),
        candidate("b", "Beta", date(2027, 5, 1)),
        candidate("a", "Alpha", date(2026, 5, 1)),
    ];
    run(&mut state, &vec![candidate("gone", "Gone", date(2026, 9, 9))], at(2025, 12, 31));
    run(&mut state, &candidates, at(2026, 1, 1));
    let before: Vec<_> = (0..state.len()).map(|i| state.record_at(i).clone()).collect();
    let (report, years) = run(&mut state, &candidates, at(2026, 1, 1));
    assert_eq!((report.inserted, report.updated, report.cancelled), (0, 0, 0));
    assert_eq!(report.unchanged, 3);
    assert!(years.is_empty());
    assert_eq!(state.len(), before.len());
    for (i, old) in before.iter().enumerate() {
        let new = state.record_at(i);
        assert_eq!(new.uid, old.uid);
        assert_eq!(new.sequence, old.sequence);
        assert_eq!(new.status, old.status);
        assert_eq!(new.revision_hash, old.revision_hash);
        assert_eq!(new.last_modified, old.last_modified);
        assert_eq!(new.last_seen_at, old.last_seen_at);
    }
}

#[test]
fn sequence_numbers_never_go_down() {
    let mut state = State::new();
    let runs = vec![
        vec![candidate("a", "One", date(2026, 5, 1)), candidate("b", "B", date(2026, 6, 1))],
        vec![candidate("a", "Two", date(2026, 5, 1))],
        vec![],
        vec![candidate("a", "Two", date(2026, 5, 1)), candidate("b", "B", date(2026, 6, 1))],
        vec![candidate("b", "B2", date(2026, 6, 1))],
    ];
    let mut last: Vec<(String, u32)> = Vec::new();
    for (day, candidates) in runs.iter().enumerate() {
        run(&mut state, candidates, at(2026, 1, 1 + day as u32));
        for (uid, sequence) in &last {
            assert!(state.get(uid).expect("records stay").sequence >= *sequence);
        }
        last = (0..state.len()).map(|i| (state.record_at(i).uid.clone(), state.record_at(i).sequence)).collect();
    }
    let a = state.get(&stable_uid(&candidate("a", "x", date(2026, 1, 1)))).expect("a");
    assert_eq!(a.sequence, 4);
    assert_eq!(a.status, "cancelled");
    let b = state.get(&stable_uid(&candidate("b", "x", date(2026, 1, 1)))).expect("b");
    assert_eq!(b.sequence, 3);
    assert_eq!(b.status, "scheduled");
}

#[test]
fn fields_that_are_no_part_of_a_revision_make_no_update() {
    let mut state = State::new();
    let c = candidate("a", "Alpha", date(2026, 5, 1));
    run(&mut state, &vec![c.clone()], at(2026, 1, 1));
    let mut drifted = c.clone();
    drifted.source_name = "Renamed".to_string();
    drifted.timezone = Some("UTC".to_string());
    drifted.importance = Some(3);
    drifted.confidence = Some(1234);
    drifted.jurisdiction = Some("EU".to_string());
    drifted.country = Some("DE".to_string());
    let (report, years) = run(&mut state, &vec![drifted], at(2026, 1, 2));
    assert_eq!((report.inserted, report.updated, report.unchanged, report.cancelled), (0, 0, 1, 0));
    assert!(years.is_empty());
    let record = state.get(&stable_uid(&c)).expect("record");
    assert_eq!(record.source_name, "Source");
    assert_eq!(record.importance, None);
}

#[test]
fn the_order_of_the_categories_makes_no_update() {
    let mut state = State::new();
    let c = candidate("a", "Alpha", date(2026, 5, 1));
    run(&mut state, &vec![c.clone()], at(2026, 1, 1));
    let mut shuffled = c.clone();
    shuffled.categories = vec!["alpha".to_string(), "zeta".to_string()];
    let (report, _) = run(&mut state, &vec![shuffled], at(2026, 1, 2));
    assert_eq!(report.unchanged, 1);
}

#[test]
fn the_report_keeps_what_it_held() {
    let mut state = State::new();
    let mut report = SourceRunReport::default();
    report.source_key = "src".to_string();
    report.pages_fetched = 3;
    report.records_parsed = 9;
    report.inserted = 10;
    report.cancelled = 5;
    merge_source_events(&mut state, "src", &vec![candidate("a", "A", date(2026, 5, 1))], &mut report, at(2026, 1, 1), date(2026, 1, 1));
    assert_eq!(report.inserted, 11);
    assert_eq!(report.cancelled, 5);
    assert_eq!(report.pages_fetched, 3);
    assert_eq!(report.records_parsed, 9);
    assert_eq!(report.source_key, "src");
}

#[test]
fn upsert_says_what_it_did() {
    let mut state = State::new();
    let c = candidate("a", "Alpha", date(2026, 5, 1));
    let (uid, what) = upsert_candidate(&mut state, &c, at(2026, 1, 1));
    assert_eq!(uid, stable_uid(&c));
    assert_eq!(what, Outcome::Inserted);
    assert_eq!(upsert_candidate(&mut state, &c, at(2026, 1, 2)).1, Outcome::Unchanged);
    assert_eq!(
        upsert_candidate(&mut state, &candidate("a", "Other", date(2026, 5, 1)), at(2026, 1, 3)).1,
        Outcome::Updated
    );
}

#[test]
fn the_state_is_walked_in_ascending_order_of_the_uids() {
    let mut state = State::new();
    let candidates: Vec<CandidateEvent> =
        (0..20).map(|i| candidate(&format!("id-{i}"), "T", date(2026, 5, 1))).collect();
    run(&mut state, &candidates, at(2026, 1, 1));
    assert_eq!(state.len(), 20);
    for i in 1..state.len() {
        assert!(state.record_at(i - 1).uid < state.record_at(i).uid);
    }
    assert_eq!(state.position(&state.record_at(7).uid.clone()), Ok(7));
    assert!(state.get("nothing@rics.local").is_none());
}
