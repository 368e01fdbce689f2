//! The merge engine: how the candidates of one run of one source are
//! reconciled with the state.

use vstd::prelude::*;
use crate::identity::{revision_hash, revision_hash_of, stable_uid, stable_uid_of};
use crate::keyed::{sort_dedup, sorted_set, StrMap};
use crate::laws::{cancels_well, keeps_records, lemma_merge_is_lawful, lemma_state_is_well_keyed};
use crate::model::{CandidateEvent, CandidateView, EventRecord, RecordView, SourceRunReport};
use crate::state::State;
use crate::text::{eq_ignore_ascii_case, eq_ignoring_ascii_case, views};
use crate::time::{CalendarDate, UtcInstant};
use crate::years::{with_year, YearSet};

verus! {

/// What the merge does with one candidate.
#[derive(Clone, Copy, Debug, PartialEq, Eq, Structural)]
pub enum Outcome {
    Inserted,
    Updated,
    Unchanged,
}

/// The candidate as it is hashed and stored: with its categories in
/// ascending order, each one once.
pub open spec fn normalized(c: CandidateView) -> CandidateView {
    CandidateView { categories: sorted_set(c.categories), ..c }
}

/// The sequence number after a revision: one more, but never past the
/// largest number.
pub open spec fn next_sequence(sequence: u32) -> u32 {
    if sequence == u32::MAX {
        sequence
    } else {
        (sequence + 1) as u32
    }
}

/// The record made of a normalized candidate at the instant `now`.
pub open spec fn record_of(
    c: CandidateView,
    sequence: u32,
    created_at: UtcInstant,
    now: UtcInstant,
) -> RecordView {
    RecordView {
        uid: stable_uid_of(c),
        content: c,
        sequence,
        revision_hash: revision_hash_of(c),
        created_at,
        last_modified: now,
        last_seen_at: now,
    }
}

/// How a candidate stands to the records: new, changed or the same.
pub open spec fn outcome(events: Map<Seq<char>, RecordView>, c: CandidateView) -> Outcome {
    let n = normalized(c);
    let uid = stable_uid_of(n);
    if !events.contains_key(uid) {
        Outcome::Inserted
    } else if events[uid].revision_hash != revision_hash_of(n) {
        Outcome::Updated
    } else {
        Outcome::Unchanged
    }
}

/// The records after one candidate has been applied.
///
/// A new candidate is stored with sequence 0 and all three time stamps at
/// `now`. A changed one takes the place of its record, keeps the time of
/// creation and gets the next sequence number. One that is the same only
/// has `last_seen_at` moved to `now`.
pub open spec fn upsert(
    events: Map<Seq<char>, RecordView>,
    c: CandidateView,
    now: UtcInstant,
) -> Map<Seq<char>, RecordView> {
    let n = normalized(c);
    let uid = stable_uid_of(n);
    match outcome(events, c) {
        Outcome::Inserted => events.insert(uid, record_of(n, 0, now, now)),
        Outcome::Updated => events.insert(
            uid,
            record_of(n, next_sequence(events[uid].sequence), events[uid].created_at, now),
        ),
        Outcome::Unchanged => events.insert(uid, RecordView { last_seen_at: now, ..events[uid] }),
    }
}

/// The records after the candidates have been applied in their order.
pub open spec fn upsert_all(
    events: Map<Seq<char>, RecordView>,
    candidates: Seq<CandidateView>,
    now: UtcInstant,
) -> Map<Seq<char>, RecordView>
    decreases candidates.len(),
{
    if candidates.len() == 0 {
        events
    } else {
        upsert(upsert_all(events, candidates.drop_last(), now), candidates.last(), now)
    }
}

/// How many of the candidates have the outcome `which` when they are
/// applied in their order.
pub open spec fn count_outcomes(
    events: Map<Seq<char>, RecordView>,
    candidates: Seq<CandidateView>,
    now: UtcInstant,
    which: Outcome,
) -> nat
    decreases candidates.len(),
{
    if candidates.len() == 0 {
        0
    } else {
        let before = upsert_all(events, candidates.drop_last(), now);
        count_outcomes(events, candidates.drop_last(), now, which) + (if outcome(
            before,
            candidates.last(),
        ) == which {
            1nat
        } else {
            0nat
        })
    }
}

/// The years of the candidates that were inserted or updated.
pub open spec fn upsert_years(
    events: Map<Seq<char>, RecordView>,
    candidates: Seq<CandidateView>,
    now: UtcInstant,
) -> Set<i32>
    decreases candidates.len(),
{
    if candidates.len() == 0 {
        Set::<i32>::empty()
    } else {
        let before = upsert_all(events, candidates.drop_last(), now);
        let years = upsert_years(events, candidates.drop_last(), now);
        if outcome(before, candidates.last()) == Outcome::Unchanged {
            years
        } else {
            with_year(years, candidates.last().time.year_bucket())
        }
    }
}

/// The identifiers of the candidates.
pub open spec fn seen_uids(candidates: Seq<CandidateView>) -> Set<Seq<char>> {
    Set::new(
        |uid: Seq<char>|
            exists|i: int|
                0 <= i < candidates.len() && stable_uid_of(normalized(#[trigger] candidates[i]))
                    == uid,
    )
}

pub open spec fn is_cancelled(status: Seq<char>) -> bool {
    eq_ignoring_ascii_case(status, "cancelled"@)
}

/// Whether the sweep cancels the record: it belongs to the source, no
/// candidate of this run has its identifier, it lies in the future on
/// `today`, and it is not cancelled yet.
pub open spec fn sweep_cancels(
    r: RecordView,
    source_key: Seq<char>,
    seen: Set<Seq<char>>,
    today: CalendarDate,
) -> bool {
    &&& r.content.source_key == source_key
    &&& !seen.contains(r.uid)
    &&& r.is_future_relative_to(today)
    &&& !is_cancelled(r.content.status)
}

/// The content of a record after the sweep has cancelled it.
pub open spec fn cancelled_content(c: CandidateView) -> CandidateView {
    CandidateView { status: "cancelled"@, ..c }
}

/// The record after the sweep has cancelled it: its status is `cancelled`,
/// its revision hash is that of its content with the new status, it has the
/// next sequence number, and it was modified and seen at `now`.
pub open spec fn cancelled_record(r: RecordView, now: UtcInstant) -> RecordView {
    RecordView {
        content: cancelled_content(r.content),
        revision_hash: revision_hash_of(cancelled_content(r.content)),
        sequence: next_sequence(r.sequence),
        last_modified: now,
        last_seen_at: now,
        ..r
    }
}

/// The records after the cancellation sweep.
pub open spec fn sweep(
    events: Map<Seq<char>, RecordView>,
    source_key: Seq<char>,
    seen: Set<Seq<char>>,
    now: UtcInstant,
    today: CalendarDate,
) -> Map<Seq<char>, RecordView> {
    Map::new(
        |uid: Seq<char>| events.contains_key(uid),
        |uid: Seq<char>|
            if sweep_cancels(events[uid], source_key, seen, today) {
                cancelled_record(events[uid], now)
            } else {
                events[uid]
            },
    )
}

/// The identifiers of the records that the sweep cancels.
pub open spec fn swept_uids(
    events: Map<Seq<char>, RecordView>,
    source_key: Seq<char>,
    seen: Set<Seq<char>>,
    today: CalendarDate,
) -> Set<Seq<char>> {
    Set::new(
        |uid: Seq<char>|
            events.contains_key(uid) && sweep_cancels(events[uid], source_key, seen, today),
    )
}

/// The years of the records that the sweep cancels.
pub open spec fn swept_years(
    events: Map<Seq<char>, RecordView>,
    source_key: Seq<char>,
    seen: Set<Seq<char>>,
    today: CalendarDate,
) -> Set<i32> {
    Set::new(
        |year: i32|
            exists|uid: Seq<char>|
                events.contains_key(uid) && sweep_cancels(
                    #[trigger] events[uid],
                    source_key,
                    seen,
                    today,
                ) && events[uid].year_bucket() == Some(year),
    )
}

/// The records after one run of one source: the candidates applied in their
/// order, then the cancellation sweep.
pub open spec fn merged(
    events: Map<Seq<char>, RecordView>,
    source_key: Seq<char>,
    candidates: Seq<CandidateView>,
    now: UtcInstant,
    today: CalendarDate,
) -> Map<Seq<char>, RecordView> {
    sweep(upsert_all(events, candidates, now), source_key, seen_uids(candidates), now, today)
}

/// The years that one run of one source touches: those of the candidates
/// inserted or updated and those of the records cancelled.
pub open spec fn changed_years(
    events: Map<Seq<char>, RecordView>,
    source_key: Seq<char>,
    candidates: Seq<CandidateView>,
    now: UtcInstant,
    today: CalendarDate,
) -> Set<i32> {
    upsert_years(events, candidates, now).union(
        swept_years(upsert_all(events, candidates, now), source_key, seen_uids(candidates), today),
    )
}

/// The views of a list of candidates.
pub open spec fn candidate_views(candidates: Seq<CandidateEvent>) -> Seq<CandidateView> {
    candidates.map_values(|c: CandidateEvent| c@)
}

// ---------------------------------------------------------------------------
// Running it
// ---------------------------------------------------------------------------

/// The record that holds the fields of `candidate`.
pub fn candidate_to_record(
    candidate: CandidateEvent,
    uid: String,
    revision_hash: String,
    sequence: u32,
    created_at: UtcInstant,
    now: UtcInstant,
) -> (record: EventRecord)
    requires
        candidate.wf(),
    ensures
        record.wf(),
        record@ == (RecordView {
            uid: uid@,
            content: candidate@,
            sequence,
            revision_hash: revision_hash@,
            created_at,
            last_modified: now,
            last_seen_at: now,
        }),
{
    EventRecord {
        uid,
        source_key: candidate.source_key,
        source_name: candidate.source_name,
        source_event_id: candidate.source_event_id,
        source_url: candidate.source_url,
        title: candidate.title,
        description: candidate.description,
        time: candidate.time,
        timezone: candidate.timezone,
        status: candidate.status,
        event_type: candidate.event_type,
        subtype: candidate.subtype,
        categories: candidate.categories,
        jurisdiction: candidate.jurisdiction,
        country: candidate.country,
        importance: candidate.importance,
        confidence: candidate.confidence,
        metadata: candidate.metadata,
        sequence,
        revision_hash,
        created_at,
        last_modified: now,
        last_seen_at: now,
    }
}

/// The content of a record, as a candidate.
pub fn content_of(record: &EventRecord) -> (c: CandidateEvent)
    requires
        record.wf(),
    ensures
        c.wf(),
        c@ == record@.content,
{
    CandidateEvent {
        source_key: record.source_key.clone(),
        source_name: record.source_name.clone(),
        source_event_id: crate::text::clone_opt(&record.source_event_id),
        source_url: crate::text::clone_opt(&record.source_url),
        title: record.title.clone(),
        description: crate::text::clone_opt(&record.description),
        time: record.time.copy(),
        timezone: crate::text::clone_opt(&record.timezone),
        status: record.status.clone(),
        event_type: record.event_type.clone(),
        subtype: crate::text::clone_opt(&record.subtype),
        categories: crate::text::clone_strings(&record.categories),
        jurisdiction: crate::text::clone_opt(&record.jurisdiction),
        country: crate::text::clone_opt(&record.country),
        importance: record.importance,
        confidence: record.confidence,
        metadata: crate::model::copy_map(&record.metadata),
    }
}

/// A copy of `candidate` with its categories in ascending order, each one
/// once.
pub fn normalize(candidate: &CandidateEvent) -> (out: CandidateEvent)
    requires
        candidate.wf(),
    ensures
        out.wf(),
        out@ == normalized(candidate@),
{
    let mut out = candidate.copy();
    out.categories = sort_dedup(&candidate.categories);
    out
}

/// Applies one candidate to the state and says what it did.
pub fn upsert_candidate(state: &mut State, candidate: &CandidateEvent, now: UtcInstant) -> (r: (
    String,
    Outcome,
))
    requires
        old(state).wf(),
        candidate.wf(),
    ensures
        final(state).wf(),
        final(state).schema_version == old(state).schema_version,
        final(state)@ == upsert(old(state)@, candidate@, now),
        final(state).uids().len() <= old(state).uids().len() + 1,
        r.0@ == stable_uid_of(normalized(candidate@)),
        r.1 == outcome(old(state)@, candidate@),
{
    let c = normalize(candidate);
    let uid = stable_uid(&c);
    let hash = revision_hash(&c);
    let seen = uid.clone();
    match state.position(uid.as_str()) {
        Ok(i) => {
            let existing = state.record_at(i);
            if *existing.revision_hash.as_str() != *hash.as_str() {
                let sequence = existing.sequence.saturating_add(1);
                let created_at = existing.created_at;
                let record = candidate_to_record(c, uid, hash, sequence, created_at, now);
                state.replace_at(i, record);
                (seen, Outcome::Updated)
            } else {
                let mut record = existing.copy();
                record.last_seen_at = now;
                state.replace_at(i, record);
                (seen, Outcome::Unchanged)
            }
        },
        Err(_) => {
            let record = candidate_to_record(c, uid, hash, 0, now, now);
            state.insert(record);
            (seen, Outcome::Inserted)
        },
    }
}

/// Whether the status says that the event is cancelled, in any case of the
/// letters.
pub fn status_is_cancelled(status: &str) -> (r: bool)
    ensures
        r == is_cancelled(status@),
{
    eq_ignore_ascii_case(status, "cancelled")
}

/// The identifiers seen grow by the identifier of the candidate applied.
proof fn lemma_seen_push(
    front: Seq<CandidateView>,
    c: CandidateView,
    keys_before: Seq<Seq<char>>,
    keys_after: Seq<Seq<char>>,
)
    requires
        keys_before.to_set() == seen_uids(front),
        keys_after.to_set() == keys_before.to_set().insert(stable_uid_of(normalized(c))),
    ensures
        keys_after.to_set() == seen_uids(front.push(c)),
{
    let all = front.push(c);
    assert forall|u: Seq<char>| seen_uids(all).contains(u) <==> (seen_uids(front).contains(u) || u
        == stable_uid_of(normalized(c))) by {
        if seen_uids(all).contains(u) {
            let k = choose|k: int|
                0 <= k < all.len() && stable_uid_of(normalized(#[trigger] all[k])) == u;
            if k < front.len() {
                assert(front[k] == all[k]);
            }
        }
        if seen_uids(front).contains(u) {
            let k = choose|k: int|
                0 <= k < front.len() && stable_uid_of(normalized(#[trigger] front[k])) == u;
            assert(all[k] == front[k]);
        }
        if u == stable_uid_of(normalized(c)) {
            assert(all[front.len() as int] == c);
        }
    }
    assert(keys_after.to_set() =~= seen_uids(all));
}

/// What holds after the candidates `front` have been applied: the state,
/// the identifiers seen, the years touched and the counts of the report.
#[verifier::opaque]
pub closed spec fn applied(
    state: State,
    report: SourceRunReport,
    first: SourceRunReport,
    seen: StrMap<()>,
    changed: YearSet,
    start: Map<Seq<char>, RecordView>,
    front: Seq<CandidateView>,
    now: UtcInstant,
) -> bool {
    &&& state.wf()
    &&& seen.wf()
    &&& changed.wf()
    &&& state@ == upsert_all(start, front, now)
    &&& seen.keys().to_set() == seen_uids(front)
    &&& changed@ == upsert_years(start, front, now)
    &&& report.inserted == first.inserted + count_outcomes(start, front, now, Outcome::Inserted)
    &&& report.updated == first.updated + count_outcomes(start, front, now, Outcome::Updated)
    &&& report.unchanged == first.unchanged + count_outcomes(
        start,
        front,
        now,
        Outcome::Unchanged,
    )
    &&& count_outcomes(start, front, now, Outcome::Inserted) <= front.len()
    &&& count_outcomes(start, front, now, Outcome::Updated) <= front.len()
    &&& count_outcomes(start, front, now, Outcome::Unchanged) <= front.len()
    &&& report.cancelled == first.cancelled
    &&& report.source_key == first.source_key
    &&& report.pages_fetched == first.pages_fetched
    &&& report.records_parsed == first.records_parsed
}

/// Applies one candidate and keeps the account of the run.
fn apply_candidate(
    state: &mut State,
    candidate: &CandidateEvent,
    report: &mut SourceRunReport,
    seen: &mut StrMap<()>,
    changed: &mut YearSet,
    now: UtcInstant,
    Ghost(first): Ghost<SourceRunReport>,
    Ghost(start): Ghost<Map<Seq<char>, RecordView>>,
    Ghost(front): Ghost<Seq<CandidateView>>,
    Ghost(total): Ghost<nat>,
)
    requires
        candidate.wf(),
        applied(*old(state), *old(report), first, *old(seen), *old(changed), start, front, now),
        front.len() < total,
        first.inserted + total <= usize::MAX,
        first.updated + total <= usize::MAX,
        first.unchanged + total <= usize::MAX,
    ensures
        applied(
            *final(state),
            *final(report),
            first,
            *final(seen),
            *final(changed),
            start,
            front.push(candidate@),
            now,
        ),
        final(state).schema_version == old(state).schema_version,
        final(state).uids().len() <= old(state).uids().len() + 1,
{
    reveal(applied);
    let ghost keys_before = seen.keys();
    let year = candidate.time.year_bucket();
    let (uid, what) = upsert_candidate(state, candidate, now);
    seen.insert(uid, ());
    match what {
        Outcome::Inserted => {
            report.inserted += 1;
            changed.insert_opt(year);
        },
        Outcome::Updated => {
            report.updated += 1;
            changed.insert_opt(year);
        },
        Outcome::Unchanged => {
            report.unchanged += 1;
        },
    }
    proof {
        let all = front.push(candidate@);
        assert(all.drop_last() =~= front);
        assert(all.last() == candidate@);
        lemma_seen_push(front, candidate@, keys_before, seen.keys());
    }
}

/// The sweep cancels the record at index `k`, whose identifier is `uid`.
pub open spec fn cancels_at(
    uids: Seq<Seq<char>>,
    before: Seq<RecordView>,
    source_key: Seq<char>,
    seen: Set<Seq<char>>,
    today: CalendarDate,
    k: int,
    uid: Seq<char>,
) -> bool {
    uids[k] == uid && sweep_cancels(before[k], source_key, seen, today)
}

/// The sweep cancels the record at index `k`, which is filed under `year`.
pub open spec fn cancels_year_at(
    before: Seq<RecordView>,
    source_key: Seq<char>,
    seen: Set<Seq<char>>,
    today: CalendarDate,
    k: int,
    year: i32,
) -> bool {
    sweep_cancels(before[k], source_key, seen, today) && before[k].year_bucket() == Some(year)
}

/// What holds when the sweep has looked at the first `upto` records: those
/// records are cancelled where the sweep cancels them, the others are as
/// they were, and `done` holds the identifiers of the cancelled ones.
#[verifier::opaque]
pub closed spec fn swept_upto(
    state: State,
    report: SourceRunReport,
    first: SourceRunReport,
    changed: YearSet,
    base_years: Set<i32>,
    uids: Seq<Seq<char>>,
    before: Seq<RecordView>,
    source_key: Seq<char>,
    seen: Set<Seq<char>>,
    now: UtcInstant,
    today: CalendarDate,
    upto: int,
    done: Set<Seq<char>>,
) -> bool {
    &&& 0 <= upto <= uids.len()
    &&& uids.len() == before.len()
    &&& state.wf()
    &&& changed.wf()
    &&& state.uids() == uids
    &&& state.records().len() == uids.len()
    &&& crate::keyed::strictly_ascending(uids)
    &&& forall|k: int| 0 <= k < uids.len() ==> (#[trigger] before[k]).uid == uids[k]
    &&& forall|k: int|
        0 <= k < upto ==> #[trigger] state.records()[k] == (if sweep_cancels(
            before[k],
            source_key,
            seen,
            today,
        ) {
            cancelled_record(before[k], now)
        } else {
            before[k]
        })
    &&& forall|k: int| upto <= k < uids.len() ==> #[trigger] state.records()[k] == before[k]
    &&& done.finite()
    &&& done.len() <= upto
    &&& report.cancelled == first.cancelled + done.len()
    &&& forall|u: Seq<char>| #[trigger]
        done.contains(u) <==> (exists|k: int|
            0 <= k < upto && #[trigger] cancels_at(uids, before, source_key, seen, today, k, u))
    &&& forall|y: i32| #[trigger]
        changed@.contains(y) <==> (base_years.contains(y) || (exists|k: int|
            0 <= k < upto && #[trigger] cancels_year_at(before, source_key, seen, today, k, y)))
    &&& report.inserted == first.inserted
    &&& report.updated == first.updated
    &&& report.unchanged == first.unchanged
    &&& report.source_key == first.source_key
    &&& report.pages_fetched == first.pages_fetched
    &&& report.records_parsed == first.records_parsed
}

/// Looks at the record at index `j` and cancels it where the sweep says so.
fn sweep_record(
    state: &mut State,
    j: usize,
    source_key: &str,
    seen: &StrMap<()>,
    report: &mut SourceRunReport,
    changed: &mut YearSet,
    now: UtcInstant,
    today: CalendarDate,
    Ghost(first): Ghost<SourceRunReport>,
    Ghost(base_years): Ghost<Set<i32>>,
    Ghost(uids): Ghost<Seq<Seq<char>>>,
    Ghost(before): Ghost<Seq<RecordView>>,
    Ghost(done): Ghost<Set<Seq<char>>>,
) -> (next: Ghost<Set<Seq<char>>>)
    requires
        seen.wf(),
        j < uids.len(),
        first.cancelled + uids.len() <= usize::MAX,
        swept_upto(
            *old(state),
            *old(report),
            first,
            *old(changed),
            base_years,
            uids,
            before,
            source_key@,
            seen.keys().to_set(),
            now,
            today,
            j as int,
            done,
        ),
    ensures
        swept_upto(
            *final(state),
            *final(report),
            first,
            *final(changed),
            base_years,
            uids,
            before,
            source_key@,
            seen.keys().to_set(),
            now,
            today,
            j + 1,
            next@,
        ),
        final(state).schema_version == old(state).schema_version,
{
    reveal(swept_upto);
    let ghost seen_set = seen.keys().to_set();
    let ghost key = source_key@;
    proof {
        state.lemma_wf();
    }
    let record = state.record_at(j);
    let ghost r = before[j as int];
    assert(record@ == r);
    let was_seen = seen.contains_key(record.uid.as_str());
    assert(was_seen == seen_set.contains(r.uid)) by {
        assert(seen.keys().to_set().contains(r.uid) == seen.keys().contains(r.uid));
    }
    let ghost years_before = changed@;
    let cancel = *record.source_key.as_str() == *source_key && !was_seen
        && record.is_future_relative_to(today) && !status_is_cancelled(record.status.as_str());
    assert(cancel == sweep_cancels(r, key, seen_set, today));
    let ghost mut grown = done;
    let ghost mut year_added: Option<i32> = None;
    if cancel {
        let mut next = record.copy();
        next.status = "cancelled".to_string();
        next.revision_hash = revision_hash(&content_of(&next));
        next.sequence = next.sequence.saturating_add(1);
        next.last_modified = now;
        next.last_seen_at = now;
        let year = next.year_bucket();
        assert(next@ == cancelled_record(r, now));
        assert(year == r.year_bucket());
        state.replace_at(j, next);
        report.cancelled += 1;
        changed.insert_opt(year);
        proof {
            let u = uids[j as int];
            assert(!done.contains(u)) by {
                if done.contains(u) {
                    let k = choose|k: int|
                        0 <= k < j && #[trigger] cancels_at(uids, before, key, seen_set, today, k, u);
                    crate::keyed::lemma_ascending_unique(uids, k, j as int);
                }
            }
            grown = done.insert(u);
            year_added = year;
        }
    }
    proof {
        assert(changed@ == with_year(years_before, year_added));
        assert(cancel ==> year_added == r.year_bucket());
        assert(!cancel ==> year_added is None && grown == done);
        assert(cancel ==> grown == done.insert(uids[j as int]));
        assert forall|v: Seq<char>|
            grown.contains(v) <==> (exists|k: int|
                0 <= k < j + 1 && #[trigger] cancels_at(uids, before, key, seen_set, today, k, v)) by {
            if grown.contains(v) {
                if done.contains(v) {
                    let k = choose|k: int|
                        0 <= k < j && #[trigger] cancels_at(uids, before, key, seen_set, today, k, v);
                    assert(0 <= k < j + 1 && cancels_at(uids, before, key, seen_set, today, k, v));
                } else {
                    assert(cancels_at(uids, before, key, seen_set, today, j as int, v));
                }
            }
            if exists|k: int|
                0 <= k < j + 1 && #[trigger] cancels_at(uids, before, key, seen_set, today, k, v) {
                let k = choose|k: int|
                    0 <= k < j + 1 && #[trigger] cancels_at(uids, before, key, seen_set, today, k, v);
                if k < j {
                    assert(done.contains(v));
                }
            }
        }
        assert forall|y: i32|
            changed@.contains(y) <==> (base_years.contains(y) || (exists|k: int|
                0 <= k < j + 1 && #[trigger] cancels_year_at(before, key, seen_set, today, k, y))) by {
            if changed@.contains(y) && !base_years.contains(y) {
                if years_before.contains(y) {
                    let k = choose|k: int|
                        0 <= k < j && #[trigger] cancels_year_at(before, key, seen_set, today, k, y);
                    assert(0 <= k < j + 1 && cancels_year_at(before, key, seen_set, today, k, y));
                } else {
                    assert(cancels_year_at(before, key, seen_set, today, j as int, y));
                }
            }
            if exists|k: int|
                0 <= k < j + 1 && #[trigger] cancels_year_at(before, key, seen_set, today, k, y) {
                let k = choose|k: int|
                    0 <= k < j + 1 && #[trigger] cancels_year_at(before, key, seen_set, today, k, y);
                if k < j {
                    assert(years_before.contains(y));
                }
            }
        }
    }
    Ghost(grown)
}

/// What the finished sweep amounts to, over the map of the records.
proof fn lemma_swept_all(
    state: State,
    report: SourceRunReport,
    first: SourceRunReport,
    changed: YearSet,
    base_years: Set<i32>,
    uids: Seq<Seq<char>>,
    before: Seq<RecordView>,
    source_key: Seq<char>,
    seen: Set<Seq<char>>,
    now: UtcInstant,
    today: CalendarDate,
    done: Set<Seq<char>>,
)
    requires
        swept_upto(
            state,
            report,
            first,
            changed,
            base_years,
            uids,
            before,
            source_key,
            seen,
            now,
            today,
            uids.len() as int,
            done,
        ),
    ensures
        state.wf(),
        changed.wf(),
        state@ == sweep(crate::keyed::map_of(uids, before), source_key, seen, now, today),
        done == swept_uids(crate::keyed::map_of(uids, before), source_key, seen, today),
        done.finite(),
        report.cancelled == first.cancelled + done.len(),
        changed@ == base_years.union(
            swept_years(crate::keyed::map_of(uids, before), source_key, seen, today),
        ),
        report.inserted == first.inserted,
        report.updated == first.updated,
        report.unchanged == first.unchanged,
        report.source_key == first.source_key,
        report.pages_fetched == first.pages_fetched,
        report.records_parsed == first.records_parsed,
{
    reveal(swept_upto);
    let n = uids.len() as int;
    let mid = crate::keyed::map_of(uids, before);
    state.lemma_wf();
    let swept = swept_uids(mid, source_key, seen, today);
    assert forall|u: Seq<char>| done.contains(u) <==> swept.contains(u) by {
        if done.contains(u) {
            let k = choose|k: int|
                0 <= k < n && #[trigger] cancels_at(uids, before, source_key, seen, today, k, u);
            crate::keyed::lemma_map_of_at(uids, before, k);
        }
        if swept.contains(u) {
            assert(uids.contains(u));
            let k = choose|k: int| 0 <= k < uids.len() && uids[k] == u;
            crate::keyed::lemma_map_of_at(uids, before, k);
            assert(cancels_at(uids, before, source_key, seen, today, k, u));
        }
    }
    assert(done =~= swept);
    let target = sweep(mid, source_key, seen, now, today);
    assert forall|u: Seq<char>| state@.contains_key(u) <==> target.contains_key(u) by {
        assert(state@.contains_key(u) <==> uids.contains(u));
        assert(mid.contains_key(u) <==> uids.contains(u));
    }
    assert forall|u: Seq<char>| state@.contains_key(u) implies state@[u] == target[u] by {
        let k = choose|k: int| 0 <= k < uids.len() && uids[k] == u;
        crate::keyed::lemma_map_of_at(uids, before, k);
        crate::keyed::lemma_map_of_at(uids, state.records(), k);
    }
    assert(state@ =~= target);
    let years = swept_years(mid, source_key, seen, today);
    assert forall|y: i32| changed@.contains(y) <==> base_years.union(years).contains(y) by {
        if years.contains(y) {
            let u = choose|u: Seq<char>|
                mid.contains_key(u) && sweep_cancels(#[trigger] mid[u], source_key, seen, today)
                    && mid[u].year_bucket() == Some(y);
            assert(uids.contains(u));
            let k = choose|k: int| 0 <= k < uids.len() && uids[k] == u;
            crate::keyed::lemma_map_of_at(uids, before, k);
            assert(cancels_year_at(before, source_key, seen, today, k, y));
        }
        if changed@.contains(y) && !base_years.contains(y) {
            let k = choose|k: int|
                0 <= k < n && #[trigger] cancels_year_at(before, source_key, seen, today, k, y);
            crate::keyed::lemma_map_of_at(uids, before, k);
            assert(mid.contains_key(uids[k]) && mid[uids[k]] == before[k]);
            assert(years.contains(y));
        }
    }
    assert(changed@ =~= base_years.union(years));
}

/// Cancels every record of the source that no candidate named, that lies in
/// the future on `today` and is not cancelled yet.
fn sweep_state(
    state: &mut State,
    source_key: &str,
    seen: &StrMap<()>,
    report: &mut SourceRunReport,
    changed: &mut YearSet,
    now: UtcInstant,
    today: CalendarDate,
)
    requires
        old(state).wf(),
        seen.wf(),
        old(changed).wf(),
        old(report).cancelled + old(state).uids().len() <= usize::MAX,
    ensures
        final(state).wf(),
        final(changed).wf(),
        final(state).schema_version == old(state).schema_version,
        final(state)@ == sweep(old(state)@, source_key@, seen.keys().to_set(), now, today),
        swept_uids(old(state)@, source_key@, seen.keys().to_set(), today).finite(),
        final(report).cancelled == old(report).cancelled + swept_uids(
            old(state)@,
            source_key@,
            seen.keys().to_set(),
            today,
        ).len(),
        final(changed)@ == old(changed)@.union(
            swept_years(old(state)@, source_key@, seen.keys().to_set(), today),
        ),
        final(report).inserted == old(report).inserted,
        final(report).updated == old(report).updated,
        final(report).unchanged == old(report).unchanged,
        final(report).source_key == old(report).source_key,
        final(report).pages_fetched == old(report).pages_fetched,
        final(report).records_parsed == old(report).records_parsed,
{
    let ghost first = *report;
    let ghost base_years = changed@;
    let ghost uids = state.uids();
    let ghost before = state.records();
    let ghost seen_set = seen.keys().to_set();
    let n = state.len();
    let mut done: Ghost<Set<Seq<char>>> = Ghost(Set::empty());
    proof {
        state.lemma_wf();
        reveal(swept_upto);
    }
    let mut j: usize = 0;
    while j < n
        invariant
            j <= n,
            n == uids.len(),
            seen.wf(),
            seen_set == seen.keys().to_set(),
            first.cancelled + uids.len() <= usize::MAX,
            state.schema_version == old(state).schema_version,
            swept_upto(
                *state,
                *report,
                first,
                *changed,
                base_years,
                uids,
                before,
                source_key@,
                seen_set,
                now,
                today,
                j as int,
                done@,
            ),
        decreases n - j,
    {
        done =
        sweep_record(
            state,
            j,
            source_key,
            seen,
            report,
            changed,
            now,
            today,
            Ghost(first),
            Ghost(base_years),
            Ghost(uids),
            Ghost(before),
            done,
        );
        j += 1;
    }
    proof {
        lemma_swept_all(
            *state,
            *report,
            first,
            *changed,
            base_years,
            uids,
            before,
            source_key@,
            seen_set,
            now,
            today,
            done@,
        );
    }
}

/// Reconciles the candidates of one run of one source with the state.
///
/// Every candidate is applied in the order given: inserted, put in place of
/// its changed record, or only marked as seen. Then every record of the
/// source that no candidate named, that lies in the future on `today` and is
/// not cancelled yet, is cancelled. The report counts each outcome; the
/// result holds the years of the records that were inserted, updated or
/// cancelled.
///
/// Whatever the candidates are, no record leaves the state, no sequence
/// number goes down and no time of creation changes; and a record is
/// cancelled only where it belonged to the source, lay in the future on
/// `today`, was named by no candidate and was not cancelled before.
pub fn merge_source_events(
    state: &mut State,
    source_key: &str,
    candidates: &Vec<CandidateEvent>,
    report: &mut SourceRunReport,
    now: UtcInstant,
    today: CalendarDate,
) -> (changed: YearSet)
    requires
        old(state).wf(),
        forall|i: int| 0 <= i < candidates.len() ==> (#[trigger] candidates@[i]).wf(),
        old(report).inserted + candidates.len() <= usize::MAX,
        old(report).updated + candidates.len() <= usize::MAX,
        old(report).unchanged + candidates.len() <= usize::MAX,
        old(report).cancelled + old(state).uids().len() + candidates.len() <= usize::MAX,
    ensures
        final(state).wf(),
        final(state).schema_version == old(state).schema_version,
        final(state)@ == merged(old(state)@, source_key@, candidate_views(candidates@), now, today),
        changed.wf(),
        changed@ == changed_years(
            old(state)@,
            source_key@,
            candidate_views(candidates@),
            now,
            today,
        ),
        final(report).inserted == old(report).inserted + count_outcomes(
            old(state)@,
            candidate_views(candidates@),
            now,
            Outcome::Inserted,
        ),
        final(report).updated == old(report).updated + count_outcomes(
            old(state)@,
            candidate_views(candidates@),
            now,
            Outcome::Updated,
        ),
        final(report).unchanged == old(report).unchanged + count_outcomes(
            old(state)@,
            candidate_views(candidates@),
            now,
            Outcome::Unchanged,
        ),
        swept_uids(
            upsert_all(old(state)@, candidate_views(candidates@), now),
            source_key@,
            seen_uids(candidate_views(candidates@)),
            today,
        ).finite(),
        final(report).cancelled == old(report).cancelled + swept_uids(
            upsert_all(old(state)@, candidate_views(candidates@), now),
            source_key@,
            seen_uids(candidate_views(candidates@)),
            today,
        ).len(),
        final(report).source_key == old(report).source_key,
        final(report).pages_fetched == old(report).pages_fetched,
        final(report).records_parsed == old(report).records_parsed,
        keeps_records(old(state)@, final(state)@),
        cancels_well(
            upsert_all(old(state)@, candidate_views(candidates@), now),
            final(state)@,
            source_key@,
            seen_uids(candidate_views(candidates@)),
            now,
            today,
        ),
{
    let ghost start = state@;
    let ghost first = *report;
    proof {
        lemma_state_is_well_keyed(*state);
        lemma_merge_is_lawful(start, source_key@, candidate_views(candidates@), now, today);
    }
    let ghost cands = candidate_views(candidates@);
    let mut seen: StrMap<()> = StrMap::new();
    let mut changed = YearSet::new();
    let mut i: usize = 0;
    proof {
        reveal(applied);
        assert(cands.take(0) =~= Seq::<CandidateView>::empty());
        assert(seen_uids(cands.take(0)) =~= Set::<Seq<char>>::empty());
        assert(seen.keys().to_set() =~= Set::<Seq<char>>::empty());
    }
    while i < candidates.len()
        invariant
            i <= candidates.len(),
            cands == candidate_views(candidates@),
            forall|k: int| 0 <= k < candidates.len() ==> (#[trigger] candidates@[k]).wf(),
            state.schema_version == old(state).schema_version,
            state.uids().len() <= old(state).uids().len() + i,
            applied(*state, *report, first, seen, changed, start, cands.take(i as int), now),
            first.inserted + candidates.len() <= usize::MAX,
            first.updated + candidates.len() <= usize::MAX,
            first.unchanged + candidates.len() <= usize::MAX,
        decreases candidates.len() - i,
    {
        apply_candidate(
            state,
            &candidates[i],
            report,
            &mut seen,
            &mut changed,
            now,
            Ghost(first),
            Ghost(start),
            Ghost(cands.take(i as int)),
            Ghost(candidates@.len()),
        );
        i += 1;
        assert(cands.take(i as int) =~= cands.take(i - 1).push(candidates@[i - 1]@));
    }
    proof {
        assert(cands.take(i as int) =~= cands);
        reveal(applied);
    }
    sweep_state(state, source_key, &seen, report, &mut changed, now, today);
    changed
}

} // verus!
