//! What holds of the merge whatever the state and the candidates are.

use vstd::prelude::*;
use crate::identity::{revision_hash_of, same_material, stable_uid_of};
use crate::merge::{
    cancelled_record, changed_years, count_outcomes, is_cancelled, merged, next_sequence,
    normalized, outcome, seen_uids, sweep, sweep_cancels, swept_uids, swept_years, upsert,
    upsert_all, upsert_years, Outcome,
};
use crate::model::{CandidateView, RecordView};
use crate::state::State;
use crate::time::{CalendarDate, UtcInstant};

verus! {

/// Every record is filed under its own identifier.
pub open spec fn well_keyed(events: Map<Seq<char>, RecordView>) -> bool {
    forall|uid: Seq<char>| events.contains_key(uid) ==> (#[trigger] events[uid]).uid == uid
}

/// The records of a state are filed under their own identifiers.
pub proof fn lemma_state_is_well_keyed(state: State)
    requires
        state.wf(),
    ensures
        well_keyed(state@),
{
    state.lemma_wf();
    assert forall|uid: Seq<char>| state@.contains_key(uid) implies (#[trigger] state@[uid]).uid
        == uid by {
        assert(state.uids().contains(uid));
        let i = choose|i: int| 0 <= i < state.uids().len() && state.uids()[i] == uid;
        assert(state@[state.uids()[i]] == state.records()[i]);
    }
}

/// The identifier under which a candidate is filed.
pub open spec fn uid_of_candidate(c: CandidateView) -> Seq<char> {
    stable_uid_of(normalized(c))
}

/// The revision hash with which a candidate is stored.
pub open spec fn hash_of_candidate(c: CandidateView) -> Seq<char> {
    revision_hash_of(normalized(c))
}

// ---------------------------------------------------------------------------
// One candidate
// ---------------------------------------------------------------------------

/// What applying one candidate does to the record of any identifier.
pub proof fn lemma_upsert(
    events: Map<Seq<char>, RecordView>,
    c: CandidateView,
    now: UtcInstant,
    uid: Seq<char>,
)
    ensures
        upsert(events, c, now).contains_key(uid) <==> (events.contains_key(uid) || uid
            == uid_of_candidate(c)),
        uid != uid_of_candidate(c) && events.contains_key(uid) ==> upsert(events, c, now)[uid]
            == events[uid],
        events.contains_key(uid) ==> {
            &&& upsert(events, c, now)[uid].sequence >= events[uid].sequence
            &&& upsert(events, c, now)[uid].created_at == events[uid].created_at
        },
        upsert(events, c, now)[uid_of_candidate(c)].revision_hash == hash_of_candidate(c),
        upsert(events, c, now)[uid_of_candidate(c)].last_seen_at == now,
        well_keyed(events) ==> well_keyed(upsert(events, c, now)),
{
}

/// What applying a list of candidates does to the record of any identifier.
pub proof fn lemma_upsert_all(
    events: Map<Seq<char>, RecordView>,
    candidates: Seq<CandidateView>,
    now: UtcInstant,
    uid: Seq<char>,
)
    ensures
        upsert_all(events, candidates, now).contains_key(uid) <==> (events.contains_key(uid)
            || seen_uids(candidates).contains(uid)),
        events.contains_key(uid) && !seen_uids(candidates).contains(uid) ==> upsert_all(
            events,
            candidates,
            now,
        )[uid] == events[uid],
        events.contains_key(uid) ==> {
            &&& upsert_all(events, candidates, now)[uid].sequence >= events[uid].sequence
            &&& upsert_all(events, candidates, now)[uid].created_at == events[uid].created_at
        },
        seen_uids(candidates).contains(uid) ==> upsert_all(events, candidates, now)[uid].last_seen_at
            == now,
        well_keyed(events) ==> well_keyed(upsert_all(events, candidates, now)),
    decreases candidates.len(),
{
    if candidates.len() > 0 {
        let front = candidates.drop_last();
        let last = candidates.last();
        let before = upsert_all(events, front, now);
        lemma_upsert_all(events, front, now, uid);
        lemma_upsert(before, last, now, uid);
        lemma_seen_split(candidates, uid);
        if well_keyed(events) {
            assert forall|u: Seq<char>|
                upsert_all(events, candidates, now).contains_key(u) implies (#[trigger] upsert_all(
                events,
                candidates,
                now,
            )[u]).uid == u by {
                lemma_upsert_all(events, front, now, u);
                lemma_upsert(before, last, now, u);
            }
        }
    }
}

/// The identifiers of a list are those of its front and that of its last.
pub proof fn lemma_seen_split(candidates: Seq<CandidateView>, uid: Seq<char>)
    requires
        candidates.len() > 0,
    ensures
        seen_uids(candidates).contains(uid) <==> (seen_uids(candidates.drop_last()).contains(uid)
            || uid == uid_of_candidate(candidates.last())),
{
    let front = candidates.drop_last();
    if seen_uids(candidates).contains(uid) {
        let k = choose|k: int|
            0 <= k < candidates.len() && stable_uid_of(normalized(#[trigger] candidates[k])) == uid;
        if k < front.len() {
            assert(front[k] == candidates[k]);
        }
    }
    if seen_uids(front).contains(uid) {
        let k = choose|k: int|
            0 <= k < front.len() && stable_uid_of(normalized(#[trigger] front[k])) == uid;
        assert(candidates[k] == front[k]);
    }
    if uid == uid_of_candidate(candidates.last()) {
        assert(candidates[candidates.len() - 1] == candidates.last());
    }
}

// ---------------------------------------------------------------------------
// Sequence numbers
// ---------------------------------------------------------------------------

/// A run of one source never lowers the sequence number of a record, never
/// removes a record and never changes its time of creation.
pub proof fn lemma_sequence_never_decreases(
    events: Map<Seq<char>, RecordView>,
    source_key: Seq<char>,
    candidates: Seq<CandidateView>,
    now: UtcInstant,
    today: CalendarDate,
    uid: Seq<char>,
)
    requires
        events.contains_key(uid),
    ensures
        merged(events, source_key, candidates, now, today).contains_key(uid),
        merged(events, source_key, candidates, now, today)[uid].sequence >= events[uid].sequence,
        merged(events, source_key, candidates, now, today)[uid].created_at
            == events[uid].created_at,
{
    lemma_upsert_all(events, candidates, now, uid);
}

/// One run of one source: its key, its candidates, and the time of the run.
pub struct Run {
    pub source_key: Seq<char>,
    pub candidates: Seq<CandidateView>,
    pub now: UtcInstant,
    pub today: CalendarDate,
}

/// The records after the runs have taken place in their order.
pub open spec fn after_runs(events: Map<Seq<char>, RecordView>, runs: Seq<Run>) -> Map<
    Seq<char>,
    RecordView,
>
    decreases runs.len(),
{
    if runs.len() == 0 {
        events
    } else {
        let r = runs.last();
        merged(after_runs(events, runs.drop_last()), r.source_key, r.candidates, r.now, r.today)
    }
}

/// Over any sequence of runs the sequence number of a record never goes
/// down, whichever sources run and whatever they bring.
pub proof fn lemma_sequence_monotone(
    events: Map<Seq<char>, RecordView>,
    runs: Seq<Run>,
    uid: Seq<char>,
)
    requires
        events.contains_key(uid),
    ensures
        after_runs(events, runs).contains_key(uid),
        after_runs(events, runs)[uid].sequence >= events[uid].sequence,
        after_runs(events, runs)[uid].created_at == events[uid].created_at,
    decreases runs.len(),
{
    if runs.len() > 0 {
        let r = runs.last();
        lemma_sequence_monotone(events, runs.drop_last(), uid);
        lemma_sequence_never_decreases(
            after_runs(events, runs.drop_last()),
            r.source_key,
            r.candidates,
            r.now,
            r.today,
            uid,
        );
    }
}

// ---------------------------------------------------------------------------
// Cancellation
// ---------------------------------------------------------------------------

/// A record that the sweep of a run changed belonged to the source, lay in
/// the future on `today`, was named by no candidate of the run and was not
/// cancelled before; it is cancelled now and has the next sequence number.
/// Every other record is as the candidates left it.
pub proof fn lemma_cancellation_is_well_formed(
    events: Map<Seq<char>, RecordView>,
    source_key: Seq<char>,
    candidates: Seq<CandidateView>,
    now: UtcInstant,
    today: CalendarDate,
    uid: Seq<char>,
)
    requires
        well_keyed(events),
        merged(events, source_key, candidates, now, today).contains_key(uid),
        merged(events, source_key, candidates, now, today)[uid] != upsert_all(
            events,
            candidates,
            now,
        )[uid],
    ensures
        ({
            let before = upsert_all(events, candidates, now)[uid];
            let after = merged(events, source_key, candidates, now, today)[uid];
            &&& before.content.source_key == source_key
            &&& before.is_future_relative_to(today)
            &&& forall|i: int|
                0 <= i < candidates.len() ==> uid_of_candidate(#[trigger] candidates[i]) != uid
            &&& !is_cancelled(before.content.status)
            &&& after == cancelled_record(before, now)
            &&& is_cancelled(after.content.status)
            &&& after.sequence == next_sequence(before.sequence)
        }),
{
    lemma_upsert_all(events, candidates, now, uid);
    let before = upsert_all(events, candidates, now)[uid];
    assert(before.uid == uid);
    assert(sweep_cancels(before, source_key, seen_uids(candidates), today));
    assert forall|i: int| 0 <= i < candidates.len() implies uid_of_candidate(
        #[trigger] candidates[i],
    ) != uid by {
        if uid_of_candidate(candidates[i]) == uid {
            assert(seen_uids(candidates).contains(uid));
        }
    }
}

/// Whether the records `after` hold every record of `before`, with a
/// sequence number that is not lower and with the same time of creation.
pub open spec fn keeps_records(
    before: Map<Seq<char>, RecordView>,
    after: Map<Seq<char>, RecordView>,
) -> bool {
    forall|uid: Seq<char>|
        before.contains_key(uid) ==> #[trigger] after.contains_key(uid) && after[uid].sequence
            >= before[uid].sequence && after[uid].created_at == before[uid].created_at
}

/// Whether every record of `after` that differs from what the candidates
/// left in `applied` was cancelled by the sweep, and rightly so: it belonged
/// to the source, lay in the future on `today`, was named by no candidate
/// and was not cancelled before.
pub open spec fn cancels_well(
    applied: Map<Seq<char>, RecordView>,
    after: Map<Seq<char>, RecordView>,
    source_key: Seq<char>,
    seen: Set<Seq<char>>,
    now: UtcInstant,
    today: CalendarDate,
) -> bool {
    forall|uid: Seq<char>|
        #[trigger] after.contains_key(uid) && after[uid] != applied[uid] ==> {
            &&& applied.contains_key(uid)
            &&& applied[uid].content.source_key == source_key
            &&& applied[uid].is_future_relative_to(today)
            &&& !seen.contains(uid)
            &&& !is_cancelled(applied[uid].content.status)
            &&& after[uid] == cancelled_record(applied[uid], now)
        }
}

/// One run of one source keeps every record, lowers no sequence number,
/// changes no time of creation, and cancels only records of the source that
/// lay in the future, were named by no candidate and were not cancelled.
pub proof fn lemma_merge_is_lawful(
    events: Map<Seq<char>, RecordView>,
    source_key: Seq<char>,
    candidates: Seq<CandidateView>,
    now: UtcInstant,
    today: CalendarDate,
)
    requires
        well_keyed(events),
    ensures
        keeps_records(events, merged(events, source_key, candidates, now, today)),
        cancels_well(
            upsert_all(events, candidates, now),
            merged(events, source_key, candidates, now, today),
            source_key,
            seen_uids(candidates),
            now,
            today,
        ),
{
    let applied = upsert_all(events, candidates, now);
    let after = merged(events, source_key, candidates, now, today);
    assert forall|uid: Seq<char>| events.contains_key(uid) implies #[trigger] after.contains_key(
        uid,
    ) && after[uid].sequence >= events[uid].sequence && after[uid].created_at
        == events[uid].created_at by {
        lemma_sequence_never_decreases(events, source_key, candidates, now, today, uid);
    }
    assert forall|uid: Seq<char>| #[trigger]
        after.contains_key(uid) && after[uid] != applied[uid] implies {
        &&& applied.contains_key(uid)
        &&& applied[uid].content.source_key == source_key
        &&& applied[uid].is_future_relative_to(today)
        &&& !seen_uids(candidates).contains(uid)
        &&& !is_cancelled(applied[uid].content.status)
        &&& after[uid] == cancelled_record(applied[uid], now)
    } by {
        lemma_cancellation_is_well_formed(events, source_key, candidates, now, today, uid);
        lemma_upsert_all(events, candidates, now, uid);
        assert(sweep_cancels(applied[uid], source_key, seen_uids(candidates), today));
    }
}

// ---------------------------------------------------------------------------
// Fields that are no part of a revision
// ---------------------------------------------------------------------------

/// Normalizing keeps the revision material apart from the categories, which
/// it puts in order.
pub proof fn lemma_same_material_normalized(a: CandidateView, b: CandidateView)
    requires
        same_material(a, b),
    ensures
        same_material(normalized(a), normalized(b)),
        uid_of_candidate(a) == uid_of_candidate(b),
        hash_of_candidate(a) == hash_of_candidate(b),
{
    crate::identity::lemma_revision_ignores_other_fields(normalized(a), normalized(b));
}

/// A candidate that differs from an earlier one only in `source_name`,
/// `timezone`, `importance`, `confidence`, `jurisdiction` or `country` is
/// found unchanged: where a run ends with the candidate `a`, a candidate `b`
/// with the same revision material is counted as unchanged in the next run,
/// not as updated, and touches no year.
pub proof fn lemma_other_fields_make_no_revision(
    events: Map<Seq<char>, RecordView>,
    source_key: Seq<char>,
    earlier: Seq<CandidateView>,
    a: CandidateView,
    b: CandidateView,
    now: UtcInstant,
    today: CalendarDate,
    later: UtcInstant,
)
    requires
        well_keyed(events),
        same_material(a, b),
    ensures
        ({
            let stored = merged(events, source_key, earlier.push(a), now, today);
            &&& outcome(stored, b) == Outcome::Unchanged
            &&& count_outcomes(stored, seq![b], later, Outcome::Unchanged) == 1
            &&& count_outcomes(stored, seq![b], later, Outcome::Updated) == 0
            &&& count_outcomes(stored, seq![b], later, Outcome::Inserted) == 0
            &&& upsert_years(stored, seq![b], later) == Set::<i32>::empty()
        }),
{
    let all = earlier.push(a);
    let uid = uid_of_candidate(a);
    lemma_same_material_normalized(a, b);
    assert(all.drop_last() =~= earlier);
    assert(all.last() == a);
    let before = upsert_all(events, earlier, now);
    lemma_upsert(before, a, now, uid);
    lemma_upsert_all(events, all, now, uid);
    let mid = upsert_all(events, all, now);
    lemma_seen_split(all, uid);
    assert(seen_uids(all).contains(uid));
    assert(mid[uid].uid == uid);
    let stored = merged(events, source_key, all, now, today);
    assert(stored[uid] == mid[uid]);
    assert(seq![b].drop_last() =~= Seq::<CandidateView>::empty());
    assert(seq![b].last() == b);
    reveal_with_fuel(count_outcomes, 2);
    reveal_with_fuel(upsert_years, 2);
    reveal_with_fuel(upsert_all, 2);
}

// ---------------------------------------------------------------------------
// Running twice
// ---------------------------------------------------------------------------

/// Candidates that share an identifier have the same revision hash.
pub open spec fn consistent(candidates: Seq<CandidateView>) -> bool {
    forall|i: int, j: int|
        0 <= i < candidates.len() && 0 <= j < candidates.len() && uid_of_candidate(
            #[trigger] candidates[i],
        ) == uid_of_candidate(#[trigger] candidates[j]) ==> hash_of_candidate(candidates[i])
            == hash_of_candidate(candidates[j])
}

/// The records with `last_seen_at` moved to `now` for the identifiers seen.
pub open spec fn seen_again(
    events: Map<Seq<char>, RecordView>,
    seen: Set<Seq<char>>,
    now: UtcInstant,
) -> Map<Seq<char>, RecordView> {
    Map::new(
        |uid: Seq<char>| events.contains_key(uid),
        |uid: Seq<char>|
            if seen.contains(uid) {
                RecordView { last_seen_at: now, ..events[uid] }
            } else {
                events[uid]
            },
    )
}

/// After the candidates have been applied, every one of them has its record,
/// with its revision hash.
proof fn lemma_applied_hashes(
    events: Map<Seq<char>, RecordView>,
    candidates: Seq<CandidateView>,
    now: UtcInstant,
    i: int,
)
    requires
        consistent(candidates),
        0 <= i < candidates.len(),
    ensures
        upsert_all(events, candidates, now).contains_key(uid_of_candidate(candidates[i])),
        upsert_all(events, candidates, now)[uid_of_candidate(candidates[i])].revision_hash
            == hash_of_candidate(candidates[i]),
    decreases candidates.len(),
{
    let front = candidates.drop_last();
    let last = candidates.last();
    let before = upsert_all(events, front, now);
    let uid = uid_of_candidate(candidates[i]);
    lemma_upsert(before, last, now, uid);
    assert(candidates[candidates.len() - 1] == last);
    if uid == uid_of_candidate(last) {
    } else {
        assert(i < front.len());
        assert(front[i] == candidates[i]);
        assert forall|a: int, b: int|
            0 <= a < front.len() && 0 <= b < front.len() && uid_of_candidate(#[trigger] front[a])
                == uid_of_candidate(#[trigger] front[b]) implies hash_of_candidate(front[a])
            == hash_of_candidate(front[b]) by {
            assert(front[a] == candidates[a] && front[b] == candidates[b]);
        }
        lemma_applied_hashes(events, front, now, i);
    }
}

/// What the second run finds after its first `m` candidates: nothing
/// inserted, nothing updated, no year touched, and the records as they were
/// but for `last_seen_at`.
proof fn lemma_second_run_front(
    stored: Map<Seq<char>, RecordView>,
    candidates: Seq<CandidateView>,
    now: UtcInstant,
    m: int,
)
    requires
        0 <= m <= candidates.len(),
        forall|i: int|
            0 <= i < candidates.len() ==> stored.contains_key(
                uid_of_candidate(#[trigger] candidates[i]),
            ) && stored[uid_of_candidate(candidates[i])].revision_hash == hash_of_candidate(
                candidates[i],
            ),
    ensures
        upsert_all(stored, candidates.take(m), now) == seen_again(
            stored,
            seen_uids(candidates.take(m)),
            now,
        ),
        count_outcomes(stored, candidates.take(m), now, Outcome::Inserted) == 0,
        count_outcomes(stored, candidates.take(m), now, Outcome::Updated) == 0,
        count_outcomes(stored, candidates.take(m), now, Outcome::Unchanged) == m,
        upsert_years(stored, candidates.take(m), now) == Set::<i32>::empty(),
    decreases m,
{
    let taken = candidates.take(m);
    if m == 0 {
        assert(seen_uids(taken) =~= Set::<Seq<char>>::empty());
        assert(upsert_all(stored, taken, now) =~= seen_again(stored, seen_uids(taken), now));
    } else {
        let front = candidates.take(m - 1);
        let c = candidates[m - 1];
        let uid = uid_of_candidate(c);
        assert(taken.drop_last() =~= front);
        assert(taken.last() == c);
        lemma_second_run_front(stored, candidates, now, m - 1);
        let before = upsert_all(stored, front, now);
        assert(before.contains_key(uid));
        assert(before[uid].revision_hash == hash_of_candidate(c));
        assert(outcome(before, c) == Outcome::Unchanged);
        let after = upsert(before, c, now);
        let target = seen_again(stored, seen_uids(taken), now);
        assert forall|u: Seq<char>| after.contains_key(u) <==> target.contains_key(u) by {}
        assert forall|u: Seq<char>| after.contains_key(u) implies after[u] == target[u] by {
            lemma_seen_split(taken, u);
        }
        assert(after =~= target);
    }
}

/// Two runs in a row with the same candidates: the second one inserts,
/// updates and cancels nothing and touches no year, and it leaves every
/// record as it was but for `last_seen_at` of the records named by the
/// candidates; with the same `now` it leaves the state as it was.
///
/// This holds where candidates that share an identifier agree in their
/// revision hash, and where `today` has not moved backwards between the
/// runs.
pub proof fn lemma_second_run_changes_nothing(
    events: Map<Seq<char>, RecordView>,
    source_key: Seq<char>,
    candidates: Seq<CandidateView>,
    now: UtcInstant,
    today: CalendarDate,
    later: UtcInstant,
    later_today: CalendarDate,
)
    requires
        well_keyed(events),
        consistent(candidates),
        !later_today.before(today),
    ensures
        ({
            let stored = merged(events, source_key, candidates, now, today);
            &&& count_outcomes(stored, candidates, later, Outcome::Inserted) == 0
            &&& count_outcomes(stored, candidates, later, Outcome::Updated) == 0
            &&& count_outcomes(stored, candidates, later, Outcome::Unchanged) == candidates.len()
            &&& swept_uids(
                upsert_all(stored, candidates, later),
                source_key,
                seen_uids(candidates),
                later_today,
            ) == Set::<Seq<char>>::empty()
            &&& changed_years(stored, source_key, candidates, later, later_today) == Set::<
                i32,
            >::empty()
            &&& merged(stored, source_key, candidates, later, later_today) == seen_again(
                stored,
                seen_uids(candidates),
                later,
            )
            &&& later == now ==> merged(stored, source_key, candidates, later, later_today)
                == stored
        }),
{
    let seen = seen_uids(candidates);
    let mid = upsert_all(events, candidates, now);
    let stored = merged(events, source_key, candidates, now, today);
    assert forall|u: Seq<char>| mid.contains_key(u) implies (#[trigger] mid[u]).uid == u by {
        lemma_upsert_all(events, candidates, now, u);
    }
    assert forall|i: int| 0 <= i < candidates.len() implies stored.contains_key(
        uid_of_candidate(#[trigger] candidates[i]),
    ) && stored[uid_of_candidate(candidates[i])].revision_hash == hash_of_candidate(
        candidates[i],
    ) by {
        let uid = uid_of_candidate(candidates[i]);
        lemma_applied_hashes(events, candidates, now, i);
        assert(seen.contains(uid));
    }
    lemma_second_run_front(stored, candidates, later, candidates.len() as int);
    assert(candidates.take(candidates.len() as int) =~= candidates);
    let again = upsert_all(stored, candidates, later);
    let swept = swept_uids(again, source_key, seen, later_today);
    assert forall|u: Seq<char>| again.contains_key(u) implies !sweep_cancels(
        #[trigger] again[u],
        source_key,
        seen,
        later_today,
    ) by {
        assert(stored.contains_key(u) && mid.contains_key(u));
        assert(mid[u].uid == u);
        assert(again[u].uid == u);
        if !seen.contains(u) {
            assert(again[u] == stored[u]);
            if sweep_cancels(mid[u], source_key, seen, today) {
                assert(stored[u] == cancelled_record(mid[u], now));
                assert(is_cancelled(stored[u].content.status));
            } else {
                assert(stored[u] == mid[u]);
            }
        }
    }
    assert(swept =~= Set::<Seq<char>>::empty());
    assert(swept_years(again, source_key, seen, later_today) =~= Set::<i32>::empty());
    assert(changed_years(stored, source_key, candidates, later, later_today) =~= Set::<
        i32,
    >::empty());
    let last = merged(stored, source_key, candidates, later, later_today);
    assert(last =~= again);
    if later == now {
        assert forall|u: Seq<char>| stored.contains_key(u) implies again[u] == stored[u] by {
            if seen.contains(u) {
                lemma_upsert_all(events, candidates, now, u);
                assert(mid[u].last_seen_at == now);
                assert(stored[u] == mid[u]);
            }
        }
        assert(again =~= stored);
    }
}

} // verus!
