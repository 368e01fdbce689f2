//! The commands: what one run of sync, build, publish and validate amounts
//! to, given what was read from disk and fetched.

use vstd::prelude::*;
use crate::config::{path_safe, ConfigError, LoadedSource};
use crate::documents::{FetchedDocument, ParseError};
use crate::fetch::FetchError;
use crate::events::{parse_fault, parse_source_events, parsed};
use crate::merge::{
    candidate_views, changed_years, count_outcomes, merge_source_events, merged, seen_uids,
    swept_uids, upsert_all, Outcome,
};
use crate::model::{CandidateView, RecordView, SourceRunReport};
use crate::rebuild::{plan_is_for, rebuild_source_calendars, RebuildPlan};
use crate::state::State;
use crate::text::{chars_of, opt_view, push_str, str_less, str_lt, string_of, views};
use crate::time::{CalendarDate, UtcInstant};
use crate::years::YearSet;

verus! {

/// The options of the command `sync`.
#[derive(Clone, Debug)]
pub struct SyncOptions {
    pub config_dir: String,
    pub state_path: String,
    pub out_dir: String,
    pub source: Option<String>,
    pub dry_run: bool,
}

/// The options of the command `build`.
#[derive(Clone, Debug)]
pub struct BuildOptions {
    pub config_dir: String,
    pub state_path: String,
    pub out_dir: String,
    pub source: Option<String>,
    pub year: Option<i32>,
}

/// The options of the command `publish`.
#[derive(Clone, Debug)]
pub struct PublishOptions {
    pub config_dir: String,
    pub out_dir: String,
    pub source: Option<String>,
    pub year: Option<i32>,
}

/// The options of the command `validate`.
#[derive(Clone, Debug)]
pub struct ValidateOptions {
    pub config_dir: Option<String>,
    pub source_file: Option<String>,
}

/// Why `validate` fails.
#[derive(Clone, Debug)]
pub enum ValidateError {
    /// Neither a directory nor a file was named.
    NothingToValidate,
    /// The source description at index `index` breaks a rule.
    Invalid { index: usize, error: ConfigError },
}

/// The line that reports a valid source: `OK: <key> (<path>)`.
pub open spec fn ok_line(source: LoadedSource) -> Seq<char> {
    "OK: "@ + source.config.source.key@ + " ("@ + source.path@ + ")"@
}

/// The lines that report the sources, in their order.
pub open spec fn ok_lines(sources: Seq<LoadedSource>) -> Seq<Seq<char>> {
    sources.map_values(|s: LoadedSource| ok_line(s))
}

/// The index of the first source that breaks a rule.
pub open spec fn first_invalid(sources: Seq<LoadedSource>) -> Option<int>
    decreases sources.len(),
{
    if sources.len() == 0 {
        None
    } else {
        match first_invalid(sources.drop_last()) {
            Some(i) => Some(i),
            None => if sources.last().config.first_fault() is Some {
                Some(sources.len() - 1)
            } else {
                None
            },
        }
    }
}

/// Checks the source descriptions that were loaded for `validate` and
/// reports each with a line.
///
/// Without a directory and without a file in the options there is nothing to
/// validate, which is an error. The first description that breaks a rule is
/// an error too.
pub fn validate_configs(options: &ValidateOptions, sources: &Vec<LoadedSource>) -> (r: Result<
    Vec<String>,
    ValidateError,
>)
    requires
        forall|i: int| 0 <= i < sources.len() ==> (#[trigger] sources@[i]).config.wf(),
    ensures
        match r {
            Ok(lines) => {
                &&& options.config_dir is Some || options.source_file is Some
                &&& first_invalid(sources@) is None
                &&& views(lines@) == ok_lines(sources@)
            },
            Err(ValidateError::NothingToValidate) => options.config_dir is None
                && options.source_file is None,
            Err(ValidateError::Invalid { index, error }) => {
                &&& options.config_dir is Some || options.source_file is Some
                &&& first_invalid(sources@) == Some(index as int)
                &&& index < sources.len()
                &&& sources@[index as int].config.first_fault() == Some(error)
            },
        },
{
    if options.config_dir.is_none() && options.source_file.is_none() {
        return Err(ValidateError::NothingToValidate);
    }
    let mut lines: Vec<String> = Vec::new();
    let mut i: usize = 0;
    assert(sources@.take(0) =~= Seq::<LoadedSource>::empty());
    while i < sources.len()
        invariant
            i <= sources.len(),
            forall|k: int| 0 <= k < sources.len() ==> (#[trigger] sources@[k]).config.wf(),
            options.config_dir is Some || options.source_file is Some,
            first_invalid(sources@.take(i as int)) is None,
            lines.len() == i,
            forall|k: int| 0 <= k < i ==> (#[trigger] lines@[k])@ == ok_line(sources@[k]),
        decreases sources.len() - i,
    {
        let source = &sources[i];
        proof {
            let now = sources@.take(i + 1);
            assert(now.drop_last() =~= sources@.take(i as int));
            assert(now.last() == sources@[i as int]);
        }
        match source.config.validate() {
            Ok(_) => {},
            Err(error) => {
                proof {
                    lemma_first_invalid_prefix(sources@, i + 1);
                }
                return Err(ValidateError::Invalid { index: i, error });
            },
        }
        let mut line = chars_of("OK: ");
        push_str(&mut line, source.config.source.key.as_str());
        push_str(&mut line, " (");
        push_str(&mut line, source.path.as_str());
        push_str(&mut line, ")");
        lines.push(string_of(&line));
        i += 1;
    }
    assert(sources@.take(i as int) =~= sources@);
    assert(views(lines@) =~= ok_lines(sources@));
    Ok(lines)
}

/// The first invalid source of a list is the first invalid one of any front
/// of the list that has one.
proof fn lemma_first_invalid_prefix(sources: Seq<LoadedSource>, upto: int)
    requires
        0 <= upto <= sources.len(),
        first_invalid(sources.take(upto)) is Some,
    ensures
        first_invalid(sources) == first_invalid(sources.take(upto)),
    decreases sources.len() - upto,
{
    if upto < sources.len() {
        let next = sources.take(upto + 1);
        assert(next.drop_last() =~= sources.take(upto));
        lemma_first_invalid_prefix(sources, upto + 1);
    } else {
        assert(sources.take(upto) =~= sources);
    }
}

// ---------------------------------------------------------------------------
// The sources of a run
// ---------------------------------------------------------------------------

/// Why a run fails.
#[derive(Clone, Debug)]
pub enum SyncError {
    /// No source has the key that was asked for, or there is no source.
    NoMatchingSources,
}

/// Why a run leaves a source as it was.
#[derive(Clone, Debug)]
pub enum SourceFault {
    /// The documents of the source could not be fetched.
    Fetch,
    /// The events of the source cannot be found.
    Parse(ParseError),
    /// The state and the events of the source are more than can be counted.
    TooManyEvents,
}

/// Whether the source is one that the run is about: every source, or the
/// one with the key that was asked for.
pub open spec fn is_selected(source: LoadedSource, filter: Option<Seq<char>>) -> bool {
    match filter {
        Some(key) => source.config.source.key@ == key,
        None => true,
    }
}

/// The index at which a source is put into the order of a run: behind the
/// leading sources whose key does not sort after its own.
pub open spec fn place_in_order(order: Seq<int>, sources: Seq<LoadedSource>, k: int) -> int
    decreases order.len(),
{
    if order.len() > 0 && !str_lt(
        sources[k].config.source.key@,
        sources[order[0]].config.source.key@,
    ) {
        1 + place_in_order(order.drop_first(), sources, k)
    } else {
        0
    }
}

/// The indices of the first `upto` sources that the run is about, in
/// ascending order of their keys; sources with the same key keep their
/// order.
pub open spec fn run_order(sources: Seq<LoadedSource>, filter: Option<Seq<char>>, upto: int) -> Seq<
    int,
>
    decreases upto,
{
    if upto <= 0 || upto > sources.len() {
        Seq::<int>::empty()
    } else {
        let before = run_order(sources, filter, upto - 1);
        if is_selected(sources[upto - 1], filter) {
            before.insert(place_in_order(before, sources, upto - 1), upto - 1)
        } else {
            before
        }
    }
}

pub proof fn lemma_place_in_order(order: Seq<int>, sources: Seq<LoadedSource>, k: int)
    ensures
        0 <= place_in_order(order, sources, k) <= order.len(),
    decreases order.len(),
{
    if order.len() > 0 {
        lemma_place_in_order(order.drop_first(), sources, k);
    }
}

/// Every index of the order names a source that the run is about.
pub proof fn lemma_run_order(sources: Seq<LoadedSource>, filter: Option<Seq<char>>, upto: int)
    requires
        0 <= upto <= sources.len(),
    ensures
        forall|i: int|
            0 <= i < run_order(sources, filter, upto).len() ==> 0 <= #[trigger] run_order(
                sources,
                filter,
                upto,
            )[i] < upto && is_selected(sources[run_order(sources, filter, upto)[i]], filter),
        run_order(sources, filter, upto).len() <= upto,
    decreases upto,
{
    if upto > 0 {
        lemma_run_order(sources, filter, upto - 1);
        let before = run_order(sources, filter, upto - 1);
        lemma_place_in_order(before, sources, upto - 1);
        let p = place_in_order(before, sources, upto - 1);
        let now = run_order(sources, filter, upto);
        assert forall|i: int| 0 <= i < now.len() implies 0 <= #[trigger] now[i] < upto
            && is_selected(sources[now[i]], filter) by {
            if is_selected(sources[upto - 1], filter) {
                if i < p {
                    assert(now[i] == before[i]);
                } else if i > p {
                    assert(now[i] == before[i - 1]);
                }
            }
        }
    }
}

/// The views of a list of indices.
pub open spec fn index_views(order: Seq<usize>) -> Seq<int> {
    order.map_values(|i: usize| i as int)
}

/// Puts the sources that a run is about into the order of the run.
pub fn select_sources(sources: &Vec<LoadedSource>, filter: &Option<String>) -> (r: Result<
    Vec<usize>,
    SyncError,
>)
    ensures
        match r {
            Ok(order) => order.len() > 0 && index_views(order@) == run_order(
                sources@,
                opt_view(*filter),
                sources.len() as int,
            ) && forall|i: int| 0 <= i < order.len() ==> #[trigger] order@[i] < sources.len(),
            Err(e) => e is NoMatchingSources && run_order(
                sources@,
                opt_view(*filter),
                sources.len() as int,
            ).len() == 0,
        },
{
    let mut order: Vec<usize> = Vec::new();
    let mut k: usize = 0;
    let ghost wanted = opt_view(*filter);
    assert(index_views(order@) =~= Seq::<int>::empty());
    while k < sources.len()
        invariant
            k <= sources.len(),
            wanted == opt_view(*filter),
            index_views(order@) == run_order(sources@, wanted, k as int),
            forall|i: int| 0 <= i < order.len() ==> #[trigger] order@[i] < k,
        decreases sources.len() - k,
    {
        let selected = match filter {
            Some(key) => *sources[k].config.source.key.as_str() == *key.as_str(),
            None => true,
        };
        if selected {
            let ghost before = index_views(order@);
            let mut p: usize = 0;
            assert(before.skip(0) =~= before);
            while p < order.len() && !str_less(
                sources[k].config.source.key.as_str(),
                sources[order[p]].config.source.key.as_str(),
            )
                invariant
                    p <= order.len(),
                    k < sources.len(),
                    before == index_views(order@),
                    forall|i: int| 0 <= i < order.len() ==> #[trigger] order@[i] < k,
                    place_in_order(before, sources@, k as int) == p + place_in_order(
                        before.skip(p as int),
                        sources@,
                        k as int,
                    ),
                decreases order.len() - p,
            {
                assert(before.skip(p as int)[0] == order@[p as int]);
                assert(before.skip(p as int).drop_first() =~= before.skip(p + 1));
                p += 1;
            }
            proof {
                if p < order.len() {
                    assert(before.skip(p as int)[0] == order@[p as int]);
                }
            }
            order.insert(p, k);
            assert(index_views(order@) =~= before.insert(p as int, k as int));
            assert forall|i: int| 0 <= i < order.len() implies #[trigger] order@[i] < k + 1 by {
                if i < p {
                    assert(order@[i] == before[i]);
                } else if i > p {
                    assert(order@[i] == before[i - 1]);
                }
            }
        }
        k += 1;
    }
    if order.len() == 0 {
        return Err(SyncError::NoMatchingSources);
    }
    Ok(order)
}

// ---------------------------------------------------------------------------
// Sync
// ---------------------------------------------------------------------------

/// What a run did for one source: the report, the years that it touched,
/// and, unless the run was dry, the rebuild of the calendars of the source.
/// `candidates` holds the events that were found, and `after` the state as
/// the source left it.
pub struct SourceSync {
    pub index: usize,
    pub report: SourceRunReport,
    pub changed_years: YearSet,
    pub plan: Option<RebuildPlan>,
    pub candidates: Ghost<Seq<CandidateView>>,
    pub after: Ghost<State>,
}

/// The day of an instant.
pub open spec fn day_of(now: UtcInstant) -> CalendarDate {
    now.date
}

/// Whether `out` is what a run at the instant `now` does for a source, from
/// the records `before`: the events of the documents are found and merged,
/// the report counts what the merge did, and the calendars of the changed
/// years are rebuilt unless the run is dry.
pub open spec fn source_synced(
    out: SourceSync,
    before: Map<Seq<char>, RecordView>,
    source: LoadedSource,
    docs: Seq<FetchedDocument>,
    dry_run: bool,
    now: UtcInstant,
) -> bool {
    let key = source.config.source.key@;
    let events = out.candidates@;
    let today = day_of(now);
    &&& parsed(events, source.config, docs, today.year as int)
    &&& out.after@.wf()
    &&& out.after@@ == merged(before, key, events, now, today)
    &&& out.changed_years.wf()
    &&& out.changed_years@ == changed_years(before, key, events, now, today)
    &&& out.report.source_key@ == key
    &&& out.report.pages_fetched == docs.len()
    &&& out.report.records_parsed == events.len()
    &&& out.report.inserted == count_outcomes(before, events, now, Outcome::Inserted)
    &&& out.report.updated == count_outcomes(before, events, now, Outcome::Updated)
    &&& out.report.unchanged == count_outcomes(before, events, now, Outcome::Unchanged)
    &&& out.report.cancelled == swept_uids(
        upsert_all(before, events, now),
        key,
        seen_uids(events),
        today,
    ).len()
    &&& match out.plan {
        Some(plan) => !dry_run && plan_is_for(
            plan,
            out.after@,
            source,
            None,
            Some(out.changed_years@),
        ),
        None => dry_run,
    }
}

/// Whether the events of the documents of a source, added to `records`
/// records, are more than can be counted.
pub open spec fn too_many(
    records: nat,
    source: LoadedSource,
    docs: Seq<FetchedDocument>,
    now: UtcInstant,
) -> bool {
    exists|events: Seq<CandidateView>|
        #[trigger] parsed(events, source.config, docs, day_of(now).year as int) && records
            + events.len() > usize::MAX
}

/// Runs the sync of one source: finds the events of its documents, merges
/// them into the state, and plans the rebuild of the calendars of the
/// changed years. The day of `now` is the day on which the run takes place.
///
/// A source whose events cannot be found leaves the state as it was; so
/// does one whose events, added to the records of the state, are more than
/// can be counted.
pub fn sync_source(
    state: &mut State,
    source: &LoadedSource,
    index: usize,
    docs: &Vec<FetchedDocument>,
    dry_run: bool,
    now: UtcInstant,
) -> (r: Result<SourceSync, SourceFault>)
    requires
        old(state).wf(),
        source.config.wf(),
    ensures
        final(state).wf(),
        final(state).schema_version == old(state).schema_version,
        match r {
            Ok(out) => {
                &&& parse_fault(source.config, docs@) is None
                &&& old(state).uids().len() + out.candidates@.len() <= usize::MAX
                &&& out.index == index
                &&& out.after@ == *final(state)
                &&& source_synced(out, old(state)@, *source, docs@, dry_run, now)
            },
            Err(SourceFault::Parse(error)) => parse_fault(source.config, docs@) == Some(error@)
                && *final(state) == *old(state),
            Err(SourceFault::TooManyEvents) => parse_fault(source.config, docs@) is None
                && too_many(old(state).uids().len(), *source, docs@, now) && *final(state)
                == *old(state),
            Err(SourceFault::Fetch) => false,
        },
{
    let today = now.date;
    let candidates = match parse_source_events(source, docs, today.year) {
        Ok(c) => c,
        Err(error) => {
            return Err(SourceFault::Parse(error));
        },
    };
    let fits = match state.len().checked_add(candidates.len()) {
        Some(_) => true,
        None => false,
    };
    if !fits {
        proof {
            let events = candidate_views(candidates@);
            assert(events.len() == candidates.len());
            assert(day_of(now).year == today.year);
            assert(parsed(events, source.config, docs@, day_of(now).year as int)
                && state.uids().len() + events.len() > usize::MAX);
        }
        return Err(SourceFault::TooManyEvents);
    }
    let mut report = SourceRunReport {
        source_key: source.config.source.key.clone(),
        pages_fetched: docs.len(),
        records_parsed: candidates.len(),
        inserted: 0,
        updated: 0,
        cancelled: 0,
        unchanged: 0,
    };
    let changed = merge_source_events(
        state,
        source.config.source.key.as_str(),
        &candidates,
        &mut report,
        now,
        today,
    );
    let plan = if dry_run {
        None
    } else {
        Some(rebuild_source_calendars(state, source, None, Some(&changed)))
    };
    Ok(
        SourceSync {
            index,
            report,
            changed_years: changed,
            plan,
            candidates: Ghost(candidate_views(candidates@)),
            after: Ghost(*state),
        },
    )
}

/// What a run did for one source: the index of the source, the sync of the
/// source or why the source was left as it was, and in `after` the state
/// behind the step.
pub struct SourceStep {
    pub index: usize,
    pub outcome: Result<SourceSync, SourceFault>,
    pub after: Ghost<State>,
}

/// The records before the step with index `k` of a run.
pub open spec fn records_before(
    start: Map<Seq<char>, RecordView>,
    outs: Seq<SourceStep>,
    k: int,
) -> Map<Seq<char>, RecordView> {
    if k <= 0 {
        start
    } else {
        outs[k - 1].after@@
    }
}

/// The number of records before the step with index `k` of a run that
/// starts with `start` records.
pub open spec fn count_before(start: nat, outs: Seq<SourceStep>, k: int) -> nat {
    if k <= 0 {
        start
    } else {
        outs[k - 1].after@.uids().len()
    }
}

/// Whether `step` is what a run at the instant `now` does for the source
/// with the index `index`, from the `count` records `before`, given what
/// fetching its documents came to.
///
/// A source whose documents were fetched and whose events can be found and
/// counted is synced. Any other source is left as it was, with the reason:
/// its documents could not be fetched, its events cannot be found, or its
/// events, added to the records, are more than can be counted.
pub open spec fn step_done(
    step: SourceStep,
    before: Map<Seq<char>, RecordView>,
    count: nat,
    source: LoadedSource,
    fetched: Result<Vec<FetchedDocument>, FetchError>,
    index: int,
    dry_run: bool,
    now: UtcInstant,
) -> bool {
    &&& step.index == index
    &&& step.after@.wf()
    &&& match step.outcome {
        Ok(out) => {
            &&& fetched is Ok
            &&& parse_fault(source.config, fetched->Ok_0@) is None
            &&& count + out.candidates@.len() <= usize::MAX
            &&& out.index == index
            &&& out.after@@ == step.after@@
            &&& source_synced(out, before, source, fetched->Ok_0@, dry_run, now)
        },
        Err(fault) => {
            &&& step.after@@ == before
            &&& match fault {
                SourceFault::Fetch => fetched is Err,
                SourceFault::Parse(error) => fetched is Ok && parse_fault(
                    source.config,
                    fetched->Ok_0@,
                ) == Some(error@),
                SourceFault::TooManyEvents => fetched is Ok && parse_fault(
                    source.config,
                    fetched->Ok_0@,
                ) is None && too_many(count, source, fetched->Ok_0@, now),
            }
        },
    }
}

/// The indices of the order whose sources are enabled, in the order.
pub open spec fn enabled_in(sources: Seq<LoadedSource>, order: Seq<int>) -> Seq<int>
    decreases order.len(),
{
    if order.len() == 0 {
        Seq::<int>::empty()
    } else if 0 <= order.last() < sources.len() && sources[order.last()].config.source.enabled {
        enabled_in(sources, order.drop_last()).push(order.last())
    } else {
        enabled_in(sources, order.drop_last())
    }
}

/// Whether `outs` is what a run does for the sources of `steps`, one after
/// the other, from the records `start`.
pub open spec fn run_synced(
    outs: Seq<SourceStep>,
    start: Map<Seq<char>, RecordView>,
    start_count: nat,
    sources: Seq<LoadedSource>,
    documents: Seq<Result<Vec<FetchedDocument>, FetchError>>,
    steps: Seq<int>,
    dry_run: bool,
    now: UtcInstant,
) -> bool {
    &&& outs.len() == steps.len()
    &&& forall|k: int|
        0 <= k < outs.len() ==> {
            &&& 0 <= #[trigger] steps[k] < sources.len()
            &&& steps[k] < documents.len()
            &&& step_done(
                outs[k],
                records_before(start, outs, k),
                count_before(start_count, outs, k),
                sources[steps[k]],
                documents[steps[k]],
                steps[k],
                dry_run,
                now,
            )
        }
}

/// Runs the sync of the sources of a run, given what fetching the documents
/// of each source came to.
///
/// The sources that the options ask for take their turn in ascending order
/// of their keys; a source that is not enabled is passed over. Each source
/// finds the events of its documents, merges them into the state and plans
/// the rebuild of its calendars. A source whose documents could not be
/// fetched or whose events cannot be found is left as it was, and the run
/// goes on with the next. No source that matches is an error.
pub fn sync_sources(
    state: &mut State,
    sources: &Vec<LoadedSource>,
    documents: &Vec<Result<Vec<FetchedDocument>, FetchError>>,
    options: &SyncOptions,
    now: UtcInstant,
) -> (r: Result<Vec<SourceStep>, SyncError>)
    requires
        old(state).wf(),
        documents.len() == sources.len(),
        forall|i: int| 0 <= i < sources.len() ==> (#[trigger] sources@[i]).config.wf(),
    ensures
        final(state).wf(),
        final(state).schema_version == old(state).schema_version,
        match r {
            Ok(outs) => {
                let order = run_order(sources@, opt_view(options.source), sources.len() as int);
                &&& order.len() > 0
                &&& run_synced(
                    outs@,
                    old(state)@,
                    old(state).uids().len(),
                    sources@,
                    documents@,
                    enabled_in(sources@, order),
                    options.dry_run,
                    now,
                )
                &&& final(state)@ == records_before(old(state)@, outs@, outs.len() as int)
            },
            Err(e) => e is NoMatchingSources && run_order(
                sources@,
                opt_view(options.source),
                sources.len() as int,
            ).len() == 0 && final(state)@ == old(state)@,
        },
{
    let order = match select_sources(sources, &options.source) {
        Ok(o) => o,
        Err(e) => {
            return Err(e);
        },
    };
    let ghost start = state@;
    let ghost start_count = state.uids().len();
    let ghost all = index_views(order@);
    let ghost wanted = opt_view(options.source);
    proof {
        lemma_run_order(sources@, wanted, sources.len() as int);
    }
    let mut outs: Vec<SourceStep> = Vec::new();
    let mut k: usize = 0;
    assert(all.take(0) =~= Seq::<int>::empty());
    while k < order.len()
        invariant
            k <= order.len(),
            state.wf(),
            state.schema_version == old(state).schema_version,
            documents.len() == sources.len(),
            forall|i: int| 0 <= i < sources.len() ==> (#[trigger] sources@[i]).config.wf(),
            all == index_views(order@),
            wanted == opt_view(options.source),
            all == run_order(sources@, wanted, sources.len() as int),
            forall|i: int| 0 <= i < order.len() ==> #[trigger] order@[i] < sources.len(),
            forall|i: int|
                0 <= i < all.len() ==> is_selected(sources@[#[trigger] all[i]], wanted),
            start == old(state)@,
            start_count == old(state).uids().len(),
            run_synced(
                outs@,
                start,
                start_count,
                sources@,
                documents@,
                enabled_in(sources@, all.take(k as int)),
                options.dry_run,
                now,
            ),
            state@ == records_before(start, outs@, outs.len() as int),
            state.uids().len() == count_before(start_count, outs@, outs.len() as int),
        decreases order.len() - k,
    {
        let index = order[k];
        let source = &sources[index];
        proof {
            assert(all.take(k + 1).drop_last() =~= all.take(k as int));
            assert(all.take(k + 1).last() == index as int);
            assert(all[k as int] == index as int);
        }
        if source.config.source.enabled {
            let ghost before = outs@;
            let ghost steps = enabled_in(sources@, all.take(k as int));
            let ghost records = state@;
            let ghost count = state.uids().len();
            let outcome = match &documents[index] {
                Ok(docs) => sync_source(state, source, index, docs, options.dry_run, now),
                Err(_) => Err(SourceFault::Fetch),
            };
            let step = SourceStep { index, outcome, after: Ghost(*state) };
            proof {
                assert(step_done(
                    step,
                    records,
                    count,
                    sources@[index as int],
                    documents@[index as int],
                    index as int,
                    options.dry_run,
                    now,
                ));
            }
            outs.push(step);
            proof {
                let now_steps = enabled_in(sources@, all.take(k + 1));
                assert(now_steps =~= steps.push(index as int));
                assert forall|j: int| 0 <= j < outs.len() implies {
                    &&& 0 <= #[trigger] now_steps[j] < sources.len()
                    &&& now_steps[j] < documents.len()
                    &&& step_done(
                        outs@[j],
                        records_before(start, outs@, j),
                        count_before(start_count, outs@, j),
                        sources@[now_steps[j]],
                        documents@[now_steps[j]],
                        now_steps[j],
                        options.dry_run,
                        now,
                    )
                } by {
                    if j < before.len() {
                        assert(outs@[j] == before[j]);
                        assert(now_steps[j] == steps[j]);
                        assert(records_before(start, outs@, j) == records_before(
                            start,
                            before,
                            j,
                        ));
                        assert(count_before(start_count, outs@, j) == count_before(
                            start_count,
                            before,
                            j,
                        ));
                    } else {
                        assert(outs@[j] == step);
                        assert(records_before(start, outs@, j) == records);
                        assert(count_before(start_count, outs@, j) == count);
                    }
                }
            }
        }
        k += 1;
    }
    assert(all.take(k as int) =~= all);
    Ok(outs)
}

// ---------------------------------------------------------------------------
// Build
// ---------------------------------------------------------------------------

/// The rebuild of the calendars of one source of a build.
pub struct SourceBuild {
    pub index: usize,
    pub plan: RebuildPlan,
}

/// Whether `outs` holds the rebuilds of the sources of `steps`, in their
/// order, from the state.
pub open spec fn run_built(
    outs: Seq<SourceBuild>,
    state: State,
    sources: Seq<LoadedSource>,
    steps: Seq<int>,
    year: Option<i32>,
) -> bool {
    &&& outs.len() == steps.len()
    &&& forall|k: int|
        0 <= k < outs.len() ==> {
            &&& 0 <= #[trigger] steps[k] < sources.len()
            &&& outs[k].index == steps[k]
            &&& plan_is_for(outs[k].plan, state, sources[steps[k]], year, None)
        }
}

/// Plans the rebuild of the calendars of the sources that the options ask
/// for, from the state as it is: for every source the calendars of all its
/// years, or that of the year that the options name. No source that matches
/// is an error.
pub fn build_calendars(state: &State, sources: &Vec<LoadedSource>, options: &BuildOptions) -> (r:
    Result<Vec<SourceBuild>, SyncError>)
    requires
        state.wf(),
        forall|i: int| 0 <= i < sources.len() ==> (#[trigger] sources@[i]).config.wf(),
    ensures
        match r {
            Ok(outs) => run_order(sources@, opt_view(options.source), sources.len() as int).len()
                > 0 && run_built(
                outs@,
                *state,
                sources@,
                run_order(sources@, opt_view(options.source), sources.len() as int),
                options.year,
            ),
            Err(e) => e is NoMatchingSources && run_order(
                sources@,
                opt_view(options.source),
                sources.len() as int,
            ).len() == 0,
        },
{
    let order = match select_sources(sources, &options.source) {
        Ok(o) => o,
        Err(e) => {
            return Err(e);
        },
    };
    let ghost all = index_views(order@);
    let mut outs: Vec<SourceBuild> = Vec::new();
    let mut k: usize = 0;
    while k < order.len()
        invariant
            k <= order.len(),
            state.wf(),
            forall|i: int| 0 <= i < sources.len() ==> (#[trigger] sources@[i]).config.wf(),
            all == index_views(order@),
            forall|i: int| 0 <= i < order.len() ==> #[trigger] order@[i] < sources.len(),
            outs.len() == k,
            forall|j: int|
                0 <= j < k ==> (#[trigger] outs@[j]).index == all[j] && plan_is_for(
                    outs@[j].plan,
                    *state,
                    sources@[all[j]],
                    options.year,
                    None,
                ),
        decreases order.len() - k,
    {
        let index = order[k];
        assert(all[k as int] == index as int);
        let plan = rebuild_source_calendars(state, &sources[index], options.year, None);
        outs.push(SourceBuild { index, plan });
        k += 1;
    }
    proof {
        assert forall|j: int| 0 <= j < outs.len() implies 0 <= #[trigger] all[j] < sources.len() by {
            assert(all[j] == order@[j] as int);
        }
    }
    Ok(outs)
}

// ---------------------------------------------------------------------------
// Publish
// ---------------------------------------------------------------------------

/// Where the calendars of one source are published: the index of the
/// source, the name of the directory that holds its calendars, the mirror
/// directory, and whether the calendars go into a directory of the source's
/// own below it.
#[derive(Clone, Debug)]
pub struct PublishTarget {
    pub index: usize,
    pub file_prefix: String,
    pub mirror_dir: String,
    pub mirror_source_subdir: bool,
}

/// Whether `target` says where the calendars of the source are published.
pub open spec fn is_target_of(target: PublishTarget, source: LoadedSource, index: int) -> bool {
    &&& target.index == index
    &&& target.file_prefix@ == path_safe(source.config.source.key@)
    &&& source.config.publish.mirror_dir is Some
    &&& target.mirror_dir@ == source.config.publish.mirror_dir->0@
    &&& target.mirror_source_subdir == source.config.publish.mirror_source_subdir
}

/// Those of the sources of `steps` that name a mirror directory, in their
/// order.
pub open spec fn mirrored(sources: Seq<LoadedSource>, steps: Seq<int>) -> Seq<int> {
    steps.filter(
        |i: int| 0 <= i < sources.len() && sources[i].config.publish.mirror_dir is Some,
    )
}

/// Whether `targets` says where the calendars of the sources of `steps` are
/// published, one target for each source that names a mirror directory.
pub open spec fn run_published(
    targets: Seq<PublishTarget>,
    sources: Seq<LoadedSource>,
    steps: Seq<int>,
) -> bool {
    let wanted = mirrored(sources, steps);
    &&& targets.len() == wanted.len()
    &&& forall|k: int|
        0 <= k < targets.len() ==> 0 <= #[trigger] wanted[k] < sources.len() && is_target_of(
            targets[k],
            sources[wanted[k]],
            wanted[k],
        )
}

/// Says where the calendars that exist are published: for each of the
/// sources that the options ask for, in ascending order of their keys, the
/// mirror directory that it names. A source that names none is passed
/// over. No source that matches is an error.
pub fn publish_existing_calendars(options: &PublishOptions, sources: &Vec<LoadedSource>) -> (r:
    Result<Vec<PublishTarget>, SyncError>)
    ensures
        match r {
            Ok(targets) => run_order(sources@, opt_view(options.source), sources.len() as int).len()
                > 0 && run_published(
                targets@,
                sources@,
                run_order(sources@, opt_view(options.source), sources.len() as int),
            ),
            Err(e) => e is NoMatchingSources && run_order(
                sources@,
                opt_view(options.source),
                sources.len() as int,
            ).len() == 0,
        },
{
    let order = match select_sources(sources, &options.source) {
        Ok(o) => o,
        Err(e) => {
            return Err(e);
        },
    };
    let ghost all = index_views(order@);
    let ghost wanted = |i: int| 0 <= i < sources.len() && sources@[i].config.publish.mirror_dir is Some;
    let mut targets: Vec<PublishTarget> = Vec::new();
    let mut k: usize = 0;
    proof {
        reveal(Seq::filter);
        assert(all.take(0) =~= Seq::<int>::empty());
    }
    while k < order.len()
        invariant
            k <= order.len(),
            all == index_views(order@),
            wanted == |i: int|
                0 <= i < sources.len() && sources@[i].config.publish.mirror_dir is Some,
            forall|i: int| 0 <= i < order.len() ==> #[trigger] order@[i] < sources.len(),
            targets.len() == all.take(k as int).filter(wanted).len(),
            forall|j: int|
                0 <= j < targets.len() ==> 0 <= #[trigger] all.take(k as int).filter(wanted)[j]
                    < sources.len() && is_target_of(
                    targets@[j],
                    sources@[all.take(k as int).filter(wanted)[j]],
                    all.take(k as int).filter(wanted)[j],
                ),
        decreases order.len() - k,
    {
        let index = order[k];
        let ghost front = all.take(k as int);
        proof {
            assert(all[k as int] == index as int);
            assert(all.take(k + 1) =~= front.push(index as int));
            front.lemma_filter_push(index as int, wanted);
        }
        let source = &sources[index];
        match &source.config.publish.mirror_dir {
            Some(dir) => {
                targets.push(
                    PublishTarget {
                        index,
                        file_prefix: source.config.sanitized_source_dir_name(),
                        mirror_dir: dir.clone(),
                        mirror_source_subdir: source.config.publish.mirror_source_subdir,
                    },
                );
            },
            None => {},
        }
        k += 1;
    }
    assert(all.take(k as int) =~= all);
    Ok(targets)
}

} // verus!
