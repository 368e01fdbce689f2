//! The rebuild of a source's calendars: which years are written, what each
//! file holds, and which years the cleanup keeps.

use vstd::prelude::*;
use crate::config::{path_safe, LoadedSource, SourceConfig};
use crate::ics::{calendar_file, calendar_text, views_of};
use crate::merge::{is_cancelled, status_is_cancelled};
use crate::model::{EventRecord, RecordView};
use crate::naming::{source_ics_filename, source_ics_name};
use crate::state::State;
use crate::text::{
    lemma_str_lt_asymmetric, lemma_str_lt_irreflexive, lemma_str_lt_total,
    lemma_str_lt_transitive, str_less, str_lt,
};
use crate::time::CalendarDate;
use crate::years::YearSet;

verus! {

// ---------------------------------------------------------------------------
// The order of the events of a calendar
// ---------------------------------------------------------------------------

/// The day by which a record is sorted: its first day, or the last day of
/// the year 9999 where it has none.
pub open spec fn sort_date(r: RecordView) -> CalendarDate {
    match r.content.time.start_date() {
        Some(d) => d,
        None => CalendarDate { year: 9999, month: 12, day: 31 },
    }
}

/// Whether `a` stands before `b` in a calendar: by the first day, then by
/// the identifier.
pub open spec fn comes_before(a: RecordView, b: RecordView) -> bool {
    sort_date(a).before(sort_date(b)) || (sort_date(a) == sort_date(b) && str_lt(a.uid, b.uid))
}

/// No record stands after one that comes before it.
pub open spec fn sorted_by_start(records: Seq<RecordView>) -> bool {
    forall|i: int, j: int|
        0 <= i < j < records.len() ==> !comes_before(#[trigger] records[j], #[trigger] records[i])
}

/// The index at which `r` is put into a sorted sequence: behind the leading
/// records that come before it.
pub open spec fn place_for(sorted: Seq<RecordView>, r: RecordView) -> int
    decreases sorted.len(),
{
    if sorted.len() > 0 && comes_before(sorted[0], r) {
        1 + place_for(sorted.drop_first(), r)
    } else {
        0
    }
}

/// The records in the order of a calendar.
pub open spec fn in_order(records: Seq<RecordView>) -> Seq<RecordView>
    decreases records.len(),
{
    if records.len() == 0 {
        Seq::<RecordView>::empty()
    } else {
        let sorted = in_order(records.drop_last());
        sorted.insert(place_for(sorted, records.last()), records.last())
    }
}

pub proof fn lemma_place_for(sorted: Seq<RecordView>, r: RecordView)
    ensures
        0 <= place_for(sorted, r) <= sorted.len(),
        forall|k: int| 0 <= k < place_for(sorted, r) ==> comes_before(#[trigger] sorted[k], r),
        place_for(sorted, r) < sorted.len() ==> !comes_before(sorted[place_for(sorted, r)], r),
    decreases sorted.len(),
{
    if sorted.len() > 0 && comes_before(sorted[0], r) {
        let rest = sorted.drop_first();
        lemma_place_for(rest, r);
        assert forall|k: int| 0 <= k < place_for(sorted, r) implies comes_before(
            #[trigger] sorted[k],
            r,
        ) by {
            if k > 0 {
                assert(sorted[k] == rest[k - 1]);
            }
        }
        if place_for(sorted, r) < sorted.len() {
            assert(sorted[place_for(sorted, r)] == rest[place_for(rest, r)]);
        }
    }
}

/// What does not come before keeps not coming before along the order.
pub proof fn lemma_order_is_weak(a: RecordView, b: RecordView, c: RecordView)
    requires
        !comes_before(a, b),
        !comes_before(b, c),
    ensures
        !comes_before(a, c),
{
    let da = sort_date(a);
    let db = sort_date(b);
    let dc = sort_date(c);
    if da == db && db == dc {
        lemma_str_lt_total(a.uid, b.uid);
        lemma_str_lt_total(b.uid, c.uid);
        if str_lt(a.uid, c.uid) {
            if a.uid == b.uid {
            } else if b.uid == c.uid {
            } else {
                lemma_str_lt_transitive(c.uid, b.uid, a.uid);
                lemma_str_lt_asymmetric(a.uid, c.uid);
            }
        }
    }
}

/// The order of a calendar is sorted and holds the records given, no more
/// and no fewer.
pub proof fn lemma_in_order(records: Seq<RecordView>)
    ensures
        sorted_by_start(in_order(records)),
        in_order(records).len() == records.len(),
        forall|r: RecordView| in_order(records).contains(r) <==> records.contains(r),
    decreases records.len(),
{
    if records.len() > 0 {
        let front = records.drop_last();
        let last = records.last();
        let sorted = in_order(front);
        let p = place_for(sorted, last);
        let out = in_order(records);
        lemma_in_order(front);
        lemma_place_for(sorted, last);
        assert forall|i: int, j: int| 0 <= i < j < out.len() implies !comes_before(
            #[trigger] out[j],
            #[trigger] out[i],
        ) by {
            if j < p {
                assert(out[i] == sorted[i] && out[j] == sorted[j]);
            } else if j == p {
                assert(out[i] == sorted[i]);
                assert(comes_before(sorted[i], last));
                lemma_comes_before_asymmetric(sorted[i], last);
            } else if i < p {
                assert(out[i] == sorted[i] && out[j] == sorted[j - 1]);
            } else if i == p {
                assert(out[j] == sorted[j - 1]);
                if j - 1 > p {
                    assert(!comes_before(sorted[j - 1], sorted[p]));
                } else {
                    lemma_comes_before_irreflexive(sorted[p]);
                }
                lemma_order_is_weak(sorted[j - 1], sorted[p], last);
            } else {
                assert(out[i] == sorted[i - 1] && out[j] == sorted[j - 1]);
            }
        }
        assert forall|r: RecordView| out.contains(r) <==> records.contains(r) by {
            if out.contains(r) {
                let k = choose|k: int| 0 <= k < out.len() && out[k] == r;
                if k < p {
                    assert(sorted[k] == r);
                    assert(sorted.contains(r));
                } else if k > p {
                    assert(sorted[k - 1] == r);
                    assert(sorted.contains(r));
                } else {
                    assert(records[records.len() - 1] == r);
                }
                if sorted.contains(r) {
                    assert(front.contains(r));
                    let m = choose|m: int| 0 <= m < front.len() && front[m] == r;
                    assert(records[m] == r);
                }
            }
            if records.contains(r) {
                let m = choose|m: int| 0 <= m < records.len() && records[m] == r;
                if m < front.len() {
                    assert(front[m] == r);
                    assert(front.contains(r));
                    assert(sorted.contains(r));
                    let k = choose|k: int| 0 <= k < sorted.len() && sorted[k] == r;
                    if k < p {
                        assert(out[k] == r);
                    } else {
                        assert(out[k + 1] == r);
                    }
                } else {
                    assert(out[p] == r);
                }
            }
        }
    }
}

pub proof fn lemma_comes_before_irreflexive(a: RecordView)
    ensures
        !comes_before(a, a),
{
    lemma_str_lt_irreflexive(a.uid);
}

pub proof fn lemma_comes_before_asymmetric(a: RecordView, b: RecordView)
    requires
        comes_before(a, b),
    ensures
        !comes_before(b, a),
{
    if sort_date(a) == sort_date(b) {
        lemma_str_lt_asymmetric(a.uid, b.uid);
    }
}

/// The day by which a record is sorted.
pub fn sort_date_of(r: &EventRecord) -> (d: CalendarDate)
    ensures
        d == sort_date(r@),
{
    match r.time.start_date() {
        Some(d) => d,
        None => CalendarDate { year: 9999, month: 12, day: 31 },
    }
}

/// Whether `a` stands before `b` in a calendar.
pub fn stands_before(a: &EventRecord, b: &EventRecord) -> (r: bool)
    ensures
        r == comes_before(a@, b@),
{
    let da = sort_date_of(a);
    let db = sort_date_of(b);
    if da.is_before(&db) {
        true
    } else if db.is_before(&da) {
        false
    } else {
        str_less(a.uid.as_str(), b.uid.as_str())
    }
}

/// Puts the records into the order of a calendar.
pub fn sort_records<'a>(records: &Vec<&'a EventRecord>) -> (out: Vec<&'a EventRecord>)
    ensures
        views_of(out@) == in_order(views_of(records@)),
        forall|i: int|
            0 <= i < out.len() ==> exists|j: int|
                0 <= j < records.len() && #[trigger] records@[j] == #[trigger] out@[i],
{
    let mut out: Vec<&'a EventRecord> = Vec::new();
    let mut i: usize = 0;
    assert(views_of(records@).take(0) =~= Seq::<RecordView>::empty());
    assert(views_of(out@) =~= Seq::<RecordView>::empty());
    while i < records.len()
        invariant
            i <= records.len(),
            views_of(out@) == in_order(views_of(records@).take(i as int)),
            forall|k: int|
                0 <= k < out.len() ==> exists|j: int|
                    0 <= j < records.len() && #[trigger] records@[j] == #[trigger] out@[k],
        decreases records.len() - i,
    {
        let r = records[i];
        let ghost sorted = views_of(out@);
        let ghost before = out@;
        let mut p: usize = 0;
        assert(sorted.skip(0) =~= sorted);
        while p < out.len() && stands_before(out[p], r)
            invariant
                p <= out.len(),
                sorted == views_of(out@),
                place_for(sorted, r@) == p + place_for(sorted.skip(p as int), r@),
            decreases out.len() - p,
        {
            assert(sorted.skip(p as int)[0] == sorted[p as int]);
            assert(sorted.skip(p as int).drop_first() =~= sorted.skip(p + 1));
            p += 1;
        }
        proof {
            if p < out.len() {
                assert(sorted.skip(p as int)[0] == sorted[p as int]);
            }
        }
        out.insert(p, r);
        i += 1;
        proof {
            let now = views_of(records@).take(i as int);
            assert(now.drop_last() =~= views_of(records@).take(i - 1));
            assert(now.last() == r@);
            assert(views_of(out@) =~= sorted.insert(p as int, r@));
            assert forall|k: int| 0 <= k < out.len() implies exists|j: int|
                0 <= j < records.len() && #[trigger] records@[j] == #[trigger] out@[k] by {
                if k < p {
                    assert(out@[k] == before[k]);
                } else if k > p {
                    assert(out@[k] == before[k - 1]);
                } else {
                    assert(records@[i - 1] == out@[k]);
                }
            }
        }
    }
    assert(views_of(records@).take(i as int) =~= views_of(records@));
    out
}

// ---------------------------------------------------------------------------
// The years of a source
// ---------------------------------------------------------------------------

/// Whether the record belongs to the source and is filed under `year`.
pub open spec fn in_year(r: RecordView, source_key: Seq<char>, year: i32) -> bool {
    r.content.source_key == source_key && r.year_bucket() == Some(year)
}

/// Whether the record is listed in the calendar of `year` of the source: it
/// belongs to the source, is filed under the year and is not cancelled.
pub open spec fn listed(r: RecordView, source_key: Seq<char>, year: i32) -> bool {
    in_year(r, source_key, year) && !is_cancelled(r.content.status)
}

/// Whether `year` passes the filter.
pub open spec fn passes(filter: Option<i32>, year: i32) -> bool {
    match filter {
        Some(y) => y == year,
        None => true,
    }
}

/// The years that the cleanup keeps: those under which the state files a
/// record of the source, cancelled or not, and that pass the filter.
pub open spec fn kept_years(
    records: Seq<RecordView>,
    source_key: Seq<char>,
    filter: Option<i32>,
) -> Set<i32> {
    Set::new(
        |year: i32|
            passes(filter, year) && exists|i: int|
                0 <= i < records.len() && in_year(#[trigger] records[i], source_key, year),
    )
}

/// Whether `year` is among the changed years, where the rebuild is limited
/// to those.
pub open spec fn touched(changed: Option<Set<i32>>, year: i32) -> bool {
    match changed {
        Some(s) => s.contains(year),
        None => true,
    }
}

/// The years whose calendar is written: those in whose calendar a record of
/// the source is listed, that pass the filter and are among the changed
/// ones. A year whose records are all cancelled is not among them.
pub open spec fn target_years(
    records: Seq<RecordView>,
    source_key: Seq<char>,
    filter: Option<i32>,
    changed: Option<Set<i32>>,
) -> Set<i32> {
    Set::new(
        |year: i32|
            passes(filter, year) && touched(changed, year) && exists|i: int|
                0 <= i < records.len() && listed(#[trigger] records[i], source_key, year),
    )
}

/// The records listed in the calendar of `year`, in the order of the state.
pub open spec fn year_records(records: Seq<RecordView>, source_key: Seq<char>, year: i32) -> Seq<
    RecordView,
>
    decreases records.len(),
{
    if records.len() == 0 {
        Seq::<RecordView>::empty()
    } else if listed(records.last(), source_key, year) {
        year_records(records.drop_last(), source_key, year).push(records.last())
    } else {
        year_records(records.drop_last(), source_key, year)
    }
}

/// The text of the calendar of `year` of a source, as the state has it.
pub open spec fn year_calendar(
    records: Seq<RecordView>,
    source_key: Seq<char>,
    source_name: Seq<char>,
    year: i32,
) -> Seq<char> {
    calendar_file(source_name, year as int, in_order(year_records(records, source_key, year)))
}

/// The years that the cleanup keeps for a source.
pub fn years_to_keep(state: &State, source_key: &str, filter: Option<i32>) -> (kept: YearSet)
    requires
        state.wf(),
    ensures
        kept.wf(),
        kept@ == kept_years(state.records(), source_key@, filter),
{
    let mut kept = YearSet::new();
    let n = state.len();
    let mut i: usize = 0;
    let ghost records = state.records();
    while i < n
        invariant
            i <= n,
            n == records.len(),
            n == state.uids().len(),
            state.wf(),
            records == state.records(),
            kept.wf(),
            forall|y: i32| #[trigger]
                kept@.contains(y) <==> (passes(filter, y) && exists|k: int|
                    0 <= k < i && in_year(#[trigger] records[k], source_key@, y)),
        decreases n - i,
    {
        let r = state.record_at(i);
        let ghost before = kept@;
        let mut added: Option<i32> = None;
        if *r.source_key.as_str() == *source_key {
            match r.year_bucket() {
                Some(y) => {
                    let pass = match filter {
                        Some(f) => f == y,
                        None => true,
                    };
                    if pass {
                        kept.insert(y);
                        added = Some(y);
                    }
                },
                None => {},
            }
        }
        i += 1;
        proof {
            assert forall|y: i32|
                kept@.contains(y) <==> (passes(filter, y) && exists|k: int|
                    0 <= k < i && in_year(#[trigger] records[k], source_key@, y)) by {
                if kept@.contains(y) {
                    if before.contains(y) {
                        let k = choose|k: int|
                            0 <= k < i - 1 && in_year(#[trigger] records[k], source_key@, y);
                        assert(0 <= k < i && in_year(records[k], source_key@, y));
                    } else {
                        assert(in_year(records[i - 1], source_key@, y));
                    }
                }
                if passes(filter, y) && exists|k: int|
                    0 <= k < i && in_year(#[trigger] records[k], source_key@, y) {
                    let k = choose|k: int|
                        0 <= k < i && in_year(#[trigger] records[k], source_key@, y);
                    if k < i - 1 {
                        assert(before.contains(y));
                    }
                }
            }
        }
    }
    assert(kept@ =~= kept_years(records, source_key@, filter));
    kept
}

/// The records of the state that are listed in the calendar of `year`.
pub fn records_of_year<'a>(state: &'a State, source_key: &str, year: i32) -> (out: Vec<
    &'a EventRecord,
>)
    requires
        state.wf(),
    ensures
        views_of(out@) == year_records(state.records(), source_key@, year),
        forall|i: int| 0 <= i < out.len() ==> (#[trigger] out@[i]).wf(),
{
    let mut out: Vec<&'a EventRecord> = Vec::new();
    let n = state.len();
    let mut i: usize = 0;
    let ghost records = state.records();
    assert(records.take(0) =~= Seq::<RecordView>::empty());
    assert(views_of(out@) =~= Seq::<RecordView>::empty());
    while i < n
        invariant
            i <= n,
            n == records.len(),
            n == state.uids().len(),
            state.wf(),
            records == state.records(),
            views_of(out@) == year_records(records.take(i as int), source_key@, year),
            forall|k: int| 0 <= k < out.len() ==> (#[trigger] out@[k]).wf(),
        decreases n - i,
    {
        let r = state.record_at(i);
        let same_year = match r.year_bucket() {
            Some(y) => y == year,
            None => false,
        };
        let ghost before = views_of(out@);
        if *r.source_key.as_str() == *source_key && same_year && !status_is_cancelled(
            r.status.as_str(),
        ) {
            out.push(r);
            assert(views_of(out@) =~= before.push(r@));
        }
        i += 1;
        proof {
            let now = records.take(i as int);
            assert(now.drop_last() =~= records.take(i - 1));
            assert(now.last() == r@);
        }
    }
    assert(records.take(n as int) =~= records);
    out
}

// ---------------------------------------------------------------------------
// The plan
// ---------------------------------------------------------------------------

/// One calendar file to write.
#[derive(Clone, Debug)]
pub struct CalendarFile {
    pub year: i32,
    pub file_name: String,
    pub content: String,
}

/// What the rebuild of a source's calendars amounts to: the directory of
/// the source, the files to write into it, and the years that the cleanup
/// keeps.
#[derive(Clone, Debug)]
pub struct RebuildPlan {
    pub directory: String,
    pub files: Vec<CalendarFile>,
    pub kept_years: YearSet,
}

/// The years of the files of a plan.
pub open spec fn written_years(files: Seq<CalendarFile>) -> Set<i32> {
    Set::new(|y: i32| exists|i: int| 0 <= i < files.len() && (#[trigger] files[i]).year == y)
}

/// The text of the calendar file of one year of one source.
pub fn write_source_year_calendar(source: &SourceConfig, year: i32, events: &Vec<&EventRecord>) -> (out:
    String)
    requires
        forall|i: int| 0 <= i < events.len() ==> (#[trigger] events@[i]).wf(),
    ensures
        out@ == calendar_file(source.source.name@, year as int, views_of(events@)),
{
    calendar_text(source.source.name.as_str(), year, events)
}

/// Whether the file is the calendar of its year, as the state has it.
pub open spec fn file_is_current(file: CalendarFile, state: State, source: LoadedSource) -> bool {
    &&& file.file_name@ == source_ics_name(
        source,
        path_safe(source.config.source.key@),
        file.year as int,
    )
    &&& file.content@ == year_calendar(
        state.records(),
        source.config.source.key@,
        source.config.source.name@,
        file.year,
    )
}

/// The years of the files, in the order of the files.
pub open spec fn file_years(files: Seq<CalendarFile>) -> Seq<i32> {
    files.map_values(|f: CalendarFile| f.year)
}

/// Whether the calendar of `year` is written where the year is kept: the
/// year is among the changed ones and a record is listed in its calendar.
pub open spec fn is_written(
    records: Seq<RecordView>,
    source_key: Seq<char>,
    changed: Option<Set<i32>>,
    year: i32,
) -> bool {
    touched(changed, year) && year_records(records, source_key, year).len() > 0
}

/// The years among `years` whose calendar is written, in their order.
pub open spec fn chosen(
    years: Seq<i32>,
    records: Seq<RecordView>,
    source_key: Seq<char>,
    changed: Option<Set<i32>>,
) -> Seq<i32>
    decreases years.len(),
{
    if years.len() == 0 {
        Seq::<i32>::empty()
    } else if is_written(records, source_key, changed, years.last()) {
        chosen(years.drop_last(), records, source_key, changed).push(years.last())
    } else {
        chosen(years.drop_last(), records, source_key, changed)
    }
}

proof fn lemma_chosen(
    years: Seq<i32>,
    records: Seq<RecordView>,
    source_key: Seq<char>,
    changed: Option<Set<i32>>,
)
    requires
        forall|a: int, b: int| 0 <= a < b < years.len() ==> years[a] < years[b],
    ensures
        forall|a: int, b: int|
            0 <= a < b < chosen(years, records, source_key, changed).len() ==> chosen(
                years,
                records,
                source_key,
                changed,
            )[a] < chosen(years, records, source_key, changed)[b],
        forall|y: i32|
            chosen(years, records, source_key, changed).contains(y) <==> (years.contains(y)
                && is_written(records, source_key, changed, y)),
        forall|a: int|
            0 <= a < chosen(years, records, source_key, changed).len() ==> years.contains(
                #[trigger] chosen(years, records, source_key, changed)[a],
            ),
    decreases years.len(),
{
    if years.len() > 0 {
        let front = years.drop_last();
        let last = years.last();
        let out = chosen(years, records, source_key, changed);
        let prev = chosen(front, records, source_key, changed);
        lemma_chosen(front, records, source_key, changed);
        assert forall|y: i32| front.contains(y) implies y < last && years.contains(y) by {
            let k = choose|k: int| 0 <= k < front.len() && front[k] == y;
            assert(years[k] == y);
        }
        assert(years[years.len() - 1] == last);
        assert forall|a: int| 0 <= a < prev.len() implies #[trigger] prev[a] < last by {
            assert(front.contains(prev[a]));
        }
        assert forall|y: i32|
            out.contains(y) <==> (years.contains(y) && is_written(
                records,
                source_key,
                changed,
                y,
            )) by {
            if out.contains(y) {
                let k = choose|k: int| 0 <= k < out.len() && out[k] == y;
                if k < prev.len() {
                    assert(prev[k] == y);
                    assert(prev.contains(y));
                }
            }
            if years.contains(y) && is_written(records, source_key, changed, y) {
                let k = choose|k: int| 0 <= k < years.len() && years[k] == y;
                if k < front.len() {
                    assert(front[k] == y);
                    assert(front.contains(y));
                    assert(prev.contains(y));
                    let m = choose|m: int| 0 <= m < prev.len() && prev[m] == y;
                    assert(out[m] == y);
                } else {
                    assert(out[out.len() - 1] == y);
                }
            }
        }
        assert forall|a: int| 0 <= a < out.len() implies years.contains(#[trigger] out[a]) by {
            assert(out.contains(out[a]));
        }
    }
}

/// The calendar file of one year of a source; none where no record is
/// listed in the calendar of the year.
fn plan_year(state: &State, source: &LoadedSource, prefix: &str, year: i32) -> (r: Option<
    CalendarFile,
>)
    requires
        state.wf(),
        source.config.wf(),
        prefix@ == path_safe(source.config.source.key@),
    ensures
        match r {
            Some(file) => file.year == year && file_is_current(file, *state, *source)
                && year_records(state.records(), source.config.source.key@, year).len() > 0,
            None => year_records(state.records(), source.config.source.key@, year).len() == 0,
        },
{
    let events = records_of_year(state, source.config.source.key.as_str(), year);
    assert(views_of(events@).len() == events.len());
    if events.len() == 0 {
        return None;
    }
    let sorted = sort_records(&events);
    proof {
        assert forall|k: int| 0 <= k < sorted.len() implies (#[trigger] sorted@[k]).wf() by {
            let j = choose|j: int| 0 <= j < events.len() && #[trigger] events@[j] == sorted@[k];
        }
    }
    let content = write_source_year_calendar(&source.config, year, &sorted);
    let file_name = source_ics_filename(source, prefix, year);
    Some(CalendarFile { year, file_name, content })
}

/// Whether the plan is the rebuild of the calendars of the source from the
/// state: it names the directory of the source and the years that the
/// cleanup keeps; its files come in ascending order of their years, one for
/// every year whose calendar is written, which is a year with a record that
/// is not cancelled; and every file is current.
pub open spec fn plan_is_for(
    plan: RebuildPlan,
    state: State,
    source: LoadedSource,
    year_filter: Option<i32>,
    changed: Option<Set<i32>>,
) -> bool {
    &&& plan.directory@ == path_safe(source.config.source.key@)
    &&& plan.kept_years.wf()
    &&& plan.kept_years@ == kept_years(state.records(), source.config.source.key@, year_filter)
    &&& forall|i: int, j: int|
        0 <= i < j < plan.files.len() ==> (#[trigger] plan.files@[i]).year < (
        #[trigger] plan.files@[j]).year
    &&& written_years(plan.files@) == target_years(
        state.records(),
        source.config.source.key@,
        year_filter,
        changed,
    )
    &&& forall|i: int|
        0 <= i < plan.files.len() ==> file_is_current(#[trigger] plan.files@[i], state, source)
}

/// Where a rebuild is limited to changed years, it writes the calendar of no
/// other year.
pub proof fn lemma_only_changed_years_are_written(
    plan: RebuildPlan,
    state: State,
    source: LoadedSource,
    year_filter: Option<i32>,
    changed: Set<i32>,
)
    requires
        plan_is_for(plan, state, source, year_filter, Some(changed)),
    ensures
        forall|i: int|
            0 <= i < plan.files.len() ==> changed.contains((#[trigger] plan.files@[i]).year),
        forall|i: int|
            0 <= i < plan.files.len() ==> passes(year_filter, (#[trigger] plan.files@[i]).year),
{
    assert forall|i: int| 0 <= i < plan.files.len() implies changed.contains(
        (#[trigger] plan.files@[i]).year,
    ) && passes(year_filter, plan.files@[i].year) by {
        assert(written_years(plan.files@).contains(plan.files@[i].year));
    }
}

/// The events of every calendar that a rebuild writes stand in ascending
/// order of their first day and, within a day, of their identifier; none of
/// them is cancelled, and all belong to the source and the year.
pub proof fn lemma_calendar_is_sorted(records: Seq<RecordView>, source_key: Seq<char>, year: i32)
    ensures
        sorted_by_start(in_order(year_records(records, source_key, year))),
        forall|i: int|
            0 <= i < in_order(year_records(records, source_key, year)).len() ==> listed(
                #[trigger] in_order(year_records(records, source_key, year))[i],
                source_key,
                year,
            ),
{
    let chosen_records = year_records(records, source_key, year);
    lemma_in_order(chosen_records);
    lemma_year_records(records, source_key, year);
    assert forall|i: int| 0 <= i < in_order(chosen_records).len() implies listed(
        #[trigger] in_order(chosen_records)[i],
        source_key,
        year,
    ) by {
        let sorted = in_order(chosen_records);
        let r = sorted[i];
        assert(sorted.contains(r));
        assert(chosen_records.contains(r) <==> sorted.contains(r));
        assert(chosen_records.contains(r));
        assert(year_records(records, source_key, year).contains(r) <==> (records.contains(r)
            && listed(r, source_key, year)));
    }
}

/// The records of a year are those of the state that are listed in it.
pub proof fn lemma_year_records(records: Seq<RecordView>, source_key: Seq<char>, year: i32)
    ensures
        forall|r: RecordView|
            year_records(records, source_key, year).contains(r) <==> (records.contains(r)
                && listed(r, source_key, year)),
    decreases records.len(),
{
    if records.len() > 0 {
        let front = records.drop_last();
        let last = records.last();
        let out = year_records(records, source_key, year);
        let prev = year_records(front, source_key, year);
        lemma_year_records(front, source_key, year);
        assert forall|r: RecordView|
            out.contains(r) <==> (records.contains(r) && listed(r, source_key, year)) by {
            if out.contains(r) {
                let k = choose|k: int| 0 <= k < out.len() && out[k] == r;
                if k < prev.len() {
                    assert(prev[k] == r);
                    assert(prev.contains(r));
                    assert(front.contains(r));
                    let m = choose|m: int| 0 <= m < front.len() && front[m] == r;
                    assert(records[m] == r);
                } else {
                    assert(records[records.len() - 1] == r);
                }
            }
            if records.contains(r) && listed(r, source_key, year) {
                let m = choose|m: int| 0 <= m < records.len() && records[m] == r;
                if m < front.len() {
                    assert(front[m] == r);
                    assert(front.contains(r));
                    assert(prev.contains(r));
                    let k = choose|k: int| 0 <= k < prev.len() && prev[k] == r;
                    assert(out[k] == r);
                } else {
                    assert(out[out.len() - 1] == r);
                }
            }
        }
    }
}

/// A record is listed in the calendar of a year exactly where the state has
/// a record that is listed in it.
proof fn lemma_some_listed(records: Seq<RecordView>, key: Seq<char>, year: i32)
    ensures
        year_records(records, key, year).len() > 0 <==> exists|m: int|
            0 <= m < records.len() && listed(#[trigger] records[m], key, year),
{
    lemma_year_records(records, key, year);
    let found = year_records(records, key, year);
    if found.len() > 0 {
        let r = found[0];
        assert(found.contains(r));
        assert(year_records(records, key, year).contains(r) <==> (records.contains(r) && listed(
            r,
            key,
            year,
        )));
        let m = choose|m: int| 0 <= m < records.len() && records[m] == r;
        assert(listed(records[m], key, year));
    }
    if exists|m: int| 0 <= m < records.len() && listed(#[trigger] records[m], key, year) {
        let m = choose|m: int| 0 <= m < records.len() && listed(#[trigger] records[m], key, year);
        let r = records[m];
        assert(records.contains(r));
        assert(year_records(records, key, year).contains(r) <==> (records.contains(r) && listed(
            r,
            key,
            year,
        )));
        assert(found.contains(r));
    }
}

/// The files of a plan are those of the years whose calendar is written,
/// in ascending order.
proof fn lemma_files_are_targets(
    files: Seq<CalendarFile>,
    years: Seq<i32>,
    kept: Set<i32>,
    records: Seq<RecordView>,
    key: Seq<char>,
    year_filter: Option<i32>,
    changed: Option<Set<i32>>,
)
    requires
        forall|a: int, b: int| 0 <= a < b < years.len() ==> years[a] < years[b],
        forall|y: i32| years.contains(y) <==> kept.contains(y),
        kept == kept_years(records, key, year_filter),
        file_years(files) == chosen(years, records, key, changed),
    ensures
        forall|a: int, b: int|
            0 <= a < b < files.len() ==> (#[trigger] files[a]).year < (#[trigger] files[b]).year,
        written_years(files) == target_years(records, key, year_filter, changed),
{
    lemma_chosen(years, records, key, changed);
    let fy = file_years(files);
    let target = target_years(records, key, year_filter, changed);
    assert forall|a: int, b: int| 0 <= a < b < files.len() implies (#[trigger] files[a]).year < (
    #[trigger] files[b]).year by {
        assert(fy[a] == files[a].year && fy[b] == files[b].year);
    }
    assert forall|y: i32| written_years(files).contains(y) <==> target.contains(y) by {
        lemma_some_listed(records, key, y);
        if written_years(files).contains(y) {
            let a = choose|a: int| 0 <= a < files.len() && (#[trigger] files[a]).year == y;
            assert(fy[a] == y);
            assert(fy.contains(y));
            assert(chosen(years, records, key, changed).contains(y));
            assert(years.contains(y));
            assert(kept.contains(y));
            assert(is_written(records, key, changed, y));
        }
        if target.contains(y) {
            let m = choose|m: int| 0 <= m < records.len() && listed(#[trigger] records[m], key, y);
            assert(in_year(records[m], key, y));
            assert(kept_years(records, key, year_filter).contains(y));
            assert(years.contains(y));
            assert(is_written(records, key, changed, y));
            assert(chosen(years, records, key, changed).contains(y));
            assert(fy.contains(y));
            let a = choose|a: int| 0 <= a < fy.len() && fy[a] == y;
            assert(files[a].year == y);
        }
    }
    assert(written_years(files) =~= target);
}

/// Plans the rebuild of the calendars of a source.
///
/// A calendar is written for every year under which the state files a record
/// of the source that is not cancelled, that passes the year filter and,
/// where changed years are given, is among them. The files come in ascending
/// order of their years. Each holds the records of its year that are not
/// cancelled, sorted by their first day and then by their identifier. The
/// cleanup keeps the years under which the state files any record of the
/// source, cancelled or not.
pub fn rebuild_source_calendars(
    state: &State,
    source: &LoadedSource,
    year_filter: Option<i32>,
    changed_years: Option<&YearSet>,
) -> (plan: RebuildPlan)
    requires
        state.wf(),
        source.config.wf(),
    ensures
        plan_is_for(
            plan,
            *state,
            *source,
            year_filter,
            match changed_years {
                Some(c) => Some(c@),
                None => None,
            },
        ),
{
    let prefix = source.config.sanitized_source_dir_name();
    let kept = years_to_keep(state, source.config.source.key.as_str(), year_filter);
    let ghost changed = match changed_years {
        Some(c) => Some(c@),
        None => None,
    };
    let ghost years = kept.seq();
    let ghost records = state.records();
    let ghost key = source.config.source.key@;
    let mut files: Vec<CalendarFile> = Vec::new();
    let mut i: usize = 0;
    assert(years.take(0) =~= Seq::<i32>::empty());
    assert(file_years(files@) =~= Seq::<i32>::empty());
    while i < kept.len()
        invariant
            i <= years.len(),
            state.wf(),
            source.config.wf(),
            years == kept.seq(),
            prefix@ == path_safe(source.config.source.key@),
            changed == (match changed_years {
                Some(c) => Some(c@),
                None => None,
            }),
            records == state.records(),
            key == source.config.source.key@,
            file_years(files@) == chosen(years.take(i as int), records, key, changed),
            forall|a: int|
                0 <= a < files.len() ==> file_is_current(#[trigger] files@[a], *state, *source),
        decreases years.len() - i,
    {
        let year = kept.year_at(i);
        let wanted = match changed_years {
            Some(c) => c.contains(year),
            None => true,
        };
        let ghost before = file_years(files@);
        if wanted {
            match plan_year(state, source, prefix.as_str(), year) {
                Some(file) => {
                    files.push(file);
                    assert(file_years(files@) =~= before.push(year));
                },
                None => {},
            }
        }
        i += 1;
        proof {
            let now = years.take(i as int);
            assert(now.drop_last() =~= years.take(i - 1));
            assert(now.last() == year);
        }
    }
    proof {
        assert(years.take(i as int) =~= years);
        kept.lemma_seq();
        lemma_files_are_targets(files@, years, kept@, records, key, year_filter, changed);
    }
    RebuildPlan { directory: prefix, files, kept_years: kept }
}

} // verus!
