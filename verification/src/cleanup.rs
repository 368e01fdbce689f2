//! Which files of a directory of calendars go, and which are handed on, when
//! the calendars of a source are rebuilt or published.

use vstd::prelude::*;
use crate::config::LoadedSource;
use crate::naming::{
    cleanup_decision, cleanup_of, extract_year_from_any_ics_filename, ics_name, is_calendar_file,
    is_calendar_name, is_superseded, lemma_cleanup_keeps_kept_years, superseded, year_of_name,
    Cleanup,
};
use crate::rebuild::{kept_years, plan_is_for, RebuildPlan};
use crate::state::State;
use crate::text::views;
use crate::years::YearSet;

verus! {

/// Whether the cleanup removes a file, given the years that are kept.
pub open spec fn is_removed(file_name: Seq<char>, file_prefix: Seq<char>, kept: Set<i32>) -> bool {
    cleanup_of(file_name, file_prefix, kept) != Cleanup::Keep
}

/// The files that the cleanup removes, in the order of the listing.
pub open spec fn stale_files(names: Seq<Seq<char>>, file_prefix: Seq<char>, kept: Set<i32>) -> Seq<
    Seq<char>,
> {
    names.filter(|n: Seq<char>| is_removed(n, file_prefix, kept))
}

/// Picks from the listing of a source's directory the files that go: the
/// calendars of the old layout, and the calendars named `<prefix>-<year>.ics`
/// of years that are not kept. Every other file stays.
pub fn cleanup_stale_year_files(file_names: &Vec<String>, file_prefix: &str, kept: &YearSet) -> (out:
    Vec<String>)
    ensures
        views(out@) == stale_files(views(file_names@), file_prefix@, kept@),
{
    let ghost wanted = |n: Seq<char>| is_removed(n, file_prefix@, kept@);
    let mut out: Vec<String> = Vec::new();
    let mut i: usize = 0;
    proof {
        reveal(Seq::filter);
        assert(views(file_names@).take(0) =~= Seq::<Seq<char>>::empty());
        assert(views(out@) =~= Seq::<Seq<char>>::empty());
    }
    while i < file_names.len()
        invariant
            i <= file_names.len(),
            wanted == |n: Seq<char>| is_removed(n, file_prefix@, kept@),
            views(out@) == views(file_names@).take(i as int).filter(wanted),
        decreases file_names.len() - i,
    {
        let ghost before = views(out@);
        let ghost front = views(file_names@).take(i as int);
        proof {
            assert(views(file_names@).take(i + 1) =~= front.push(file_names@[i as int]@));
            front.lemma_filter_push(file_names@[i as int]@, wanted);
        }
        match cleanup_decision(file_names[i].as_str(), file_prefix, kept) {
            Cleanup::Keep => {},
            _ => {
                out.push(file_names[i].clone());
                assert(views(out@) =~= before.push(file_names@[i as int]@));
            },
        }
        i += 1;
    }
    assert(views(file_names@).take(i as int) =~= views(file_names@));
    out
}

/// Every file that the cleanup removes is one that it decided to remove.
pub proof fn lemma_stale_files(
    names: Seq<Seq<char>>,
    file_prefix: Seq<char>,
    kept: Set<i32>,
    file_name: Seq<char>,
)
    requires
        stale_files(names, file_prefix, kept).contains(file_name),
    ensures
        names.contains(file_name),
        cleanup_of(file_name, file_prefix, kept) != Cleanup::Keep,
{
    let wanted = |n: Seq<char>| is_removed(n, file_prefix, kept);
    let found = names.filter(wanted);
    let i = choose|i: int| 0 <= i < found.len() && found[i] == file_name;
    names.lemma_filter_pred(wanted, i);
    names.lemma_filter_contains_rev(wanted, file_name);
}

/// Whatever a source's directory holds, the cleanup of a rebuild leaves the
/// calendar `<prefix>-<year>.ics` of every year under which the state files
/// a record of the source and that passes the year filter, and it leaves
/// every file that is no calendar.
pub proof fn lemma_rebuild_spares_the_years_of_the_state(
    plan: RebuildPlan,
    state: State,
    source: LoadedSource,
    year_filter: Option<i32>,
    changed: Option<Set<i32>>,
    names: Seq<Seq<char>>,
    year: i32,
)
    requires
        plan_is_for(plan, state, source, year_filter, changed),
        kept_years(state.records(), source.config.source.key@, year_filter).contains(year),
    ensures
        !stale_files(names, plan.directory@, plan.kept_years@).contains(
            ics_name(plan.directory@, year as int),
        ),
        forall|file_name: Seq<char>|
            !is_calendar_name(file_name) ==> !(#[trigger] stale_files(
                names,
                plan.directory@,
                plan.kept_years@,
            ).contains(file_name)),
{
    let prefix = plan.directory@;
    let kept = plan.kept_years@;
    let name = ics_name(prefix, year as int);
    lemma_cleanup_keeps_kept_years(prefix, year, kept);
    if stale_files(names, prefix, kept).contains(name) {
        lemma_stale_files(names, prefix, kept, name);
    }
    assert forall|file_name: Seq<char>| !is_calendar_name(file_name) implies !(
    #[trigger] stale_files(names, prefix, kept).contains(file_name)) by {
        if stale_files(names, prefix, kept).contains(file_name) {
            lemma_stale_files(names, prefix, kept, file_name);
        }
    }
}

/// A rebuild that is limited to changed years leaves the calendar of every
/// other year of the state alone: for a source without a name template it
/// writes no file `<prefix>-<year>.ics` of a year that is not among the
/// changed ones, and where the state files a record of the source under
/// that year, its cleanup does not remove the file either.
pub proof fn lemma_unchanged_years_are_left_alone(
    plan: RebuildPlan,
    state: State,
    source: LoadedSource,
    year_filter: Option<i32>,
    changed: Set<i32>,
    names: Seq<Seq<char>>,
    year: i32,
)
    requires
        plan_is_for(plan, state, source, year_filter, Some(changed)),
        source.config.publish.file_name_template is None,
        !changed.contains(year),
    ensures
        forall|i: int|
            0 <= i < plan.files.len() ==> (#[trigger] plan.files@[i]).file_name@ != ics_name(
                plan.directory@,
                year as int,
            ),
        kept_years(state.records(), source.config.source.key@, year_filter).contains(year)
            ==> !stale_files(names, plan.directory@, plan.kept_years@).contains(
            ics_name(plan.directory@, year as int),
        ),
{
    let prefix = plan.directory@;
    crate::rebuild::lemma_only_changed_years_are_written(
        plan,
        state,
        source,
        year_filter,
        changed,
    );
    assert forall|i: int| 0 <= i < plan.files.len() implies (#[trigger] plan.files@[i]).file_name@
        != ics_name(prefix, year as int) by {
        let file = plan.files@[i];
        assert(crate::rebuild::file_is_current(file, state, source));
        assert(file.file_name@ == ics_name(prefix, file.year as int));
        crate::naming::lemma_name_reads_back(prefix, file.year);
        crate::naming::lemma_name_reads_back(prefix, year);
    }
    if kept_years(state.records(), source.config.source.key@, year_filter).contains(year) {
        lemma_rebuild_spares_the_years_of_the_state(
            plan,
            state,
            source,
            year_filter,
            Some(changed),
            names,
            year,
        );
    }
}

/// The files that go when the calendar of `year` has been written under the
/// name `keep_file_name`: the other calendars of that year.
pub open spec fn noncanonical_files(
    names: Seq<Seq<char>>,
    year: i32,
    keep_file_name: Seq<char>,
    file_prefix: Seq<char>,
) -> Seq<Seq<char>> {
    names.filter(|n: Seq<char>| is_superseded(n, keep_file_name, file_prefix, year))
}

/// Picks from the listing of a directory the calendars of `year` that stand
/// under another name than `keep_file_name`.
pub fn cleanup_noncanonical_files_for_year(
    file_names: &Vec<String>,
    year: i32,
    keep_file_name: &str,
    file_prefix: &str,
) -> (out: Vec<String>)
    ensures
        views(out@) == noncanonical_files(
            views(file_names@),
            year,
            keep_file_name@,
            file_prefix@,
        ),
{
    let ghost wanted = |n: Seq<char>| is_superseded(n, keep_file_name@, file_prefix@, year);
    let mut out: Vec<String> = Vec::new();
    let mut i: usize = 0;
    proof {
        reveal(Seq::filter);
        assert(views(file_names@).take(0) =~= Seq::<Seq<char>>::empty());
        assert(views(out@) =~= Seq::<Seq<char>>::empty());
    }
    while i < file_names.len()
        invariant
            i <= file_names.len(),
            wanted == |n: Seq<char>| is_superseded(n, keep_file_name@, file_prefix@, year),
            views(out@) == views(file_names@).take(i as int).filter(wanted),
        decreases file_names.len() - i,
    {
        let ghost before = views(out@);
        let ghost front = views(file_names@).take(i as int);
        proof {
            assert(views(file_names@).take(i + 1) =~= front.push(file_names@[i as int]@));
            front.lemma_filter_push(file_names@[i as int]@, wanted);
        }
        if superseded(file_names[i].as_str(), keep_file_name, file_prefix, year) {
            out.push(file_names[i].clone());
            assert(views(out@) =~= before.push(file_names@[i as int]@));
        }
        i += 1;
    }
    assert(views(file_names@).take(i as int) =~= views(file_names@));
    out
}

/// Whether a file is published: it is a calendar, and where a year is asked
/// for, its name stands for that year.
pub open spec fn is_published(file_name: Seq<char>, file_prefix: Seq<char>, year: Option<i32>) -> bool {
    is_calendar_name(file_name) && (year is None || year_of_name(file_name, file_prefix) == year)
}

/// The files of a source's directory that are published, in the order of
/// the listing.
pub open spec fn published_files(names: Seq<Seq<char>>, file_prefix: Seq<char>, year: Option<i32>) -> Seq<
    Seq<char>,
> {
    names.filter(|n: Seq<char>| is_published(n, file_prefix, year))
}

/// Picks from the listing of a source's directory the calendars that are
/// published.
pub fn calendars_to_publish(file_names: &Vec<String>, file_prefix: &str, year: Option<i32>) -> (out:
    Vec<String>)
    ensures
        views(out@) == published_files(views(file_names@), file_prefix@, year),
{
    let ghost wanted = |n: Seq<char>| is_published(n, file_prefix@, year);
    let mut out: Vec<String> = Vec::new();
    let mut i: usize = 0;
    proof {
        reveal(Seq::filter);
        assert(views(file_names@).take(0) =~= Seq::<Seq<char>>::empty());
        assert(views(out@) =~= Seq::<Seq<char>>::empty());
    }
    while i < file_names.len()
        invariant
            i <= file_names.len(),
            wanted == |n: Seq<char>| is_published(n, file_prefix@, year),
            views(out@) == views(file_names@).take(i as int).filter(wanted),
        decreases file_names.len() - i,
    {
        let ghost before = views(out@);
        let ghost front = views(file_names@).take(i as int);
        proof {
            assert(views(file_names@).take(i + 1) =~= front.push(file_names@[i as int]@));
            front.lemma_filter_push(file_names@[i as int]@, wanted);
        }
        let name = file_names[i].as_str();
        let wanted_here = is_calendar_file(name) && match year {
            Some(y) => extract_year_from_any_ics_filename(name, file_prefix) == Some(y),
            None => true,
        };
        if wanted_here {
            out.push(file_names[i].clone());
            assert(views(out@) =~= before.push(file_names@[i as int]@));
        }
        i += 1;
    }
    assert(views(file_names@).take(i as int) =~= views(file_names@));
    out
}

/// The number of calendars in a listing.
pub open spec fn calendar_count(names: Seq<Seq<char>>) -> nat {
    names.filter(|n: Seq<char>| is_calendar_name(n)).len()
}

/// Counts the calendars in a listing.
pub fn count_calendars(file_names: &Vec<String>) -> (n: usize)
    ensures
        n == calendar_count(views(file_names@)),
{
    let ghost wanted = |n: Seq<char>| is_calendar_name(n);
    let mut n: usize = 0;
    let mut i: usize = 0;
    proof {
        reveal(Seq::filter);
        assert(views(file_names@).take(0) =~= Seq::<Seq<char>>::empty());
    }
    while i < file_names.len()
        invariant
            i <= file_names.len(),
            n <= i,
            wanted == |n: Seq<char>| is_calendar_name(n),
            n == views(file_names@).take(i as int).filter(wanted).len(),
        decreases file_names.len() - i,
    {
        let ghost front = views(file_names@).take(i as int);
        proof {
            assert(views(file_names@).take(i + 1) =~= front.push(file_names@[i as int]@));
            front.lemma_filter_push(file_names@[i as int]@, wanted);
        }
        if is_calendar_file(file_names[i].as_str()) {
            n += 1;
        }
        i += 1;
    }
    assert(views(file_names@).take(i as int) =~= views(file_names@));
    n
}

} // verus!
