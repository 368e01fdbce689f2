//! The names of calendar files, and what a file name says about its year.

use vstd::prelude::*;
use crate::config::LoadedSource;
use crate::model::pairs;
use crate::numbers::{
    four_digits, int_text, int_to_string, is_four_digits, parse_i32, parse_i32_of,
};
use crate::pattern::{find_text, found_text};
use crate::text::{
    ascii_lower, ascii_upper, chars_of, concat2, concat3, ends_with, has_suffix, opt_view, owned,
    replace, replaced, strip_prefix, strip_suffix, to_ascii_lower, to_ascii_upper, without_prefix,
    without_suffix,
};
use crate::years::YearSet;

verus! {

/// `<prefix>-<year>.ics`.
pub open spec fn ics_name(file_prefix: Seq<char>, year: int) -> Seq<char> {
    file_prefix + seq!['-'] + int_text(year) + ".ics"@
}

/// The name of the calendar file of a year: `<prefix>-<year>.ics`.
pub fn ics_filename(file_prefix: &str, year: i32) -> (name: String)
    ensures
        name@ == ics_name(file_prefix@, year as int),
{
    let head = concat2(file_prefix, "-");
    proof {
        reveal_strlit("-");
        assert("-"@ =~= seq!['-']);
    }
    concat3(head.as_str(), int_to_string(year as i64).as_str(), ".ics")
}

/// The place holder of a template variable: `{{name}}`.
pub open spec fn marker(name: Seq<char>) -> Seq<char> {
    "{{"@ + name + "}}"@
}

/// `text` with the place holder of every variable replaced by its value, the
/// variables taken in their order.
pub open spec fn with_variables(text: Seq<char>, variables: Seq<(Seq<char>, Seq<char>)>) -> Seq<
    char,
>
    decreases variables.len(),
{
    if variables.len() == 0 {
        text
    } else {
        replaced(
            with_variables(text, variables.drop_last()),
            marker(variables.last().0),
            variables.last().1,
        )
    }
}

/// `text` with the two place holders of the country replaced, where there is
/// a country.
pub open spec fn with_country(text: Seq<char>, country: Option<Seq<char>>) -> Seq<char> {
    match country {
        Some(c) => replaced(
            replaced(text, "{{country}}"@, ascii_lower(c)),
            "{{country_upper}}"@,
            ascii_upper(c),
        ),
        None => text,
    }
}

/// `name`, with `.ics` added where it does not end in it.
pub open spec fn with_extension(name: Seq<char>) -> Seq<char> {
    if has_suffix(name, ".ics"@) {
        name
    } else {
        name + ".ics"@
    }
}

/// The file name that a template gives for a year: `{{year}}`,
/// `{{source_key}}` and `{{source_dir}}` are replaced first, then the two
/// place holders of the country, then those of the template variables in
/// ascending order of their names; `.ics` is added where it is missing.
pub open spec fn rendered_name(
    template: Seq<char>,
    source_key: Seq<char>,
    country: Option<Seq<char>>,
    variables: Seq<(Seq<char>, Seq<char>)>,
    file_prefix: Seq<char>,
    year: int,
) -> Seq<char> {
    with_extension(
        with_variables(
            with_country(
                replaced(
                    replaced(
                        replaced(template, "{{year}}"@, int_text(year)),
                        "{{source_key}}"@,
                        source_key,
                    ),
                    "{{source_dir}}"@,
                    file_prefix,
                ),
                country,
            ),
            variables,
        ),
    )
}

/// The name of the calendar file of a year of a source.
pub open spec fn source_ics_name(source: LoadedSource, file_prefix: Seq<char>, year: int) -> Seq<
    char,
> {
    match source.config.publish.file_name_template {
        Some(template) => rendered_name(
            template@,
            source.config.source.key@,
            opt_view(source.config.source.default_country),
            pairs(source.config.fetch.template_vars),
            file_prefix,
            year,
        ),
        None => ics_name(file_prefix, year),
    }
}

/// The name of the calendar file of a year of a source: rendered from the
/// source's template where it has one, else `<prefix>-<year>.ics`.
pub fn source_ics_filename(source: &LoadedSource, file_prefix: &str, year: i32) -> (name: String)
    requires
        source.config.wf(),
    ensures
        name@ == source_ics_name(*source, file_prefix@, year as int),
{
    let template = match &source.config.publish.file_name_template {
        Some(t) => t,
        None => {
            return ics_filename(file_prefix, year);
        },
    };
    let mut name = replace(template.as_str(), "{{year}}", int_to_string(year as i64).as_str());
    name = replace(name.as_str(), "{{source_key}}", source.config.source.key.as_str());
    name = replace(name.as_str(), "{{source_dir}}", file_prefix);
    match &source.config.source.default_country {
        Some(country) => {
            name = replace(name.as_str(), "{{country}}", to_ascii_lower(country.as_str()).as_str());
            name =
            replace(
                name.as_str(),
                "{{country_upper}}",
                to_ascii_upper(country.as_str()).as_str(),
            );
        },
        None => {},
    }
    let variables = &source.config.fetch.template_vars;
    let ghost base = name@;
    let ghost all = pairs(*variables);
    let mut i: usize = 0;
    assert(all.take(0) =~= Seq::<(Seq<char>, Seq<char>)>::empty());
    while i < variables.len()
        invariant
            variables.wf(),
            i <= variables.keys().len(),
            all == pairs(*variables),
            name@ == with_variables(base, all.take(i as int)),
        decreases variables.keys().len() - i,
    {
        let holder = concat3("{{", variables.key_at(i).as_str(), "}}");
        name = replace(name.as_str(), holder.as_str(), variables.value_at(i).as_str());
        i += 1;
        proof {
            let now = all.take(i as int);
            assert(now.drop_last() =~= all.take(i - 1));
            assert(now.last() == all[i - 1]);
        }
    }
    assert(all.take(i as int) =~= all);
    if ends_with(name.as_str(), ".ics") {
        name
    } else {
        concat2(name.as_str(), ".ics")
    }
}

/// The year in a file name of the form `<prefix>-<year>.ics`.
pub open spec fn year_in_name(file_name: Seq<char>, file_prefix: Seq<char>) -> Option<i32> {
    match without_suffix(file_name, ".ics"@) {
        Some(stem) => match without_prefix(stem, file_prefix + seq!['-']) {
            Some(year) => parse_i32_of(year),
            None => None,
        },
        None => None,
    }
}

/// Reads the year from a file name of the form `<prefix>-<year>.ics`.
pub fn parse_year_from_filename(file_name: &str, file_prefix: &str) -> (year: Option<i32>)
    ensures
        year == year_in_name(file_name@, file_prefix@),
{
    let prefixed = concat2(file_prefix, "-");
    proof {
        reveal_strlit("-");
        assert("-"@ =~= seq!['-']);
    }
    match strip_suffix(file_name, ".ics") {
        Some(stem) => match strip_prefix(stem.as_str(), prefixed.as_str()) {
            Some(year) => parse_i32(year.as_str()),
            None => None,
        },
        None => None,
    }
}

/// Whether the name is four ASCII digits followed by `.ics`.
pub open spec fn is_legacy_name(file_name: Seq<char>) -> bool {
    match without_suffix(file_name, ".ics"@) {
        Some(stem) => four_digits(stem),
        None => false,
    }
}

/// Whether the file is a calendar of the old layout, named by a bare year of
/// four digits.
pub fn is_legacy_year_only_filename(file_name: &str) -> (r: bool)
    ensures
        r == is_legacy_name(file_name@),
{
    match strip_suffix(file_name, ".ics") {
        Some(stem) => is_four_digits(stem.as_str()),
        None => false,
    }
}

/// The year that any calendar file name stands for: that of
/// `<prefix>-<year>.ics`; else the whole stem read as a number; else the
/// first run of four digits in the stem that starts with 19 or 20.
pub open spec fn year_of_name(file_name: Seq<char>, file_prefix: Seq<char>) -> Option<i32> {
    match year_in_name(file_name, file_prefix) {
        Some(y) => Some(y),
        None => match without_suffix(file_name, ".ics"@) {
            Some(stem) => match parse_i32_of(stem) {
                Some(y) => Some(y),
                None => match found_text("(19|20)\\d{2}"@, stem) {
                    Some(digits) => parse_i32_of(digits),
                    None => None,
                },
            },
            None => None,
        },
    }
}

/// Reads the year from a calendar file name of any form.
pub fn extract_year_from_any_ics_filename(file_name: &str, file_prefix: &str) -> (year: Option<
    i32,
>)
    ensures
        year == year_of_name(file_name@, file_prefix@),
{
    match parse_year_from_filename(file_name, file_prefix) {
        Some(y) => Some(y),
        None => match strip_suffix(file_name, ".ics") {
            Some(stem) => match parse_i32(stem.as_str()) {
                Some(y) => Some(y),
                None => match find_text("(19|20)\\d{2}", stem.as_str()) {
                    Some(digits) => parse_i32(digits.as_str()),
                    None => None,
                },
            },
            None => None,
        },
    }
}

/// Whether a name is that of a calendar file: it ends in `.ics` and has
/// something before it.
pub open spec fn is_calendar_name(file_name: Seq<char>) -> bool {
    has_suffix(file_name, ".ics"@) && file_name.len() > 4
}

/// Says whether a name is that of a calendar file.
pub fn is_calendar_file(file_name: &str) -> (r: bool)
    ensures
        r == is_calendar_name(file_name@),
{
    proof {
        reveal_strlit(".ics");
    }
    ends_with(file_name, ".ics") && file_name.unicode_len() > 4
}

/// What the cleanup does with a file of a source's directory.
#[derive(Clone, Copy, Debug, PartialEq, Eq, Structural)]
pub enum Cleanup {
    /// The file stays.
    Keep,
    /// The file is a calendar of the old layout and goes.
    RemoveLegacy,
    /// The file is the calendar of a year that the state no longer has and
    /// goes.
    RemoveStale,
}

/// What the cleanup does with a file, given the years that are kept: a file
/// that is no calendar stays; a calendar of the old layout, named by four
/// bare digits, goes; a calendar named `<prefix>-<year>.ics` goes unless the
/// year is kept; any other calendar stays.
pub open spec fn cleanup_of(file_name: Seq<char>, file_prefix: Seq<char>, kept: Set<i32>) -> Cleanup {
    if !is_calendar_name(file_name) {
        Cleanup::Keep
    } else if is_legacy_name(file_name) {
        Cleanup::RemoveLegacy
    } else {
        match year_in_name(file_name, file_prefix) {
            Some(y) => if kept.contains(y) {
                Cleanup::Keep
            } else {
                Cleanup::RemoveStale
            },
            None => Cleanup::Keep,
        }
    }
}

/// The name `<prefix>-<year>.ics` is that of a calendar, is no name of the
/// old layout, and reads back as the year.
pub proof fn lemma_name_reads_back(file_prefix: Seq<char>, year: i32)
    ensures
        is_calendar_name(ics_name(file_prefix, year as int)),
        !is_legacy_name(ics_name(file_prefix, year as int)),
        year_in_name(ics_name(file_prefix, year as int), file_prefix) == Some(year),
{
    reveal_strlit(".ics");
    let numeral = int_text(year as int);
    let head = file_prefix + seq!['-'];
    let stem = head + numeral;
    let name = ics_name(file_prefix, year as int);
    assert(".ics"@.len() == 4);
    assert(name =~= stem + ".ics"@);
    assert(name.subrange(name.len() - 4, name.len() as int) =~= ".ics"@);
    assert(name.take(name.len() - 4) =~= stem);
    assert(without_suffix(name, ".ics"@) == Some(stem));
    assert(stem.subrange(0, head.len() as int) =~= head);
    assert(stem.skip(head.len() as int) =~= numeral);
    assert(without_prefix(stem, head) == Some(numeral));
    crate::numbers::lemma_int_text_reads_back(year);
    assert(stem[file_prefix.len() as int] == '-');
    assert(!crate::text::is_ascii_digit(stem[file_prefix.len() as int]));
}

/// The cleanup keeps the calendar `<prefix>-<year>.ics` exactly where the
/// year is kept, and it keeps every file that is no calendar.
pub proof fn lemma_cleanup_keeps_kept_years(file_prefix: Seq<char>, year: i32, kept: Set<i32>)
    ensures
        cleanup_of(ics_name(file_prefix, year as int), file_prefix, kept) == (if kept.contains(
            year,
        ) {
            Cleanup::Keep
        } else {
            Cleanup::RemoveStale
        }),
        forall|file_name: Seq<char>|
            !is_calendar_name(file_name) ==> #[trigger] cleanup_of(file_name, file_prefix, kept)
                == Cleanup::Keep,
{
    lemma_name_reads_back(file_prefix, year);
}

/// Decides what the cleanup does with one file of a source's directory.
pub fn cleanup_decision(file_name: &str, file_prefix: &str, kept: &YearSet) -> (r: Cleanup)
    ensures
        r == cleanup_of(file_name@, file_prefix@, kept@),
{
    if !is_calendar_file(file_name) {
        return Cleanup::Keep;
    }
    if is_legacy_year_only_filename(file_name) {
        return Cleanup::RemoveLegacy;
    }
    match parse_year_from_filename(file_name, file_prefix) {
        Some(y) => if kept.contains(y) {
            Cleanup::Keep
        } else {
            Cleanup::RemoveStale
        },
        None => Cleanup::Keep,
    }
}

/// Whether a file is another calendar of the same year than the one just
/// written, under a name that is no longer in use.
pub open spec fn is_superseded(
    file_name: Seq<char>,
    keep_file_name: Seq<char>,
    file_prefix: Seq<char>,
    year: i32,
) -> bool {
    is_calendar_name(file_name) && file_name != keep_file_name && year_of_name(
        file_name,
        file_prefix,
    ) == Some(year)
}

/// Decides whether a file is removed after the calendar of `year` has been
/// written under the name `keep_file_name`.
pub fn superseded(file_name: &str, keep_file_name: &str, file_prefix: &str, year: i32) -> (r: bool)
    ensures
        r == is_superseded(file_name@, keep_file_name@, file_prefix@, year),
{
    if !is_calendar_file(file_name) {
        return false;
    }
    if *file_name == *keep_file_name {
        return false;
    }
    match extract_year_from_any_ics_filename(file_name, file_prefix) {
        Some(y) => y == year,
        None => false,
    }
}

} // verus!
