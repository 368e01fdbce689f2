//! Regular expressions, as the `regex` crate matches them.

use vstd::prelude::*;
use crate::text::{opt_view, owned, trim, trim_of};

verus! {

/// The error of `regex::Regex::new`.
#[verifier::external_type_specification]
#[verifier::external_body]
pub struct ExPatternError(regex::Error);

/// One match of a pattern in a text: the byte range of the whole match and
/// the text of every group, group 0 being the whole match.
#[derive(Clone, Debug)]
pub struct PatternMatch {
    pub span: Option<(usize, usize)>,
    pub groups: Vec<Option<String>>,
}

/// The mathematical value of a `PatternMatch`.
pub struct MatchView {
    pub span: Option<(usize, usize)>,
    pub groups: Seq<Option<Seq<char>>>,
}

impl View for PatternMatch {
    type V = MatchView;

    open spec fn view(&self) -> MatchView {
        MatchView { span: self.span, groups: self.groups@.map_values(|g: Option<String>| opt_view(g)) }
    }
}

pub open spec fn match_opt_view(m: Option<PatternMatch>) -> Option<MatchView> {
    match m {
        Some(v) => Some(v@),
        None => None,
    }
}

pub open spec fn match_views(matches: Seq<PatternMatch>) -> Seq<MatchView> {
    matches.map_values(|m: PatternMatch| m@)
}

/// Whether `regex::Regex::new` accepts the pattern.
pub uninterp spec fn pattern_compiles(pattern: Seq<char>) -> bool;

/// The leftmost match of the pattern in the text, as `Regex::captures` finds
/// it.
pub uninterp spec fn first_match(pattern: Seq<char>, text: Seq<char>) -> Option<MatchView>;

/// The successive matches of the pattern in the text that do not overlap, as
/// `Regex::captures_iter` yields them.
pub uninterp spec fn all_matches(pattern: Seq<char>, text: Seq<char>) -> Seq<MatchView>;

/// `regex::Regex::new`, then `Regex::captures` on the compiled pattern. The
/// contract claims that whether the pattern compiles depends on the pattern
/// alone, and the match on pattern and text alone.
#[verifier::external_body]
pub(crate) fn regex_captures(pattern: &str, text: &str) -> (r: Result<
    Option<PatternMatch>,
    regex::Error,
>)
    ensures
        (r is Ok) == pattern_compiles(pattern@),
        r matches Ok(m) ==> match_opt_view(m) == first_match(pattern@, text@),
{
    let re = regex::Regex::new(pattern)?;
    Ok(
        re.captures(text).map(
            |c|
                PatternMatch {
                    span: c.get(0).map(|m| (m.start(), m.end())),
                    groups: c.iter().map(|g| g.map(|m| m.as_str().to_string())).collect(),
                },
        ),
    )
}

/// `regex::Regex::new`, then `Regex::captures_iter` on the compiled pattern,
/// walked to its end. The contract claims that whether the pattern compiles
/// depends on the pattern alone, and the matches on pattern and text alone.
#[verifier::external_body]
pub(crate) fn regex_captures_all(pattern: &str, text: &str) -> (r: Result<
    Vec<PatternMatch>,
    regex::Error,
>)
    ensures
        (r is Ok) == pattern_compiles(pattern@),
        r matches Ok(m) ==> match_views(m@) == all_matches(pattern@, text@),
{
    let re = regex::Regex::new(pattern)?;
    Ok(
        re.captures_iter(text).map(
            |c|
                PatternMatch {
                    span: c.get(0).map(|m| (m.start(), m.end())),
                    groups: c.iter().map(|g| g.map(|m| m.as_str().to_string())).collect(),
                },
        ).collect(),
    )
}

/// A pattern that is no regular expression.
#[derive(Clone, Debug)]
pub struct InvalidPattern {
    pub pattern: String,
}

/// The text of group `group` of a match, if the match has that group and the
/// group took part in it.
pub open spec fn group_of(m: MatchView, group: int) -> Option<Seq<char>> {
    if 0 <= group < m.groups.len() {
        m.groups[group]
    } else {
        None
    }
}

/// The text of group `group` of the first match of the pattern, without the
/// white space around it.
pub open spec fn captured(pattern: Seq<char>, text: Seq<char>, group: int) -> Option<Seq<char>> {
    match first_match(pattern, text) {
        Some(m) => match group_of(m, group) {
            Some(g) => Some(trim_of(g)),
            None => None,
        },
        None => None,
    }
}

/// The text of group `group` of a match.
pub fn group_text(m: &PatternMatch, group: usize) -> (r: Option<String>)
    ensures
        opt_view(r) == group_of(m@, group as int),
{
    if group < m.groups.len() {
        match &m.groups[group] {
            Some(g) => Some(g.clone()),
            None => None,
        }
    } else {
        None
    }
}

/// What `extract_with_regex` returns for a pattern and the first match that
/// the matcher found.
pub open spec fn extracted(compiles: bool, found: Option<MatchView>, group: int) -> Result<
    Option<Seq<char>>,
    (),
> {
    if !compiles {
        Err(())
    } else {
        match found {
            Some(m) => match group_of(m, group) {
                Some(g) => Ok(Some(trim_of(g))),
                None => Ok(None),
            },
            None => Ok(None),
        }
    }
}

/// The trimmed text of group `capture` of a match that was found, if any.
pub fn extract_group(found: &Option<PatternMatch>, capture: usize) -> (r: Option<String>)
    ensures
        Ok::<Option<Seq<char>>, ()>(opt_view(r)) == extracted(
            true,
            match_opt_view(*found),
            capture as int,
        ),
{
    match found {
        Some(m) => match group_text(m, capture) {
            Some(g) => Some(trim(g.as_str())),
            None => None,
        },
        None => None,
    }
}

/// Applies the pattern to the text and returns group `capture` of its first
/// match, trimmed. There is no value where nothing matches or the group took
/// no part in the match; a pattern that does not compile is an error.
pub fn extract_with_regex(input: &str, pattern: &str, capture: usize) -> (r: Result<
    Option<String>,
    InvalidPattern,
>)
    ensures
        match r {
            Ok(v) => pattern_compiles(pattern@) && opt_view(v) == captured(
                pattern@,
                input@,
                capture as int,
            ),
            Err(e) => !pattern_compiles(pattern@) && e.pattern@ == pattern@,
        },
{
    match regex_captures(pattern, input) {
        Ok(found) => Ok(extract_group(&found, capture)),
        Err(_) => Err(InvalidPattern { pattern: owned(pattern) }),
    }
}

/// The text of the first match of the pattern, or nothing where the pattern
/// does not compile or does not match.
pub open spec fn found_text(pattern: Seq<char>, text: Seq<char>) -> Option<Seq<char>> {
    if pattern_compiles(pattern) {
        match first_match(pattern, text) {
            Some(m) => group_of(m, 0),
            None => None,
        }
    } else {
        None
    }
}

/// The text of the first match of the pattern in the text.
pub fn find_text(pattern: &str, text: &str) -> (r: Option<String>)
    ensures
        opt_view(r) == found_text(pattern@, text@),
{
    match regex_captures(pattern, text) {
        Ok(found) => match found {
            Some(m) => group_text(&m, 0),
            None => None,
        },
        Err(_) => None,
    }
}

} // verus!
