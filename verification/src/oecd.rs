//! The parser for the publications of the OECD: the requests that page
//! through its search, and the events in the pages that come back.

use vstd::prelude::*;
use vstd::string::StringSliceAdditionalSpecFns;
use crate::chunks::{trim_and_fill, trimmed_filled};
use crate::config::SourceConfig;
use crate::dates::{event_time_of, parse_event_time};
use crate::documents::FetchedDocument;
use crate::json::{
    extend_path, json_node, json_node_at, json_text, json_text_at, path_view, JsonNode, JsonStep,
    NodeView, StepView,
};
use crate::keyed::{lemma_text_map_empty, put, text_map, value_of, StrMap};
use crate::lines::{join, joined};
use crate::links::{absolute_url, absolutize_url, pair_views, url_pairs, url_query_pairs, InvalidUrl};
use crate::model::{lemma_pairs_map, pairs_map, CandidateEvent, CandidateView};
use crate::numbers::{
    decimal, int_text, int_to_string, parse_usize, parse_usize_of, usize_to_string,
};
use crate::rules::field_value;
use crate::text::{
    clone_opt, clone_strings, has_prefix, opt_view, owned, split, split_on, starts_with, trim,
    trim_of, views,
};
use crate::time::TimeView;

verus! {

/// The confidence of the events of the OECD parser, in ten-thousandths.
pub const OECD_CONFIDENCE: i64 = 9500;

/// The largest number of pages that are asked for.
pub const OECD_MAX_PAGES: usize = 200;

/// The number of results of a page, where the source names none.
pub const OECD_PAGE_SIZE: usize = 50;

// ---------------------------------------------------------------------------
// Requests
// ---------------------------------------------------------------------------

/// The tags with the two that every request carries added at the end where
/// they are missing: the parts between commas, trimmed, without the empty
/// ones, then `oecd-languages:en` and
/// `oecd-search-config-pillars:publications`.
pub open spec fn facet_tags(tags: Seq<char>) -> Seq<Seq<char>> {
    let given = trimmed_filled(split_on(tags, ','));
    let a = if given.contains("oecd-languages:en"@) {
        given
    } else {
        given.push("oecd-languages:en"@)
    };
    if a.contains("oecd-search-config-pillars:publications"@) {
        a
    } else {
        a.push("oecd-search-config-pillars:publications"@)
    }
}

fn holds(list: &Vec<String>, item: &str) -> (r: bool)
    ensures
        r == views(list@).contains(item@),
{
    let mut i: usize = 0;
    while i < list.len()
        invariant
            i <= list.len(),
            forall|k: int| 0 <= k < i ==> views(list@)[k] != item@,
        decreases list.len() - i,
    {
        if *list[i].as_str() == *item {
            assert(views(list@)[i as int] == item@);
            return true;
        }
        i += 1;
    }
    false
}

/// Makes sure that the tags of a request hold the two that every request
/// carries.
pub fn ensure_facet_tags(tags: &str) -> (r: String)
    ensures
        r@ == joined(facet_tags(tags@), seq![',']),
{
    let mut values = trim_and_fill(&split(tags, ','));
    if !holds(&values, "oecd-languages:en") {
        let ghost before = views(values@);
        values.push("oecd-languages:en".to_string());
        assert(views(values@) =~= before.push("oecd-languages:en"@));
    }
    if !holds(&values, "oecd-search-config-pillars:publications") {
        let ghost before = views(values@);
        values.push("oecd-search-config-pillars:publications".to_string());
        assert(views(values@) =~= before.push("oecd-search-config-pillars:publications"@));
    }
    proof {
        reveal_strlit(",");
        assert(","@ =~= seq![',']);
    }
    join(&values, ",")
}

/// The map that a list of pairs describes, a later pair taking the place of
/// an earlier one with the same name.
pub open spec fn map_of_pairs(pairs: Seq<(Seq<char>, Seq<char>)>) -> Map<Seq<char>, Seq<char>>
    decreases pairs.len(),
{
    if pairs.len() == 0 {
        Map::<Seq<char>, Seq<char>>::empty()
    } else {
        map_of_pairs(pairs.drop_last()).insert(pairs.last().0, pairs.last().1)
    }
}

/// The tags of a request where the address of the source names none.
pub open spec fn default_facet_tags() -> Seq<char> {
    "oecd-languages:en,oecd-search-config-pillars:publications"@
}

/// The parameters that every request of a source carries: those of the
/// query of the source's address, with the tags completed.
pub open spec fn base_params(first_url: Seq<char>) -> Option<Map<Seq<char>, Seq<char>>> {
    match url_pairs(first_url) {
        Some(pairs) => {
            let given = map_of_pairs(pairs);
            let tags = match field_value(given, "facetTags"@) {
                Some(t) => t,
                None => default_facet_tags(),
            };
            Some(given.insert("facetTags"@, joined(facet_tags(tags), seq![','])))
        },
        None => None,
    }
}

/// Finds the parameters that every request of a source carries. An address
/// that cannot be read is an error.
pub fn oecd_base_params(first_url: &str) -> (r: Result<StrMap<String>, InvalidUrl>)
    ensures
        match r {
            Ok(m) => m.wf() && base_params(first_url@) == Some(text_map(m)),
            Err(e) => base_params(first_url@) is None && e.url@ == first_url@,
        },
{
    let pairs = match url_query_pairs(first_url) {
        Some(p) => p,
        None => {
            return Err(InvalidUrl { url: owned(first_url) });
        },
    };
    let mut m: StrMap<String> = StrMap::new();
    proof {
        lemma_text_map_empty(m);
    }
    let ghost all = pair_views(pairs@);
    let mut i: usize = 0;
    assert(all.take(0) =~= Seq::<(Seq<char>, Seq<char>)>::empty());
    while i < pairs.len()
        invariant
            i <= pairs.len(),
            all == pair_views(pairs@),
            m.wf(),
            text_map(m) == map_of_pairs(all.take(i as int)),
        decreases pairs.len() - i,
    {
        proof {
            assert(all.take(i + 1).drop_last() =~= all.take(i as int));
            assert(all.take(i + 1).last() == (pairs@[i as int].0@, pairs@[i as int].1@));
        }
        put(&mut m, pairs[i].0.clone(), pairs[i].1.clone());
        i += 1;
    }
    assert(all.take(i as int) =~= all);
    let tags = match value_of(&m, "facetTags") {
        Some(t) => t,
        None => "oecd-languages:en,oecd-search-config-pillars:publications".to_string(),
    };
    put(&mut m, "facetTags".to_string(), ensure_facet_tags(tags.as_str()));
    Ok(m)
}

/// The number of results that a source asks for in one page: its header
/// `x-oecd-page-size` where that is a number, else 50.
pub open spec fn page_size_of(source: SourceConfig) -> usize {
    match field_value(text_map(source.fetch.headers), "x-oecd-page-size"@) {
        Some(text) => match parse_usize_of(text) {
            Some(n) => n,
            None => OECD_PAGE_SIZE,
        },
        None => OECD_PAGE_SIZE,
    }
}

pub fn oecd_page_size(source: &SourceConfig) -> (r: usize)
    requires
        source.wf(),
    ensures
        r == page_size_of(*source),
{
    match value_of(&source.fetch.headers, "x-oecd-page-size") {
        Some(text) => match parse_usize(text.as_str()) {
            Some(n) => n,
            None => OECD_PAGE_SIZE,
        },
        None => OECD_PAGE_SIZE,
    }
}

/// `m` with the value under the name, unless the name has a value already.
pub open spec fn with_default(
    m: Map<Seq<char>, Seq<char>>,
    name: Seq<char>,
    value: Seq<char>,
) -> Map<Seq<char>, Seq<char>> {
    if m.contains_key(name) {
        m
    } else {
        m.insert(name, value)
    }
}

/// The parameters of the request for a page.
pub open spec fn page_params(
    base: Map<Seq<char>, Seq<char>>,
    page: nat,
    page_size: nat,
    current_year: int,
) -> Map<Seq<char>, Seq<char>> {
    let a = base.insert("siteName"@, "oecd"@).insert("page"@, decimal(page)).insert(
        "pageSize"@,
        decimal(page_size),
    );
    let b = with_default(a, "orderBy"@, "mostRecent"@);
    let c = with_default(b, "minPublicationYear"@, int_text(current_year));
    with_default(c, "maxPublicationYear"@, int_text(current_year))
}

fn put_default(m: &mut StrMap<String>, name: &str, value: String)
    requires
        old(m).wf(),
    ensures
        final(m).wf(),
        text_map(*final(m)) == with_default(text_map(*old(m)), name@, value@),
{
    if value_of(m, name).is_none() {
        put(m, owned(name), value);
    }
}

/// The parameters of the request for a page of the search.
pub fn oecd_page_params(base: &StrMap<String>, page: usize, page_size: usize, current_year: i32) -> (r:
    StrMap<String>)
    requires
        base.wf(),
    ensures
        r.wf(),
        text_map(r) == page_params(
            text_map(*base),
            page as nat,
            page_size as nat,
            current_year as int,
        ),
{
    let mut m = crate::model::copy_map(base);
    proof {
        crate::events::lemma_same_pairs(*base, m);
    }
    put(&mut m, "siteName".to_string(), "oecd".to_string());
    put(&mut m, "page".to_string(), usize_to_string(page));
    put(&mut m, "pageSize".to_string(), usize_to_string(page_size));
    put_default(&mut m, "orderBy", "mostRecent".to_string());
    put_default(&mut m, "minPublicationYear", int_to_string(current_year as i64));
    put_default(&mut m, "maxPublicationYear", int_to_string(current_year as i64));
    m
}

/// Whether the page with this index is asked for: there are fewer than 200
/// pages before it, and the results before it are fewer than the total.
pub open spec fn wants_page(page: nat, page_size: nat, total: nat) -> bool {
    page < OECD_MAX_PAGES && page * page_size < total
}

/// Decides whether another page is asked for.
pub fn oecd_wants_page(page: usize, page_size: usize, total: usize) -> (r: bool)
    ensures
        r == wants_page(page as nat, page_size as nat, total as nat),
{
    if page >= OECD_MAX_PAGES {
        return false;
    }
    match page.checked_mul(page_size) {
        Some(before) => before < total,
        None => {
            assert(page * page_size > usize::MAX);
            false
        },
    }
}

// ---------------------------------------------------------------------------
// Results
// ---------------------------------------------------------------------------

/// The path of one step.
pub open spec fn at_key(name: Seq<char>) -> Seq<StepView> {
    seq![StepView::Key(name)]
}

/// The string under a name of an object; none where the member is missing
/// or no string.
pub open spec fn string_at(body: Seq<u8>, name: Seq<char>) -> Option<Seq<char>> {
    match json_node_at(body, at_key(name)) {
        Some(NodeView::Text(t)) => Some(t),
        _ => None,
    }
}

fn string_member(body: &[u8], name: &str) -> (r: Option<String>)
    ensures
        opt_view(r) == string_at(body@, name@),
{
    let mut path: Vec<JsonStep> = Vec::new();
    path.push(JsonStep::Key(owned(name)));
    assert(path_view(path@) =~= at_key(name@));
    match json_node(body, &path) {
        Some(JsonNode::Text(t)) => Some(t),
        _ => None,
    }
}

/// The total that a page reports: its member `total` where that is a whole
/// number that is not negative, else 0.
pub open spec fn total_of(payload: Seq<u8>) -> usize {
    match json_node_at(payload, at_key("total"@)) {
        Some(NodeView::Number(t)) => match parse_usize_of(t) {
            Some(n) => n,
            None => 0,
        },
        _ => 0,
    }
}

/// The number of results of a page; none where the page has no list of
/// results.
pub open spec fn result_count(payload: Seq<u8>) -> Option<usize> {
    match json_node_at(payload, at_key("results"@)) {
        Some(NodeView::Array(n)) => Some(n),
        _ => None,
    }
}

/// The path of the result at index `i` of a page.
pub open spec fn result_path(i: usize) -> Seq<StepView> {
    seq![StepView::Key("results"@), StepView::Index(i)]
}

/// The result at index `i` of a page, as a JSON document of its own.
pub open spec fn result_bytes(payload: Seq<u8>, i: usize) -> Seq<u8> {
    match json_text_at(payload, result_path(i)) {
        Some(t) => vstd::utf8::encode_utf8(t),
        None => Seq::<u8>::empty(),
    }
}

/// The path of the id of the tag at index `j` of a result.
pub open spec fn tag_path(j: usize) -> Seq<StepView> {
    seq![StepView::Key("tags"@), StepView::Index(j), StepView::Key("id"@)]
}

/// The ids of the first `upto` tags of a result, those that are strings.
pub open spec fn tag_ids_upto(result: Seq<u8>, upto: int) -> Seq<Seq<char>>
    decreases upto,
{
    if upto <= 0 {
        Seq::<Seq<char>>::empty()
    } else {
        match json_node_at(result, tag_path((upto - 1) as usize)) {
            Some(NodeView::Text(id)) => tag_ids_upto(result, upto - 1).push(id),
            _ => tag_ids_upto(result, upto - 1),
        }
    }
}

/// The ids of the tags of a result.
pub open spec fn tag_ids(result: Seq<u8>) -> Seq<Seq<char>> {
    match json_node_at(result, at_key("tags"@)) {
        Some(NodeView::Array(n)) => tag_ids_upto(result, n as int),
        _ => Seq::<Seq<char>>::empty(),
    }
}

/// Whether one of the first `upto` tags says that the result is a
/// publication.
pub open spec fn names_publication(tags: Seq<Seq<char>>, upto: int) -> bool
    decreases upto,
{
    if upto <= 0 || upto > tags.len() {
        false
    } else {
        names_publication(tags, upto - 1) || has_prefix(
            tags[upto - 1],
            "oecd-content-types:publications/"@,
        )
    }
}

/// What is read of a result that becomes an event.
pub struct OecdRow {
    pub title: Seq<char>,
    pub url: Seq<char>,
    pub time: TimeView,
    pub description: Option<Seq<char>>,
    pub tags: Seq<Seq<char>>,
}

/// The trimmed text under a name, where there is one and it is not empty.
pub open spec fn filled_at(body: Seq<u8>, name: Seq<char>) -> Option<Seq<char>> {
    match string_at(body, name) {
        Some(t) => if trim_of(t).len() > 0 {
            Some(trim_of(t))
        } else {
            None
        },
        None => None,
    }
}

/// The address of a result, made absolute; none where it has none.
pub open spec fn result_url(result: Seq<u8>) -> Option<Seq<char>> {
    match string_at(result, "url"@) {
        Some(u) => if absolute_url(Some("https://www.oecd.org"@), u).len() > 0 {
            Some(absolute_url(Some("https://www.oecd.org"@), u))
        } else {
            None
        },
        None => None,
    }
}

/// The text of the date of a result: that of its publication, else that of
/// its start, else that of its end.
pub open spec fn result_date(result: Seq<u8>) -> Option<Seq<char>> {
    match string_at(result, "publicationDateTime"@) {
        Some(d) => Some(d),
        None => match string_at(result, "startDateTime"@) {
            Some(d) => Some(d),
            None => string_at(result, "endDateTime"@),
        },
    }
}

/// Whether the year is the current one or the next.
pub open spec fn is_year_or_next(year: Option<i32>, current_year: int) -> bool {
    match year {
        Some(y) => y == current_year || y == current_year + 1,
        None => false,
    }
}

pub fn matches_year_or_next(year: Option<i32>, current_year: i32) -> (r: bool)
    ensures
        r == is_year_or_next(year, current_year as int),
{
    match year {
        Some(y) => y == current_year || (y as i64) == (current_year as i64) + 1,
        None => false,
    }
}

/// Whether a result gets as far as being counted as seen: it is a
/// publication with a title and an address.
pub open spec fn is_candidate(result: Seq<u8>) -> bool {
    names_publication(tag_ids(result), tag_ids(result).len() as int) && filled_at(
        result,
        "title"@,
    ) is Some && result_url(result) is Some
}

/// The time of a result that has a date.
pub open spec fn result_time(source: SourceConfig, result: Seq<u8>) -> TimeView {
    event_time_of(
        result_date(result)->0,
        None,
        views(source.date.formats@),
        opt_view(source.source.timezone),
        source.date.allow_month_only,
        source.date.allow_year_only,
    )
}

/// What a result becomes: an event, where it is a publication with a title,
/// an address that was not seen before, and a date in the current year or
/// the next.
pub open spec fn row_of_result(
    source: SourceConfig,
    result: Seq<u8>,
    current_year: int,
    seen: Set<Seq<char>>,
) -> Option<OecdRow> {
    if is_candidate(result) && !seen.contains(result_url(result)->0) && result_date(result)
        is Some && is_year_or_next(result_time(source, result).year_bucket(), current_year) {
        Some(
            OecdRow {
                title: filled_at(result, "title"@)->0,
                url: result_url(result)->0,
                time: result_time(source, result),
                description: filled_at(result, "description"@),
                tags: tag_ids(result),
            },
        )
    } else {
        None
    }
}

/// The addresses seen after a result.
pub open spec fn seen_after(result: Seq<u8>, seen: Set<Seq<char>>) -> Set<Seq<char>> {
    if is_candidate(result) {
        seen.insert(result_url(result)->0)
    } else {
        seen
    }
}

/// The categories of an event of the OECD parser: those of the source, and
/// `publishing` at their end where it is missing.
pub open spec fn oecd_categories(source: SourceConfig) -> Seq<Seq<char>> {
    if views(source.event.categories@).contains("publishing"@) {
        views(source.event.categories@)
    } else {
        views(source.event.categories@).push("publishing"@)
    }
}

/// Whether `c` is the event of a result of a page that reports the total
/// `total`.
pub open spec fn is_oecd_event(c: CandidateView, source: SourceConfig, row: OecdRow, total: usize) -> bool {
    &&& c.source_key == source.source.key@
    &&& c.source_name == source.source.name@
    &&& c.source_event_id == Some(row.url)
    &&& c.source_url == Some(row.url)
    &&& c.title == row.title
    &&& c.description == row.description
    &&& c.time == row.time
    &&& c.timezone == opt_view(source.source.timezone)
    &&& c.status == source.event.status@
    &&& c.event_type == source.event.event_type@
    &&& c.subtype == opt_view(source.event.subtype)
    &&& c.categories == oecd_categories(source)
    &&& c.jurisdiction == opt_view(source.source.jurisdiction)
    &&& c.country == opt_view(source.source.default_country)
    &&& c.importance == source.event.importance
    &&& c.confidence == Some(OECD_CONFIDENCE)
    &&& pairs_map(c.metadata) == Map::<Seq<char>, Seq<char>>::empty().insert(
        "custom_parser"@,
        "oecd_publications_v1"@,
    ).insert("api_total"@, decimal(total as nat)).insert("api_tags"@, joined(row.tags, seq![',']))
}

fn filled_member(body: &[u8], name: &str) -> (r: Option<String>)
    ensures
        opt_view(r) == filled_at(body@, name@),
{
    match string_member(body, name) {
        Some(t) => {
            let trimmed = trim(t.as_str());
            if trimmed.as_str().unicode_len() > 0 {
                Some(trimmed)
            } else {
                None
            }
        },
        None => None,
    }
}

fn read_tag_ids(result: &[u8]) -> (r: Vec<String>)
    ensures
        views(r@) == tag_ids(result@),
{
    let mut ids: Vec<String> = Vec::new();
    let mut tags: Vec<JsonStep> = Vec::new();
    tags.push(JsonStep::Key("tags".to_string()));
    assert(path_view(tags@) =~= at_key("tags"@));
    assert(views(ids@) =~= Seq::<Seq<char>>::empty());
    match json_node(result, &tags) {
        Some(JsonNode::Array(n)) => {
            let mut j: usize = 0;
            while j < n
                invariant
                    j <= n,
                    path_view(tags@) == at_key("tags"@),
                    views(ids@) == tag_ids_upto(result@, j as int),
                decreases n - j,
            {
                let item = extend_path(&tags, JsonStep::Index(j));
                let id = extend_path(&item, JsonStep::Key("id".to_string()));
                assert(path_view(id@) =~= tag_path(j));
                let ghost before = views(ids@);
                match json_node(result, &id) {
                    Some(JsonNode::Text(t)) => {
                        ids.push(t);
                        assert(views(ids@) =~= before.push(t@));
                    },
                    _ => {},
                }
                j += 1;
            }
        },
        _ => {},
    }
    ids
}

fn is_publication(tags: &Vec<String>) -> (r: bool)
    ensures
        r == names_publication(views(tags@), tags.len() as int),
{
    let mut i: usize = 0;
    let mut found = false;
    while i < tags.len()
        invariant
            i <= tags.len(),
            found == names_publication(views(tags@), i as int),
        decreases tags.len() - i,
    {
        if starts_with(tags[i].as_str(), "oecd-content-types:publications/") {
            found = true;
        }
        i += 1;
    }
    found
}

fn categories_for(source: &SourceConfig) -> (r: Vec<String>)
    ensures
        views(r@) == oecd_categories(*source),
{
    let mut all = clone_strings(&source.event.categories);
    if !holds(&all, "publishing") {
        let ghost before = views(all@);
        all.push("publishing".to_string());
        assert(views(all@) =~= before.push("publishing"@));
    }
    all
}

/// Reads one result of a page.
fn oecd_result_event(
    source: &SourceConfig,
    result: &[u8],
    total: usize,
    current_year: i32,
    seen: &mut StrMap<()>,
) -> (r: Option<CandidateEvent>)
    requires
        old(seen).wf(),
    ensures
        final(seen).wf(),
        final(seen).keys().to_set() == seen_after(result@, old(seen).keys().to_set()),
        match r {
            Some(c) => c.wf() && row_of_result(
                *source,
                result@,
                current_year as int,
                old(seen).keys().to_set(),
            ) is Some && is_oecd_event(
                c@,
                *source,
                row_of_result(*source, result@, current_year as int, old(seen).keys().to_set())->0,
                total,
            ),
            None => row_of_result(
                *source,
                result@,
                current_year as int,
                old(seen).keys().to_set(),
            ) is None,
        },
{
    let tags = read_tag_ids(result);
    if !is_publication(&tags) {
        return None;
    }
    let title = match filled_member(result, "title") {
        Some(t) => t,
        None => {
            return None;
        },
    };
    let url = match string_member(result, "url") {
        Some(u) => absolutize_url(Some("https://www.oecd.org"), u.as_str()),
        None => {
            return None;
        },
    };
    if url.as_str().unicode_len() == 0 {
        return None;
    }
    let was_seen = seen.contains_key(url.as_str());
    assert(was_seen == seen.keys().to_set().contains(url@)) by {
        assert(seen.keys().to_set().contains(url@) == seen.keys().contains(url@));
    }
    seen.insert(url.clone(), ());
    if was_seen {
        assert(seen.keys().to_set() =~= old(seen).keys().to_set());
        return None;
    }
    let date_text = match string_member(result, "publicationDateTime") {
        Some(d) => Some(d),
        None => match string_member(result, "startDateTime") {
            Some(d) => Some(d),
            None => string_member(result, "endDateTime"),
        },
    };
    let date_text = match date_text {
        Some(d) => d,
        None => {
            return None;
        },
    };
    let zone: Option<&str> = match &source.source.timezone {
        Some(z) => Some(z.as_str()),
        None => None,
    };
    let time = parse_event_time(date_text.as_str(), None, &source.date, zone);
    if !matches_year_or_next(time.year_bucket(), current_year) {
        return None;
    }
    let description = filled_member(result, "description");
    proof {
        reveal_strlit(",");
        assert(","@ =~= seq![',']);
    }
    let api_tags = join(&tags, ",");
    let mut metadata: StrMap<String> = StrMap::new();
    proof {
        lemma_text_map_empty(metadata);
    }
    put(&mut metadata, "custom_parser".to_string(), "oecd_publications_v1".to_string());
    put(&mut metadata, "api_total".to_string(), usize_to_string(total));
    put(&mut metadata, "api_tags".to_string(), api_tags);
    proof {
        lemma_pairs_map(metadata);
    }
    Some(
        CandidateEvent {
            source_key: source.source.key.clone(),
            source_name: source.source.name.clone(),
            source_event_id: Some(url.clone()),
            source_url: Some(url),
            title,
            description,
            time,
            timezone: clone_opt(&source.source.timezone),
            status: source.event.status.clone(),
            event_type: source.event.event_type.clone(),
            subtype: clone_opt(&source.event.subtype),
            categories: categories_for(source),
            jurisdiction: clone_opt(&source.source.jurisdiction),
            country: clone_opt(&source.source.default_country),
            importance: source.event.importance,
            confidence: Some(OECD_CONFIDENCE),
            metadata,
        },
    )
}

// ---------------------------------------------------------------------------
// Pages
// ---------------------------------------------------------------------------

/// Where the reading of the pages stands: the rows found so far, each with
/// the total that its page reported, and the addresses seen so far.
pub struct OecdProgress {
    pub rows: Seq<(OecdRow, usize)>,
    pub seen: Set<Seq<char>>,
}

/// What the first `upto` results of a page add to the rows and the
/// addresses seen.
pub open spec fn after_results(
    source: SourceConfig,
    payload: Seq<u8>,
    current_year: int,
    start: OecdProgress,
    upto: int,
) -> OecdProgress
    decreases upto,
{
    if upto <= 0 {
        start
    } else {
        let before = after_results(source, payload, current_year, start, upto - 1);
        let result = result_bytes(payload, (upto - 1) as usize);
        OecdProgress {
            rows: match row_of_result(source, result, current_year, before.seen) {
                Some(row) => before.rows.push((row, total_of(payload))),
                None => before.rows,
            },
            seen: seen_after(result, before.seen),
        }
    }
}

/// What a page adds to the rows and the addresses seen.
pub open spec fn after_page(
    source: SourceConfig,
    payload: Seq<u8>,
    current_year: int,
    start: OecdProgress,
) -> OecdProgress {
    match result_count(payload) {
        Some(n) => after_results(source, payload, current_year, start, n as int),
        None => start,
    }
}

/// What the pages from index `page` on add to the rows and the addresses
/// seen: a page is read where it is asked for, given the total that the
/// page before it reported; a page without a list of results ends the
/// reading.
pub open spec fn after_pages(
    source: SourceConfig,
    payloads: Seq<FetchedDocument>,
    current_year: int,
    page: nat,
    total: nat,
    start: OecdProgress,
) -> OecdProgress
    decreases payloads.len() - page,
{
    if page >= payloads.len() || !wants_page(page, page_size_of(source) as nat, total) {
        start
    } else {
        let payload = payloads[page as int].body@;
        if result_count(payload) is None {
            start
        } else {
            after_pages(
                source,
                payloads,
                current_year,
                page + 1,
                total_of(payload) as nat,
                after_page(source, payload, current_year, start),
            )
        }
    }
}

/// The rows of the pages of a source.
pub open spec fn oecd_rows(source: SourceConfig, payloads: Seq<FetchedDocument>, current_year: int) -> Seq<
    (OecdRow, usize),
> {
    after_pages(
        source,
        payloads,
        current_year,
        0,
        usize::MAX as nat,
        OecdProgress { rows: Seq::<(OecdRow, usize)>::empty(), seen: Set::<Seq<char>>::empty() },
    ).rows
}

/// Whether the events are those of the rows, one for each, in their order.
pub open spec fn are_oecd_events(
    events: Seq<CandidateView>,
    source: SourceConfig,
    rows: Seq<(OecdRow, usize)>,
) -> bool {
    &&& events.len() == rows.len()
    &&& forall|i: int|
        0 <= i < events.len() ==> is_oecd_event(
            #[trigger] events[i],
            source,
            rows[i].0,
            rows[i].1,
        )
}

fn read_total(payload: &[u8]) -> (r: usize)
    ensures
        r == total_of(payload@),
{
    let mut path: Vec<JsonStep> = Vec::new();
    path.push(JsonStep::Key("total".to_string()));
    assert(path_view(path@) =~= at_key("total"@));
    match json_node(payload, &path) {
        Some(JsonNode::Number(t)) => match parse_usize(t.as_str()) {
            Some(n) => n,
            None => 0,
        },
        _ => 0,
    }
}

fn read_result_count(payload: &[u8]) -> (r: Option<usize>)
    ensures
        r == result_count(payload@),
{
    let mut path: Vec<JsonStep> = Vec::new();
    path.push(JsonStep::Key("results".to_string()));
    assert(path_view(path@) =~= at_key("results"@));
    match json_node(payload, &path) {
        Some(JsonNode::Array(n)) => Some(n),
        _ => None,
    }
}

/// Whether the page behind the page with the index `page` is asked for,
/// given what that page holds: the page has a list of results, and the
/// next page is asked for, given the total that the page reports.
pub open spec fn reads_on(page: nat, page_size: nat, payload: Seq<u8>) -> bool {
    result_count(payload) is Some && wants_page(page + 1, page_size, total_of(payload) as nat)
}

/// Decides, once a page has been fetched, whether the next one is asked
/// for.
pub fn oecd_reads_on(page: usize, page_size: usize, payload: &[u8]) -> (r: bool)
    ensures
        r == reads_on(page as nat, page_size as nat, payload@),
{
    if read_result_count(payload).is_none() {
        return false;
    }
    if page >= OECD_MAX_PAGES {
        return false;
    }
    oecd_wants_page(page + 1, page_size, read_total(payload))
}

fn read_result(payload: &[u8], i: usize) -> (r: String)
    ensures
        vstd::utf8::encode_utf8(r@) == result_bytes(payload@, i),
{
    let mut path: Vec<JsonStep> = Vec::new();
    path.push(JsonStep::Key("results".to_string()));
    path.push(JsonStep::Index(i));
    assert(path_view(path@) =~= result_path(i));
    match json_text(payload, &path) {
        Some(t) => t,
        None => {
            let empty = String::new();
            proof {
                assert(empty@ =~= Seq::<char>::empty());
                assert(vstd::utf8::encode_utf8(Seq::<char>::empty()) =~= Seq::<u8>::empty()) by {
                    reveal_with_fuel(vstd::utf8::encode_utf8, 1);
                }
            }
            empty
        },
    }
}

/// Reads the events of one page into `events`.
fn oecd_page(
    source: &SourceConfig,
    payload: &[u8],
    count: usize,
    current_year: i32,
    seen: &mut StrMap<()>,
    events: &mut Vec<CandidateEvent>,
    Ghost(start): Ghost<OecdProgress>,
)
    requires
        old(seen).wf(),
        result_count(payload@) == Some(count),
        old(seen).keys().to_set() == start.seen,
        forall|i: int| 0 <= i < old(events).len() ==> (#[trigger] old(events)@[i]).wf(),
        are_oecd_events(crate::merge::candidate_views(old(events)@), *source, start.rows),
    ensures
        final(seen).wf(),
        final(seen).keys().to_set() == after_page(
            *source,
            payload@,
            current_year as int,
            start,
        ).seen,
        forall|i: int| 0 <= i < final(events).len() ==> (#[trigger] final(events)@[i]).wf(),
        are_oecd_events(
            crate::merge::candidate_views(final(events)@),
            *source,
            after_page(*source, payload@, current_year as int, start).rows,
        ),
{
    let total = read_total(payload);
    let mut i: usize = 0;
    while i < count
        invariant
            i <= count,
            total == total_of(payload@),
            result_count(payload@) == Some(count),
            seen.wf(),
            seen.keys().to_set() == after_results(
                *source,
                payload@,
                current_year as int,
                start,
                i as int,
            ).seen,
            forall|k: int| 0 <= k < events.len() ==> (#[trigger] events@[k]).wf(),
            are_oecd_events(
                crate::merge::candidate_views(events@),
                *source,
                after_results(*source, payload@, current_year as int, start, i as int).rows,
            ),
        decreases count - i,
    {
        let result = read_result(payload, i);
        let ghost before = events@;
        let ghost progress = after_results(*source, payload@, current_year as int, start, i as int);
        match oecd_result_event(source, result.as_str().as_bytes(), total, current_year, seen) {
            Some(event) => {
                events.push(event);
                proof {
                    let now = after_results(
                        *source,
                        payload@,
                        current_year as int,
                        start,
                        i + 1,
                    ).rows;
                    assert forall|k: int| 0 <= k < events.len() implies is_oecd_event(
                        #[trigger] crate::merge::candidate_views(events@)[k],
                        *source,
                        now[k].0,
                        now[k].1,
                    ) by {
                        if k < before.len() {
                            assert(events@[k] == before[k]);
                            assert(crate::merge::candidate_views(before)[k] == before[k]@);
                        }
                    }
                }
            },
            None => {},
        }
        i += 1;
    }
}

/// Reads the events of the pages of the search of the OECD.
///
/// The pages are read in their order, each only where it is asked for. A
/// result becomes an event where it is a publication with a title, an
/// address that no earlier result had, and a date in the current year or
/// the next.
pub fn parse_oecd_publications(
    source: &SourceConfig,
    payloads: &Vec<FetchedDocument>,
    current_year: i32,
) -> (events: Vec<CandidateEvent>)
    requires
        source.wf(),
    ensures
        forall|i: int| 0 <= i < events.len() ==> (#[trigger] events@[i]).wf(),
        are_oecd_events(
            crate::merge::candidate_views(events@),
            *source,
            oecd_rows(*source, payloads@, current_year as int),
        ),
{
    let page_size = oecd_page_size(source);
    let mut events: Vec<CandidateEvent> = Vec::new();
    let mut seen: StrMap<()> = StrMap::new();
    let mut total: usize = usize::MAX;
    let mut page: usize = 0;
    let ghost mut progress = OecdProgress {
        rows: Seq::<(OecdRow, usize)>::empty(),
        seen: Set::<Seq<char>>::empty(),
    };
    assert(seen.keys().to_set() =~= Set::<Seq<char>>::empty());
    while page < payloads.len() && oecd_wants_page(page, page_size, total)
        invariant
            page <= payloads.len(),
            source.wf(),
            page_size == page_size_of(*source),
            seen.wf(),
            seen.keys().to_set() == progress.seen,
            forall|i: int| 0 <= i < events.len() ==> (#[trigger] events@[i]).wf(),
            are_oecd_events(crate::merge::candidate_views(events@), *source, progress.rows),
            oecd_rows(*source, payloads@, current_year as int) == after_pages(
                *source,
                payloads@,
                current_year as int,
                page as nat,
                total as nat,
                progress,
            ).rows,
        decreases payloads.len() - page,
    {
        let payload = payloads[page].body.as_slice();
        let count = match read_result_count(payload) {
            Some(n) => n,
            None => {
                return events;
            },
        };
        oecd_page(source, payload, count, current_year, &mut seen, &mut events, Ghost(progress));
        proof {
            progress = after_page(*source, payload@, current_year as int, progress);
        }
        total = read_total(payload);
        page += 1;
    }
    events
}

} // verus!
