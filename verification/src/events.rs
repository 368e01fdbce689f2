//! From mapped records to candidate events.

use vstd::prelude::*;
use crate::chunks::{trim_and_fill, trimmed_filled};
use crate::confidence::{confidence_of, parse_confidence};
use crate::config::{ExtractFormat, LoadedSource, SourceConfig};
use crate::custom::{
    are_econ_events_of, are_rough_events, custom_parser, parse_econ_indicators,
    parse_rough_text_lines, parser_for, rough_fields, CustomParserKind,
};
use crate::dates::{event_time_of, parse_event_time};
use crate::oecd::{are_oecd_events, oecd_rows, parse_oecd_publications};
use crate::documents::{
    html_document_records, json_document_records, mapped_views, parse_html_document,
    parse_json_document, parse_text_document, text_document_records, with_field,
    FetchedDocument, MappedView, ParseError, ParseFault,
};
use crate::keyed::{
    lemma_map_of_at, lemma_text_map_empty, put, sort_dedup, sorted_set, text_map, value_of, StrMap,
};
use crate::model::{lemma_pairs_map, pairs_map, CandidateEvent, CandidateView};
use crate::numbers::{parse_u8, parse_u8_of};
use crate::rules::{field_value, MappedRecord};
use crate::text::{
    clone_opt, clone_strings, opt_view, owned, replace, replaced, split, split_on, views,
};
use crate::time::{EventTimeSpec, TimeView};

verus! {

// ---------------------------------------------------------------------------
// The fields of an event
// ---------------------------------------------------------------------------

/// The value under the first name, else that under the second.
pub open spec fn either(fields: Map<Seq<char>, Seq<char>>, first: Seq<char>, second: Seq<char>) -> Option<
    Seq<char>,
> {
    match field_value(fields, first) {
        Some(v) => Some(v),
        None => field_value(fields, second),
    }
}

/// `value`, or `fallback` where there is no value.
pub open spec fn or_else(value: Option<Seq<char>>, fallback: Option<Seq<char>>) -> Option<
    Seq<char>,
> {
    match value {
        Some(v) => Some(v),
        None => fallback,
    }
}

/// The title of a record: its field `title`, else its field `name`.
pub open spec fn title_of(fields: Map<Seq<char>, Seq<char>>) -> Option<Seq<char>> {
    either(fields, "title"@, "name"@)
}

/// The text of the start of a record: its field `start`, else the field
/// that the source names as the primary date, else its field `date`.
pub open spec fn start_of(source: SourceConfig, fields: Map<Seq<char>, Seq<char>>) -> Option<
    Seq<char>,
> {
    or_else(
        or_else(field_value(fields, "start"@), field_value(fields, source.date.primary@)),
        field_value(fields, "date"@),
    )
}

/// The time zone in which the local times of a source are read.
pub open spec fn zone_of(source: SourceConfig) -> Option<Seq<char>> {
    or_else(opt_view(source.source.timezone), opt_view(source.date.assume_timezone))
}

/// The time of the event of a record.
pub open spec fn time_of(source: SourceConfig, fields: Map<Seq<char>, Seq<char>>) -> TimeView {
    match start_of(source, fields) {
        Some(start) => event_time_of(
            start,
            field_value(fields, "end"@),
            views(source.date.formats@),
            zone_of(source),
            source.date.allow_month_only,
            source.date.allow_year_only,
        ),
        None => TimeView::Tbd { note: field_value(fields, "tbd"@) },
    }
}

/// The categories that a record names itself: the parts of its field
/// `categories` between commas and semicolons, trimmed, without the empty
/// ones.
pub open spec fn own_categories(fields: Map<Seq<char>, Seq<char>>) -> Seq<Seq<char>> {
    match field_value(fields, "categories"@) {
        Some(list) => trimmed_filled(split_on(replaced(list, ";"@, ","@), ',')),
        None => Seq::<Seq<char>>::empty(),
    }
}

/// The categories of the event of a record: those of the source, the domain
/// of the source, and those that the record names; in ascending order, each
/// one once.
pub open spec fn categories_of(source: SourceConfig, fields: Map<Seq<char>, Seq<char>>) -> Seq<
    Seq<char>,
> {
    sorted_set(
        views(source.event.categories@).push(source.source.domain@) + own_categories(fields),
    )
}

/// The importance of the event of a record: its field `importance` where it
/// is a number from 0 to 255, else that of the source.
pub open spec fn importance_of(source: SourceConfig, fields: Map<Seq<char>, Seq<char>>) -> Option<
    u8,
> {
    match field_value(fields, "importance"@) {
        Some(text) => match parse_u8_of(text) {
            Some(v) => Some(v),
            None => source.event.importance,
        },
        None => source.event.importance,
    }
}

/// The confidence of the event of a record, in ten-thousandths.
pub open spec fn confidence_in(fields: Map<Seq<char>, Seq<char>>) -> Option<i64> {
    match field_value(fields, "confidence"@) {
        Some(text) => confidence_of(text),
        None => None,
    }
}

/// Whether a field of a record has a place of its own in the event, so that
/// it is no metadata.
pub open spec fn is_reserved(name: Seq<char>) -> bool {
    name == "title"@ || name == "name"@ || name == "description"@ || name == "summary"@ || name
        == "date"@ || name == "start"@ || name == "end"@ || name == "status"@ || name
        == "event_type"@ || name == "subtype"@ || name == "categories"@ || name
        == "source_event_id"@ || name == "id"@ || name == "url"@ || name == "link"@ || name
        == "importance"@ || name == "confidence"@
}

/// The fields of a record that are metadata.
pub open spec fn plain_metadata(fields: Map<Seq<char>, Seq<char>>) -> Map<Seq<char>, Seq<char>> {
    Map::new(
        |k: Seq<char>| fields.contains_key(k) && !is_reserved(k),
        |k: Seq<char>| fields[k],
    )
}

/// The metadata of the event of a record: the fields of the record that
/// have no place of their own, the precision of the time under
/// `time_precision`, and the base address under `base_url` where the record
/// has one.
pub open spec fn metadata_of(r: MappedView, time: TimeView) -> Map<Seq<char>, Seq<char>> {
    with_field(
        plain_metadata(r.fields).insert("time_precision"@, time.precision()),
        "base_url"@,
        r.base_url,
    )
}

/// Whether `c` is the event of the record `r` of the source.
pub open spec fn is_event_view(c: CandidateView, source: SourceConfig, r: MappedView) -> bool {
    &&& c.source_key == source.source.key@
    &&& c.source_name == source.source.name@
    &&& c.source_event_id == either(r.fields, "source_event_id"@, "id"@)
    &&& c.source_url == or_else(either(r.fields, "url"@, "link"@), Some(r.source_url))
    &&& Some(c.title) == title_of(r.fields)
    &&& c.description == either(r.fields, "description"@, "summary"@)
    &&& c.time == time_of(source, r.fields)
    &&& c.timezone == opt_view(source.source.timezone)
    &&& Some(c.status) == or_else(field_value(r.fields, "status"@), Some(source.event.status@))
    &&& Some(c.event_type) == or_else(
        field_value(r.fields, "event_type"@),
        Some(source.event.event_type@),
    )
    &&& c.subtype == or_else(field_value(r.fields, "subtype"@), opt_view(source.event.subtype))
    &&& c.categories == categories_of(source, r.fields)
    &&& c.jurisdiction == opt_view(source.source.jurisdiction)
    &&& c.country == opt_view(source.source.default_country)
    &&& c.importance == importance_of(source, r.fields)
    &&& c.confidence == confidence_in(r.fields)
    &&& pairs_map(c.metadata) == metadata_of(r, time_of(source, r.fields))
}

/// Whether `c` is the event of the record `r` of the source.
pub open spec fn is_event_of(c: CandidateEvent, source: SourceConfig, r: MappedView) -> bool {
    is_event_view(c@, source, r)
}

fn reserved(name: &str) -> (r: bool)
    ensures
        r == is_reserved(name@),
{
    *name == *"title" || *name == *"name" || *name == *"description" || *name == *"summary"
        || *name == *"date" || *name == *"start" || *name == *"end" || *name == *"status" || *name
        == *"event_type" || *name == *"subtype" || *name == *"categories" || *name
        == *"source_event_id" || *name == *"id" || *name == *"url" || *name == *"link" || *name
        == *"importance" || *name == *"confidence"
}

fn first_or(fields: &StrMap<String>, first: &str, second: &str) -> (r: Option<String>)
    requires
        fields.wf(),
    ensures
        opt_view(r) == either(text_map(*fields), first@, second@),
{
    match value_of(fields, first) {
        Some(v) => Some(v),
        None => value_of(fields, second),
    }
}

fn value_or(value: Option<String>, fallback: &Option<String>) -> (r: Option<String>)
    ensures
        opt_view(r) == or_else(opt_view(value), opt_view(*fallback)),
{
    match value {
        Some(v) => Some(v),
        None => clone_opt(fallback),
    }
}

fn categories_for(source: &SourceConfig, fields: &StrMap<String>) -> (out: Vec<String>)
    requires
        fields.wf(),
    ensures
        views(out@) == categories_of(*source, text_map(*fields)),
{
    let mut all = clone_strings(&source.event.categories);
    let ghost base = views(all@);
    all.push(source.source.domain.clone());
    assert(views(all@) =~= base.push(source.source.domain@));
    match value_of(fields, "categories") {
        Some(list) => {
            let parts = trim_and_fill(&split(replace(list.as_str(), ";", ",").as_str(), ','));
            let ghost before = views(all@);
            let mut i: usize = 0;
            while i < parts.len()
                invariant
                    i <= parts.len(),
                    views(all@) == before + views(parts@).take(i as int),
                decreases parts.len() - i,
            {
                let ghost sofar = views(all@);
                all.push(parts[i].clone());
                i += 1;
                assert(views(all@) =~= sofar.push(parts@[i - 1]@));
                assert(before + views(parts@).take(i as int) =~= (before + views(parts@).take(
                    i - 1,
                )).push(parts@[i - 1]@));
            }
            assert(views(parts@).take(i as int) =~= views(parts@));
        },
        None => {
            assert(views(all@) + Seq::<Seq<char>>::empty() =~= views(all@));
        },
    }
    sort_dedup(&all)
}

/// Whether `k` is one of the first `upto` names.
pub open spec fn among_first(names: Seq<Seq<char>>, upto: int, k: Seq<char>) -> bool {
    exists|j: int| 0 <= j < upto && j < names.len() && #[trigger] names[j] == k
}

proof fn lemma_among_first(names: Seq<Seq<char>>, upto: int, k: Seq<char>)
    requires
        0 <= upto < names.len(),
    ensures
        among_first(names, upto + 1, k) <==> (among_first(names, upto, k) || names[upto] == k),
        among_first(names, names.len() as int, k) <==> names.contains(k),
{
    if among_first(names, upto + 1, k) {
        let j = choose|j: int| 0 <= j < upto + 1 && j < names.len() && #[trigger] names[j] == k;
        if j < upto {
            assert(among_first(names, upto, k));
        }
    }
    if among_first(names, upto, k) {
        let j = choose|j: int| 0 <= j < upto && j < names.len() && #[trigger] names[j] == k;
        assert(0 <= j < upto + 1 && names[j] == k);
    }
    if names[upto] == k {
        assert(among_first(names, upto + 1, k));
    }
    if among_first(names, names.len() as int, k) {
        let j = choose|j: int|
            0 <= j < names.len() && j < names.len() && #[trigger] names[j] == k;
        assert(names.contains(k));
    }
    if names.contains(k) {
        let j = choose|j: int| 0 <= j < names.len() && names[j] == k;
        assert(0 <= j < names.len() && names[j] == k);
    }
}

fn plain_metadata_of(fields: &StrMap<String>) -> (m: StrMap<String>)
    requires
        fields.wf(),
    ensures
        m.wf(),
        text_map(m) == plain_metadata(text_map(*fields)),
{
    let mut m: StrMap<String> = StrMap::new();
    proof {
        lemma_text_map_empty(m);
    }
    let ghost names = fields.keys();
    let ghost all = text_map(*fields);
    let mut i: usize = 0;
    while i < fields.len()
        invariant
            i <= names.len(),
            fields.wf(),
            names == fields.keys(),
            all == text_map(*fields),
            m.wf(),
            forall|k: Seq<char>| #[trigger]
                text_map(m).contains_key(k) <==> (!is_reserved(k) && among_first(
                    names,
                    i as int,
                    k,
                )),
            forall|k: Seq<char>| text_map(m).contains_key(k) ==> #[trigger] text_map(m)[k] == all[k],
        decreases names.len() - i,
    {
        let name = fields.key_at(i);
        let value = fields.value_at(i);
        let ghost before = text_map(m);
        proof {
            lemma_map_of_at(fields.keys(), fields.values(), i as int);
            assert(fields.contains(name@));
            assert(all[name@] == value@);
            assert forall|k: Seq<char>|
                among_first(names, i + 1, k) <==> (among_first(names, i as int, k) || names[i as int]
                    == k) by {
                lemma_among_first(names, i as int, k);
            }
        }
        if !reserved(name.as_str()) {
            put(&mut m, name.clone(), value.clone());
        }
        i += 1;
    }
    proof {
        let target = plain_metadata(all);
        assert forall|k: Seq<char>| text_map(m).contains_key(k) <==> target.contains_key(k) by {
            if names.len() > 0 {
                lemma_among_first(names, 0, k);
            } else {
                assert(!among_first(names, 0, k));
                assert(!names.contains(k));
            }
        }
        assert(text_map(m) =~= target);
    }
    m
}

/// Makes the candidate event of a mapped record; a record without a title
/// gives none.
pub fn mapped_record_to_event(source: &SourceConfig, mapped: &MappedRecord) -> (r: Option<
    CandidateEvent,
>)
    requires
        mapped.wf(),
    ensures
        match r {
            Some(c) => c.wf() && title_of(mapped@.fields) is Some && is_event_of(
                c,
                *source,
                mapped@,
            ),
            None => title_of(mapped@.fields) is None,
        },
{
    let fields = &mapped.fields;
    let title = match first_or(fields, "title", "name") {
        Some(t) => t,
        None => {
            return None;
        },
    };
    let source_url = match first_or(fields, "url", "link") {
        Some(u) => Some(u),
        None => Some(mapped.source_url.clone()),
    };
    let source_event_id = first_or(fields, "source_event_id", "id");
    let start_raw = match value_of(fields, "start") {
        Some(s) => Some(s),
        None => match value_of(fields, source.date.primary.as_str()) {
            Some(s) => Some(s),
            None => value_of(fields, "date"),
        },
    };
    let end_raw = value_of(fields, "end");
    let zone: Option<&str> = match &source.source.timezone {
        Some(z) => Some(z.as_str()),
        None => match &source.date.assume_timezone {
            Some(z) => Some(z.as_str()),
            None => None,
        },
    };
    let time = match &start_raw {
        Some(start) => {
            let end: Option<&str> = match &end_raw {
                Some(e) => Some(e.as_str()),
                None => None,
            };
            parse_event_time(start.as_str(), end, &source.date, zone)
        },
        None => EventTimeSpec::Tbd { note: value_of(fields, "tbd") },
    };
    let status = match value_of(fields, "status") {
        Some(s) => s,
        None => source.event.status.clone(),
    };
    let event_type = match value_of(fields, "event_type") {
        Some(s) => s,
        None => source.event.event_type.clone(),
    };
    let subtype = value_or(value_of(fields, "subtype"), &source.event.subtype);
    let categories = categories_for(source, fields);
    let description = first_or(fields, "description", "summary");
    let importance = match value_of(fields, "importance") {
        Some(text) => match parse_u8(text.as_str()) {
            Some(v) => Some(v),
            None => source.event.importance,
        },
        None => source.event.importance,
    };
    let confidence = match value_of(fields, "confidence") {
        Some(text) => parse_confidence(text.as_str()),
        None => None,
    };
    let mut metadata = plain_metadata_of(fields);
    put(&mut metadata, "time_precision".to_string(), time.precision().to_string());
    match &mapped.base_url {
        Some(base) => {
            put(&mut metadata, "base_url".to_string(), base.clone());
        },
        None => {},
    }
    proof {
        lemma_pairs_map(metadata);
    }
    Some(
        CandidateEvent {
            source_key: source.source.key.clone(),
            source_name: source.source.name.clone(),
            source_event_id,
            source_url,
            title,
            description,
            time,
            timezone: clone_opt(&source.source.timezone),
            status,
            event_type,
            subtype,
            categories,
            jurisdiction: clone_opt(&source.source.jurisdiction),
            country: clone_opt(&source.source.default_country),
            importance,
            confidence,
            metadata,
        },
    )
}

// ---------------------------------------------------------------------------
// The events of the documents of a source
// ---------------------------------------------------------------------------

/// The records of a document of a source, by the format of the source.
pub open spec fn document_records(source: SourceConfig, source_url: Seq<char>, body: Seq<u8>) -> Result<
    Seq<MappedView>,
    ParseFault,
> {
    match source.extract.format {
        ExtractFormat::Html => html_document_records(source, source_url, body),
        ExtractFormat::Json => json_document_records(source, source_url, body),
        ExtractFormat::PdfText => text_document_records(source, source_url, body),
        ExtractFormat::Text => text_document_records(source, source_url, body),
    }
}

/// The records of the documents of a source, in the order of the documents;
/// the first document that cannot be read is an error.
pub open spec fn all_records(source: SourceConfig, docs: Seq<FetchedDocument>) -> Result<
    Seq<MappedView>,
    ParseFault,
>
    decreases docs.len(),
{
    if docs.len() == 0 {
        Ok(Seq::<MappedView>::empty())
    } else {
        match all_records(source, docs.drop_last()) {
            Ok(front) => match document_records(
                source,
                docs.last().source_url@,
                docs.last().body@,
            ) {
                Ok(records) => Ok(front + records),
                Err(e) => Err(e),
            },
            Err(e) => Err(e),
        }
    }
}

proof fn lemma_all_records_error(source: SourceConfig, docs: Seq<FetchedDocument>, upto: int)
    requires
        0 <= upto <= docs.len(),
        all_records(source, docs.take(upto)) is Err,
    ensures
        all_records(source, docs) == all_records(source, docs.take(upto)),
    decreases docs.len() - upto,
{
    if upto < docs.len() {
        assert(docs.take(upto + 1).drop_last() =~= docs.take(upto));
        lemma_all_records_error(source, docs, upto + 1);
    } else {
        assert(docs.take(upto) =~= docs);
    }
}

/// The records among `records` that have a title.
pub open spec fn titled(records: Seq<MappedView>) -> Seq<MappedView>
    decreases records.len(),
{
    if records.len() == 0 {
        Seq::<MappedView>::empty()
    } else if title_of(records.last().fields) is Some {
        titled(records.drop_last()).push(records.last())
    } else {
        titled(records.drop_last())
    }
}

/// Whether the events are those of the records that have a title, in the
/// order of the records.
pub open spec fn are_event_views_of(
    events: Seq<CandidateView>,
    source: SourceConfig,
    records: Seq<MappedView>,
) -> bool {
    &&& events.len() == titled(records).len()
    &&& forall|i: int|
        0 <= i < events.len() ==> is_event_view(#[trigger] events[i], source, titled(records)[i])
}

/// Whether the events are those of the records that have a title, in the
/// order of the records.
pub open spec fn are_events_of(
    events: Seq<CandidateEvent>,
    source: SourceConfig,
    records: Seq<MappedView>,
) -> bool {
    &&& forall|i: int| 0 <= i < events.len() ==> (#[trigger] events[i]).wf()
    &&& are_event_views_of(crate::merge::candidate_views(events), source, records)
}

/// Finds the records of the documents of a source.
pub fn extract_records(source: &SourceConfig, docs: &Vec<FetchedDocument>) -> (r: Result<
    Vec<MappedRecord>,
    ParseError,
>)
    requires
        source.wf(),
    ensures
        match r {
            Ok(records) => all_records(*source, docs@) == Ok::<Seq<MappedView>, ParseFault>(
                mapped_views(records@),
            ) && forall|i: int| 0 <= i < records.len() ==> (#[trigger] records@[i]).wf(),
            Err(e) => all_records(*source, docs@) == Err::<Seq<MappedView>, ParseFault>(e@),
        },
{
    let mut out: Vec<MappedRecord> = Vec::new();
    let mut i: usize = 0;
    assert(docs@.take(0) =~= Seq::<FetchedDocument>::empty());
    assert(mapped_views(out@) =~= Seq::<MappedView>::empty());
    while i < docs.len()
        invariant
            i <= docs.len(),
            source.wf(),
            all_records(*source, docs@.take(i as int)) == Ok::<Seq<MappedView>, ParseFault>(
                mapped_views(out@),
            ),
            forall|k: int| 0 <= k < out.len() ==> (#[trigger] out@[k]).wf(),
        decreases docs.len() - i,
    {
        let doc = &docs[i];
        proof {
            assert(docs@.take(i + 1).drop_last() =~= docs@.take(i as int));
            assert(docs@.take(i + 1).last() == docs@[i as int]);
        }
        let found = match source.extract.format {
            ExtractFormat::Html => parse_html_document(source, doc),
            ExtractFormat::Json => parse_json_document(source, doc),
            ExtractFormat::PdfText => parse_text_document(source, doc),
            ExtractFormat::Text => parse_text_document(source, doc),
        };
        match found {
            Ok(records) => {
                let ghost before = mapped_views(out@);
                let ghost added = mapped_views(records@);
                let mut records = records;
                let mut k: usize = 0;
                let n = records.len();
                while k < n
                    invariant
                        k <= n,
                        n == records.len(),
                        added == mapped_views(records@),
                        mapped_views(out@) == before + added.take(k as int),
                        forall|j: int| 0 <= j < out.len() ==> (#[trigger] out@[j]).wf(),
                        forall|j: int| 0 <= j < records.len() ==> (#[trigger] records@[j]).wf(),
                    decreases n - k,
                {
                    let ghost sofar = mapped_views(out@);
                    let record = copy_record(&records[k]);
                    out.push(record);
                    k += 1;
                    assert(mapped_views(out@) =~= sofar.push(added[k - 1]));
                    assert(before + added.take(k as int) =~= (before + added.take(k - 1)).push(
                        added[k - 1],
                    ));
                }
                assert(added.take(n as int) =~= added);
            },
            Err(e) => {
                proof {
                    lemma_all_records_error(*source, docs@, i + 1);
                }
                return Err(e);
            },
        }
        i += 1;
    }
    assert(docs@.take(i as int) =~= docs@);
    Ok(out)
}

/// An owned copy of a mapped record.
pub fn copy_record(record: &MappedRecord) -> (out: MappedRecord)
    requires
        record.wf(),
    ensures
        out.wf(),
        out@ == record@,
{
    let fields = crate::model::copy_map(&record.fields);
    proof {
        lemma_same_pairs(record.fields, fields);
    }
    MappedRecord {
        fields,
        source_url: record.source_url.clone(),
        base_url: clone_opt(&record.base_url),
        raw_text: record.raw_text.clone(),
    }
}

/// String maps with the same entries have the same text map.
pub proof fn lemma_same_pairs(a: StrMap<String>, b: StrMap<String>)
    requires
        a.wf(),
        b.wf(),
        crate::model::pairs(a) == crate::model::pairs(b),
    ensures
        text_map(a) == text_map(b),
{
    assert(a.keys().len() == crate::model::pairs(a).len());
    assert(b.keys().len() == crate::model::pairs(b).len());
    assert forall|i: int| 0 <= i < a.keys().len() implies a.keys()[i] == b.keys()[i]
        && a.values()[i]@ == b.values()[i]@ by {
        assert(crate::model::pairs(a)[i] == crate::model::pairs(b)[i]);
    }
    assert(a.keys() =~= b.keys());
    assert forall|k: Seq<char>| a.contains(k) implies text_map(a)[k] == text_map(b)[k] by {
        let i = choose|i: int| 0 <= i < a.keys().len() && a.keys()[i] == k;
        lemma_map_of_at(a.keys(), a.values(), i);
        lemma_map_of_at(b.keys(), b.values(), i);
    }
    assert(text_map(a) =~= text_map(b));
}

/// Makes the candidate events of mapped records.
pub fn records_to_events(source: &SourceConfig, records: &Vec<MappedRecord>) -> (events: Vec<
    CandidateEvent,
>)
    requires
        forall|i: int| 0 <= i < records.len() ==> (#[trigger] records@[i]).wf(),
    ensures
        are_events_of(events@, *source, mapped_views(records@)),
{
    let mut events: Vec<CandidateEvent> = Vec::new();
    let ghost all = mapped_views(records@);
    let mut i: usize = 0;
    assert(all.take(0) =~= Seq::<MappedView>::empty());
    while i < records.len()
        invariant
            i <= records.len(),
            all == mapped_views(records@),
            forall|k: int| 0 <= k < records.len() ==> (#[trigger] records@[k]).wf(),
            are_events_of(events@, *source, all.take(i as int)),
        decreases records.len() - i,
    {
        proof {
            assert(all.take(i + 1).drop_last() =~= all.take(i as int));
            assert(all.take(i + 1).last() == records@[i as int]@);
        }
        let ghost before = events@;
        match mapped_record_to_event(source, &records[i]) {
            Some(event) => {
                events.push(event);
                assert forall|k: int| 0 <= k < events.len() implies is_event_view(
                    #[trigger] crate::merge::candidate_views(events@)[k],
                    *source,
                    titled(all.take(i + 1))[k],
                ) by {
                    if k < before.len() {
                        assert(events@[k] == before[k]);
                        assert(crate::merge::candidate_views(before)[k] == before[k]@);
                    }
                }
            },
            None => {},
        }
        i += 1;
    }
    assert(all.take(i as int) =~= all);
    events
}

/// Finds the events that the documents of a source describe, by the rules
/// of the source.
pub fn parse_declarative_events(source: &LoadedSource, docs: &Vec<FetchedDocument>) -> (r: Result<
    Vec<CandidateEvent>,
    ParseError,
>)
    requires
        source.config.wf(),
    ensures
        match r {
            Ok(events) => match all_records(source.config, docs@) {
                Ok(records) => are_events_of(events@, source.config, records),
                Err(_) => false,
            },
            Err(e) => all_records(source.config, docs@) == Err::<Seq<MappedView>, ParseFault>(e@),
        },
{
    match extract_records(&source.config, docs) {
        Ok(records) => Ok(records_to_events(&source.config, &records)),
        Err(e) => Err(e),
    }
}

/// Whether the events are those that the documents of a source describe:
/// by the parser that the source asks for, or by the rules of the source.
pub open spec fn parsed(
    events: Seq<CandidateView>,
    source: SourceConfig,
    docs: Seq<FetchedDocument>,
    current_year: int,
) -> bool {
    match parser_for(source) {
        Some(CustomParserKind::RoughTextLines) => are_rough_events(
            events,
            source,
            rough_fields(docs),
        ),
        Some(CustomParserKind::EconIndicatorsCalendar) => are_econ_events_of(events, source, docs),
        Some(CustomParserKind::OecdPublications) => are_oecd_events(
            events,
            source,
            oecd_rows(source, docs, current_year),
        ),
        None => match all_records(source, docs) {
            Ok(records) => are_event_views_of(events, source, records),
            Err(_) => false,
        },
    }
}

/// Why the events of the documents of a source cannot be found, if they
/// cannot: a document cannot be read by the rules of the source. The
/// parsers made for one kind of source do not fail.
pub open spec fn parse_fault(source: SourceConfig, docs: Seq<FetchedDocument>) -> Option<
    ParseFault,
> {
    match parser_for(source) {
        Some(_) => None,
        None => match all_records(source, docs) {
            Ok(_) => None,
            Err(e) => Some(e),
        },
    }
}

/// Finds the events that the documents of a source describe.
///
/// A source that names a known parser and has custom parsing enabled is
/// read by that parser; every other source by its rules. For the parser of
/// the OECD the documents are the pages of its search.
pub fn parse_source_events(
    source: &LoadedSource,
    docs: &Vec<FetchedDocument>,
    current_year: i32,
) -> (r: Result<Vec<CandidateEvent>, ParseError>)
    requires
        source.config.wf(),
    ensures
        match r {
            Ok(events) => {
                &&& parse_fault(source.config, docs@) is None
                &&& forall|i: int| 0 <= i < events.len() ==> (#[trigger] events@[i]).wf()
                &&& parsed(
                    crate::merge::candidate_views(events@),
                    source.config,
                    docs@,
                    current_year as int,
                )
            },
            Err(e) => parse_fault(source.config, docs@) == Some(e@),
        },
{
    match custom_parser(&source.config) {
        Some(CustomParserKind::RoughTextLines) => Ok(parse_rough_text_lines(&source.config, docs)),
        Some(CustomParserKind::EconIndicatorsCalendar) => Ok(
            parse_econ_indicators(&source.config, docs),
        ),
        Some(CustomParserKind::OecdPublications) => Ok(
            parse_oecd_publications(&source.config, docs, current_year),
        ),
        None => parse_declarative_events(source, docs),
    }
}

} // verus!
