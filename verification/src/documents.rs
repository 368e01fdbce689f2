//! Documents: how the records of an HTML, a JSON or a text document are
//! found and their fields mapped.

use vstd::prelude::*;
use crate::chunks::{
    normalize_text, normalized_text, parse_pipe_record, pipe_fields, split_text_records,
    text_records,
};
use crate::config::{FieldRule, PdfFieldRule, SourceConfig};
use crate::html::{
    first_attr, first_html_attr, first_html_text, first_text, html_matches, html_select,
    raw_text_of, selector_is_valid, selector_parses, text_lists,
};
use crate::json::{
    is_scalar, json_is_valid, json_node, json_node_at, json_parses, json_text, json_text_at,
    node_text, path_view, paths_view, select_json_nodes, selected_nodes, text_of_node, JsonNode,
    JsonStep, NodeView, StepView,
};
use crate::keyed::{lemma_text_map_empty, put, text_map, StrMap};
use crate::lines::joined;
use crate::links::{absolute_url, absolutize_url, url_strip, url_stripped};
use crate::pattern::{
    captured, extract_with_regex, first_match, group_of, group_text, pattern_compiles,
    regex_captures, InvalidPattern,
};
use crate::rules::{evaluate_field_rule, rule_value, CtxView, MappedRecord, MappingCtx};
use crate::text::{clone_opt, is_blank_text, opt_view, owned, trim_of, views};

verus! {

/// A document as it was fetched: where it came from, its bytes, and the
/// index of its page.
#[derive(Clone, Debug)]
pub struct FetchedDocument {
    pub source_url: String,
    pub body: Vec<u8>,
    pub page_index: usize,
}

/// The text of a byte string, with the replacement character in place of
/// what is no UTF-8.
pub uninterp spec fn lossy_text(bytes: Seq<u8>) -> Seq<char>;

/// `String::from_utf8_lossy`. The contract claims that the text depends on
/// the bytes alone, and that bytes that are UTF-8 are decoded as they are.
#[verifier::external_body]
pub(crate) fn utf8_lossy(bytes: &[u8]) -> (r: String)
    ensures
        r@ == lossy_text(bytes@),
        vstd::utf8::valid_utf8(bytes@) ==> r@ == vstd::utf8::decode_utf8(bytes@),
{
    String::from_utf8_lossy(bytes).into_owned()
}

/// Why the records of a document cannot be found.
#[derive(Clone, Debug)]
pub enum ParseError {
    /// A pattern of the source is no regular expression.
    InvalidPattern { pattern: String },
    /// The root selector of the source is no selector.
    InvalidSelector { selector: String },
    /// The document at this address is no JSON document.
    InvalidJson { source_url: String },
}

/// The mathematical value of a `ParseError`.
pub enum ParseFault {
    InvalidPattern { pattern: Seq<char> },
    InvalidSelector { selector: Seq<char> },
    InvalidJson { source_url: Seq<char> },
}

impl View for ParseError {
    type V = ParseFault;

    open spec fn view(&self) -> ParseFault {
        match *self {
            ParseError::InvalidPattern { pattern } => ParseFault::InvalidPattern {
                pattern: pattern@,
            },
            ParseError::InvalidSelector { selector } => ParseFault::InvalidSelector {
                selector: selector@,
            },
            ParseError::InvalidJson { source_url } => ParseFault::InvalidJson {
                source_url: source_url@,
            },
        }
    }
}

/// The mathematical value of a mapped record.
pub struct MappedView {
    pub fields: Map<Seq<char>, Seq<char>>,
    pub source_url: Seq<char>,
    pub base_url: Option<Seq<char>>,
    pub raw_text: Seq<char>,
}

impl View for MappedRecord {
    type V = MappedView;

    open spec fn view(&self) -> MappedView {
        MappedView {
            fields: text_map(self.fields),
            source_url: self.source_url@,
            base_url: opt_view(self.base_url),
            raw_text: self.raw_text@,
        }
    }
}

pub open spec fn mapped_views(records: Seq<MappedRecord>) -> Seq<MappedView> {
    records.map_values(|r: MappedRecord| r@)
}

/// What a list of records or a pattern that does not compile amounts to as
/// the result of a document.
pub open spec fn as_parse_result(r: Result<Seq<MappedView>, Seq<char>>) -> Result<
    Seq<MappedView>,
    ParseFault,
> {
    match r {
        Ok(v) => Ok(v),
        Err(p) => Err(ParseFault::InvalidPattern { pattern: p }),
    }
}

// ---------------------------------------------------------------------------
// Fields by rules
// ---------------------------------------------------------------------------

/// The fields that the rules of a map give for a record, the rules applied
/// in ascending order of the names of their fields, each seeing the fields
/// resolved before it. A field without a value is left out.
pub open spec fn fields_by_rules(
    names: Seq<Seq<char>>,
    rules: Seq<FieldRule>,
    ctx: CtxView,
    raw_text: Seq<char>,
    base_url: Option<Seq<char>>,
    source_url: Seq<char>,
) -> Result<Map<Seq<char>, Seq<char>>, Seq<char>>
    decreases names.len(),
{
    if names.len() == 0 || rules.len() != names.len() {
        Ok(Map::<Seq<char>, Seq<char>>::empty())
    } else {
        match fields_by_rules(
            names.drop_last(),
            rules.drop_last(),
            ctx,
            raw_text,
            base_url,
            source_url,
        ) {
            Ok(m) => match rule_value(
                names.last(),
                rules.last(),
                ctx,
                m,
                raw_text,
                base_url,
                source_url,
            ) {
                Ok(Some(v)) => Ok(m.insert(names.last(), v)),
                Ok(None) => Ok(m),
                Err(p) => Err(p),
            },
            Err(p) => Err(p),
        }
    }
}

proof fn lemma_fields_by_rules_error(
    names: Seq<Seq<char>>,
    rules: Seq<FieldRule>,
    ctx: CtxView,
    raw_text: Seq<char>,
    base_url: Option<Seq<char>>,
    source_url: Seq<char>,
    upto: int,
)
    requires
        names.len() == rules.len(),
        0 <= upto <= names.len(),
        fields_by_rules(names.take(upto), rules.take(upto), ctx, raw_text, base_url, source_url)
            is Err,
    ensures
        fields_by_rules(names, rules, ctx, raw_text, base_url, source_url) == fields_by_rules(
            names.take(upto),
            rules.take(upto),
            ctx,
            raw_text,
            base_url,
            source_url,
        ),
    decreases names.len() - upto,
{
    if upto < names.len() {
        assert(names.take(upto + 1).drop_last() =~= names.take(upto));
        assert(rules.take(upto + 1).drop_last() =~= rules.take(upto));
        lemma_fields_by_rules_error(names, rules, ctx, raw_text, base_url, source_url, upto + 1);
    } else {
        assert(names.take(upto) =~= names);
        assert(rules.take(upto) =~= rules);
    }
}

/// Applies the rules of a map to a record.
pub fn map_fields(
    rules: &StrMap<FieldRule>,
    ctx: MappingCtx<'_>,
    raw_text: &str,
    base_url: Option<&str>,
    source_url: &str,
) -> (r: Result<StrMap<String>, InvalidPattern>)
    requires
        rules.wf(),
    ensures
        match r {
            Ok(m) => m.wf() && fields_by_rules(
                rules.keys(),
                rules.values(),
                ctx@,
                raw_text@,
                match base_url {
                    Some(b) => Some(b@),
                    None => None,
                },
                source_url@,
            ) == Ok::<Map<Seq<char>, Seq<char>>, Seq<char>>(text_map(m)),
            Err(e) => fields_by_rules(
                rules.keys(),
                rules.values(),
                ctx@,
                raw_text@,
                match base_url {
                    Some(b) => Some(b@),
                    None => None,
                },
                source_url@,
            ) == Err::<Map<Seq<char>, Seq<char>>, Seq<char>>(e.pattern@),
        },
{
    let mut mapped: StrMap<String> = StrMap::new();
    let ghost names = rules.keys();
    let ghost all = rules.values();
    let ghost base = match base_url {
        Some(b) => Some(b@),
        None => None,
    };
    proof {
        lemma_text_map_empty(mapped);
        assert(names.take(0) =~= Seq::<Seq<char>>::empty());
    }
    let mut i: usize = 0;
    while i < rules.len()
        invariant
            i <= names.len(),
            rules.wf(),
            names == rules.keys(),
            all == rules.values(),
            names.len() == all.len(),
            base == (match base_url {
                Some(b) => Some(b@),
                None => None,
            }),
            mapped.wf(),
            fields_by_rules(names.take(i as int), all.take(i as int), ctx@, raw_text@, base, source_url@)
                == Ok::<Map<Seq<char>, Seq<char>>, Seq<char>>(text_map(mapped)),
        decreases names.len() - i,
    {
        let field = rules.key_at(i);
        let rule = rules.value_at(i);
        proof {
            assert(names.take(i + 1).drop_last() =~= names.take(i as int));
            assert(all.take(i + 1).drop_last() =~= all.take(i as int));
            assert(names.take(i + 1).last() == field@);
            assert(all.take(i + 1).last() == *rule);
        }
        match evaluate_field_rule(
            field.as_str(),
            rule,
            ctx,
            &mapped,
            raw_text,
            base_url,
            source_url,
        ) {
            Ok(value) => match value {
                Some(v) => {
                    put(&mut mapped, field.clone(), v);
                },
                None => {},
            },
            Err(e) => {
                proof {
                    lemma_fields_by_rules_error(
                        names,
                        all,
                        ctx@,
                        raw_text@,
                        base,
                        source_url@,
                        i + 1,
                    );
                }
                return Err(e);
            },
        }
        i += 1;
    }
    proof {
        assert(names.take(i as int) =~= names);
        assert(all.take(i as int) =~= all);
    }
    Ok(mapped)
}

// ---------------------------------------------------------------------------
// Dates in running text
// ---------------------------------------------------------------------------

/// The patterns of the dates that are looked for in the text of a record:
/// `2026-05-01`, `2026/05/01` and `May 1, 2026`.
pub open spec fn date_patterns() -> Seq<Seq<char>> {
    seq![
        "\\b\\d{4}-\\d{2}-\\d{2}\\b"@,
        "\\b\\d{4}/\\d{2}/\\d{2}\\b"@,
        "\\b(?:Jan|Feb|Mar|Apr|May|Jun|Jul|Aug|Sep|Sept|Oct|Nov|Dec)[a-z]*\\s+\\d{1,2},\\s+\\d{4}\\b"@,
    ]
}

/// The first date that one of the patterns finds in the text, the patterns
/// taken in their order. A pattern that does not compile ends the search.
pub open spec fn date_found(text: Seq<char>, patterns: Seq<Seq<char>>) -> Option<Seq<char>>
    decreases patterns.len(),
{
    if patterns.len() == 0 || !pattern_compiles(patterns[0]) {
        None
    } else {
        match first_match(patterns[0], text) {
            Some(m) if group_of(m, 0) is Some => group_of(m, 0),
            _ => date_found(text, patterns.drop_first()),
        }
    }
}

/// The first date in the text of a record.
pub open spec fn detected_date(text: Seq<char>) -> Option<Seq<char>> {
    date_found(text, date_patterns())
}

/// Looks for a date in the text of a record.
pub fn detect_date_in_text(text: &str) -> (r: Option<String>)
    ensures
        opt_view(r) == detected_date(text@),
{
    let mut patterns: Vec<String> = Vec::new();
    patterns.push("\\b\\d{4}-\\d{2}-\\d{2}\\b".to_string());
    patterns.push("\\b\\d{4}/\\d{2}/\\d{2}\\b".to_string());
    patterns.push(
        "\\b(?:Jan|Feb|Mar|Apr|May|Jun|Jul|Aug|Sep|Sept|Oct|Nov|Dec)[a-z]*\\s+\\d{1,2},\\s+\\d{4}\\b".to_string(),
    );
    assert(views(patterns@) =~= date_patterns());
    let ghost all = views(patterns@);
    let mut i: usize = 0;
    assert(all.skip(0) =~= all);
    while i < patterns.len()
        invariant
            i <= patterns.len(),
            all == views(patterns@),
            all == date_patterns(),
            date_found(text@, all) == date_found(text@, all.skip(i as int)),
        decreases patterns.len() - i,
    {
        assert(all.skip(i as int)[0] == patterns@[i as int]@);
        assert(all.skip(i as int).drop_first() =~= all.skip(i + 1));
        match regex_captures(patterns[i].as_str(), text) {
            Ok(found) => match found {
                Some(m) => match group_text(&m, 0) {
                    Some(t) => {
                        return Some(t);
                    },
                    None => {},
                },
                None => {},
            },
            Err(_) => {
                return None;
            },
        }
        i += 1;
    }
    None
}

// ---------------------------------------------------------------------------
// HTML
// ---------------------------------------------------------------------------

/// The selectors of the elements in which a title is looked for.
pub open spec fn title_selectors() -> Seq<Seq<char>> {
    seq!["h1"@, "h2"@, "h3"@, "a"@]
}

/// `m` with the value under the name, where there is a value.
pub open spec fn with_field(
    m: Map<Seq<char>, Seq<char>>,
    name: Seq<char>,
    value: Option<Seq<char>>,
) -> Map<Seq<char>, Seq<char>> {
    match value {
        Some(v) => m.insert(name, v),
        None => m,
    }
}

/// The fields of a record of an HTML source without a map: the title is the
/// first text of a heading or a link; the address is that of the first
/// link, made absolute; the date is the first date in the text.
pub open spec fn default_html_fields(
    html: Seq<char>,
    root: Seq<char>,
    index: nat,
    raw_text: Seq<char>,
    base_url: Option<Seq<char>>,
) -> Map<Seq<char>, Seq<char>> {
    let a = with_field(
        Map::<Seq<char>, Seq<char>>::empty(),
        "title"@,
        first_text(html, root, index, title_selectors()),
    );
    let b = with_field(
        a,
        "url"@,
        match first_attr(html, root, index, "a"@, "href"@) {
            Some(u) => Some(absolute_url(base_url, u)),
            None => None,
        },
    );
    with_field(b, "date"@, detected_date(raw_text))
}

/// The record of one node of an HTML document.
pub open spec fn html_record(
    source: SourceConfig,
    html: Seq<char>,
    root: Seq<char>,
    index: nat,
    texts: Seq<Seq<char>>,
    base_url: Option<Seq<char>>,
    source_url: Seq<char>,
) -> Result<MappedView, Seq<char>> {
    let raw_text = joined(texts, seq![' ']);
    let fields = if source.map.keys().len() == 0 {
        Ok(default_html_fields(html, root, index, raw_text, base_url))
    } else {
        fields_by_rules(
            source.map.keys(),
            source.map.values(),
            CtxView::Html { html, root, index },
            raw_text,
            base_url,
            source_url,
        )
    };
    match fields {
        Ok(m) => Ok(MappedView { fields: m, source_url, base_url, raw_text }),
        Err(p) => Err(p),
    }
}

/// The records of the first `upto` nodes of an HTML document.
pub open spec fn html_records(
    source: SourceConfig,
    html: Seq<char>,
    root: Seq<char>,
    nodes: Seq<Seq<Seq<char>>>,
    base_url: Option<Seq<char>>,
    source_url: Seq<char>,
    upto: int,
) -> Result<Seq<MappedView>, Seq<char>>
    decreases upto,
{
    if upto <= 0 || upto > nodes.len() {
        Ok(Seq::<MappedView>::empty())
    } else {
        match html_records(source, html, root, nodes, base_url, source_url, upto - 1) {
            Ok(front) => match html_record(
                source,
                html,
                root,
                (upto - 1) as nat,
                nodes[upto - 1],
                base_url,
                source_url,
            ) {
                Ok(r) => Ok(front.push(r)),
                Err(p) => Err(p),
            },
            Err(p) => Err(p),
        }
    }
}

proof fn lemma_html_records_error(
    source: SourceConfig,
    html: Seq<char>,
    root: Seq<char>,
    nodes: Seq<Seq<Seq<char>>>,
    base_url: Option<Seq<char>>,
    source_url: Seq<char>,
    upto: int,
)
    requires
        0 <= upto <= nodes.len(),
        html_records(source, html, root, nodes, base_url, source_url, upto) is Err,
    ensures
        html_records(source, html, root, nodes, base_url, source_url, nodes.len() as int)
            == html_records(source, html, root, nodes, base_url, source_url, upto),
    decreases nodes.len() - upto,
{
    if upto < nodes.len() {
        lemma_html_records_error(source, html, root, nodes, base_url, source_url, upto + 1);
    }
}

/// The base against which the relative addresses of a document are
/// resolved: the address of the document without its query and fragment,
/// or the base address of the source where the former is no address.
pub open spec fn base_of(source: SourceConfig, source_url: Seq<char>) -> Option<Seq<char>> {
    match url_stripped(source_url) {
        Some(u) => Some(u),
        None => opt_view(source.fetch.base_url),
    }
}

/// The root selector of a source: `body` where it names none.
pub open spec fn root_of(source: SourceConfig) -> Seq<char> {
    match source.extract.root_selector {
        Some(s) => s@,
        None => "body"@,
    }
}

/// The records of an HTML document: one for every element that the root
/// selector of the source matches. A root selector that is no selector and
/// a pattern that does not compile are errors.
pub open spec fn html_document_records(
    source: SourceConfig,
    source_url: Seq<char>,
    body: Seq<u8>,
) -> Result<Seq<MappedView>, ParseFault> {
    let html = lossy_text(body);
    let root = root_of(source);
    if !selector_is_valid(root) {
        Err(ParseFault::InvalidSelector { selector: root })
    } else {
        let nodes = html_matches(html, root);
        as_parse_result(
            html_records(
                source,
                html,
                root,
                nodes,
                base_of(source, source_url),
                source_url,
                nodes.len() as int,
            ),
        )
    }
}

fn default_fields_of_html(html: &str, root: &str, index: usize, raw_text: &str, base_url: Option<
    &str,
>) -> (m: StrMap<String>)
    ensures
        m.wf(),
        text_map(m) == default_html_fields(
            html@,
            root@,
            index as nat,
            raw_text@,
            match base_url {
                Some(b) => Some(b@),
                None => None,
            },
        ),
{
    let mut m: StrMap<String> = StrMap::new();
    proof {
        lemma_text_map_empty(m);
    }
    let mut selectors: Vec<String> = Vec::new();
    selectors.push("h1".to_string());
    selectors.push("h2".to_string());
    selectors.push("h3".to_string());
    selectors.push("a".to_string());
    assert(views(selectors@) =~= title_selectors());
    match first_html_text(html, root, index, &selectors) {
        Some(title) => {
            put(&mut m, "title".to_string(), title);
        },
        None => {},
    }
    match first_html_attr(html, root, index, "a", "href") {
        Some(url) => {
            put(&mut m, "url".to_string(), absolutize_url(base_url, url.as_str()));
        },
        None => {},
    }
    match detect_date_in_text(raw_text) {
        Some(date) => {
            put(&mut m, "date".to_string(), date);
        },
        None => {},
    }
    m
}

fn html_record_of(
    source: &SourceConfig,
    html: &str,
    root: &str,
    index: usize,
    texts: &Vec<String>,
    base_url: &Option<String>,
    source_url: &str,
) -> (r: Result<MappedRecord, InvalidPattern>)
    requires
        source.wf(),
    ensures
        match r {
            Ok(record) => record.wf() && html_record(
                *source,
                html@,
                root@,
                index as nat,
                views(texts@),
                opt_view(*base_url),
                source_url@,
            ) == Ok::<MappedView, Seq<char>>(record@),
            Err(e) => html_record(
                *source,
                html@,
                root@,
                index as nat,
                views(texts@),
                opt_view(*base_url),
                source_url@,
            ) == Err::<MappedView, Seq<char>>(e.pattern@),
        },
{
    let raw_text = raw_text_of(texts);
    let base: Option<&str> = match base_url {
        Some(b) => Some(b.as_str()),
        None => None,
    };
    let fields = if source.map.is_empty() {
        default_fields_of_html(html, root, index, raw_text.as_str(), base)
    } else {
        match map_fields(
            &source.map,
            MappingCtx::Html { html, root, index },
            raw_text.as_str(),
            base,
            source_url,
        ) {
            Ok(m) => m,
            Err(e) => {
                return Err(e);
            },
        }
    };
    Ok(
        MappedRecord {
            fields,
            source_url: owned(source_url),
            base_url: clone_opt(base_url),
            raw_text,
        },
    )
}

/// Finds the records of an HTML document.
pub fn parse_html_document(source: &SourceConfig, doc: &FetchedDocument) -> (r: Result<
    Vec<MappedRecord>,
    ParseError,
>)
    requires
        source.wf(),
    ensures
        match r {
            Ok(records) => html_document_records(*source, doc.source_url@, doc.body@) == Ok::<
                Seq<MappedView>,
                ParseFault,
            >(mapped_views(records@)) && forall|i: int|
                0 <= i < records.len() ==> (#[trigger] records@[i]).wf(),
            Err(e) => html_document_records(*source, doc.source_url@, doc.body@) == Err::<
                Seq<MappedView>,
                ParseFault,
            >(e@),
        },
{
    let html = utf8_lossy(doc.body.as_slice());
    let base_url: Option<String> = match url_strip(doc.source_url.as_str()) {
        Some(u) => Some(u),
        None => clone_opt(&source.fetch.base_url),
    };
    let root: String = match &source.extract.root_selector {
        Some(s) => s.clone(),
        None => "body".to_string(),
    };
    if !selector_parses(root.as_str()) {
        return Err(ParseError::InvalidSelector { selector: root });
    }
    let nodes = html_select(html.as_str(), root.as_str());
    let ghost texts = text_lists(nodes@);
    let mut out: Vec<MappedRecord> = Vec::new();
    let mut i: usize = 0;
    assert(mapped_views(out@) =~= Seq::<MappedView>::empty());
    while i < nodes.len()
        invariant
            i <= nodes.len(),
            source.wf(),
            texts == text_lists(nodes@),
            html@ == lossy_text(doc.body@),
            root@ == root_of(*source),
            selector_is_valid(root@),
            texts == html_matches(html@, root@),
            opt_view(base_url) == base_of(*source, doc.source_url@),
            html_records(
                *source,
                html@,
                root@,
                texts,
                opt_view(base_url),
                doc.source_url@,
                i as int,
            ) == Ok::<Seq<MappedView>, Seq<char>>(mapped_views(out@)),
            forall|k: int| 0 <= k < out.len() ==> (#[trigger] out@[k]).wf(),
        decreases nodes.len() - i,
    {
        assert(texts[i as int] == views(nodes@[i as int]@));
        let ghost before = mapped_views(out@);
        match html_record_of(
            source,
            html.as_str(),
            root.as_str(),
            i,
            &nodes[i],
            &base_url,
            doc.source_url.as_str(),
        ) {
            Ok(record) => {
                out.push(record);
                assert(mapped_views(out@) =~= before.push(record@));
            },
            Err(e) => {
                proof {
                    lemma_html_records_error(
                        *source,
                        html@,
                        root@,
                        texts,
                        opt_view(base_url),
                        doc.source_url@,
                        i + 1,
                    );
                }
                return Err(ParseError::InvalidPattern { pattern: e.pattern });
            },
        }
        i += 1;
    }
    Ok(out)
}

// ---------------------------------------------------------------------------
// JSON
// ---------------------------------------------------------------------------

/// The fields of a record of a JSON source without a map: every member of
/// the object that is a string, a number or a truth value, as text.
pub open spec fn object_fields(body: Seq<u8>, node: Seq<StepView>, keys: Seq<Seq<char>>) -> Map<
    Seq<char>,
    Seq<char>,
>
    decreases keys.len(),
{
    if keys.len() == 0 {
        Map::<Seq<char>, Seq<char>>::empty()
    } else {
        let m = object_fields(body, node, keys.drop_last());
        match json_node_at(body, node.push(StepView::Key(keys.last()))) {
            Some(n) if is_scalar(n) => with_field(m, keys.last(), node_text(n, None)),
            _ => m,
        }
    }
}

/// The fields of a record of a JSON source without a map.
pub open spec fn default_json_fields(body: Seq<u8>, node: Seq<StepView>) -> Map<
    Seq<char>,
    Seq<char>,
> {
    match json_node_at(body, node) {
        Some(NodeView::Object(keys)) => object_fields(body, node, keys),
        _ => Map::<Seq<char>, Seq<char>>::empty(),
    }
}

/// The text of a node, empty where there is none.
pub open spec fn node_raw_text(body: Seq<u8>, node: Seq<StepView>) -> Seq<char> {
    match json_text_at(body, node) {
        Some(t) => t,
        None => Seq::<char>::empty(),
    }
}

/// The record of one node of a JSON document.
pub open spec fn json_record(
    source: SourceConfig,
    body: Seq<u8>,
    node: Seq<StepView>,
    source_url: Seq<char>,
) -> Result<MappedView, Seq<char>> {
    let raw_text = node_raw_text(body, node);
    let fields = if source.map.keys().len() == 0 {
        Ok(default_json_fields(body, node))
    } else {
        fields_by_rules(
            source.map.keys(),
            source.map.values(),
            CtxView::Json { body, node },
            raw_text,
            None,
            source_url,
        )
    };
    match fields {
        Ok(m) => Ok(MappedView { fields: m, source_url, base_url: None, raw_text }),
        Err(p) => Err(p),
    }
}

/// The records of the nodes of a JSON document, in their order.
pub open spec fn json_records(
    source: SourceConfig,
    body: Seq<u8>,
    nodes: Seq<Seq<StepView>>,
    source_url: Seq<char>,
) -> Result<Seq<MappedView>, Seq<char>>
    decreases nodes.len(),
{
    if nodes.len() == 0 {
        Ok(Seq::<MappedView>::empty())
    } else {
        match json_records(source, body, nodes.drop_last(), source_url) {
            Ok(front) => match json_record(source, body, nodes.last(), source_url) {
                Ok(r) => Ok(front.push(r)),
                Err(p) => Err(p),
            },
            Err(p) => Err(p),
        }
    }
}

proof fn lemma_json_records_error(
    source: SourceConfig,
    body: Seq<u8>,
    nodes: Seq<Seq<StepView>>,
    source_url: Seq<char>,
    upto: int,
)
    requires
        0 <= upto <= nodes.len(),
        json_records(source, body, nodes.take(upto), source_url) is Err,
    ensures
        json_records(source, body, nodes, source_url) == json_records(
            source,
            body,
            nodes.take(upto),
            source_url,
        ),
    decreases nodes.len() - upto,
{
    if upto < nodes.len() {
        assert(nodes.take(upto + 1).drop_last() =~= nodes.take(upto));
        lemma_json_records_error(source, body, nodes, source_url, upto + 1);
    } else {
        assert(nodes.take(upto) =~= nodes);
    }
}

/// The records of a JSON document: one for every node that the root path of
/// the source selects. Bytes that are no JSON document and a pattern that
/// does not compile are errors.
pub open spec fn json_document_records(
    source: SourceConfig,
    source_url: Seq<char>,
    body: Seq<u8>,
) -> Result<Seq<MappedView>, ParseFault> {
    if !json_is_valid(body) {
        Err(ParseFault::InvalidJson { source_url })
    } else {
        as_parse_result(
            json_records(
                source,
                body,
                selected_nodes(
                    body,
                    Seq::<StepView>::empty(),
                    opt_view(source.extract.root_jsonpath),
                ),
                source_url,
            ),
        )
    }
}

fn default_fields_of_json(body: &[u8], node: &Vec<JsonStep>) -> (m: StrMap<String>)
    ensures
        m.wf(),
        text_map(m) == default_json_fields(body@, path_view(node@)),
{
    let mut m: StrMap<String> = StrMap::new();
    proof {
        lemma_text_map_empty(m);
    }
    match json_node(body, node) {
        Some(JsonNode::Object(keys)) => {
            let ghost names = views(keys@);
            let mut i: usize = 0;
            assert(names.take(0) =~= Seq::<Seq<char>>::empty());
            while i < keys.len()
                invariant
                    i <= keys.len(),
                    names == views(keys@),
                    m.wf(),
                    text_map(m) == object_fields(body@, path_view(node@), names.take(i as int)),
                decreases keys.len() - i,
            {
                proof {
                    assert(names.take(i + 1).drop_last() =~= names.take(i as int));
                    assert(names.take(i + 1).last() == keys@[i as int]@);
                }
                let member = crate::json::extend_path(node, JsonStep::Key(keys[i].clone()));
                match json_node(body, &member) {
                    Some(n) => {
                        let scalar = match n {
                            JsonNode::Bool(_) => true,
                            JsonNode::Number(_) => true,
                            JsonNode::Text(_) => true,
                            _ => false,
                        };
                        if scalar {
                            match text_of_node(&n, None) {
                                Some(text) => {
                                    put(&mut m, keys[i].clone(), text);
                                },
                                None => {},
                            }
                        }
                    },
                    None => {},
                }
                i += 1;
            }
            assert(names.take(i as int) =~= names);
        },
        _ => {},
    }
    m
}

fn json_record_of(source: &SourceConfig, body: &[u8], node: &Vec<JsonStep>, source_url: &str) -> (r:
    Result<MappedRecord, InvalidPattern>)
    requires
        source.wf(),
    ensures
        match r {
            Ok(record) => record.wf() && json_record(
                *source,
                body@,
                path_view(node@),
                source_url@,
            ) == Ok::<MappedView, Seq<char>>(record@),
            Err(e) => json_record(*source, body@, path_view(node@), source_url@) == Err::<
                MappedView,
                Seq<char>,
            >(e.pattern@),
        },
{
    let raw_text = match json_text(body, node) {
        Some(t) => t,
        None => String::new(),
    };
    let fields = if source.map.is_empty() {
        default_fields_of_json(body, node)
    } else {
        match map_fields(
            &source.map,
            MappingCtx::Json { body, node },
            raw_text.as_str(),
            None,
            source_url,
        ) {
            Ok(m) => m,
            Err(e) => {
                return Err(e);
            },
        }
    };
    Ok(MappedRecord { fields, source_url: owned(source_url), base_url: None, raw_text })
}

/// Finds the records of a JSON document.
pub fn parse_json_document(source: &SourceConfig, doc: &FetchedDocument) -> (r: Result<
    Vec<MappedRecord>,
    ParseError,
>)
    requires
        source.wf(),
    ensures
        match r {
            Ok(records) => json_document_records(*source, doc.source_url@, doc.body@) == Ok::<
                Seq<MappedView>,
                ParseFault,
            >(mapped_views(records@)) && forall|i: int|
                0 <= i < records.len() ==> (#[trigger] records@[i]).wf(),
            Err(e) => json_document_records(*source, doc.source_url@, doc.body@) == Err::<
                Seq<MappedView>,
                ParseFault,
            >(e@),
        },
{
    let body = doc.body.as_slice();
    if !json_parses(body) {
        return Err(ParseError::InvalidJson { source_url: doc.source_url.clone() });
    }
    let root: Vec<JsonStep> = Vec::new();
    assert(path_view(root@) =~= Seq::<StepView>::empty());
    let path: Option<&str> = match &source.extract.root_jsonpath {
        Some(p) => Some(p.as_str()),
        None => None,
    };
    let nodes = select_json_nodes(body, &root, path);
    let ghost all = paths_view(nodes@);
    let mut out: Vec<MappedRecord> = Vec::new();
    let mut i: usize = 0;
    assert(all.take(0) =~= Seq::<Seq<StepView>>::empty());
    assert(mapped_views(out@) =~= Seq::<MappedView>::empty());
    while i < nodes.len()
        invariant
            i <= nodes.len(),
            source.wf(),
            body@ == doc.body@,
            all == paths_view(nodes@),
            json_is_valid(body@),
            all == selected_nodes(
                body@,
                Seq::<StepView>::empty(),
                opt_view(source.extract.root_jsonpath),
            ),
            json_records(*source, body@, all.take(i as int), doc.source_url@) == Ok::<
                Seq<MappedView>,
                Seq<char>,
            >(mapped_views(out@)),
            forall|k: int| 0 <= k < out.len() ==> (#[trigger] out@[k]).wf(),
        decreases nodes.len() - i,
    {
        proof {
            assert(all.take(i + 1).drop_last() =~= all.take(i as int));
            assert(all.take(i + 1).last() == path_view(nodes@[i as int]@));
        }
        let ghost before = mapped_views(out@);
        match json_record_of(source, body, &nodes[i], doc.source_url.as_str()) {
            Ok(record) => {
                out.push(record);
                assert(mapped_views(out@) =~= before.push(record@));
            },
            Err(e) => {
                proof {
                    lemma_json_records_error(*source, body@, all, doc.source_url@, i + 1);
                }
                return Err(ParseError::InvalidPattern { pattern: e.pattern });
            },
        }
        i += 1;
    }
    assert(all.take(i as int) =~= all);
    Ok(out)
}

// ---------------------------------------------------------------------------
// Text
// ---------------------------------------------------------------------------

/// The fields with those that the field patterns of a text source add: a
/// field that has a value already is left alone; else the value is the group
/// of the first match of the field's pattern in the record.
pub open spec fn with_pattern_fields(
    m: Map<Seq<char>, Seq<char>>,
    names: Seq<Seq<char>>,
    rules: Seq<PdfFieldRule>,
    chunk: Seq<char>,
) -> Result<Map<Seq<char>, Seq<char>>, Seq<char>>
    decreases names.len(),
{
    if names.len() == 0 || rules.len() != names.len() {
        Ok(m)
    } else {
        match with_pattern_fields(m, names.drop_last(), rules.drop_last(), chunk) {
            Ok(front) => if front.contains_key(names.last()) {
                Ok(front)
            } else if !pattern_compiles(rules.last().pattern@) {
                Err(rules.last().pattern@)
            } else {
                Ok(
                    with_field(
                        front,
                        names.last(),
                        captured(rules.last().pattern@, chunk, rules.last().capture as int),
                    ),
                )
            },
            Err(p) => Err(p),
        }
    }
}

proof fn lemma_pattern_fields_error(
    m: Map<Seq<char>, Seq<char>>,
    names: Seq<Seq<char>>,
    rules: Seq<PdfFieldRule>,
    chunk: Seq<char>,
    upto: int,
)
    requires
        names.len() == rules.len(),
        0 <= upto <= names.len(),
        with_pattern_fields(m, names.take(upto), rules.take(upto), chunk) is Err,
    ensures
        with_pattern_fields(m, names, rules, chunk) == with_pattern_fields(
            m,
            names.take(upto),
            rules.take(upto),
            chunk,
        ),
    decreases names.len() - upto,
{
    if upto < names.len() {
        assert(names.take(upto + 1).drop_last() =~= names.take(upto));
        assert(rules.take(upto + 1).drop_last() =~= rules.take(upto));
        lemma_pattern_fields_error(m, names, rules, chunk, upto + 1);
    } else {
        assert(names.take(upto) =~= names);
        assert(rules.take(upto) =~= rules);
    }
}

/// The record of one piece of a text document.
pub open spec fn text_record(source: SourceConfig, chunk: Seq<char>, source_url: Seq<char>) -> Result<
    MappedView,
    Seq<char>,
> {
    let first = if source.map.keys().len() == 0 {
        Ok(
            match pipe_fields(chunk) {
                Some(m) => m,
                None => Map::<Seq<char>, Seq<char>>::empty(),
            },
        )
    } else {
        fields_by_rules(
            source.map.keys(),
            source.map.values(),
            CtxView::Text,
            chunk,
            None,
            source_url,
        )
    };
    match first {
        Ok(m) => match with_pattern_fields(
            m,
            source.pdf.fields.keys(),
            source.pdf.fields.values(),
            chunk,
        ) {
            Ok(fields) => Ok(MappedView { fields, source_url, base_url: None, raw_text: chunk }),
            Err(p) => Err(p),
        },
        Err(p) => Err(p),
    }
}

/// The records of the pieces of a text document, in their order; a piece
/// that holds white space only gives none.
pub open spec fn text_chunk_records(
    source: SourceConfig,
    chunks: Seq<Seq<char>>,
    source_url: Seq<char>,
) -> Result<Seq<MappedView>, Seq<char>>
    decreases chunks.len(),
{
    if chunks.len() == 0 {
        Ok(Seq::<MappedView>::empty())
    } else {
        match text_chunk_records(source, chunks.drop_last(), source_url) {
            Ok(front) => if trim_of(chunks.last()).len() == 0 {
                Ok(front)
            } else {
                match text_record(source, chunks.last(), source_url) {
                    Ok(r) => Ok(front.push(r)),
                    Err(p) => Err(p),
                }
            },
            Err(p) => Err(p),
        }
    }
}

proof fn lemma_text_records_error(
    source: SourceConfig,
    chunks: Seq<Seq<char>>,
    source_url: Seq<char>,
    upto: int,
)
    requires
        0 <= upto <= chunks.len(),
        text_chunk_records(source, chunks.take(upto), source_url) is Err,
    ensures
        text_chunk_records(source, chunks, source_url) == text_chunk_records(
            source,
            chunks.take(upto),
            source_url,
        ),
    decreases chunks.len() - upto,
{
    if upto < chunks.len() {
        assert(chunks.take(upto + 1).drop_last() =~= chunks.take(upto));
        lemma_text_records_error(source, chunks, source_url, upto + 1);
    } else {
        assert(chunks.take(upto) =~= chunks);
    }
}

/// The records of a text document: the text is tidied and cut into pieces,
/// and every piece gives a record. A pattern that does not compile is an
/// error.
pub open spec fn text_document_records(
    source: SourceConfig,
    source_url: Seq<char>,
    body: Seq<u8>,
) -> Result<Seq<MappedView>, ParseFault> {
    let text = normalized_text(
        lossy_text(body),
        source.pdf.normalize_whitespace,
        source.pdf.join_lines,
    );
    match text_records(source, text) {
        Ok(chunks) => as_parse_result(text_chunk_records(source, chunks, source_url)),
        Err(p) => Err(ParseFault::InvalidPattern { pattern: p }),
    }
}

fn add_pattern_fields(mapped: StrMap<String>, rules: &StrMap<PdfFieldRule>, chunk: &str) -> (r:
    Result<StrMap<String>, InvalidPattern>)
    requires
        mapped.wf(),
        rules.wf(),
    ensures
        match r {
            Ok(m) => m.wf() && with_pattern_fields(
                text_map(mapped),
                rules.keys(),
                rules.values(),
                chunk@,
            ) == Ok::<Map<Seq<char>, Seq<char>>, Seq<char>>(text_map(m)),
            Err(e) => with_pattern_fields(text_map(mapped), rules.keys(), rules.values(), chunk@)
                == Err::<Map<Seq<char>, Seq<char>>, Seq<char>>(e.pattern@),
        },
{
    let ghost start = text_map(mapped);
    let ghost names = rules.keys();
    let ghost all = rules.values();
    let mut m = mapped;
    let mut i: usize = 0;
    assert(names.take(0) =~= Seq::<Seq<char>>::empty());
    while i < rules.len()
        invariant
            i <= names.len(),
            rules.wf(),
            names == rules.keys(),
            all == rules.values(),
            names.len() == all.len(),
            m.wf(),
            start == text_map(mapped),
            with_pattern_fields(start, names.take(i as int), all.take(i as int), chunk@) == Ok::<
                Map<Seq<char>, Seq<char>>,
                Seq<char>,
            >(text_map(m)),
        decreases names.len() - i,
    {
        let field = rules.key_at(i);
        let rule = rules.value_at(i);
        proof {
            assert(names.take(i + 1).drop_last() =~= names.take(i as int));
            assert(all.take(i + 1).drop_last() =~= all.take(i as int));
            assert(names.take(i + 1).last() == field@);
            assert(all.take(i + 1).last() == *rule);
        }
        let present = crate::keyed::value_of(&m, field.as_str()).is_some();
        if !present {
            match extract_with_regex(chunk, rule.pattern.as_str(), rule.capture) {
                Ok(value) => match value {
                    Some(v) => {
                        put(&mut m, field.clone(), v);
                    },
                    None => {},
                },
                Err(e) => {
                    proof {
                        lemma_pattern_fields_error(start, names, all, chunk@, i + 1);
                    }
                    return Err(e);
                },
            }
        }
        i += 1;
    }
    proof {
        assert(names.take(i as int) =~= names);
        assert(all.take(i as int) =~= all);
    }
    Ok(m)
}

fn text_record_of(source: &SourceConfig, chunk: &str, source_url: &str) -> (r: Result<
    MappedRecord,
    InvalidPattern,
>)
    requires
        source.wf(),
    ensures
        match r {
            Ok(record) => record.wf() && text_record(*source, chunk@, source_url@) == Ok::<
                MappedView,
                Seq<char>,
            >(record@),
            Err(e) => text_record(*source, chunk@, source_url@) == Err::<MappedView, Seq<char>>(
                e.pattern@,
            ),
        },
{
    let first = if source.map.is_empty() {
        match parse_pipe_record(chunk) {
            Some(m) => m,
            None => {
                let m: StrMap<String> = StrMap::new();
                proof {
                    lemma_text_map_empty(m);
                }
                m
            },
        }
    } else {
        match map_fields(&source.map, MappingCtx::Text, chunk, None, source_url) {
            Ok(m) => m,
            Err(e) => {
                return Err(e);
            },
        }
    };
    match add_pattern_fields(first, &source.pdf.fields, chunk) {
        Ok(fields) => Ok(
            MappedRecord {
                fields,
                source_url: owned(source_url),
                base_url: None,
                raw_text: owned(chunk),
            },
        ),
        Err(e) => Err(e),
    }
}

/// Finds the records of a text document. The bytes are taken as text; the
/// text of a PDF file has been drawn from the file before.
pub fn parse_text_document(source: &SourceConfig, doc: &FetchedDocument) -> (r: Result<
    Vec<MappedRecord>,
    ParseError,
>)
    requires
        source.wf(),
    ensures
        match r {
            Ok(records) => text_document_records(*source, doc.source_url@, doc.body@) == Ok::<
                Seq<MappedView>,
                ParseFault,
            >(mapped_views(records@)) && forall|i: int|
                0 <= i < records.len() ==> (#[trigger] records@[i]).wf(),
            Err(e) => text_document_records(*source, doc.source_url@, doc.body@) == Err::<
                Seq<MappedView>,
                ParseFault,
            >(e@),
        },
{
    let raw = utf8_lossy(doc.body.as_slice());
    let processed = normalize_text(
        raw.as_str(),
        source.pdf.normalize_whitespace,
        source.pdf.join_lines,
    );
    let chunks = match split_text_records(source, processed.as_str()) {
        Ok(c) => c,
        Err(e) => {
            return Err(ParseError::InvalidPattern { pattern: e.pattern });
        },
    };
    let ghost all = views(chunks@);
    let mut out: Vec<MappedRecord> = Vec::new();
    let mut i: usize = 0;
    assert(all.take(0) =~= Seq::<Seq<char>>::empty());
    assert(mapped_views(out@) =~= Seq::<MappedView>::empty());
    while i < chunks.len()
        invariant
            i <= chunks.len(),
            source.wf(),
            all == views(chunks@),
            text_records(
                *source,
                normalized_text(
                    lossy_text(doc.body@),
                    source.pdf.normalize_whitespace,
                    source.pdf.join_lines,
                ),
            ) == Ok::<Seq<Seq<char>>, Seq<char>>(all),
            text_chunk_records(*source, all.take(i as int), doc.source_url@) == Ok::<
                Seq<MappedView>,
                Seq<char>,
            >(mapped_views(out@)),
            forall|k: int| 0 <= k < out.len() ==> (#[trigger] out@[k]).wf(),
        decreases chunks.len() - i,
    {
        proof {
            assert(all.take(i + 1).drop_last() =~= all.take(i as int));
            assert(all.take(i + 1).last() == chunks@[i as int]@);
        }
        let ghost before = mapped_views(out@);
        if !is_blank_text(chunks[i].as_str()) {
            match text_record_of(source, chunks[i].as_str(), doc.source_url.as_str()) {
                Ok(record) => {
                    out.push(record);
                    assert(mapped_views(out@) =~= before.push(record@));
                },
                Err(e) => {
                    proof {
                        lemma_text_records_error(*source, all, doc.source_url@, i + 1);
                    }
                    return Err(ParseError::InvalidPattern { pattern: e.pattern });
                },
            }
        }
        i += 1;
    }
    assert(all.take(i as int) =~= all);
    Ok(out)
}

} // verus!
