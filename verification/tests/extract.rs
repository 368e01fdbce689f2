use rics::chunks::{
    collapse_blanks, lines, normalize_text, parse_pipe_record, split_str, split_text_records,
    trim_and_fill,
};
use rics::confidence::parse_confidence;
use rics::config::{
    CustomConfig, DateConfig, EventConfig, ExtractConfig, ExtractFormat, FetchConfig, FieldRule,
    LoadedSource, PaginationConfig, PdfConfig, PdfFieldRule, PdfRecordSplit, PublishConfig,
    SourceConfig, SourceMeta,
};
use rics::documents::{
    detect_date_in_text, map_fields, parse_html_document, parse_json_document,
    parse_text_document, FetchedDocument, ParseError,
};
use rics::events::{
    extract_records, mapped_record_to_event, parse_declarative_events, parse_source_events,
    records_to_events,
};
use rics::html::{
    element_attr_or_text, extract_css_value, first_html_attr, first_html_text, raw_text_of,
    split_selector_attr, HtmlElement,
};
use rics::json::{
    json_node, json_value_to_string, jsonpath_tokens, select_json_nodes, select_json_value,
    JsonNode, JsonStep,
};
use rics::keyed::StrMap;
use rics::rules::{evaluate_field_rule, evaluate_from_expression, MappedRecord, MappingCtx};
use rics::time::{CalendarDate, EventTimeSpec};

fn config(format: ExtractFormat) -> SourceConfig {
    let mut fetch = FetchConfig::default();
    fetch.base_url = Some("https://example.org/list".to_string());
    let mut extract = ExtractConfig::default();
    extract.format = format;
    SourceConfig {
        source: SourceMeta {
            key: "test.source".to_string(),
            name: "Test source".to_string(),
            domain: "macro".to_string(),
            enabled: true,
            timezone: None,
            jurisdiction: None,
            default_country: None,
        },
        fetch,
        pagination: PaginationConfig::default(),
        extract,
        map: StrMap::new(),
        date: DateConfig::default(),
        event: EventConfig::default(),
        pdf: PdfConfig::default(),
        custom: CustomConfig::default(),
        publish: PublishConfig::default(),
    }
}

fn rule(from: &str) -> FieldRule {
    let mut r = FieldRule::default();
    r.from = Some(from.to_string());
    r
}

fn doc(url: &str, body: &str) -> FetchedDocument {
    FetchedDocument { source_url: url.to_string(), body: body.as_bytes().to_vec(), page_index: 0 }
}

fn fields_of(m: &StrMap<String>) -> Vec<(String, String)> {
    (0..m.len()).map(|i| (m.key_at(i).clone(), m.value_at(i).clone())).collect()
}

fn pairs(list: &[(&str, &str)]) -> Vec<(String, String)> {
    list.iter().map(|(k, v)| (k.to_string(), v.to_string())).collect()
}

fn strings(list: &[&str]) -> Vec<String> {
    list.iter().map(|s| s.to_string()).collect()
}

fn shown<T: std::fmt::Debug>(value: &T) -> String {
    format!("{value:?}")
}

const PAGE: &str = "<html><body><h1>Calendar</h1>\
<div class=\"row\" data-id=\"r1\"><h3> CPI   release </h3><a href=\"/cpi?x=1\">more</a><span class=\"d\">2026-05-12</span></div>\
<div class=\"row\" data-id=\"r2\"><a href=\"https://other.example/gdp\">GDP</a> on <span class=\"d\">May 3, 2026</span></div>\
<p class=\"foot\">Updated 2026/01/02</p></body></html>";

const FEED: &str = r#"{"meta":{"total":2},"items":[
  {"id":7,"title":"CPI","when":"2026-05-12","final":true,"tags":["a","b"],"extra":null,"nested":{"k":"v"},"ratio":0.25},
  {"id":"x8","title":"GDP","when":"May 2026","tags":[]}
]}"#;

// ------------------------------------------------------------------ text

#[test]
fn a_text_is_cut_into_lines() {
    assert_eq!(lines("a\r\nb\n\nc"), strings(&["a", "b", "", "c"]));
    assert_eq!(lines("a\n"), strings(&["a"]));
    assert_eq!(lines(""), Vec::<String>::new());
    assert_eq!(lines("\n"), strings(&[""]));
    assert_eq!(lines("a\r"), strings(&["a\r"]));
    assert_eq!(lines("a\r\r\nb"), strings(&["a\r", "b"]));
}

#[test]
fn a_text_is_cut_at_a_separator() {
    assert_eq!(split_str("a\n\nb\n\n\nc", "\n\n"), strings(&["a", "b", "\nc"]));
    assert_eq!(split_str("abc", "\n\n"), strings(&["abc"]));
    assert_eq!(split_str("", "x"), strings(&[""]));
    assert_eq!(split_str("xax", "x"), strings(&["", "a", ""]));
    assert_eq!(split_str("aaa", "aa"), strings(&["", "a"]));
    assert_eq!(trim_and_fill(&strings(&[" a ", "  ", "", "b\t"])), strings(&["a", "b"]));
}

#[test]
fn a_text_is_tidied_before_it_is_cut() {
    assert_eq!(collapse_blanks("a \t b\t\tc  "), "a b c ");
    assert_eq!(collapse_blanks("a\n \nb"), "a\n \nb");
    assert_eq!(normalize_text("a\r\nb\rc", false, false), "a\nb\rc");
    assert_eq!(normalize_text(" a  \t b \n  c  ", true, false), " a b \n c ");
    assert_eq!(normalize_text("  a   b  \r\n\r\n c ", true, true), "a b\n\nc");
    assert_eq!(normalize_text("  a   b  \n c ", false, true), "a   b\nc");
}

#[test]
fn records_of_bars() {
    let m = parse_pipe_record(" 2026-05-01 | CPI release | https://example.org/a ").expect("a record");
    assert_eq!(
        fields_of(&m),
        pairs(&[("date", "2026-05-01"), ("title", "CPI release"), ("url", "https://example.org/a")])
    );
    let m = parse_pipe_record("2026-05-01 || CPI release").expect("a record");
    assert_eq!(fields_of(&m), pairs(&[("date", "2026-05-01"), ("title", "CPI release")]));
    let m = parse_pipe_record("a|b|c|d").expect("a record");
    assert_eq!(fields_of(&m), pairs(&[("date", "a"), ("title", "b"), ("url", "c")]));
    assert!(parse_pipe_record("only a title").is_none());
    assert!(parse_pipe_record(" | x | ").is_none());
    assert!(parse_pipe_record("").is_none());
}

#[test]
fn a_text_is_cut_into_records() {
    let mut source = config(ExtractFormat::Text);
    assert_eq!(
        split_text_records(&source, "a | b\n\n c | d \n\n\n").expect("valid"),
        strings(&["a | b", "c | d"])
    );
    assert_eq!(
        split_text_records(&source, "a | b\nc | d\n  \ne | f").expect("valid"),
        strings(&["a | b", "c | d", "e | f"])
    );
    assert_eq!(split_text_records(&source, " \n ").expect("valid"), Vec::<String>::new());

    source.extract.record_regex = Some(r"(?m)^\* (.+)$".to_string());
    assert_eq!(
        split_text_records(&source, "* one \nnoise\n* two\n").expect("valid"),
        strings(&["one", "two"])
    );
    source.extract.record_regex = Some(r"\d+-\d+".to_string());
    assert_eq!(
        split_text_records(&source, "é 10-20, 30-40").expect("valid"),
        strings(&["10-20", "30-40"])
    );
    assert_eq!(
        split_text_records(&source, "nothing here\nat all").expect("valid"),
        strings(&["nothing here", "at all"])
    );
    source.extract.record_regex = Some("(".to_string());
    assert_eq!(split_text_records(&source, "x").expect_err("no pattern").pattern, "(");

    source.extract.record_regex = None;
    source.pdf.record_split =
        vec![PdfRecordSplit { strategy: "regex".to_string(), pattern: r"\d{4}-\d{2}-\d{2}".to_string() }];
    assert_eq!(
        split_text_records(&source, "head é 2026-05-01 CPI\nmore 2026-06-01 GDP ").expect("valid"),
        strings(&["2026-05-01 CPI\nmore", "2026-06-01 GDP"])
    );
    assert_eq!(
        split_text_records(&source, "2026-05-01 CPI\nthen").expect("valid"),
        strings(&["2026-05-01 CPI", "then"])
    );
    source.pdf.record_split[0].strategy = "lines".to_string();
    assert_eq!(
        split_text_records(&source, "2026-05-01 CPI 2026-06-01 GDP").expect("valid"),
        strings(&["2026-05-01 CPI 2026-06-01 GDP"])
    );
    source.pdf.record_split[0] = PdfRecordSplit { strategy: "regex".to_string(), pattern: "[".to_string() };
    assert_eq!(split_text_records(&source, "x").expect_err("no pattern").pattern, "[");
}

// ------------------------------------------------------------ confidence

#[test]
fn a_confidence_is_read_in_ten_thousandths() {
    assert_eq!(parse_confidence("0.95"), Some(9500));
    assert_eq!(parse_confidence("1"), Some(10000));
    assert_eq!(parse_confidence(".5"), Some(5000));
    assert_eq!(parse_confidence("5."), Some(50000));
    assert_eq!(parse_confidence("0.12344"), Some(1234));
    assert_eq!(parse_confidence("0.12345"), Some(1235));
    assert_eq!(parse_confidence("0.99995"), Some(10000));
    assert_eq!(parse_confidence("-0.5"), Some(-5000));
    assert_eq!(parse_confidence("+0.25"), Some(2500));
    assert_eq!(parse_confidence("0"), Some(0));
    assert_eq!(parse_confidence(""), None);
    assert_eq!(parse_confidence("."), None);
    assert_eq!(parse_confidence("high"), None);
    assert_eq!(parse_confidence("0.5 "), None);
    assert_eq!(parse_confidence("1e3"), None);
    assert_eq!(parse_confidence("0,5"), None);
}

// ------------------------------------------------------------------ JSON

#[test]
fn a_path_is_cut_into_its_steps() {
    assert_eq!(
        shown(&jsonpath_tokens(" $.items[*].tags[1].name ").expect("a path")),
        r#"[All("items"), Index("tags", 1), Key("name")]"#
    );
    assert_eq!(shown(&jsonpath_tokens("$.a").expect("a path")), r#"[Key("a")]"#);
    assert_eq!(shown(&jsonpath_tokens("$.").expect("a path")), r#"[Key("")]"#);
    assert_eq!(shown(&jsonpath_tokens("$.a[x]").expect("a path")), r#"[Key("a[x]")]"#);
    assert_eq!(shown(&jsonpath_tokens("$.[*]").expect("a path")), r#"[All("")]"#);
    assert!(jsonpath_tokens("items").is_none());
    assert!(jsonpath_tokens("$").is_none());
    assert!(jsonpath_tokens("/items/0").is_none());
}

#[test]
fn the_nodes_of_a_json_document() {
    let body = FEED.as_bytes();
    let root: Vec<JsonStep> = Vec::new();
    assert_eq!(shown(&json_node(body, &root)), r#"Some(Object(["items", "meta"]))"#);
    assert_eq!(
        shown(&json_node(body, &vec![JsonStep::Key("items".to_string())])),
        "Some(Array(2))"
    );
    let first = vec![JsonStep::Key("items".to_string()), JsonStep::Index(0)];
    let member = |name: &str| {
        let mut p = first.clone();
        p.push(JsonStep::Key(name.to_string()));
        p
    };
    assert_eq!(shown(&json_node(body, &member("id"))), r#"Some(Number("7"))"#);
    assert_eq!(shown(&json_node(body, &member("title"))), r#"Some(Text("CPI"))"#);
    assert_eq!(shown(&json_node(body, &member("final"))), "Some(Bool(true))");
    assert_eq!(shown(&json_node(body, &member("extra"))), "Some(Null)");
    assert_eq!(shown(&json_node(body, &member("absent"))), "None");
    assert_eq!(shown(&json_node(body, &vec![JsonStep::Pointer("/items/1/id".to_string())])), r#"Some(Text("x8"))"#);
    assert_eq!(shown(&json_node(b"{not json", &root)), "None");
    assert!(matches!(json_node(b"[1, 2, 3]", &root), Some(JsonNode::Array(3))));
}

#[test]
fn the_nodes_that_a_path_selects() {
    let body = FEED.as_bytes();
    let root: Vec<JsonStep> = Vec::new();
    assert_eq!(
        shown(&select_json_nodes(body, &root, Some("$.items[*]"))),
        r#"[[Key("items"), Index(0)], [Key("items"), Index(1)]]"#
    );
    assert_eq!(
        shown(&select_json_nodes(body, &root, Some("$.items[1].title"))),
        r#"[[Key("items"), Index(1), Key("title")]]"#
    );
    assert_eq!(
        shown(&select_json_nodes(body, &root, Some("$.items[*].tags[*]"))),
        r#"[[Key("items"), Index(0), Key("tags"), Index(0)], [Key("items"), Index(0), Key("tags"), Index(1)]]"#
    );
    assert_eq!(shown(&select_json_nodes(body, &root, Some("$.items[5]"))), "[[]]");
    assert_eq!(shown(&select_json_nodes(body, &root, Some("$.nothing"))), "[[]]");
    assert_eq!(shown(&select_json_nodes(body, &root, Some("$"))), "[[]]");
    assert_eq!(shown(&select_json_nodes(body, &root, Some("  "))), "[[]]");
    assert_eq!(
        shown(&select_json_nodes(body, &root, Some("/items/0"))),
        r#"[[Pointer("/items/0")]]"#
    );
    assert_eq!(shown(&select_json_nodes(body, &root, Some("/items/9"))), "[]");
    assert_eq!(shown(&select_json_nodes(body, &root, Some("items"))), "[[]]");
    assert_eq!(
        shown(&select_json_nodes(body, &root, Some("/items"))),
        r#"[[Pointer("/items"), Index(0)], [Pointer("/items"), Index(1)]]"#
    );
    assert_eq!(shown(&select_json_nodes(body, &root, None)), "[[]]");
    assert_eq!(
        shown(&select_json_nodes(b"[{\"a\":1},{\"a\":2}]", &root, None)),
        "[[Index(0)], [Index(1)]]"
    );
}

#[test]
fn the_text_of_a_json_value() {
    let body = FEED.as_bytes();
    let root: Vec<JsonStep> = Vec::new();
    let at = |path: &str| select_json_value(body, &root, path);
    assert_eq!(at("$.items[0].title"), Some("CPI".to_string()));
    assert_eq!(at("$.items[0].id"), Some("7".to_string()));
    assert_eq!(at("$.items[0].ratio"), Some("0.25".to_string()));
    assert_eq!(at("$.items[0].final"), Some("true".to_string()));
    assert_eq!(at("$.items[0].extra"), None);
    assert_eq!(at("$.items[0].tags"), Some(r#"["a","b"]"#.to_string()));
    assert_eq!(at("$.items[0].nested"), Some(r#"{"k":"v"}"#.to_string()));
    assert_eq!(at("$.items[*].title"), Some(r#"["CPI","GDP"]"#.to_string()));
    assert_eq!(at("/meta/total"), Some("2".to_string()));
    assert_eq!(at("/meta/absent"), None);
    let small = br#"{"a":{"b":1}}"#;
    assert_eq!(select_json_value(small, &root, "$.a.c"), Some(r#"{"a":{"b":1}}"#.to_string()));
    assert_eq!(select_json_value(small, &root, "a"), Some(r#"{"a":{"b":1}}"#.to_string()));
    assert_eq!(select_json_value(small, &root, "$.a"), Some(r#"{"b":1}"#.to_string()));
    let first = vec![JsonStep::Key("items".to_string()), JsonStep::Index(1)];
    assert_eq!(select_json_value(body, &first, "$.when"), Some("May 2026".to_string()));
    assert_eq!(json_value_to_string(body, &first), Some(r#"{"id":"x8","tags":[],"title":"GDP","when":"May 2026"}"#.to_string()));
}

#[test]
fn a_json_document_gives_a_record_for_each_selected_node() {
    let mut source = config(ExtractFormat::Json);
    source.extract.root_jsonpath = Some("$.items[*]".to_string());
    let records = parse_json_document(&source, &doc("https://example.org/feed", FEED)).expect("records");
    assert_eq!(records.len(), 2);
    assert_eq!(
        fields_of(&records[0].fields),
        pairs(&[("final", "true"), ("id", "7"), ("ratio", "0.25"), ("title", "CPI"), ("when", "2026-05-12")])
    );
    assert_eq!(
        fields_of(&records[1].fields),
        pairs(&[("id", "x8"), ("title", "GDP"), ("when", "May 2026")])
    );
    assert_eq!(records[0].source_url, "https://example.org/feed");
    assert_eq!(records[0].base_url, None);
    assert_eq!(records[1].raw_text, r#"{"id":"x8","tags":[],"title":"GDP","when":"May 2026"}"#);

    source.map.insert("date".to_string(), rule("json:$.when"));
    source.map.insert("title".to_string(), rule("title"));
    source.map.insert("first_tag".to_string(), rule("json:$.tags[0]"));
    source.map.insert("origin".to_string(), rule("source_url"));
    source.map.insert("zz".to_string(), rule("field:title"));
    source.map.insert("aa".to_string(), rule("field:title"));
    source.map.insert("id".to_string(), FieldRule::default());
    let records = parse_json_document(&source, &doc("https://example.org/feed", FEED)).expect("records");
    assert_eq!(
        fields_of(&records[0].fields),
        pairs(&[
            ("date", "2026-05-12"),
            ("first_tag", "a"),
            ("id", "7"),
            ("origin", "https://example.org/feed"),
            ("title", "CPI"),
            ("zz", "CPI"),
        ])
    );
    assert_eq!(
        fields_of(&records[1].fields),
        pairs(&[
            ("date", "May 2026"),
            ("first_tag", r#"{"id":"x8","tags":[],"title":"GDP","when":"May 2026"}"#),
            ("id", "x8"),
            ("origin", "https://example.org/feed"),
            ("title", "GDP"),
            ("zz", "GDP"),
        ])
    );
}

#[test]
fn what_is_no_json_document_is_an_error() {
    let source = config(ExtractFormat::Json);
    match parse_json_document(&source, &doc("https://example.org/feed", "{oops")) {
        Err(ParseError::InvalidJson { source_url }) => assert_eq!(source_url, "https://example.org/feed"),
        other => panic!("{other:?}"),
    }
    let mut source = config(ExtractFormat::Json);
    source.map.insert("title".to_string(), rule("regex:(unclosed"));
    match parse_json_document(&source, &doc("u", "{}")) {
        Err(ParseError::InvalidPattern { pattern }) => assert_eq!(pattern, "(unclosed"),
        other => panic!("{other:?}"),
    }
}

// ------------------------------------------------------------------ HTML

#[test]
fn a_selector_and_its_attribute() {
    assert_eq!(split_selector_attr("a.more@href"), ("a.more".to_string(), Some("href".to_string())));
    assert_eq!(split_selector_attr(" h3 "), (" h3 ".to_string(), None));
    assert_eq!(split_selector_attr("a@b@c"), ("a@b".to_string(), Some("c".to_string())));
    assert_eq!(split_selector_attr("a @ href "), ("a @ href ".to_string(), None));
    assert_eq!(split_selector_attr("a@"), ("a@".to_string(), None));
    assert_eq!(split_selector_attr("@href"), (String::new(), Some("href".to_string())));
}

#[test]
fn the_text_of_an_element() {
    assert_eq!(raw_text_of(&strings(&[" CPI ", "\n", "release\t now"])), " CPI  \n release\t now");
    assert_eq!(raw_text_of(&Vec::new()), "");
    let element = HtmlElement { texts: strings(&["  a ", " b"]), attr: Some(" /x ".to_string()) };
    assert_eq!(element_attr_or_text(&element, true), " /x ");
    assert_eq!(element_attr_or_text(&element, false), "a b");
    let bare = HtmlElement { texts: strings(&["t"]), attr: None };
    assert_eq!(element_attr_or_text(&bare, true), "");
}

#[test]
fn values_below_a_node_of_an_html_document() {
    assert_eq!(extract_css_value(PAGE, "div.row", 0, "h3"), Some("CPI release".to_string()));
    assert_eq!(extract_css_value(PAGE, "div.row", 0, "a@href"), Some("/cpi?x=1".to_string()));
    assert_eq!(extract_css_value(PAGE, "div.row", 1, "a"), Some("GDP".to_string()));
    assert_eq!(extract_css_value(PAGE, "div.row", 1, "span.d"), Some("May 3, 2026".to_string()));
    assert_eq!(extract_css_value(PAGE, "div.row", 1, "h3"), Some("CPI release".to_string()));
    assert_eq!(extract_css_value(PAGE, "div.row", 1, "p.foot"), Some("Updated 2026/01/02".to_string()));
    assert_eq!(extract_css_value(PAGE, "div.row", 1, "table"), None);
    assert_eq!(extract_css_value(PAGE, "div.row", 0, "a@title"), Some(String::new()));
    assert_eq!(extract_css_value(PAGE, "div.row", 0, "a[["), None);
    assert_eq!(
        first_html_text(PAGE, "div.row", 1, &strings(&["h1", "h2", "h3", "a"])),
        Some("GDP".to_string())
    );
    assert_eq!(first_html_text(PAGE, "div.row", 1, &strings(&["h2", "a"])), Some("GDP".to_string()));
    assert_eq!(first_html_text(PAGE, "div.row", 0, &strings(&["table"])), None);
    assert_eq!(first_html_attr(PAGE, "div.row", 1, "a", "href"), Some("https://other.example/gdp".to_string()));
    assert_eq!(first_html_attr(PAGE, "div.row", 0, "span", "class"), Some("d".to_string()));
    assert_eq!(first_html_attr(PAGE, "div.row", 0, "span", "id"), None);
}

#[test]
fn a_date_is_found_in_a_text() {
    assert_eq!(detect_date_in_text("due 2026-05-12, then 2026/06/01"), Some("2026-05-12".to_string()));
    assert_eq!(detect_date_in_text("due 2026/06/01 or May 3, 2026"), Some("2026/06/01".to_string()));
    assert_eq!(detect_date_in_text("on September 15, 2026 at noon"), Some("September 15, 2026".to_string()));
    assert_eq!(detect_date_in_text("on Sept 5, 2026"), Some("Sept 5, 2026".to_string()));
    assert_eq!(detect_date_in_text("on Sep 15 2026"), None);
    assert_eq!(detect_date_in_text("some day"), None);
}

#[test]
fn an_html_document_gives_a_record_for_each_root_node() {
    let mut source = config(ExtractFormat::Html);
    source.extract.root_selector = Some("div.row".to_string());
    let page = doc("https://example.org/list?page=2#top", PAGE);
    let records = parse_html_document(&source, &page).expect("records");
    assert_eq!(records.len(), 2);
    assert_eq!(
        fields_of(&records[0].fields),
        pairs(&[("date", "2026-05-12"), ("title", "CPI release"), ("url", "https://example.org/cpi?x=1")])
    );
    assert_eq!(
        fields_of(&records[1].fields),
        pairs(&[("date", "May 3, 2026"), ("title", "GDP"), ("url", "https://other.example/gdp")])
    );
    assert_eq!(records[0].raw_text, " CPI   release  more 2026-05-12");
    assert_eq!(records[0].source_url, "https://example.org/list?page=2#top");
    assert_eq!(records[0].base_url, Some("https://example.org/list".to_string()));

    source.map.insert("title".to_string(), rule("css:h3"));
    source.map.insert("date".to_string(), rule("css:span.d"));
    let mut link = rule("css:a@href");
    link.absolutize = true;
    source.map.insert("url".to_string(), link);
    source.map.insert("id".to_string(), rule("regex:(\\d{4})"));
    let mut kind = FieldRule::default();
    kind.const_value = Some(" release ".to_string());
    kind.from = Some("css:h3".to_string());
    source.map.insert("kind".to_string(), kind);
    let mut month = rule("field:date");
    month.regex = Some(r"^\d{4}-(\d{2})-(\d{2})$".to_string());
    month.capture = Some(2);
    source.map.insert("day".to_string(), month);
    let mut early = rule("field:date");
    early.regex = Some(r"^\d{4}-(\d{2})".to_string());
    source.map.insert("month".to_string(), early);
    let records = parse_html_document(&source, &page).expect("records");
    assert_eq!(
        fields_of(&records[0].fields),
        pairs(&[
            ("date", "2026-05-12"),
            ("day", "12"),
            ("id", "2026"),
            ("kind", " release "),
            ("month", "05"),
            ("title", "CPI release"),
            ("url", "https://example.org/cpi?x=1"),
        ])
    );
    assert_eq!(
        fields_of(&records[1].fields),
        pairs(&[
            ("date", "May 3, 2026"),
            ("id", "2026"),
            ("kind", " release "),
            ("title", "CPI release"),
            ("url", "https://other.example/gdp"),
        ])
    );
}

#[test]
fn an_html_document_without_a_root_selector_is_one_record() {
    let source = config(ExtractFormat::Html);
    let records = parse_html_document(&source, &doc("not a url", PAGE)).expect("records");
    assert_eq!(records.len(), 1);
    assert_eq!(
        fields_of(&records[0].fields),
        pairs(&[("date", "2026-05-12"), ("title", "Calendar"), ("url", "https://example.org/cpi?x=1")])
    );
    assert_eq!(records[0].base_url, Some("https://example.org/list".to_string()));
}

#[test]
fn what_is_no_selector_is_an_error() {
    let mut source = config(ExtractFormat::Html);
    source.extract.root_selector = Some("div[[".to_string());
    match parse_html_document(&source, &doc("https://example.org/", PAGE)) {
        Err(ParseError::InvalidSelector { selector }) => assert_eq!(selector, "div[["),
        other => panic!("{other:?}"),
    }
    source.extract.root_selector = Some("div.row".to_string());
    source.map.insert("title".to_string(), rule("regex:a{2,1}"));
    match parse_html_document(&source, &doc("https://example.org/", PAGE)) {
        Err(ParseError::InvalidPattern { pattern }) => assert_eq!(pattern, "a{2,1}"),
        other => panic!("{other:?}"),
    }
    source.extract.root_selector = Some("table".to_string());
    assert_eq!(parse_html_document(&source, &doc("https://example.org/", PAGE)).expect("none").len(), 0);
}

// ------------------------------------------------------------------ rules

#[test]
fn expressions_are_told_apart_by_their_prefix() {
    let mut existing: StrMap<String> = StrMap::new();
    existing.insert("date".to_string(), "2026-05-01".to_string());
    existing.insert("title".to_string(), "CPI".to_string());
    let eval = |expr: &str, ctx: MappingCtx<'_>| {
        evaluate_from_expression(expr, ctx, &existing, "raw text 42 and 43", "https://example.org/doc")
            .expect("valid")
    };
    assert_eq!(eval("field:date", MappingCtx::Text), Some("2026-05-01".to_string()));
    assert_eq!(eval("field:absent", MappingCtx::Text), None);
    assert_eq!(eval("source_url", MappingCtx::Text), Some("https://example.org/doc".to_string()));
    assert_eq!(eval("regex:(\\d+)", MappingCtx::Text), Some("42".to_string()));
    assert_eq!(eval("regex:\\d+", MappingCtx::Text), None);
    assert_eq!(eval("regex:x(\\d+)", MappingCtx::Text), None);
    assert_eq!(eval("title", MappingCtx::Text), Some("CPI".to_string()));
    assert_eq!(eval("css:h3", MappingCtx::Text), None);
    assert_eq!(eval("json:$.title", MappingCtx::Text), None);
    let html = MappingCtx::Html { html: PAGE, root: "div.row", index: 1 };
    assert_eq!(eval("css:a@href", html), Some("https://other.example/gdp".to_string()));
    assert_eq!(eval("title", html), Some("CPI".to_string()));
    assert_eq!(eval("json:$.title", html), None);
    let node = vec![JsonStep::Key("items".to_string()), JsonStep::Index(1)];
    let json = MappingCtx::Json { body: FEED.as_bytes(), node: &node };
    assert_eq!(eval("json:$.when", json), Some("May 2026".to_string()));
    assert_eq!(eval("title", json), Some("GDP".to_string()));
    assert_eq!(eval("date", json), None);
    assert_eq!(eval("css:a", json), None);
    let e = evaluate_from_expression("regex:(", MappingCtx::Text, &existing, "", "").expect_err("no pattern");
    assert_eq!(e.pattern, "(");
}

#[test]
fn a_rule_finishes_the_value_that_it_selects() {
    let mut existing: StrMap<String> = StrMap::new();
    existing.insert("link".to_string(), "  ../a/b?q=1 ".to_string());
    existing.insert("blank".to_string(), " \t ".to_string());
    existing.insert("wide".to_string(), "\u{00A0}x\u{00A0}".to_string());
    let eval = |name: &str, rule: &FieldRule| {
        evaluate_field_rule(
            name,
            rule,
            MappingCtx::Text,
            &existing,
            "id: 77; code: AB-12",
            Some("https://example.org/x/y/z"),
            "https://example.org/doc",
        )
        .expect("valid")
    };
    let mut plain = FieldRule::default();
    plain.trim = true;
    assert_eq!(eval("link", &plain), Some("../a/b?q=1".to_string()));
    assert_eq!(eval("blank", &plain), None);
    assert_eq!(eval("absent", &plain), None);
    assert_eq!(eval("wide", &plain), Some("\u{00A0}x\u{00A0}".to_string()));

    let untrimmed = FieldRule::default();
    assert!(!untrimmed.trim && !untrimmed.absolutize && !untrimmed.optional);
    assert_eq!(eval("link", &untrimmed), Some("  ../a/b?q=1 ".to_string()));
    assert_eq!(eval("blank", &untrimmed), Some(" \t ".to_string()));

    let mut absolute = FieldRule::default();
    absolute.trim = true;
    absolute.absolutize = true;
    assert_eq!(eval("link", &absolute), Some("https://example.org/x/a/b?q=1".to_string()));

    let mut constant = FieldRule::default();
    constant.const_value = Some("fixed".to_string());
    constant.from = Some("regex:(".to_string());
    assert_eq!(eval("anything", &constant), Some("fixed".to_string()));
    constant.const_value = Some(String::new());
    assert_eq!(eval("anything", &constant), None);

    let mut code = rule("regex:code: (\\S+)");
    code.regex = Some(r"^([A-Z]+)-(\d+)$".to_string());
    assert_eq!(eval("code", &code), Some("AB".to_string()));
    code.capture = Some(2);
    assert_eq!(eval("code", &code), Some("12".to_string()));
    code.capture = Some(0);
    assert_eq!(eval("code", &code), Some("AB-12".to_string()));
    code.capture = Some(3);
    assert_eq!(eval("code", &code), None);
    code.regex = Some(r"^(\d+)$".to_string());
    code.capture = None;
    assert_eq!(eval("code", &code), None);
    code.regex = Some("[".to_string());
    let e = evaluate_field_rule("code", &code, MappingCtx::Text, &existing, "code: x", None, "")
        .expect_err("no pattern");
    assert_eq!(e.pattern, "[");
    let mut absent = rule("field:absent");
    absent.regex = Some("[".to_string());
    assert_eq!(eval("gone", &absent), None);
}

#[test]
fn the_rules_of_a_map_are_applied_in_the_order_of_their_names() {
    let mut rules: StrMap<FieldRule> = StrMap::new();
    rules.insert("b".to_string(), rule("regex:(\\d+)"));
    rules.insert("c".to_string(), rule("field:b"));
    rules.insert("a".to_string(), rule("field:b"));
    rules.insert("d".to_string(), rule("field:a"));
    let fields = map_fields(&rules, MappingCtx::Text, "n 5", None, "u").expect("valid");
    assert_eq!(fields_of(&fields), pairs(&[("b", "5"), ("c", "5")]));
}

// ----------------------------------------------------------------- text docs

#[test]
fn a_text_document_gives_a_record_for_each_piece() {
    let mut source = config(ExtractFormat::Text);
    let body = "2026-05-01 | CPI release | https://example.org/cpi\r\n\r\nno bars here\r\n\r\n2026-06 | GDP\r\n";
    let records = parse_text_document(&source, &doc("file:///x.txt", body)).expect("records");
    assert_eq!(records.len(), 3);
    assert_eq!(
        fields_of(&records[0].fields),
        pairs(&[("date", "2026-05-01"), ("title", "CPI release"), ("url", "https://example.org/cpi")])
    );
    assert_eq!(fields_of(&records[1].fields), Vec::new());
    assert_eq!(records[1].raw_text, "no bars here");
    assert_eq!(fields_of(&records[2].fields), pairs(&[("date", "2026-06"), ("title", "GDP")]));
    assert_eq!(records[2].base_url, None);

    source.pdf.fields.insert(
        "title".to_string(),
        PdfFieldRule { pattern: "(.*)".to_string(), capture: 1, optional: false },
    );
    source.pdf.fields.insert(
        "note".to_string(),
        PdfFieldRule { pattern: r"(?i)(no) (\w+)".to_string(), capture: 2, optional: true },
    );
    let records = parse_text_document(&source, &doc("file:///x.txt", body)).expect("records");
    assert_eq!(fields_of(&records[0].fields).len(), 3);
    assert_eq!(fields_of(&records[1].fields), pairs(&[("note", "bars"), ("title", "no bars here")]));

    source.pdf.fields.insert(
        "zz".to_string(),
        PdfFieldRule { pattern: "(".to_string(), capture: 1, optional: true },
    );
    match parse_text_document(&source, &doc("file:///x.txt", body)) {
        Err(ParseError::InvalidPattern { pattern }) => assert_eq!(pattern, "("),
        other => panic!("{other:?}"),
    }
}

#[test]
fn bytes_that_are_no_text_are_read_with_replacements() {
    let source = config(ExtractFormat::Text);
    let page = FetchedDocument {
        source_url: "u".to_string(),
        body: vec![b'a', b' ', b'|', b' ', 0xFF, b'b'],
        page_index: 0,
    };
    let records = parse_text_document(&source, &page).expect("records");
    assert_eq!(fields_of(&records[0].fields), pairs(&[("date", "a"), ("title", "\u{FFFD}b")]));
}

// ------------------------------------------------------------------ events

fn record(fields: &[(&str, &str)]) -> MappedRecord {
    let mut m: StrMap<String> = StrMap::new();
    for (k, v) in fields {
        m.insert(k.to_string(), v.to_string());
    }
    MappedRecord {
        fields: m,
        source_url: "https://example.org/doc".to_string(),
        base_url: Some("https://example.org/".to_string()),
        raw_text: "raw".to_string(),
    }
}

#[test]
fn a_record_without_a_title_is_no_event() {
    let source = config(ExtractFormat::Html);
    assert!(mapped_record_to_event(&source, &record(&[("date", "2026-05-01")])).is_none());
    assert!(mapped_record_to_event(&source, &record(&[("name", "x")])).is_some());
}

#[test]
fn the_event_of_a_record_with_few_fields() {
    let source = config(ExtractFormat::Html);
    let event = mapped_record_to_event(&source, &record(&[("name", "Budget")])).expect("an event");
    assert_eq!(event.source_key, "test.source");
    assert_eq!(event.source_name, "Test source");
    assert_eq!(event.title, "Budget");
    assert_eq!(event.source_event_id, None);
    assert_eq!(event.source_url, Some("https://example.org/doc".to_string()));
    assert_eq!(event.description, None);
    assert_eq!(shown(&event.time), shown(&EventTimeSpec::Tbd { note: None }));
    assert_eq!(event.status, "scheduled");
    assert_eq!(event.event_type, "event");
    assert_eq!(event.subtype, None);
    assert_eq!(event.categories, strings(&["macro"]));
    assert_eq!((event.importance, event.confidence), (None, None));
    assert_eq!(
        fields_of(&event.metadata),
        pairs(&[("base_url", "https://example.org/"), ("time_precision", "tbd")])
    );
}

#[test]
fn the_event_of_a_record_with_all_fields() {
    let mut source = config(ExtractFormat::Html);
    source.source.timezone = Some("Europe/Berlin".to_string());
    source.source.jurisdiction = Some("EU".to_string());
    source.source.default_country = Some("DE".to_string());
    source.event.categories = strings(&["releases", "macro"]);
    source.event.importance = Some(3);
    source.event.subtype = Some("stats".to_string());
    source.date.primary = "published".to_string();
    source.date.formats = strings(&["%Y-%m-%d %H:%M", "%Y-%m-%d"]);
    let mut mapped = record(&[
        ("title", "CPI"),
        ("name", "ignored"),
        ("summary", "Prices"),
        ("id", "cpi-1"),
        ("link", "https://example.org/cpi"),
        ("published", "2026-07-01 12:00"),
        ("date", "2026-07-02"),
        ("end", "2026-07-01 13:30"),
        ("status", "tentative"),
        ("event_type", "release"),
        ("categories", "prices; macro ,, inflation"),
        ("importance", "200"),
        ("confidence", "0.8"),
        ("region", "north"),
        ("tbd", "later"),
    ]);
    mapped.base_url = None;
    let event = mapped_record_to_event(&source, &mapped).expect("an event");
    assert_eq!(event.title, "CPI");
    assert_eq!(event.description, Some("Prices".to_string()));
    assert_eq!(event.source_event_id, Some("cpi-1".to_string()));
    assert_eq!(event.source_url, Some("https://example.org/cpi".to_string()));
    assert_eq!(
        shown(&event.time),
        "DateTime { start: UtcInstant { date: CalendarDate { year: 2026, month: 7, day: 1 }, hour: 10, minute: 0, second: 0, nano: 0 }, \
end: Some(UtcInstant { date: CalendarDate { year: 2026, month: 7, day: 1 }, hour: 11, minute: 30, second: 0, nano: 0 }) }"
    );
    assert_eq!(event.timezone, Some("Europe/Berlin".to_string()));
    assert_eq!(event.status, "tentative");
    assert_eq!(event.event_type, "release");
    assert_eq!(event.subtype, Some("stats".to_string()));
    assert_eq!(event.categories, strings(&["inflation", "macro", "prices", "releases"]));
    assert_eq!(event.jurisdiction, Some("EU".to_string()));
    assert_eq!(event.country, Some("DE".to_string()));
    assert_eq!(event.importance, Some(200));
    assert_eq!(event.confidence, Some(8000));
    assert_eq!(
        fields_of(&event.metadata),
        pairs(&[("published", "2026-07-01 12:00"), ("region", "north"), ("tbd", "later"), ("time_precision", "datetime")])
    );

    let event = mapped_record_to_event(
        &source,
        &record(&[("title", "x"), ("start", "2026-08"), ("published", "2026-07-01"), ("importance", "300"), ("confidence", "n/a")]),
    )
    .expect("an event");
    assert_eq!(shown(&event.time), shown(&EventTimeSpec::Month { year: 2026, month: 8 }));
    assert_eq!(event.importance, Some(3));
    assert_eq!(event.confidence, None);
}

#[test]
fn an_event_with_a_month_only_has_the_precision_of_a_month() {
    let mut source = config(ExtractFormat::Text);
    source.source.key = "monthly".to_string();
    let loaded = LoadedSource { path: "monthly.toml".to_string(), config: source };
    let events = parse_source_events(&loaded, &vec![doc("inline://monthly", "May 2026 | Budget statement")], 2026)
        .expect("events");
    assert_eq!(events.len(), 1);
    assert_eq!(shown(&events[0].time), shown(&EventTimeSpec::Month { year: 2026, month: 5 }));
    assert_eq!(events[0].time.year_bucket(), Some(2026));
    assert_eq!(events[0].time.start_date(), Some(CalendarDate { year: 2026, month: 5, day: 1 }));
    assert_eq!(events[0].time.end_date_exclusive(), Some(CalendarDate { year: 2026, month: 6, day: 1 }));
    assert_eq!(events[0].metadata.get("time_precision"), Some(&"month".to_string()));
}

#[test]
fn the_documents_of_a_source_give_its_events_in_their_order() {
    let mut source = config(ExtractFormat::Json);
    source.extract.root_jsonpath = Some("$.items[*]".to_string());
    source.map.insert("title".to_string(), rule("title"));
    source.map.insert("date".to_string(), rule("when"));
    source.map.insert("id".to_string(), rule("id"));
    let docs = vec![
        doc("https://example.org/feed?page=1", FEED),
        doc("https://example.org/feed?page=2", r#"{"items":[{"id":9,"when":"2027"},{"id":10,"title":"PMI","when":"Q3 2026"}]}"#),
    ];
    let records = extract_records(&source, &docs).expect("records");
    assert_eq!(records.len(), 4);
    let events = records_to_events(&source, &records);
    assert_eq!(events.iter().map(|e| e.title.as_str()).collect::<Vec<_>>(), vec!["CPI", "GDP", "PMI"]);
    let loaded = LoadedSource { path: "x.toml".to_string(), config: source };
    let again = parse_declarative_events(&loaded, &docs).expect("events");
    assert_eq!(shown(&again), shown(&events));
    let through = parse_source_events(&loaded, &docs, 2026).expect("events");
    assert_eq!(shown(&through), shown(&events));
    assert_eq!(shown(&events[2].time), shown(&EventTimeSpec::Quarter { year: 2026, quarter: 3 }));
    assert_eq!(events[2].source_url, Some("https://example.org/feed?page=2".to_string()));
    assert_eq!(events[2].source_event_id, Some("10".to_string()));

    let mut broken = docs.clone();
    broken.push(doc("https://example.org/feed?page=3", "<html>"));
    match parse_source_events(&loaded, &broken, 2026) {
        Err(ParseError::InvalidJson { source_url }) => assert_eq!(source_url, "https://example.org/feed?page=3"),
        other => panic!("{other:?}"),
    }
}
