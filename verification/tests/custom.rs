use rics::config::{
    CustomConfig, DateConfig, EventConfig, ExtractConfig, FetchConfig, FetchMode, LoadedSource,
    PaginationConfig, PdfConfig, PublishConfig, SourceConfig, SourceMeta,
};
use rics::custom::{
    build_econ_description, combine_date_time, custom_parser, parse_econ_indicators,
    parse_rough_text_lines, split_wide, CustomParserKind, ECON_CONFIDENCE, ROUGH_CONFIDENCE,
};
use rics::documents::FetchedDocument;
use rics::events::parse_source_events;
use rics::keyed::StrMap;
use rics::oecd::{
    ensure_facet_tags, matches_year_or_next, oecd_base_params, oecd_page_params, oecd_page_size,
    oecd_reads_on, oecd_wants_page, parse_oecd_publications, OECD_CONFIDENCE,
};
use rics::time::{CalendarDate, EventTimeSpec, UtcInstant};

fn config(parser: &str) -> SourceConfig {
    let mut fetch = FetchConfig::default();
    fetch.mode = FetchMode::Inline;
    fetch.inline_data = Some(String::new());
    SourceConfig {
        source: SourceMeta {
            key: "test.custom".to_string(),
            name: "Custom source".to_string(),
            domain: "macro".to_string(),
            enabled: true,
            timezone: None,
            jurisdiction: Some("INT".to_string()),
            default_country: None,
        },
        fetch,
        pagination: PaginationConfig::default(),
        extract: ExtractConfig::default(),
        map: StrMap::new(),
        date: DateConfig::default(),
        event: EventConfig {
            event_type: "release".to_string(),
            subtype: Some("stats".to_string()),
            status: "scheduled".to_string(),
            categories: vec!["economy".to_string()],
            importance: Some(2),
        },
        pdf: PdfConfig::default(),
        custom: CustomConfig { parser: Some(parser.to_string()), enabled: true },
        publish: PublishConfig::default(),
    }
}

fn doc(url: &str, body: &str) -> FetchedDocument {
    FetchedDocument { source_url: url.to_string(), body: body.as_bytes().to_vec(), page_index: 0 }
}

fn fields_of(m: &StrMap<String>) -> Vec<(String, String)> {
    (0..m.len()).map(|i| (m.key_at(i).clone(), m.value_at(i).clone())).collect()
}

fn pairs(list: &[(&str, &str)]) -> Vec<(String, String)> {
    list.iter().map(|(k, v)| (k.to_string(), v.to_string())).collect()
}

fn shown<T: std::fmt::Debug>(value: &T) -> String {
    format!("{value:?}")
}

fn at(year: i32, month: u32, day: u32, hour: u32, minute: u32) -> UtcInstant {
    UtcInstant { date: CalendarDate { year, month, day }, hour, minute, second: 0, nano: 0 }
}

#[test]
fn a_parser_is_known_by_its_key() {
    assert_eq!(CustomParserKind::from_key("oecd_publications_v1"), Some(CustomParserKind::OecdPublications));
    assert_eq!(CustomParserKind::from_key("rough_text_lines_v1"), Some(CustomParserKind::RoughTextLines));
    assert_eq!(
        CustomParserKind::from_key("econ_indicators_calendar_v1"),
        Some(CustomParserKind::EconIndicatorsCalendar)
    );
    assert_eq!(CustomParserKind::from_key("rough_text_lines"), None);
    assert_eq!(CustomParserKind::from_key(""), None);
    assert_eq!(CustomParserKind::OecdPublications.key(), "oecd_publications_v1");
    assert_eq!(CustomParserKind::RoughTextLines.key(), "rough_text_lines_v1");
    assert_eq!(CustomParserKind::EconIndicatorsCalendar.key(), "econ_indicators_calendar_v1");

    let mut source = config("rough_text_lines_v1");
    assert_eq!(custom_parser(&source), Some(CustomParserKind::RoughTextLines));
    source.custom.enabled = false;
    assert_eq!(custom_parser(&source), None);
    source.custom.enabled = true;
    source.custom.parser = Some("unknown".to_string());
    assert_eq!(custom_parser(&source), None);
    source.custom.parser = None;
    assert_eq!(custom_parser(&source), None);
}

#[test]
fn the_lines_of_a_rough_text() {
    let mut source = config("rough_text_lines_v1");
    source.source.timezone = Some("Europe/Paris".to_string());
    source.source.default_country = Some("FR".to_string());
    let docs = vec![
        doc(
            "inline://a",
            "# a comment | with | bars\n\n 2026-05-01 | CPI release | https://example.org/cpi \nno bars\nMay 2026 | Budget\n",
        ),
        doc("inline://b", "sometime | Outlook\r\n"),
    ];
    let events = parse_rough_text_lines(&source, &docs);
    assert_eq!(events.len(), 3);
    let first = &events[0];
    assert_eq!(first.source_key, "test.custom");
    assert_eq!(first.source_name, "Custom source");
    assert_eq!(first.title, "CPI release");
    assert_eq!(first.source_event_id, Some("https://example.org/cpi".to_string()));
    assert_eq!(first.source_url, Some("https://example.org/cpi".to_string()));
    assert_eq!(first.description, None);
    assert_eq!(
        shown(&first.time),
        shown(&EventTimeSpec::Date { start: CalendarDate { year: 2026, month: 5, day: 1 }, end: None })
    );
    assert_eq!(first.timezone, Some("Europe/Paris".to_string()));
    assert_eq!(first.status, "scheduled");
    assert_eq!(first.event_type, "release");
    assert_eq!(first.subtype, Some("stats".to_string()));
    assert_eq!(first.categories, vec!["economy".to_string()]);
    assert_eq!(first.jurisdiction, Some("INT".to_string()));
    assert_eq!(first.country, Some("FR".to_string()));
    assert_eq!(first.importance, Some(2));
    assert_eq!(first.confidence, Some(ROUGH_CONFIDENCE));
    assert_eq!(first.confidence, Some(5000));
    assert_eq!(fields_of(&first.metadata), pairs(&[("custom_parser", "rough_text_lines_v1")]));

    assert_eq!(events[1].title, "Budget");
    assert_eq!(events[1].source_url, None);
    assert_eq!(shown(&events[1].time), shown(&EventTimeSpec::Month { year: 2026, month: 5 }));
    assert_eq!(events[2].title, "Outlook");
    assert_eq!(shown(&events[2].time), shown(&EventTimeSpec::Tbd { note: Some("sometime".to_string()) }));

    let loaded = LoadedSource { path: "x.toml".to_string(), config: source };
    let through = parse_source_events(&loaded, &docs, 2026).expect("events");
    assert_eq!(shown(&through), shown(&events));
}

#[test]
fn a_row_is_cut_at_wide_gaps() {
    assert_eq!(split_wide("CPI m/m   0.3%  0.2%\t\t0.1% x"), vec!["CPI m/m", "0.3%", "0.2%", "0.1% x"]);
    assert_eq!(split_wide("  a  "), vec!["", "a", ""]);
    assert_eq!(split_wide("a b"), vec!["a b"]);
    assert_eq!(split_wide(""), vec![""]);
    assert_eq!(split_wide("a \u{00A0} b"), vec!["a", "b"]);
}

#[test]
fn the_description_of_an_indicator() {
    let s = |t: &str| Some(t.to_string());
    assert_eq!(
        build_econ_description(s("1"), s("2"), s("3"), s("4")),
        s("Actual: 1\nPrevious: 2\nConsensus: 3\nForecast: 4")
    );
    assert_eq!(build_econ_description(None, s("2"), None, s("4")), s("Previous: 2\nForecast: 4"));
    assert_eq!(build_econ_description(s(""), None, None, None), s("Actual: "));
    assert_eq!(build_econ_description(None, None, None, None), None);
}

#[test]
fn a_day_and_a_time_of_day() {
    let day = CalendarDate { year: 2026, month: 5, day: 4 };
    assert_eq!(combine_date_time(&day, "8:30 AM", None), Some(at(2026, 5, 4, 8, 30)));
    assert_eq!(combine_date_time(&day, "8:30AM", None), Some(at(2026, 5, 4, 8, 30)));
    assert_eq!(combine_date_time(&day, "12:00 AM", None), Some(at(2026, 5, 4, 0, 0)));
    assert_eq!(combine_date_time(&day, "12:15 PM", None), Some(at(2026, 5, 4, 12, 15)));
    assert_eq!(
        combine_date_time(&day, "8:30 AM", Some("America/New_York")),
        Some(at(2026, 5, 4, 12, 30))
    );
    assert_eq!(
        combine_date_time(&day, "11:00 PM", Some("America/Los_Angeles")),
        Some(at(2026, 5, 5, 6, 0))
    );
    assert_eq!(combine_date_time(&day, "13:30 PM", None), None);
    assert_eq!(combine_date_time(&day, "8:30", None), None);
    assert_eq!(combine_date_time(&day, "", None), None);
}

const CALENDAR: &str = "Economic calendar\n\
Ignored row   1   2\n\
Monday May 4 2026\n\
Before a time   1\n\
8:30 AM\n\
us\n\
CPI m/m   0.3%   0.2%   0.25%   0.3%   extra\n\
  Core CPI  0.2%\n\
\n\
10:00AM\n\
Factory Orders\n\
Tuesday Smarch 5 2026\n\
9:00 AM\n\
Lost row   1\n\
Wednesday Sep 2 2026 (holiday)\n\
1:15 PM\n\
US\n\
US\n";

#[test]
fn the_rows_of_an_indicators_calendar() {
    let mut source = config("econ_indicators_calendar_v1");
    source.source.timezone = Some("America/New_York".to_string());
    let docs = vec![doc("https://example.org/cal", CALENDAR), doc("https://example.org/cal2", "8:30 AM\nOrphan  1\n")];
    let events = parse_econ_indicators(&source, &docs);
    assert_eq!(
        events.iter().map(|e| e.title.as_str()).collect::<Vec<_>>(),
        vec!["CPI m/m", "Core CPI", "Factory Orders", "US"]
    );
    let first = &events[0];
    assert_eq!(first.source_event_id, Some("US|2026-05-04|8:30 AM|CPI m/m".to_string()));
    assert_eq!(first.source_url, Some("https://example.org/cal".to_string()));
    assert_eq!(
        first.description,
        Some("Actual: 0.3%\nPrevious: 0.2%\nConsensus: 0.25%\nForecast: 0.3%".to_string())
    );
    assert_eq!(shown(&first.time), shown(&EventTimeSpec::DateTime { start: at(2026, 5, 4, 12, 30), end: None }));
    assert_eq!(first.timezone, Some("America/New_York".to_string()));
    assert_eq!(first.country, Some("US".to_string()));
    assert_eq!(first.confidence, Some(ECON_CONFIDENCE));
    assert_eq!(first.confidence, Some(9000));
    assert_eq!(first.categories, vec!["economy".to_string()]);
    assert_eq!(first.event_type, "release");
    assert_eq!(first.importance, Some(2));
    assert_eq!(
        fields_of(&first.metadata),
        pairs(&[
            ("actual", "0.3%"),
            ("consensus", "0.25%"),
            ("country", "US"),
            ("custom_parser", "econ_indicators_calendar_v1"),
            ("forecast", "0.3%"),
            ("previous", "0.2%"),
        ])
    );
    assert_eq!(events[1].description, Some("Actual: 0.2%".to_string()));
    assert_eq!(events[1].source_event_id, Some("US|2026-05-04|8:30 AM|Core CPI".to_string()));
    assert_eq!(events[2].description, None);
    assert_eq!(events[2].source_event_id, Some("US|2026-05-04|10:00AM|Factory Orders".to_string()));
    assert_eq!(shown(&events[2].time), shown(&EventTimeSpec::DateTime { start: at(2026, 5, 4, 14, 0), end: None }));
    assert_eq!(
        fields_of(&events[2].metadata),
        pairs(&[("country", "US"), ("custom_parser", "econ_indicators_calendar_v1")])
    );
    assert_eq!(events[3].source_event_id, Some("US|2026-09-02|1:15 PM|US".to_string()));
    assert_eq!(shown(&events[3].time), shown(&EventTimeSpec::DateTime { start: at(2026, 9, 2, 17, 15), end: None }));

    let loaded = LoadedSource { path: "x.toml".to_string(), config: source };
    let through = parse_source_events(&loaded, &docs, 2026).expect("events");
    assert_eq!(shown(&through), shown(&events));
}

#[test]
fn the_country_of_an_indicators_calendar() {
    let mut source = config("econ_indicators_calendar_v1");
    source.source.default_country = Some("de".to_string());
    let text = "Friday May 8 2026\n8:30 AM\nDE\nIfo  90\n";
    let events = parse_econ_indicators(&source, &vec![doc("u", text)]);
    assert_eq!(events.len(), 1);
    assert_eq!(events[0].country, Some("DE".to_string()));
    assert_eq!(events[0].source_event_id, Some("DE|2026-05-08|8:30 AM|Ifo".to_string()));
    source.fetch.template_vars.insert("country".to_string(), "jp".to_string());
    let events = parse_econ_indicators(&source, &vec![doc("u", text)]);
    assert_eq!(events.iter().map(|e| e.title.as_str()).collect::<Vec<_>>(), vec!["DE", "Ifo"]);
    assert_eq!(events[0].country, Some("JP".to_string()));
}

// ------------------------------------------------------------------ OECD

#[test]
fn the_tags_of_a_request() {
    assert_eq!(
        ensure_facet_tags(""),
        "oecd-languages:en,oecd-search-config-pillars:publications"
    );
    assert_eq!(
        ensure_facet_tags(" a , ,b,"),
        "a,b,oecd-languages:en,oecd-search-config-pillars:publications"
    );
    assert_eq!(
        ensure_facet_tags("oecd-search-config-pillars:publications,x"),
        "oecd-search-config-pillars:publications,x,oecd-languages:en"
    );
    assert_eq!(
        ensure_facet_tags("oecd-languages:en, oecd-search-config-pillars:publications"),
        "oecd-languages:en,oecd-search-config-pillars:publications"
    );
    assert_eq!(
        ensure_facet_tags("oecd-languages:fr"),
        "oecd-languages:fr,oecd-languages:en,oecd-search-config-pillars:publications"
    );
}

#[test]
fn the_year_of_a_publication() {
    assert!(matches_year_or_next(Some(2026), 2026));
    assert!(matches_year_or_next(Some(2027), 2026));
    assert!(!matches_year_or_next(Some(2025), 2026));
    assert!(!matches_year_or_next(Some(2028), 2026));
    assert!(!matches_year_or_next(None, 2026));
    assert!(matches_year_or_next(Some(i32::MAX), i32::MAX));
    assert!(!matches_year_or_next(Some(i32::MIN), i32::MAX));
}

#[test]
fn the_parameters_of_a_request() {
    let base = oecd_base_params("https://www.oecd.org/en/search.html?orderBy=oldest&facetTags=x&q=a%20b&q=c")
        .expect("an address");
    assert_eq!(
        fields_of(&base),
        pairs(&[
            ("facetTags", "x,oecd-languages:en,oecd-search-config-pillars:publications"),
            ("orderBy", "oldest"),
            ("q", "c"),
        ])
    );
    let bare = oecd_base_params("https://www.oecd.org/en/search.html").expect("an address");
    assert_eq!(
        fields_of(&bare),
        pairs(&[("facetTags", "oecd-languages:en,oecd-search-config-pillars:publications")])
    );
    assert_eq!(oecd_base_params("inline://").is_ok(), true);
    assert_eq!(oecd_base_params("not an address").expect_err("no address").url, "not an address");

    assert_eq!(
        fields_of(&oecd_page_params(&base, 3, 25, 2026)),
        pairs(&[
            ("facetTags", "x,oecd-languages:en,oecd-search-config-pillars:publications"),
            ("maxPublicationYear", "2026"),
            ("minPublicationYear", "2026"),
            ("orderBy", "oldest"),
            ("page", "3"),
            ("pageSize", "25"),
            ("q", "c"),
            ("siteName", "oecd"),
        ])
    );
    let mut own: StrMap<String> = StrMap::new();
    own.insert("page".to_string(), "77".to_string());
    own.insert("siteName".to_string(), "other".to_string());
    own.insert("minPublicationYear".to_string(), "1999".to_string());
    assert_eq!(
        fields_of(&oecd_page_params(&own, 0, 50, 2026)),
        pairs(&[
            ("maxPublicationYear", "2026"),
            ("minPublicationYear", "1999"),
            ("orderBy", "mostRecent"),
            ("page", "0"),
            ("pageSize", "50"),
            ("siteName", "oecd"),
        ])
    );
}

#[test]
fn the_pages_of_the_search() {
    let mut source = config("oecd_publications_v1");
    assert_eq!(oecd_page_size(&source), 50);
    source.fetch.headers.insert("x-oecd-page-size".to_string(), "20".to_string());
    assert_eq!(oecd_page_size(&source), 20);
    source.fetch.headers.insert("x-oecd-page-size".to_string(), "many".to_string());
    assert_eq!(oecd_page_size(&source), 50);
    source.fetch.headers.insert("x-oecd-page-size".to_string(), "0".to_string());
    assert_eq!(oecd_page_size(&source), 0);

    assert!(oecd_wants_page(0, 50, usize::MAX));
    assert!(oecd_wants_page(1, 50, 51));
    assert!(!oecd_wants_page(1, 50, 50));
    assert!(!oecd_wants_page(0, 50, 0));
    assert!(oecd_wants_page(7, 0, 10));
    assert!(oecd_wants_page(199, 1, usize::MAX));
    assert!(!oecd_wants_page(200, 1, usize::MAX));
    assert!(!oecd_wants_page(3, usize::MAX, usize::MAX));

    assert!(oecd_reads_on(0, 50, br#"{"total": 51, "results": []}"#));
    assert!(!oecd_reads_on(0, 50, br#"{"total": 50, "results": []}"#));
    assert!(!oecd_reads_on(0, 50, br#"{"total": 500}"#));
    assert!(!oecd_reads_on(0, 50, br#"{"total": 500, "results": {}}"#));
    assert!(!oecd_reads_on(0, 50, br#"{"total": "500", "results": []}"#));
    assert!(!oecd_reads_on(0, 50, br#"{"total": -3, "results": []}"#));
    assert!(!oecd_reads_on(0, 50, br#"{"total": 500.5, "results": []}"#));
    assert!(!oecd_reads_on(0, 50, b"no json"));
    assert!(oecd_reads_on(198, 1, br#"{"total": 5000, "results": [1]}"#));
    assert!(!oecd_reads_on(199, 1, br#"{"total": 5000, "results": [1]}"#));
    assert!(!oecd_reads_on(usize::MAX, 1, br#"{"total": 5000, "results": [1]}"#));
}

const PAGE_ONE: &str = r#"{"total": 4, "results": [
 {"title": " Economic Outlook ", "url": "/en/publications/outlook.html",
  "publicationDateTime": "2026-06-03T09:00:00Z", "description": "  Twice a year. ",
  "tags": [{"id": "oecd-content-types:publications/reports"}, {"id": 5}, {"name": "x"}, {"id": "oecd-policy-areas:economy"}]},
 {"title": "A blog post", "url": "/en/blogs/post.html", "publicationDateTime": "2026-06-04T09:00:00Z",
  "tags": [{"id": "oecd-content-types:blogs"}]},
 {"title": "  ", "url": "/en/publications/untitled.html", "publicationDateTime": "2026-06-04T09:00:00Z",
  "tags": [{"id": "oecd-content-types:publications/reports"}]},
 {"title": "No address", "publicationDateTime": "2026-06-04T09:00:00Z",
  "tags": [{"id": "oecd-content-types:publications/reports"}]},
 {"title": "No date", "url": "https://other.example/no-date",
  "tags": [{"id": "oecd-content-types:publications/reports"}]},
 {"title": "Old", "url": "/en/publications/old.html", "publicationDateTime": "2024-01-01",
  "tags": [{"id": "oecd-content-types:publications/books"}]},
 {"title": "Next year", "url": "/en/publications/next.html", "startDateTime": "2027-02", "endDateTime": "2026-01-01",
  "tags": [{"id": "oecd-content-types:publications/books"}]}
]}"#;

const PAGE_TWO: &str = r#"{"total": "unknown", "results": [
 {"title": "Outlook again", "url": "/en/publications/outlook.html", "publicationDateTime": "2026-07-01",
  "tags": [{"id": "oecd-content-types:publications/reports"}]},
 {"title": "No date, once more", "url": "https://other.example/no-date", "endDateTime": "2026-08-09",
  "tags": [{"id": "oecd-content-types:publications/reports"}]},
 {"title": "Fresh", "url": "/en/publications/fresh.html", "endDateTime": "2026-08-09",
  "tags": [{"id": "oecd-content-types:publications/reports"}]}
]}"#;

#[test]
fn the_publications_of_the_search() {
    let mut source = config("oecd_publications_v1");
    source.fetch.headers.insert("x-oecd-page-size".to_string(), "3".to_string());
    source.source.default_country = Some("INT".to_string());
    let pages = vec![doc("https://api/0", PAGE_ONE), doc("https://api/1", PAGE_TWO), doc("https://api/2", PAGE_ONE)];
    let events = parse_oecd_publications(&source, &pages, 2026);
    assert_eq!(
        events.iter().map(|e| e.title.as_str()).collect::<Vec<_>>(),
        vec!["Economic Outlook", "Next year", "Fresh"]
    );
    let first = &events[0];
    assert_eq!(first.source_event_id, Some("https://www.oecd.org/en/publications/outlook.html".to_string()));
    assert_eq!(first.source_url, first.source_event_id);
    assert_eq!(first.description, Some("Twice a year.".to_string()));
    assert_eq!(shown(&first.time), shown(&EventTimeSpec::DateTime { start: at(2026, 6, 3, 9, 0), end: None }));
    assert_eq!(first.categories, vec!["economy".to_string(), "publishing".to_string()]);
    assert_eq!(first.confidence, Some(OECD_CONFIDENCE));
    assert_eq!(first.confidence, Some(9500));
    assert_eq!(first.country, Some("INT".to_string()));
    assert_eq!(first.jurisdiction, Some("INT".to_string()));
    assert_eq!(first.event_type, "release");
    assert_eq!(
        fields_of(&first.metadata),
        pairs(&[
            ("api_tags", "oecd-content-types:publications/reports,oecd-policy-areas:economy"),
            ("api_total", "4"),
            ("custom_parser", "oecd_publications_v1"),
        ])
    );
    assert_eq!(shown(&events[1].time), shown(&EventTimeSpec::Month { year: 2027, month: 2 }));
    assert_eq!(events[1].description, None);
    assert_eq!(events[2].metadata.get("api_total"), Some(&"0".to_string()));
    assert_eq!(
        shown(&events[2].time),
        shown(&EventTimeSpec::Date { start: CalendarDate { year: 2026, month: 8, day: 9 }, end: None })
    );

    let loaded = LoadedSource { path: "x.toml".to_string(), config: source.clone() };
    let through = parse_source_events(&loaded, &pages, 2026).expect("events");
    assert_eq!(shown(&through), shown(&events));

    source.event.categories = vec!["publishing".to_string(), "x".to_string()];
    let events = parse_oecd_publications(&source, &pages, 2025);
    assert_eq!(events.iter().map(|e| e.title.as_str()).collect::<Vec<_>>(), vec!["Economic Outlook", "Fresh"]);
    assert_eq!(events[0].categories, vec!["publishing".to_string(), "x".to_string()]);
}

#[test]
fn the_search_ends_at_a_page_without_results() {
    let source = config("oecd_publications_v1");
    let good = r#"{"total": 500, "results": [{"title": "A", "url": "/a", "publicationDateTime": "2026-01-01",
      "tags": [{"id": "oecd-content-types:publications/reports"}]}]}"#;
    let other = r#"{"total": 500, "results": [{"title": "B", "url": "/b", "publicationDateTime": "2026-01-01",
      "tags": [{"id": "oecd-content-types:publications/reports"}]}]}"#;
    let titles = |pages: &Vec<FetchedDocument>| {
        parse_oecd_publications(&source, pages, 2026).iter().map(|e| e.title.clone()).collect::<Vec<_>>()
    };
    assert_eq!(titles(&vec![doc("0", good), doc("1", other)]), vec!["A", "B"]);
    assert_eq!(titles(&vec![doc("0", good), doc("1", r#"{"total": 500}"#), doc("2", other)]), vec!["A"]);
    assert_eq!(titles(&vec![doc("0", good), doc("1", "not json"), doc("2", other)]), vec!["A"]);
    assert_eq!(titles(&vec![doc("0", r#"{"results": []}"#), doc("1", other)]), Vec::<String>::new());
    assert_eq!(titles(&Vec::new()), Vec::<String>::new());
}
