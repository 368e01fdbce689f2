use rics::config::{
    default_capture, default_date_formats, default_event_type, default_get, default_max_pages,
    default_page_param, default_primary_date, default_retry_attempts, default_retry_backoff_ms,
    default_split_strategy, default_status, default_timeout_secs, default_true, sanitize_for_path,
    ConfigError, CustomConfig, DateConfig, EventConfig, ExtractConfig, ExtractFormat, FetchConfig,
    FetchMode, FieldRule, LoadedSource, PaginationConfig, PaginationStrategy, PdfConfig,
    PublishConfig, SourceConfig, SourceMeta,
};
use rics::keyed::StrMap;
use rics::naming::{
    extract_year_from_any_ics_filename, ics_filename, is_legacy_year_only_filename,
    parse_year_from_filename, source_ics_filename, superseded,
};

fn source(key: &str) -> LoadedSource {
    let mut fetch = FetchConfig::default();
    fetch.base_url = Some("https://example.org/".to_string());
    let mut map: StrMap<FieldRule> = StrMap::new();
    map.insert("title".to_string(), FieldRule::default());
    LoadedSource {
        path: "sources/a.toml".to_string(),
        config: SourceConfig {
            source: SourceMeta {
                key: key.to_string(),
                name: "A source".to_string(),
                domain: "test".to_string(),
                enabled: true,
                timezone: None,
                jurisdiction: None,
                default_country: None,
            },
            fetch,
            pagination: PaginationConfig::default(),
            extract: ExtractConfig::default(),
            map,
            date: DateConfig::default(),
            event: EventConfig::default(),
            pdf: PdfConfig::default(),
            custom: CustomConfig::default(),
            publish: PublishConfig::default(),
        },
    }
}

#[test]
fn names_are_made_safe_for_paths() {
    assert_eq!(sanitize_for_path("test.oecd.fixture"), "test-oecd-fixture");
    assert_eq!(sanitize_for_path("--a b--"), "a-b");
    assert_eq!(sanitize_for_path("..."), "");
    assert_eq!(sanitize_for_path(""), "");
    assert_eq!(sanitize_for_path("Émile/9"), "mile-9");
    assert_eq!(sanitize_for_path("a..b"), "a--b");
    assert_eq!(source("us/bls cpi").config.sanitized_source_dir_name(), "us-bls-cpi");
}

#[test]
fn the_defaults() {
    assert!(default_true());
    assert_eq!(default_get(), "GET");
    assert_eq!(default_timeout_secs(), 20);
    assert_eq!(default_retry_attempts(), 2);
    assert_eq!(default_retry_backoff_ms(), 500);
    assert_eq!(default_page_param(), "page");
    assert_eq!(default_max_pages(), 1);
    assert_eq!(default_primary_date(), "date");
    assert_eq!(
        default_date_formats(),
        vec!["%Y-%m-%d", "%Y/%m/%d", "%B %d, %Y", "%b %d, %Y", "%B %Y", "%b %Y", "%Y"]
    );
    assert_eq!(default_event_type(), "event");
    assert_eq!(default_status(), "scheduled");
    assert_eq!(default_split_strategy(), "regex");
    assert_eq!(default_capture(), 1);

    let fetch = FetchConfig::default();
    assert_eq!(fetch.mode, FetchMode::Http);
    assert_eq!(fetch.method, "GET");
    assert_eq!(fetch.timeout_secs, 20);
    assert_eq!(fetch.retry_attempts, 2);
    assert_eq!(fetch.retry_backoff_ms, 500);
    assert!(fetch.base_url.is_none() && fetch.file_path.is_none() && fetch.inline_data.is_none());
    assert!(fetch.headers.is_empty() && fetch.template_vars.is_empty());

    let pagination = PaginationConfig::default();
    assert!(!pagination.enabled);
    assert_eq!(pagination.strategy, PaginationStrategy::QueryParam);
    assert_eq!(pagination.page_param, "page");
    assert_eq!((pagination.start_page, pagination.max_pages), (0, 1));
    assert!(pagination.stop_when_no_results);

    assert_eq!(ExtractConfig::default().format, ExtractFormat::Html);
    let date = DateConfig::default();
    assert_eq!(date.primary, "date");
    assert!(date.allow_month_only && date.allow_year_only);
    let event = EventConfig::default();
    assert_eq!((event.event_type.as_str(), event.status.as_str()), ("event", "scheduled"));
    assert!(event.categories.is_empty() && event.importance.is_none());
    assert!(!CustomConfig::default().enabled);
    assert!(PublishConfig::default().file_name_template.is_none());
    assert!(PdfConfig::default().fields.is_empty());
    assert_eq!(FetchMode::default(), FetchMode::Http);
    assert_eq!(ExtractFormat::default(), ExtractFormat::Html);
}

#[test]
fn a_valid_source_passes() {
    assert_eq!(source("a").config.validate(), Ok(()));
}

#[test]
fn validation_names_the_first_fault() {
    let mut s = source("  \t");
    s.config.source.name = String::new();
    assert_eq!(s.config.validate(), Err(ConfigError::EmptyKey));
    assert_eq!(ConfigError::EmptyKey.message(), "source.key must not be empty");

    let mut s = source("a");
    s.config.source.name = "\u{00A0}".to_string();
    assert_eq!(s.config.validate(), Err(ConfigError::EmptyName));
    assert_eq!(ConfigError::EmptyName.message(), "source.name must not be empty");

    let mut s = source("a");
    s.config.fetch.base_url = None;
    assert_eq!(s.config.validate(), Err(ConfigError::MissingBaseUrl));
    assert_eq!(ConfigError::MissingBaseUrl.message(), "fetch.base_url is required for http mode");

    let mut s = source("a");
    s.config.fetch.mode = FetchMode::File;
    assert_eq!(s.config.validate(), Err(ConfigError::MissingFilePath));
    assert_eq!(ConfigError::MissingFilePath.message(), "fetch.file_path is required for file mode");
    s.config.fetch.file_path = Some("data.html".to_string());
    assert_eq!(s.config.validate(), Ok(()));

    let mut s = source("a");
    s.config.fetch.mode = FetchMode::Inline;
    assert_eq!(s.config.validate(), Err(ConfigError::MissingInlineData));
    assert_eq!(
        ConfigError::MissingInlineData.message(),
        "fetch.inline_data is required for inline mode"
    );

    let mut s = source("a");
    s.config.map = StrMap::new();
    assert_eq!(s.config.validate(), Err(ConfigError::EmptyMap));
    assert_eq!(
        ConfigError::EmptyMap.message(),
        "map section must not be empty for html extraction"
    );
    s.config.custom.parser = Some("rough_text_lines_v1".to_string());
    assert_eq!(s.config.validate(), Err(ConfigError::EmptyMap));
    s.config.custom.enabled = true;
    assert_eq!(s.config.validate(), Ok(()));
    s.config.custom = CustomConfig::default();
    s.config.extract.format = ExtractFormat::Json;
    assert_eq!(s.config.validate(), Ok(()));
}

#[test]
fn the_name_of_a_calendar_file() {
    assert_eq!(ics_filename("test-oecd-fixture", 2026), "test-oecd-fixture-2026.ics");
    assert_eq!(ics_filename("x", -4), "x--4.ics");
    assert_eq!(ics_filename("", 0), "-0.ics");
    assert_eq!(source_ics_filename(&source("a.b"), "a-b", 2026), "a-b-2026.ics");
}

#[test]
fn the_name_of_a_calendar_file_from_a_template() {
    let mut s = source("us.bls");
    s.config.publish.file_name_template =
        Some("{{country}}-{{country_upper}}-{{kind}}-{{year}}-{{source_dir}}-{{source_key}}".to_string());
    s.config.source.default_country = Some("Us".to_string());
    s.config.fetch.template_vars.insert("kind".to_string(), "cpi".to_string());
    assert_eq!(
        source_ics_filename(&s, "us-bls", 2026),
        "us-US-cpi-2026-us-bls-us.bls.ics"
    );

    s.config.publish.file_name_template = Some("{{year}}/{{year}}.ics".to_string());
    assert_eq!(source_ics_filename(&s, "us-bls", 2027), "2027/2027.ics");

    s.config.source.default_country = None;
    s.config.publish.file_name_template = Some("cal-{{country}}-{{year}}".to_string());
    assert_eq!(source_ics_filename(&s, "us-bls", 2027), "cal-{{country}}-2027.ics");

    s.config.fetch.template_vars.insert("year".to_string(), "never".to_string());
    s.config.fetch.template_vars.insert("a".to_string(), "{{kind}}".to_string());
    s.config.publish.file_name_template = Some("{{a}}-{{year}}".to_string());
    assert_eq!(source_ics_filename(&s, "us-bls", 2027), "cpi-2027.ics");
}

#[test]
fn the_year_in_the_name_of_a_calendar_file() {
    assert_eq!(parse_year_from_filename("a-b-2026.ics", "a-b"), Some(2026));
    assert_eq!(parse_year_from_filename("a-b--12.ics", "a-b"), Some(-12));
    assert_eq!(parse_year_from_filename("a-b-+12.ics", "a-b"), Some(12));
    assert_eq!(parse_year_from_filename("a-b-2026.txt", "a-b"), None);
    assert_eq!(parse_year_from_filename("a-b-2026.ics", "a"), None);
    assert_eq!(parse_year_from_filename("x-2026.ics", "a-b"), None);
    assert_eq!(parse_year_from_filename("a-b-.ics", "a-b"), None);
    assert_eq!(parse_year_from_filename("a-b-99999999999.ics", "a-b"), None);
    assert_eq!(parse_year_from_filename("a-b.ics", "a-b"), None);
}

#[test]
fn files_of_the_old_layout_are_named_by_four_digits() {
    assert!(is_legacy_year_only_filename("2025.ics"));
    assert!(is_legacy_year_only_filename("0001.ics"));
    assert!(!is_legacy_year_only_filename("202.ics"));
    assert!(!is_legacy_year_only_filename("20255.ics"));
    assert!(!is_legacy_year_only_filename("-202.ics"));
    assert!(!is_legacy_year_only_filename("2025.txt"));
    assert!(!is_legacy_year_only_filename("2025"));
    assert!(!is_legacy_year_only_filename("a-2025.ics"));
    assert!(!is_legacy_year_only_filename("٢٠٢٥.ics"));
}

#[test]
fn the_year_of_any_calendar_file() {
    assert_eq!(extract_year_from_any_ics_filename("a-b-2026.ics", "a-b"), Some(2026));
    assert_eq!(extract_year_from_any_ics_filename("2024.ics", "a-b"), Some(2024));
    assert_eq!(extract_year_from_any_ics_filename("-7.ics", "a-b"), Some(-7));
    assert_eq!(extract_year_from_any_ics_filename("us-cpi-2027-final.ics", "a-b"), Some(2027));
    assert_eq!(extract_year_from_any_ics_filename("x1999y2003.ics", "a-b"), Some(1999));
    assert_eq!(extract_year_from_any_ics_filename("report-1899.ics", "a-b"), None);
    assert_eq!(extract_year_from_any_ics_filename("report.ics", "a-b"), None);
    assert_eq!(extract_year_from_any_ics_filename("a-b-2026.txt", "a-b"), None);
    assert_eq!(extract_year_from_any_ics_filename("v320261.ics", "a-b"), Some(2026));
}

#[test]
fn other_names_of_the_same_year_are_superseded() {
    assert!(superseded("a-b-2026.ics", "us-2026.ics", "a-b", 2026));
    assert!(superseded("old-2026-cal.ics", "us-2026.ics", "a-b", 2026));
    assert!(!superseded("us-2026.ics", "us-2026.ics", "a-b", 2026));
    assert!(!superseded("a-b-2027.ics", "us-2026.ics", "a-b", 2026));
    assert!(!superseded("a-b-2026.txt", "us-2026.ics", "a-b", 2026));
    assert!(!superseded("notes.ics", "us-2026.ics", "a-b", 2026));
}
