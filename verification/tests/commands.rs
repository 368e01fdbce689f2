use rics::cleanup::{
    calendars_to_publish, cleanup_noncanonical_files_for_year, cleanup_stale_year_files,
    count_calendars,
};
use rics::config::{
    CustomConfig, DateConfig, EventConfig, ExtractConfig, FetchConfig, LoadedSource,
    PaginationConfig, PdfConfig, PublishConfig, SourceConfig, SourceMeta,
};
use rics::harness::{harness_report, sum_counts, Count, HarnessOptions, HarnessReport};
use rics::keyed::StrMap;
use rics::model::SourceRunReport;
use rics::naming::is_calendar_file;
use rics::pipeline::{publish_existing_calendars, PublishOptions, SyncError};
use rics::state::{State, SCHEMA_VERSION};
use rics::years::YearSet;

fn strings(list: &[&str]) -> Vec<String> {
    list.iter().map(|s| s.to_string()).collect()
}

fn years(list: &[i32]) -> YearSet {
    let mut set = YearSet::new();
    for y in list {
        set.insert(*y);
    }
    set
}

fn source(key: &str, mirror: Option<&str>, subdir: bool) -> LoadedSource {
    let mut fetch = FetchConfig::default();
    fetch.base_url = Some("https://example.org/".to_string());
    LoadedSource {
        path: format!("sources/{key}.toml"),
        config: SourceConfig {
            source: SourceMeta {
                key: key.to_string(),
                name: key.to_string(),
                domain: "test".to_string(),
                enabled: false,
                timezone: None,
                jurisdiction: None,
                default_country: None,
            },
            fetch,
            pagination: PaginationConfig::default(),
            extract: ExtractConfig::default(),
            map: StrMap::new(),
            date: DateConfig::default(),
            event: EventConfig::default(),
            pdf: PdfConfig::default(),
            custom: CustomConfig::default(),
            publish: PublishConfig {
                mirror_dir: mirror.map(|m| m.to_string()),
                mirror_source_subdir: subdir,
                file_name_template: None,
            },
        },
    }
}

fn report(inserted: usize, updated: usize, cancelled: usize) -> SourceRunReport {
    SourceRunReport { inserted, updated, cancelled, ..SourceRunReport::default() }
}

#[test]
fn the_names_of_calendar_files() {
    assert!(is_calendar_file("a.ics"));
    assert!(is_calendar_file("é.ics"));
    assert!(!is_calendar_file(".ics"));
    assert!(!is_calendar_file("a.ICS"));
    assert!(!is_calendar_file("a.ics.bak"));
    assert!(!is_calendar_file("ics"));
    assert!(!is_calendar_file(""));
    assert_eq!(count_calendars(&strings(&["a.ics", "b.txt", ".ics", "2026.ics", "c.ics "])), 2);
    assert_eq!(count_calendars(&Vec::new()), 0);
}

#[test]
fn the_files_that_the_cleanup_removes() {
    let listing = strings(&[
        "notes.txt",
        "a-b-2024.ics",
        "2025.ics",
        "a-b-2026.ics",
        "us-cpi-2023-final.ics",
        "us-cpi-2027.ics",
        "other-source-1999.ics",
        "undated.ics",
        "a-b-2024.ics.bak",
        "0000.ics",
        "a-b-1999.ics",
        "a-b--5.ics",
        "a-b-.ics",
    ]);
    assert_eq!(
        cleanup_stale_year_files(&listing, "a-b", &years(&[2026, 2027])),
        strings(&["a-b-2024.ics", "2025.ics", "0000.ics", "a-b-1999.ics", "a-b--5.ics"])
    );
    assert_eq!(
        cleanup_stale_year_files(&listing, "a-b", &years(&[])),
        strings(&["a-b-2024.ics", "2025.ics", "a-b-2026.ics", "0000.ics", "a-b-1999.ics", "a-b--5.ics"])
    );
    assert_eq!(
        cleanup_stale_year_files(&listing, "a-b", &years(&[-5, 1999, 2023, 2024, 2025, 2026, 2027])),
        strings(&["2025.ics", "0000.ics"])
    );
    assert_eq!(
        cleanup_stale_year_files(&strings(&["other-source-1999.ics"]), "test-oecd-fixture", &years(&[2026])),
        Vec::<String>::new()
    );
    assert_eq!(cleanup_stale_year_files(&Vec::new(), "a-b", &years(&[2026])), Vec::<String>::new());
}

#[test]
fn the_other_calendars_of_a_year_that_was_written() {
    let listing = strings(&[
        "a-b-2026.ics",
        "us-2026.ics",
        "old-2026-name.ics",
        "a-b-2027.ics",
        "2026.ics",
        "2026.txt",
        "undated.ics",
    ]);
    assert_eq!(
        cleanup_noncanonical_files_for_year(&listing, 2026, "us-2026.ics", "a-b"),
        strings(&["a-b-2026.ics", "old-2026-name.ics", "2026.ics"])
    );
    assert_eq!(
        cleanup_noncanonical_files_for_year(&listing, 2027, "a-b-2027.ics", "a-b"),
        Vec::<String>::new()
    );
    assert_eq!(
        cleanup_noncanonical_files_for_year(&listing, 2027, "other.ics", "a-b"),
        strings(&["a-b-2027.ics"])
    );
}

#[test]
fn the_calendars_that_are_published() {
    let listing = strings(&["a-b-2026.ics", "notes.txt", "a-b-2027.ics", "2026.ics", "undated.ics", ".ics"]);
    assert_eq!(
        calendars_to_publish(&listing, "a-b", None),
        strings(&["a-b-2026.ics", "a-b-2027.ics", "2026.ics", "undated.ics"])
    );
    assert_eq!(calendars_to_publish(&listing, "a-b", Some(2026)), strings(&["a-b-2026.ics", "2026.ics"]));
    assert_eq!(calendars_to_publish(&listing, "a-b", Some(2030)), Vec::<String>::new());
}

#[test]
fn where_the_calendars_of_the_sources_are_published() {
    let sources = vec![
        source("zeta.one", Some("/srv/mirror"), true),
        source("beta", None, true),
        source("alpha/two", Some("mirror/alpha"), false),
    ];
    let options = PublishOptions {
        config_dir: "sources".to_string(),
        out_dir: "out".to_string(),
        source: None,
        year: None,
    };
    let targets = publish_existing_calendars(&options, &sources).expect("targets");
    let got: Vec<(usize, &str, &str, bool)> = targets
        .iter()
        .map(|t| (t.index, t.file_prefix.as_str(), t.mirror_dir.as_str(), t.mirror_source_subdir))
        .collect();
    assert_eq!(got, vec![(2, "alpha-two", "mirror/alpha", false), (0, "zeta-one", "/srv/mirror", true)]);

    let mut only = options.clone();
    only.source = Some("zeta.one".to_string());
    let targets = publish_existing_calendars(&only, &sources).expect("targets");
    assert_eq!(targets.len(), 1);
    assert_eq!(targets[0].index, 0);

    only.source = Some("beta".to_string());
    assert_eq!(publish_existing_calendars(&only, &sources).expect("targets").len(), 0);

    only.source = Some("gamma".to_string());
    assert!(matches!(publish_existing_calendars(&only, &sources), Err(SyncError::NoMatchingSources)));
    assert!(matches!(publish_existing_calendars(&options, &Vec::new()), Err(SyncError::NoMatchingSources)));
}

#[test]
fn the_report_of_two_runs_in_a_row() {
    let first = vec![report(2, 0, 0), report(3, 1, 4)];
    let second = vec![report(0, 0, 0), report(0, 2, 1)];
    assert_eq!(
        harness_report(&first, &second, 5, 3),
        Some(HarnessReport {
            first_run_sources: 2,
            first_run_inserted: 5,
            first_run_updated: 1,
            first_run_cancelled: 4,
            second_run_inserted: 0,
            second_run_updated: 2,
            second_run_cancelled: 1,
            total_events: 5,
            ics_files: 3,
        })
    );
    assert_eq!(
        harness_report(&Vec::new(), &Vec::new(), 0, 0),
        Some(HarnessReport {
            first_run_sources: 0,
            first_run_inserted: 0,
            first_run_updated: 0,
            first_run_cancelled: 0,
            second_run_inserted: 0,
            second_run_updated: 0,
            second_run_cancelled: 0,
            total_events: 0,
            ics_files: 0,
        })
    );
    assert_eq!(sum_counts(&first, Count::Inserted), Some(5));
    assert_eq!(sum_counts(&first, Count::Updated), Some(1));
    assert_eq!(sum_counts(&first, Count::Cancelled), Some(4));
    let large = vec![report(usize::MAX, 0, 0), report(0, 0, 0), report(1, 0, 0)];
    assert_eq!(sum_counts(&large, Count::Inserted), None);
    assert_eq!(sum_counts(&large, Count::Updated), Some(0));
    assert_eq!(harness_report(&large, &second, 0, 0), None);
    assert_eq!(harness_report(&second, &large, 0, 0), None);
    let options = HarnessOptions {
        config_dir: "sources".to_string(),
        state_path: "state.json".to_string(),
        out_dir: "out".to_string(),
    };
    assert_eq!(options.clone().out_dir, "out");
}

#[test]
fn a_state_is_empty_at_first() {
    let state = State::default();
    assert_eq!(state.schema_version, SCHEMA_VERSION);
    assert_eq!(state.schema_version, 1);
    assert_eq!(state.len(), 0);
    assert!(state.get("anything").is_none());
}
