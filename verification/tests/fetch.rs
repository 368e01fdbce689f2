use rics::config::{
    CustomConfig, DateConfig, EventConfig, ExtractConfig, FetchConfig, FetchMode, LoadedSource,
    PaginationConfig, PdfConfig, PublishConfig, SourceConfig, SourceMeta,
};
use rics::fetch::{
    choose_path, fetch_inline_document, fetch_source_documents, file_document, http_start,
    http_step, parse_method, resolve_path, FetchAction, FetchError, FetchEvent, FetchPlan,
    HttpMethod,
};
use rics::keyed::StrMap;
use rics::links::{absolutize_url, build_paged_url, set_page};

fn source(mode: FetchMode) -> LoadedSource {
    let mut fetch = FetchConfig::default();
    fetch.mode = mode;
    LoadedSource {
        path: "/etc/rics/sources/a.toml".to_string(),
        config: SourceConfig {
            source: SourceMeta {
                key: "test.fetch".to_string(),
                name: "Fetch".to_string(),
                domain: "macro".to_string(),
                enabled: true,
                timezone: None,
                jurisdiction: None,
                default_country: None,
            },
            fetch,
            pagination: PaginationConfig::default(),
            extract: ExtractConfig::default(),
            map: StrMap::new(),
            date: DateConfig::default(),
            event: EventConfig::default(),
            pdf: PdfConfig::default(),
            custom: CustomConfig::default(),
            publish: PublishConfig::default(),
        },
    }
}

fn pair(k: &str, v: &str) -> (String, String) {
    (k.to_string(), v.to_string())
}

#[test]
fn an_address_is_made_absolute() {
    let base = Some("https://example.org/a/b/list.html?x=1");
    assert_eq!(absolutize_url(base, "/cpi"), "https://example.org/cpi");
    assert_eq!(absolutize_url(base, "cpi?y=2"), "https://example.org/a/b/cpi?y=2");
    assert_eq!(absolutize_url(base, "../up"), "https://example.org/a/up");
    assert_eq!(absolutize_url(base, "//cdn.example/x"), "https://cdn.example/x");
    assert_eq!(absolutize_url(base, "https://other.example/x y"), "https://other.example/x y");
    assert_eq!(absolutize_url(base, "http://other.example"), "http://other.example");
    assert_eq!(absolutize_url(base, "mailto:a@example.org"), "mailto:a@example.org");
    assert_eq!(absolutize_url(None, "/cpi"), "/cpi");
    assert_eq!(absolutize_url(Some("no base"), "/cpi"), "/cpi");
    assert_eq!(absolutize_url(base, ""), "https://example.org/a/b/list.html?x=1");
}

#[test]
fn the_page_parameter_of_an_address() {
    let pairs = vec![pair("a", "1"), pair("page", "1"), pair("page", "2")];
    assert_eq!(set_page(&pairs, "page", "9"), vec![pair("a", "1"), pair("page", "9"), pair("page", "2")]);
    assert_eq!(set_page(&pairs, "p", "9"), vec![pair("a", "1"), pair("page", "1"), pair("page", "2"), pair("p", "9")]);
    assert_eq!(set_page(&Vec::new(), "p", "0"), vec![pair("p", "0")]);

    assert_eq!(
        build_paged_url("https://example.org/list", "page", "3").expect("an address"),
        "https://example.org/list?page=3"
    );
    assert_eq!(
        build_paged_url("https://example.org/list?q=a+b&page=1&z=%C3%A9#frag", "page", "12").expect("an address"),
        "https://example.org/list?q=a+b&page=12&z=%C3%A9#frag"
    );
    assert_eq!(
        build_paged_url("https://example.org", "p q", "a&b").expect("an address"),
        "https://example.org/?p+q=a%26b"
    );
    assert_eq!(build_paged_url("list?page=1", "page", "2").expect_err("no address").url, "list?page=1");
}

#[test]
fn the_method_of_a_request() {
    assert_eq!(parse_method("GET"), Some(HttpMethod::Get));
    assert_eq!(parse_method("get"), Some(HttpMethod::Get));
    assert_eq!(parse_method("Post"), Some(HttpMethod::Post));
    assert_eq!(parse_method("PUT"), None);
    assert_eq!(parse_method(" GET"), None);
    assert_eq!(parse_method(""), None);
}

#[test]
fn a_source_that_carries_its_data() {
    let mut s = source(FetchMode::Inline);
    assert!(matches!(fetch_inline_document(&s), Err(FetchError::MissingInlineData)));
    assert!(matches!(fetch_source_documents(&s), Err(FetchError::MissingInlineData)));
    s.config.fetch.inline_data = Some("é | x".to_string());
    let docs = fetch_inline_document(&s).expect("a document");
    assert_eq!(docs.len(), 1);
    assert_eq!(docs[0].source_url, "inline://test.fetch");
    assert_eq!(docs[0].body, "é | x".as_bytes());
    assert_eq!(docs[0].page_index, 0);
    match fetch_source_documents(&s).expect("a plan") {
        FetchPlan::Ready { documents } => {
            assert_eq!(documents.len(), 1);
            assert_eq!(documents[0].source_url, "inline://test.fetch");
            assert_eq!(documents[0].body, "é | x".as_bytes());
        }
        other => panic!("{other:?}"),
    }
}

#[test]
fn a_source_that_names_a_file() {
    let mut s = source(FetchMode::File);
    assert!(matches!(fetch_source_documents(&s), Err(FetchError::MissingFilePath)));
    s.config.fetch.file_path = Some("data/list.html".to_string());
    match fetch_source_documents(&s).expect("a plan") {
        FetchPlan::File { config_path, file_path } => {
            assert_eq!(config_path, "/etc/rics/sources/a.toml");
            assert_eq!(file_path, "data/list.html");
        }
        other => panic!("{other:?}"),
    }
    let doc = file_document("/etc/rics/sources/data/list.html", vec![1, 2, 3]);
    assert_eq!(doc.source_url, "file:///etc/rics/sources/data/list.html");
    assert_eq!(doc.body, vec![1, 2, 3]);
    assert_eq!(doc.page_index, 0);
}

#[test]
fn the_path_of_a_data_file() {
    assert_eq!(
        resolve_path("/etc/rics/sources/a.toml", "data/list.html").expect("a path"),
        "/etc/rics/sources/data/list.html"
    );
    assert_eq!(resolve_path("/etc/rics/sources/a.toml", "/var/x.html").expect("a path"), "/var/x.html");
    assert_eq!(resolve_path("a.toml", "x.html").expect("a path"), "x.html");
    assert_eq!(resolve_path("", "/abs").expect("a path"), "/abs");
    match resolve_path("", "x.html") {
        Err(FetchError::NoParent { path }) => assert_eq!(path, ""),
        other => panic!("{other:?}"),
    }
    match resolve_path("/", "x.html") {
        Err(FetchError::NoParent { path }) => assert_eq!(path, "/"),
        other => panic!("{other:?}"),
    }
    assert_eq!(choose_path("c", "/abs", true, None).expect("a path"), "/abs");
    assert_eq!(choose_path("c", "rel", false, Some("dir/rel".to_string())).expect("a path"), "dir/rel");
    assert!(matches!(choose_path("c", "rel", false, None), Err(FetchError::NoParent { .. })));
}

#[test]
fn a_source_without_pages_is_asked_once() {
    let mut s = source(FetchMode::Http);
    assert!(matches!(fetch_source_documents(&s), Err(FetchError::MissingBaseUrl)));
    assert!(matches!(http_start(&s), Err(FetchError::MissingBaseUrl)));
    s.config.fetch.base_url = Some("not checked here".to_string());
    assert!(matches!(fetch_source_documents(&s), Ok(FetchPlan::Http)));
    s.config.fetch.method = "put".to_string();
    match http_start(&s) {
        Err(FetchError::UnsupportedMethod { method }) => assert_eq!(method, "put"),
        other => panic!("{other:?}"),
    }
    s.config.fetch.method = "post".to_string();
    let (mut state, action) = http_start(&s).expect("a request");
    assert!(matches!(action, FetchAction::Request));
    assert_eq!(state.url, "not checked here");
    assert_eq!(state.method, HttpMethod::Post);
    assert_eq!((state.page_index, state.attempt), (0, 1));
    let next = http_step(&mut state, &s, FetchEvent::Success { body: Vec::new() }).expect("done");
    assert!(matches!(next, FetchAction::Done));
    assert_eq!(state.documents.len(), 1);
    assert_eq!(state.documents[0].source_url, "not checked here");
    assert!(state.documents[0].body.is_empty());
}

#[test]
fn a_request_is_made_again_until_the_attempts_are_used() {
    let mut s = source(FetchMode::Http);
    s.config.fetch.base_url = Some("https://example.org/list".to_string());
    s.config.fetch.retry_attempts = 3;
    s.config.fetch.retry_backoff_ms = 250;
    let (mut state, _) = http_start(&s).expect("a request");
    match http_step(&mut state, &s, FetchEvent::Refused { status: 503 }).expect("a wait") {
        FetchAction::Wait { millis } => assert_eq!(millis, 250),
        other => panic!("{other:?}"),
    }
    assert_eq!(state.attempt, 2);
    assert!(matches!(
        http_step(&mut state, &s, FetchEvent::Failed).expect("a wait"),
        FetchAction::Wait { millis: 250 }
    ));
    assert_eq!(state.attempt, 3);
    let mut refused = state.clone();
    match http_step(&mut refused, &s, FetchEvent::Refused { status: 404 }) {
        Err(FetchError::Status { url, status }) => {
            assert_eq!(url, "https://example.org/list");
            assert_eq!(status, 404);
        }
        other => panic!("{other:?}"),
    }
    let mut failed = state.clone();
    match http_step(&mut failed, &s, FetchEvent::Failed) {
        Err(FetchError::Failed { url }) => assert_eq!(url, "https://example.org/list"),
        other => panic!("{other:?}"),
    }
    let done = http_step(&mut state, &s, FetchEvent::Success { body: b"ok".to_vec() }).expect("done");
    assert!(matches!(done, FetchAction::Done));
    assert_eq!(state.documents.len(), 1);
    assert_eq!(state.documents[0].body, b"ok");

    s.config.fetch.retry_attempts = 0;
    let (mut state, _) = http_start(&s).expect("a request");
    assert!(matches!(
        http_step(&mut state, &s, FetchEvent::Failed),
        Err(FetchError::Failed { .. })
    ));
}

#[test]
fn the_pages_of_a_source_are_asked_in_their_order() {
    let mut s = source(FetchMode::Http);
    s.config.fetch.base_url = Some("https://example.org/list?p=0&q=x".to_string());
    s.config.pagination.enabled = true;
    s.config.pagination.page_param = "p".to_string();
    s.config.pagination.start_page = 5;
    s.config.pagination.max_pages = 3;
    let (mut state, action) = http_start(&s).expect("a request");
    assert!(matches!(action, FetchAction::Request));
    assert_eq!(state.url, "https://example.org/list?p=5&q=x");
    assert!(matches!(
        http_step(&mut state, &s, FetchEvent::Success { body: b"one".to_vec() }).expect("next"),
        FetchAction::Request
    ));
    assert_eq!(state.url, "https://example.org/list?p=6&q=x");
    assert_eq!((state.page_index, state.attempt), (1, 1));
    assert!(matches!(
        http_step(&mut state, &s, FetchEvent::Refused { status: 500 }).expect("a wait"),
        FetchAction::Wait { millis: 500 }
    ));
    assert!(matches!(
        http_step(&mut state, &s, FetchEvent::Success { body: b"two".to_vec() }).expect("next"),
        FetchAction::Request
    ));
    assert_eq!((state.page_index, state.attempt), (2, 1));
    assert!(matches!(
        http_step(&mut state, &s, FetchEvent::Success { body: b"three".to_vec() }).expect("done"),
        FetchAction::Done
    ));
    let got: Vec<(String, Vec<u8>, usize)> =
        state.documents.iter().map(|d| (d.source_url.clone(), d.body.clone(), d.page_index)).collect();
    assert_eq!(
        got,
        vec![
            ("https://example.org/list?p=5&q=x".to_string(), b"one".to_vec(), 0),
            ("https://example.org/list?p=6&q=x".to_string(), b"two".to_vec(), 1),
            ("https://example.org/list?p=7&q=x".to_string(), b"three".to_vec(), 2),
        ]
    );
}

#[test]
fn an_empty_page_ends_the_asking() {
    let mut s = source(FetchMode::Http);
    s.config.fetch.base_url = Some("https://example.org/list".to_string());
    s.config.pagination.enabled = true;
    s.config.pagination.max_pages = 10;
    let (mut state, _) = http_start(&s).expect("a request");
    assert_eq!(state.url, "https://example.org/list?page=0");
    http_step(&mut state, &s, FetchEvent::Success { body: b"one".to_vec() }).expect("next");
    assert!(matches!(
        http_step(&mut state, &s, FetchEvent::Success { body: Vec::new() }).expect("done"),
        FetchAction::Done
    ));
    assert_eq!(state.documents.len(), 1);

    s.config.pagination.stop_when_no_results = false;
    s.config.pagination.max_pages = 2;
    let (mut state, _) = http_start(&s).expect("a request");
    assert!(matches!(
        http_step(&mut state, &s, FetchEvent::Success { body: Vec::new() }).expect("next"),
        FetchAction::Request
    ));
    assert!(matches!(
        http_step(&mut state, &s, FetchEvent::Success { body: Vec::new() }).expect("done"),
        FetchAction::Done
    ));
    assert_eq!(state.documents.len(), 2);

    s.config.pagination.max_pages = 0;
    let (state, action) = http_start(&s).expect("nothing to ask");
    assert!(matches!(action, FetchAction::Done));
    assert!(state.documents.is_empty());

    s.config.pagination.max_pages = 1;
    s.config.fetch.base_url = Some("no address".to_string());
    match http_start(&s) {
        Err(FetchError::InvalidUrl { url }) => assert_eq!(url, "no address"),
        other => panic!("{other:?}"),
    }
}
