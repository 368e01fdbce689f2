//! Fetching: what is fetched for a source, and what is done when a request
//! fails. The requests themselves are made elsewhere; here is what to ask
//! for and what to make of the answer.

use vstd::prelude::*;
use crate::config::{FetchMode, LoadedSource, SourceConfig};
pub use crate::documents::FetchedDocument;
use crate::links::{build_paged_url, paged_url, InvalidUrl};
use crate::numbers::{decimal, usize_to_string};
use crate::text::{ascii_upper, concat2, opt_view, owned, to_ascii_upper};

verus! {

/// Why nothing can be fetched for a source.
#[derive(Clone, Debug)]
pub enum FetchError {
    /// The source is fetched over HTTP and names no address.
    MissingBaseUrl,
    /// The source is read from a file and names none.
    MissingFilePath,
    /// The source carries its data and has none.
    MissingInlineData,
    /// The method of the source is neither `GET` nor `POST`.
    UnsupportedMethod { method: String },
    /// The address of the source cannot be read.
    InvalidUrl { url: String },
    /// The last attempt of a request was answered with this status.
    Status { url: String, status: u16 },
    /// The last attempt of a request failed.
    Failed { url: String },
    /// The configuration path of the source has no directory above it.
    NoParent { path: String },
}

/// The method of a request.
#[derive(Clone, Copy, Debug, PartialEq, Eq, Structural)]
pub enum HttpMethod {
    Get,
    Post,
}

/// The method that a text names, whatever the case of its letters.
pub open spec fn method_of(text: Seq<char>) -> Option<HttpMethod> {
    if ascii_upper(text) == "GET"@ {
        Some(HttpMethod::Get)
    } else if ascii_upper(text) == "POST"@ {
        Some(HttpMethod::Post)
    } else {
        None
    }
}

/// Reads the method of a source.
pub fn parse_method(text: &str) -> (r: Option<HttpMethod>)
    ensures
        r == method_of(text@),
{
    let upper = to_ascii_upper(text);
    if *upper.as_str() == *"GET" {
        Some(HttpMethod::Get)
    } else if *upper.as_str() == *"POST" {
        Some(HttpMethod::Post)
    } else {
        None
    }
}

// ---------------------------------------------------------------------------
// Documents that need no request
// ---------------------------------------------------------------------------

/// The document of a source that carries its data: its address is
/// `inline://<key>`, its bytes are those of the data.
pub open spec fn is_inline_document(doc: FetchedDocument, source: SourceConfig) -> bool {
    &&& source.fetch.inline_data is Some
    &&& doc.source_url@ == "inline://"@ + source.source.key@
    &&& doc.body@ == vstd::utf8::encode_utf8(source.fetch.inline_data->0@)
    &&& doc.page_index == 0
}

/// The documents of a source that carries its data.
pub fn fetch_inline_document(source: &LoadedSource) -> (r: Result<Vec<FetchedDocument>, FetchError>)
    ensures
        match r {
            Ok(docs) => docs.len() == 1 && is_inline_document(docs@[0], source.config),
            Err(e) => e is MissingInlineData && source.config.fetch.inline_data is None,
        },
{
    match &source.config.fetch.inline_data {
        Some(data) => {
            let mut docs: Vec<FetchedDocument> = Vec::new();
            docs.push(
                FetchedDocument {
                    source_url: concat2("inline://", source.config.source.key.as_str()),
                    body: data.as_str().as_bytes_vec(),
                    page_index: 0,
                },
            );
            Ok(docs)
        },
        None => Err(FetchError::MissingInlineData),
    }
}

/// The document of a file that was read: its address is `file://` and the
/// path of the file.
pub fn file_document(resolved_path: &str, bytes: Vec<u8>) -> (doc: FetchedDocument)
    ensures
        doc.source_url@ == "file://"@ + resolved_path@,
        doc.body@ == bytes@,
        doc.page_index == 0,
{
    FetchedDocument { source_url: concat2("file://", resolved_path), body: bytes, page_index: 0 }
}

// ---------------------------------------------------------------------------
// What is fetched for a source
// ---------------------------------------------------------------------------

/// What has to be done to have the documents of a source.
#[derive(Clone, Debug)]
pub enum FetchPlan {
    /// Nothing: these are the documents.
    Ready { documents: Vec<FetchedDocument> },
    /// The file at `file_path` is read; a relative path is taken from the
    /// directory of the source's own file.
    File { config_path: String, file_path: String },
    /// Requests are made, `http_start` says which.
    Http,
}

/// Says what has to be done to have the documents of a source: by its mode
/// the source carries its data, names a file, or names an address. The
/// field that the mode needs must be there.
pub fn fetch_source_documents(source: &LoadedSource) -> (r: Result<FetchPlan, FetchError>)
    ensures
        match r {
            Ok(FetchPlan::Ready { documents }) => source.config.fetch.mode == FetchMode::Inline
                && documents.len() == 1 && is_inline_document(documents@[0], source.config),
            Ok(FetchPlan::File { config_path, file_path }) => source.config.fetch.mode
                == FetchMode::File && config_path@ == source.path@ && Some(file_path@) == opt_view(
                source.config.fetch.file_path,
            ),
            Ok(FetchPlan::Http) => source.config.fetch.mode == FetchMode::Http
                && source.config.fetch.base_url is Some,
            Err(e) => match source.config.fetch.mode {
                FetchMode::Inline => e is MissingInlineData && source.config.fetch.inline_data
                    is None,
                FetchMode::File => e is MissingFilePath && source.config.fetch.file_path is None,
                FetchMode::Http => e is MissingBaseUrl && source.config.fetch.base_url is None,
            },
        },
{
    match source.config.fetch.mode {
        FetchMode::Inline => match fetch_inline_document(source) {
            Ok(documents) => Ok(FetchPlan::Ready { documents }),
            Err(e) => Err(e),
        },
        FetchMode::File => match &source.config.fetch.file_path {
            Some(p) => Ok(
                FetchPlan::File { config_path: source.path.clone(), file_path: p.clone() },
            ),
            None => Err(FetchError::MissingFilePath),
        },
        FetchMode::Http => match &source.config.fetch.base_url {
            Some(_) => Ok(FetchPlan::Http),
            None => Err(FetchError::MissingBaseUrl),
        },
    }
}

// ---------------------------------------------------------------------------
// Requests and retries
// ---------------------------------------------------------------------------

/// Where the fetching of a source over HTTP stands: the index of the page
/// that is being asked for, the number of the attempt, and the address that
/// is asked.
#[derive(Clone, Debug)]
pub struct HttpFetch {
    pub page_index: usize,
    pub attempt: u8,
    pub url: String,
    pub method: HttpMethod,
    pub documents: Vec<FetchedDocument>,
}

/// What is to be done next.
#[derive(Clone, Debug)]
pub enum FetchAction {
    /// Ask the address with the method.
    Request,
    /// Wait for so many milliseconds, then ask again.
    Wait { millis: u64 },
    /// There is nothing more to ask: the documents are complete.
    Done,
}

/// What came of a request.
#[derive(Clone, Debug)]
pub enum FetchEvent {
    /// An answer with a status of success, and its bytes.
    Success { body: Vec<u8> },
    /// An answer with another status.
    Refused { status: u16 },
    /// No answer.
    Failed,
}

/// The number of attempts of a request: that of the source, but one at
/// least.
pub open spec fn attempts_of(source: SourceConfig) -> u8 {
    if source.fetch.retry_attempts < 1 {
        1
    } else {
        source.fetch.retry_attempts
    }
}

/// The number of pages that are asked for at most.
pub open spec fn page_limit(source: SourceConfig) -> nat {
    if source.pagination.enabled {
        source.pagination.max_pages as nat
    } else {
        1
    }
}

/// The address of the page with the index `index`: the base address where
/// the source has no pages, else the base address with the page parameter
/// set to the number of the page, which counts from the start page on.
pub open spec fn page_url_of(source: SourceConfig, index: nat) -> Option<Seq<char>> {
    match source.fetch.base_url {
        Some(base) => if source.pagination.enabled {
            paged_url(
                base@,
                source.pagination.page_param@,
                decimal(source.pagination.start_page as nat + index),
            )
        } else {
            Some(base@)
        },
        None => None,
    }
}

/// The address of the page with the index `index`.
fn page_url(source: &SourceConfig, index: usize) -> (r: Result<String, FetchError>)
    requires
        source.fetch.base_url is Some,
        source.pagination.start_page + index <= usize::MAX,
    ensures
        match r {
            Ok(url) => page_url_of(*source, index as nat) == Some(url@),
            Err(e) => page_url_of(*source, index as nat) is None && e is InvalidUrl,
        },
{
    let base = match &source.fetch.base_url {
        Some(b) => b,
        None => {
            return Err(FetchError::MissingBaseUrl);
        },
    };
    if source.pagination.enabled {
        let page = usize_to_string(source.pagination.start_page + index);
        match build_paged_url(base.as_str(), source.pagination.page_param.as_str(), page.as_str()) {
            Ok(url) => Ok(url),
            Err(e) => Err(FetchError::InvalidUrl { url: e.url }),
        }
    } else {
        Ok(base.clone())
    }
}

/// Whether the page with the index `index` is asked for: it lies within the
/// limit of pages, and its number can be counted.
pub open spec fn has_page(source: SourceConfig, index: nat) -> bool {
    index < page_limit(source) && source.pagination.start_page + index <= usize::MAX
}

fn page_exists(source: &SourceConfig, index: usize) -> (r: bool)
    ensures
        r == has_page(*source, index as nat),
{
    let limit: usize = if source.pagination.enabled {
        source.pagination.max_pages
    } else {
        1
    };
    index < limit && source.pagination.start_page.checked_add(index).is_some()
}

/// Starts the fetching of a source over HTTP: the first page is asked for,
/// if there is one. A source without an address, with a method that is
/// neither `GET` nor `POST`, or with an address that cannot be read is an
/// error.
pub fn http_start(source: &LoadedSource) -> (r: Result<(HttpFetch, FetchAction), FetchError>)
    ensures
        match r {
            Ok((state, action)) => {
                &&& source.config.fetch.base_url is Some
                &&& method_of(source.config.fetch.method@) == Some(state.method)
                &&& state.page_index == 0
                &&& state.attempt == 1
                &&& state.documents.len() == 0
                &&& if has_page(source.config, 0) {
                    action is Request && page_url_of(source.config, 0) == Some(state.url@)
                } else {
                    action is Done
                }
            },
            Err(FetchError::MissingBaseUrl) => source.config.fetch.base_url is None,
            Err(FetchError::UnsupportedMethod { method }) => source.config.fetch.base_url is Some
                && method_of(source.config.fetch.method@) is None && method@
                == source.config.fetch.method@,
            Err(FetchError::InvalidUrl { url }) => source.config.fetch.base_url is Some
                && method_of(source.config.fetch.method@) is Some && has_page(source.config, 0)
                && page_url_of(source.config, 0) is None,
            Err(_) => false,
        },
{
    if source.config.fetch.base_url.is_none() {
        return Err(FetchError::MissingBaseUrl);
    }
    let method = match parse_method(source.config.fetch.method.as_str()) {
        Some(m) => m,
        None => {
            return Err(
                FetchError::UnsupportedMethod { method: source.config.fetch.method.clone() },
            );
        },
    };
    if !page_exists(&source.config, 0) {
        let state = HttpFetch {
            page_index: 0,
            attempt: 1,
            url: String::new(),
            method,
            documents: Vec::new(),
        };
        return Ok((state, FetchAction::Done));
    }
    match page_url(&source.config, 0) {
        Ok(url) => Ok(
            (
                HttpFetch { page_index: 0, attempt: 1, url, method, documents: Vec::new() },
                FetchAction::Request,
            ),
        ),
        Err(e) => Err(e),
    }
}

/// What follows an answer with success: the bytes are a document of the
/// page, unless they are empty and the source stops at a page without
/// results; then the next page is asked for, if there is one.
pub open spec fn stops_at_empty(source: SourceConfig, body: Seq<u8>) -> bool {
    source.pagination.enabled && source.pagination.stop_when_no_results && body.len() == 0
}

/// Takes what came of a request and says what is to be done next.
///
/// After an answer with success the page is done. After any other outcome
/// the request is made again, after a wait, as long as attempts are left;
/// the last attempt that fails is an error.
pub fn http_step(state: &mut HttpFetch, source: &LoadedSource, event: FetchEvent) -> (r: Result<
    FetchAction,
    FetchError,
>)
    requires
        source.config.fetch.base_url is Some,
        old(state).attempt >= 1,
    ensures
        final(state).method == old(state).method,
        final(state).attempt >= 1,
        match event {
            FetchEvent::Success { body } => {
                let kept = !stops_at_empty(source.config, body@);
                let next = old(state).page_index + 1;
                &&& if kept {
                    &&& final(state).documents@.len() == old(state).documents@.len() + 1
                    &&& final(state).documents@.last().body@ == body@
                    &&& final(state).documents@.last().source_url@ == old(state).url@
                    &&& final(state).documents@.last().page_index == old(state).page_index
                    &&& final(state).documents@.drop_last() == old(state).documents@
                } else {
                    final(state).documents@ == old(state).documents@
                }
                &&& match r {
                    Ok(FetchAction::Request) => kept && has_page(source.config, next as nat)
                        && final(state).page_index == next && final(state).attempt == 1
                        && page_url_of(source.config, next as nat) == Some(final(state).url@),
                    Ok(FetchAction::Done) => !kept || !has_page(source.config, next as nat),
                    Ok(FetchAction::Wait { .. }) => false,
                    Err(e) => kept && has_page(source.config, next as nat) && page_url_of(
                        source.config,
                        next as nat,
                    ) is None && e is InvalidUrl,
                }
            },
            FetchEvent::Refused { status } => {
                &&& final(state).documents@ == old(state).documents@
                &&& final(state).url@ == old(state).url@
                &&& final(state).page_index == old(state).page_index
                &&& if old(state).attempt >= attempts_of(source.config) {
                    r matches Err(FetchError::Status { url, status: s }) && url@ == old(state).url@
                        && s == status
                } else {
                    r matches Ok(FetchAction::Wait { millis }) && millis
                        == source.config.fetch.retry_backoff_ms && final(state).attempt == old(
                        state,
                    ).attempt + 1
                }
            },
            FetchEvent::Failed => {
                &&& final(state).documents@ == old(state).documents@
                &&& final(state).url@ == old(state).url@
                &&& final(state).page_index == old(state).page_index
                &&& if old(state).attempt >= attempts_of(source.config) {
                    r matches Err(FetchError::Failed { url }) && url@ == old(state).url@
                } else {
                    r matches Ok(FetchAction::Wait { millis }) && millis
                        == source.config.fetch.retry_backoff_ms && final(state).attempt == old(
                        state,
                    ).attempt + 1
                }
            },
        },
{
    let attempts: u8 = if source.config.fetch.retry_attempts < 1 {
        1
    } else {
        source.config.fetch.retry_attempts
    };
    match event {
        FetchEvent::Success { body } => {
            if source.config.pagination.enabled && source.config.pagination.stop_when_no_results
                && body.len() == 0 {
                return Ok(FetchAction::Done);
            }
            let ghost before = state.documents@;
            state.documents.push(
                FetchedDocument {
                    source_url: state.url.clone(),
                    body,
                    page_index: state.page_index,
                },
            );
            assert(state.documents@.drop_last() =~= before);
            if state.page_index == usize::MAX {
                return Ok(FetchAction::Done);
            }
            let next = state.page_index + 1;
            if !page_exists(&source.config, next) {
                return Ok(FetchAction::Done);
            }
            match page_url(&source.config, next) {
                Ok(url) => {
                    state.page_index = next;
                    state.attempt = 1;
                    state.url = url;
                    Ok(FetchAction::Request)
                },
                Err(e) => Err(e),
            }
        },
        FetchEvent::Refused { status } => {
            if state.attempt >= attempts {
                Err(FetchError::Status { url: state.url.clone(), status })
            } else {
                state.attempt = state.attempt + 1;
                Ok(FetchAction::Wait { millis: source.config.fetch.retry_backoff_ms })
            }
        },
        FetchEvent::Failed => {
            if state.attempt >= attempts {
                Err(FetchError::Failed { url: state.url.clone() })
            } else {
                state.attempt = state.attempt + 1;
                Ok(FetchAction::Wait { millis: source.config.fetch.retry_backoff_ms })
            }
        },
    }
}

// ---------------------------------------------------------------------------
// Paths
// ---------------------------------------------------------------------------

/// Whether a path is absolute, as the platform for which the crate is built
/// reads paths.
pub uninterp spec fn path_absolute(path: Seq<char>) -> bool;

/// The directory above a path, as the platform for which the crate is built
/// reads paths; none where the path has no directory above it.
pub uninterp spec fn path_parent_of(path: Seq<char>) -> Option<Seq<char>>;

/// The path that `path` names when it is taken from the directory `base`, as
/// the platform for which the crate is built joins paths.
pub uninterp spec fn path_joined(base: Seq<char>, path: Seq<char>) -> Seq<char>;

/// `std::path::Path::is_absolute`. The path is read as text and no file
/// system is asked; the contract claims that the answer depends on the text
/// alone.
#[verifier::external_body]
pub(crate) fn path_is_absolute(path: &str) -> (r: bool)
    ensures
        r == path_absolute(path@),
{
    std::path::Path::new(path).is_absolute()
}

/// `std::path::Path::parent`, as text. The path is read as text and no file
/// system is asked; the contract claims that the result depends on the text
/// alone.
#[verifier::external_body]
pub(crate) fn path_parent(path: &str) -> (r: Option<String>)
    ensures
        opt_view(r) == path_parent_of(path@),
{
    std::path::Path::new(path).parent().map(|p| p.to_string_lossy().into_owned())
}

/// `std::path::Path::join`, as text. The paths are read as text and no file
/// system is asked; the contract claims that the result depends on the two
/// texts alone.
#[verifier::external_body]
pub(crate) fn path_join(base: &str, path: &str) -> (r: String)
    ensures
        r@ == path_joined(base@, path@),
{
    std::path::Path::new(base).join(path).to_string_lossy().into_owned()
}

/// The path that is meant, given what the platform says of the two paths:
/// the path itself where it is absolute; else the path joined to the
/// directory of the configuration file; there is none where that file has
/// no directory above it.
pub open spec fn resolved(
    config_path: Seq<char>,
    path: Seq<char>,
    absolute: bool,
    joined: Option<Seq<char>>,
) -> Result<Seq<char>, Seq<char>> {
    if absolute {
        Ok(path)
    } else {
        match joined {
            Some(j) => Ok(j),
            None => Err(config_path),
        }
    }
}

/// Chooses the path that is meant.
pub fn choose_path(base_config_path: &str, maybe_relative: &str, absolute: bool, joined: Option<
    String,
>) -> (r: Result<String, FetchError>)
    ensures
        match r {
            Ok(p) => resolved(base_config_path@, maybe_relative@, absolute, opt_view(joined))
                == Ok::<Seq<char>, Seq<char>>(p@),
            Err(FetchError::NoParent { path }) => resolved(
                base_config_path@,
                maybe_relative@,
                absolute,
                opt_view(joined),
            ) == Err::<Seq<char>, Seq<char>>(path@),
            Err(_) => false,
        },
{
    if absolute {
        Ok(owned(maybe_relative))
    } else {
        match joined {
            Some(j) => Ok(j),
            None => Err(FetchError::NoParent { path: owned(base_config_path) }),
        }
    }
}

/// What a relative path is joined to: the directory above the configuration
/// file, where there is one.
pub open spec fn joined_to_parent(config_path: Seq<char>, path: Seq<char>) -> Option<Seq<char>> {
    match path_parent_of(config_path) {
        Some(parent) => Some(path_joined(parent, path)),
        None => None,
    }
}

/// The path of a data file of a source: the path itself where it is
/// absolute; else the path taken from the directory above the configuration
/// file of the source; there is none where that file has no directory above
/// it, and the error names the file.
pub open spec fn resolved_path(config_path: Seq<char>, path: Seq<char>) -> Result<
    Seq<char>,
    Seq<char>,
> {
    resolved(
        config_path,
        path,
        path_absolute(path),
        if path_absolute(path) {
            None
        } else {
            joined_to_parent(config_path, path)
        },
    )
}

/// Resolves the path of a data file of a source: an absolute path is taken
/// as it is, a relative one from the directory of the source's own file.
pub fn resolve_path(base_config_path: &str, maybe_relative: &str) -> (r: Result<
    String,
    FetchError,
>)
    ensures
        match r {
            Ok(p) => resolved_path(base_config_path@, maybe_relative@) == Ok::<
                Seq<char>,
                Seq<char>,
            >(p@),
            Err(FetchError::NoParent { path }) => resolved_path(
                base_config_path@,
                maybe_relative@,
            ) == Err::<Seq<char>, Seq<char>>(path@),
            Err(_) => false,
        },
{
    let absolute = path_is_absolute(maybe_relative);
    let joined = if absolute {
        None
    } else {
        match path_parent(base_config_path) {
            Some(parent) => Some(path_join(parent.as_str(), maybe_relative)),
            None => None,
        }
    };
    choose_path(base_config_path, maybe_relative, absolute, joined)
}

} // verus!
