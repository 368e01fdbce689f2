//! The description of a source: how it is fetched, how its records are
//! found and mapped, how dates are read, and where its calendars go.

use vstd::prelude::*;
pub use crate::fetch::resolve_path;
use crate::keyed::StrMap;
use crate::text::{ascii_alnum, chars_of, is_ascii_alnum, string_of_range, trim_of, is_blank_text};

verus! {

/// A source description together with the path of the file that holds it.
#[derive(Clone, Debug)]
pub struct LoadedSource {
    pub path: String,
    pub config: SourceConfig,
}

#[derive(Clone, Debug)]
pub struct SourceConfig {
    pub source: SourceMeta,
    pub fetch: FetchConfig,
    pub pagination: PaginationConfig,
    pub extract: ExtractConfig,
    pub map: StrMap<FieldRule>,
    pub date: DateConfig,
    pub event: EventConfig,
    pub pdf: PdfConfig,
    pub custom: CustomConfig,
    pub publish: PublishConfig,
}

#[derive(Clone, Debug)]
pub struct SourceMeta {
    pub key: String,
    pub name: String,
    pub domain: String,
    pub enabled: bool,
    pub timezone: Option<String>,
    pub jurisdiction: Option<String>,
    pub default_country: Option<String>,
}

#[derive(Clone, Copy, Debug, PartialEq, Eq, Structural)]
pub enum FetchMode {
    Http,
    File,
    Inline,
}

#[derive(Clone, Debug)]
pub struct FetchConfig {
    pub mode: FetchMode,
    pub method: String,
    pub base_url: Option<String>,
    pub file_path: Option<String>,
    pub inline_data: Option<String>,
    pub headers: StrMap<String>,
    pub template_vars: StrMap<String>,
    pub timeout_secs: u64,
    pub retry_attempts: u8,
    pub retry_backoff_ms: u64,
    pub user_agent: Option<String>,
}

#[derive(Clone, Copy, Debug, PartialEq, Eq, Structural)]
pub enum PaginationStrategy {
    QueryParam,
    NextLink,
}

#[derive(Clone, Debug)]
pub struct PaginationConfig {
    pub enabled: bool,
    pub strategy: PaginationStrategy,
    pub page_param: String,
    pub start_page: usize,
    pub max_pages: usize,
    pub stop_when_no_results: bool,
    pub next_selector: Option<String>,
}

#[derive(Clone, Copy, Debug, PartialEq, Eq, Structural)]
pub enum ExtractFormat {
    Html,
    Json,
    PdfText,
    Text,
}

#[derive(Clone, Debug)]
pub struct ExtractConfig {
    pub format: ExtractFormat,
    pub root_selector: Option<String>,
    pub root_jsonpath: Option<String>,
    pub record_regex: Option<String>,
}

/// How the value of one target field is found.
#[derive(Clone, Debug)]
pub struct FieldRule {
    pub from: Option<String>,
    pub const_value: Option<String>,
    pub optional: bool,
    pub trim: bool,
    pub absolutize: bool,
    pub regex: Option<String>,
    pub capture: Option<usize>,
}

#[derive(Clone, Debug)]
pub struct DateConfig {
    pub primary: String,
    pub formats: Vec<String>,
    pub assume_timezone: Option<String>,
    pub allow_month_only: bool,
    pub allow_year_only: bool,
}

#[derive(Clone, Debug)]
pub struct EventConfig {
    pub event_type: String,
    pub subtype: Option<String>,
    pub status: String,
    pub categories: Vec<String>,
    pub importance: Option<u8>,
}

#[derive(Clone, Debug)]
pub struct PdfConfig {
    pub page_range: Option<String>,
    pub join_lines: bool,
    pub normalize_whitespace: bool,
    pub record_split: Vec<PdfRecordSplit>,
    pub fields: StrMap<PdfFieldRule>,
}

#[derive(Clone, Debug)]
pub struct PdfRecordSplit {
    pub strategy: String,
    pub pattern: String,
}

#[derive(Clone, Debug)]
pub struct PdfFieldRule {
    pub pattern: String,
    pub capture: usize,
    pub optional: bool,
}

#[derive(Clone, Debug)]
pub struct CustomConfig {
    pub parser: Option<String>,
    pub enabled: bool,
}

#[derive(Clone, Debug)]
pub struct PublishConfig {
    pub mirror_dir: Option<String>,
    pub mirror_source_subdir: bool,
    pub file_name_template: Option<String>,
}

// ---------------------------------------------------------------------------
// Defaults
// ---------------------------------------------------------------------------

pub fn default_true() -> (r: bool)
    ensures
        r,
{
    true
}

pub fn default_get() -> (r: String)
    ensures
        r@ == "GET"@,
{
    "GET".to_string()
}

pub fn default_timeout_secs() -> (r: u64)
    ensures
        r == 20,
{
    20
}

pub fn default_retry_attempts() -> (r: u8)
    ensures
        r == 2,
{
    2
}

pub fn default_retry_backoff_ms() -> (r: u64)
    ensures
        r == 500,
{
    500
}

pub fn default_page_param() -> (r: String)
    ensures
        r@ == "page"@,
{
    "page".to_string()
}

pub fn default_max_pages() -> (r: usize)
    ensures
        r == 1,
{
    1
}

pub fn default_primary_date() -> (r: String)
    ensures
        r@ == "date"@,
{
    "date".to_string()
}

/// The date formats that are tried after those of the source.
pub open spec fn default_formats() -> Seq<Seq<char>> {
    seq!["%Y-%m-%d"@, "%Y/%m/%d"@, "%B %d, %Y"@, "%b %d, %Y"@, "%B %Y"@, "%b %Y"@, "%Y"@]
}

pub fn default_date_formats() -> (r: Vec<String>)
    ensures
        crate::text::views(r@) == default_formats(),
{
    let mut r: Vec<String> = Vec::new();
    r.push("%Y-%m-%d".to_string());
    r.push("%Y/%m/%d".to_string());
    r.push("%B %d, %Y".to_string());
    r.push("%b %d, %Y".to_string());
    r.push("%B %Y".to_string());
    r.push("%b %Y".to_string());
    r.push("%Y".to_string());
    assert(crate::text::views(r@) =~= default_formats());
    r
}

pub fn default_event_type() -> (r: String)
    ensures
        r@ == "event"@,
{
    "event".to_string()
}

pub fn default_status() -> (r: String)
    ensures
        r@ == "scheduled"@,
{
    "scheduled".to_string()
}

pub fn default_split_strategy() -> (r: String)
    ensures
        r@ == "regex"@,
{
    "regex".to_string()
}

pub fn default_capture() -> (r: usize)
    ensures
        r == 1,
{
    1
}

impl Default for FetchMode {
    fn default() -> (r: FetchMode)
        ensures
            r == FetchMode::Http,
    {
        FetchMode::Http
    }
}

impl Default for PaginationStrategy {
    fn default() -> (r: PaginationStrategy)
        ensures
            r == PaginationStrategy::QueryParam,
    {
        PaginationStrategy::QueryParam
    }
}

impl Default for ExtractFormat {
    fn default() -> (r: ExtractFormat)
        ensures
            r == ExtractFormat::Html,
    {
        ExtractFormat::Html
    }
}

impl Default for FetchConfig {
    fn default() -> (r: FetchConfig)
        ensures
            r.mode == FetchMode::Http,
            r.method@ == "GET"@,
            r.base_url is None,
            r.file_path is None,
            r.inline_data is None,
            r.headers.wf() && r.headers.keys().len() == 0,
            r.template_vars.wf() && r.template_vars.keys().len() == 0,
            r.timeout_secs == 20,
            r.retry_attempts == 2,
            r.retry_backoff_ms == 500,
            r.user_agent is None,
    {
        FetchConfig {
            mode: FetchMode::Http,
            method: default_get(),
            base_url: None,
            file_path: None,
            inline_data: None,
            headers: StrMap::new(),
            template_vars: StrMap::new(),
            timeout_secs: default_timeout_secs(),
            retry_attempts: default_retry_attempts(),
            retry_backoff_ms: default_retry_backoff_ms(),
            user_agent: None,
        }
    }
}

impl Default for PaginationConfig {
    fn default() -> (r: PaginationConfig)
        ensures
            !r.enabled,
            r.strategy == PaginationStrategy::QueryParam,
            r.page_param@ == "page"@,
            r.start_page == 0,
            r.max_pages == 1,
            r.stop_when_no_results,
            r.next_selector is None,
    {
        PaginationConfig {
            enabled: false,
            strategy: PaginationStrategy::QueryParam,
            page_param: default_page_param(),
            start_page: 0,
            max_pages: default_max_pages(),
            stop_when_no_results: true,
            next_selector: None,
        }
    }
}

impl Default for ExtractConfig {
    fn default() -> (r: ExtractConfig)
        ensures
            r.format == ExtractFormat::Html,
            r.root_selector is None,
            r.root_jsonpath is None,
            r.record_regex is None,
    {
        ExtractConfig {
            format: ExtractFormat::Html,
            root_selector: None,
            root_jsonpath: None,
            record_regex: None,
        }
    }
}

impl Default for FieldRule {
    fn default() -> (r: FieldRule)
        ensures
            r.from is None,
            r.const_value is None,
            !r.optional,
            !r.trim,
            !r.absolutize,
            r.regex is None,
            r.capture is None,
    {
        FieldRule {
            from: None,
            const_value: None,
            optional: false,
            trim: false,
            absolutize: false,
            regex: None,
            capture: None,
        }
    }
}

impl Default for DateConfig {
    fn default() -> (r: DateConfig)
        ensures
            r.primary@ == "date"@,
            crate::text::views(r.formats@) == default_formats(),
            r.assume_timezone is None,
            r.allow_month_only,
            r.allow_year_only,
    {
        DateConfig {
            primary: default_primary_date(),
            formats: default_date_formats(),
            assume_timezone: None,
            allow_month_only: true,
            allow_year_only: true,
        }
    }
}

impl Default for EventConfig {
    fn default() -> (r: EventConfig)
        ensures
            r.event_type@ == "event"@,
            r.subtype is None,
            r.status@ == "scheduled"@,
            r.categories@.len() == 0,
            r.importance is None,
    {
        EventConfig {
            event_type: default_event_type(),
            subtype: None,
            status: default_status(),
            categories: Vec::new(),
            importance: None,
        }
    }
}

impl Default for PdfConfig {
    fn default() -> (r: PdfConfig)
        ensures
            r.page_range is None,
            !r.join_lines,
            !r.normalize_whitespace,
            r.record_split@.len() == 0,
            r.fields.wf() && r.fields.keys().len() == 0,
    {
        PdfConfig {
            page_range: None,
            join_lines: false,
            normalize_whitespace: false,
            record_split: Vec::new(),
            fields: StrMap::new(),
        }
    }
}

impl Default for CustomConfig {
    fn default() -> (r: CustomConfig)
        ensures
            r.parser is None,
            !r.enabled,
    {
        CustomConfig { parser: None, enabled: false }
    }
}

impl Default for PublishConfig {
    fn default() -> (r: PublishConfig)
        ensures
            r.mirror_dir is None,
            !r.mirror_source_subdir,
            r.file_name_template is None,
    {
        PublishConfig { mirror_dir: None, mirror_source_subdir: false, file_name_template: None }
    }
}

// ---------------------------------------------------------------------------
// Validation
// ---------------------------------------------------------------------------

/// Why a source description is refused.
#[derive(Clone, Copy, Debug, PartialEq, Eq, Structural)]
pub enum ConfigError {
    EmptyKey,
    EmptyName,
    MissingBaseUrl,
    MissingFilePath,
    MissingInlineData,
    EmptyMap,
}

impl ConfigError {
    /// The sentence that says what is wrong.
    pub open spec fn sentence(&self) -> Seq<char> {
        match self {
            ConfigError::EmptyKey => "source.key must not be empty"@,
            ConfigError::EmptyName => "source.name must not be empty"@,
            ConfigError::MissingBaseUrl => "fetch.base_url is required for http mode"@,
            ConfigError::MissingFilePath => "fetch.file_path is required for file mode"@,
            ConfigError::MissingInlineData => "fetch.inline_data is required for inline mode"@,
            ConfigError::EmptyMap => "map section must not be empty for html extraction"@,
        }
    }

    /// Says what is wrong.
    pub fn message(&self) -> (r: &'static str)
        ensures
            r@ == self.sentence(),
    {
        match self {
            ConfigError::EmptyKey => "source.key must not be empty",
            ConfigError::EmptyName => "source.name must not be empty",
            ConfigError::MissingBaseUrl => "fetch.base_url is required for http mode",
            ConfigError::MissingFilePath => "fetch.file_path is required for file mode",
            ConfigError::MissingInlineData => "fetch.inline_data is required for inline mode",
            ConfigError::EmptyMap => "map section must not be empty for html extraction",
        }
    }
}

impl SourceConfig {
    /// The maps of the description are well formed.
    pub open spec fn wf(&self) -> bool {
        &&& self.map.wf()
        &&& self.fetch.headers.wf()
        &&& self.fetch.template_vars.wf()
        &&& self.pdf.fields.wf()
    }

    /// Whether an enabled custom parser is named.
    pub open spec fn has_custom_parser(&self) -> bool {
        self.custom.enabled && self.custom.parser is Some
    }

    /// The first rule that the description breaks, if it breaks one: key and
    /// name hold more than white space; the field that the fetch mode needs
    /// is there; and an HTML source has a map or a custom parser.
    pub open spec fn first_fault(&self) -> Option<ConfigError> {
        if trim_of(self.source.key@).len() == 0 {
            Some(ConfigError::EmptyKey)
        } else if trim_of(self.source.name@).len() == 0 {
            Some(ConfigError::EmptyName)
        } else if self.fetch.mode == FetchMode::Http && self.fetch.base_url is None {
            Some(ConfigError::MissingBaseUrl)
        } else if self.fetch.mode == FetchMode::File && self.fetch.file_path is None {
            Some(ConfigError::MissingFilePath)
        } else if self.fetch.mode == FetchMode::Inline && self.fetch.inline_data is None {
            Some(ConfigError::MissingInlineData)
        } else if self.extract.format == ExtractFormat::Html && self.map.keys().len() == 0
            && !self.has_custom_parser() {
            Some(ConfigError::EmptyMap)
        } else {
            None
        }
    }

    /// Checks the description and names the first rule that it breaks.
    pub fn validate(&self) -> (r: Result<(), ConfigError>)
        requires
            self.wf(),
        ensures
            match r {
                Ok(_) => self.first_fault() is None,
                Err(e) => self.first_fault() == Some(e),
            },
    {
        if is_blank_text(self.source.key.as_str()) {
            return Err(ConfigError::EmptyKey);
        }
        if is_blank_text(self.source.name.as_str()) {
            return Err(ConfigError::EmptyName);
        }
        match self.fetch.mode {
            FetchMode::Http => {
                if self.fetch.base_url.is_none() {
                    return Err(ConfigError::MissingBaseUrl);
                }
            },
            FetchMode::File => {
                if self.fetch.file_path.is_none() {
                    return Err(ConfigError::MissingFilePath);
                }
            },
            FetchMode::Inline => {
                if self.fetch.inline_data.is_none() {
                    return Err(ConfigError::MissingInlineData);
                }
            },
        }
        let is_html = match self.extract.format {
            ExtractFormat::Html => true,
            _ => false,
        };
        if is_html && self.map.is_empty() && !(self.custom.enabled && self.custom.parser.is_some()) {
            return Err(ConfigError::EmptyMap);
        }
        Ok(())
    }

    /// The name of the directory that holds the calendars of the source.
    pub fn sanitized_source_dir_name(&self) -> (r: String)
        ensures
            r@ == path_safe(self.source.key@),
    {
        sanitize_for_path(self.source.key.as_str())
    }
}

// ---------------------------------------------------------------------------
// Names that are safe in a path
// ---------------------------------------------------------------------------

/// `s` with `-` in place of every character that is no ASCII letter or
/// digit.
pub open spec fn dashed(s: Seq<char>) -> Seq<char> {
    s.map_values(
        |c: char|
            if is_ascii_alnum(c) {
                c
            } else {
                '-'
            },
    )
}

/// `s` without its leading dashes.
pub open spec fn without_leading_dashes(s: Seq<char>) -> Seq<char>
    decreases s.len(),
{
    if s.len() > 0 && s[0] == '-' {
        without_leading_dashes(s.drop_first())
    } else {
        s
    }
}

/// `s` without its trailing dashes.
pub open spec fn without_trailing_dashes(s: Seq<char>) -> Seq<char>
    decreases s.len(),
{
    if s.len() > 0 && s.last() == '-' {
        without_trailing_dashes(s.drop_last())
    } else {
        s
    }
}

/// The form of `s` that is safe as a name in a path: every character that is
/// no ASCII letter or digit becomes `-`, and dashes at both ends go.
pub open spec fn path_safe(s: Seq<char>) -> Seq<char> {
    without_trailing_dashes(without_leading_dashes(dashed(s)))
}

/// Makes a name that is safe in a path.
pub fn sanitize_for_path(value: &str) -> (out: String)
    ensures
        out@ == path_safe(value@),
{
    let v = chars_of(value);
    let mut d: Vec<char> = Vec::new();
    let mut i: usize = 0;
    while i < v.len()
        invariant
            i <= v.len(),
            v@ == value@,
            d@ == dashed(value@).take(i as int),
        decreases v.len() - i,
    {
        let c = v[i];
        if ascii_alnum(c) {
            d.push(c);
        } else {
            d.push('-');
        }
        i += 1;
        assert(d@ =~= dashed(value@).take(i as int));
    }
    assert(dashed(value@).take(v.len() as int) =~= dashed(value@));
    let mut a: usize = 0;
    assert(d@.subrange(0, d.len() as int) =~= d@);
    while a < d.len() && d[a] == '-'
        invariant
            a <= d.len(),
            without_leading_dashes(d@) == without_leading_dashes(
                d@.subrange(a as int, d.len() as int),
            ),
        decreases d.len() - a,
    {
        assert(d@.subrange(a as int, d.len() as int).drop_first() =~= d@.subrange(
            a + 1,
            d.len() as int,
        ));
        a += 1;
    }
    let mut b: usize = d.len();
    while a < b && d[b - 1] == '-'
        invariant
            a <= b <= d.len(),
            without_trailing_dashes(d@.subrange(a as int, d.len() as int))
                == without_trailing_dashes(d@.subrange(a as int, b as int)),
        decreases b,
    {
        assert(d@.subrange(a as int, b as int).drop_last() =~= d@.subrange(a as int, b - 1));
        b -= 1;
    }
    string_of_range(&d, a, b)
}

} // verus!
