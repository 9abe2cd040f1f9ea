//! Locates structured annotations in source comment lines: a `TODO`/`FIXME`
//! marker may carry a parenthesized tracking identifier and key/value
//! attributes. The crate parses that grammar and exposes the decision logic
//! of an issue-tracker lookup; all of it is specified and verified.

use std::collections::HashMap;
use vstd::prelude::*;
use vstd::string::*;

pub mod attrs;
pub mod parser;
pub mod providers;
pub mod scan;
pub mod text;

use crate::attrs::AttrMap;

verus! {

/// What kind of tracking a marker line declares.
#[derive(Debug, Clone, PartialEq, Eq)]
pub enum TodoReference {
    /// Plain marker, or a parenthetical that is not a valid identifier.
    Untracked,
    /// Marker carrying a syntactically valid tracking identifier.
    TrackedId(String),
    /// Marker requesting creation of a new issue. The grammar hook is
    /// reserved; no parse path constructs it yet.
    New { title: Option<String> },
}

/// Mathematical model of a [`TodoReference`]: the same variants over
/// `Seq<char>` in place of `String`.
pub enum ReferenceModel {
    Untracked,
    TrackedId(Seq<char>),
    New(Option<Seq<char>>),
}

impl View for TodoReference {
    type V = ReferenceModel;

    open spec fn view(&self) -> ReferenceModel {
        match self {
            TodoReference::Untracked => ReferenceModel::Untracked,
            TodoReference::TrackedId(id) => ReferenceModel::TrackedId(id@),
            TodoReference::New { title } => ReferenceModel::New(
                match title {
                    Some(t) => Some(t@),
                    None => None,
                },
            ),
        }
    }
}

impl DeepView for TodoReference {
    type V = ReferenceModel;

    open spec fn deep_view(&self) -> ReferenceModel {
        self.view()
    }
}

/// The value carried by one annotation attribute.
#[derive(Debug, Clone, PartialEq, Eq)]
pub enum TodoAttributeValue {
    /// A bare token, e.g. `bidir`.
    Flag(bool),
    /// A single `key=value`, e.g. `assignee=alice`.
    Text(String),
    /// A comma-separated `key=v1,v2,...`, e.g. `labels=urgent,backend`.
    List(Vec<String>),
}

/// Mathematical model of a [`TodoAttributeValue`], over `Seq<char>`.
pub enum AttrValueModel {
    Flag(bool),
    Text(Seq<char>),
    List(Seq<Seq<char>>),
}

impl View for TodoAttributeValue {
    type V = AttrValueModel;

    open spec fn view(&self) -> AttrValueModel {
        match self {
            TodoAttributeValue::Flag(b) => AttrValueModel::Flag(*b),
            TodoAttributeValue::Text(s) => AttrValueModel::Text(s@),
            TodoAttributeValue::List(vs) => AttrValueModel::List(vs.deep_view()),
        }
    }
}

impl DeepView for TodoAttributeValue {
    type V = AttrValueModel;

    open spec fn deep_view(&self) -> AttrValueModel {
        self.view()
    }
}

/// One detected marker occurrence: constructed once per matching line during
/// a scan and immutable thereafter.
#[derive(Debug, Clone)]
pub struct TodoItem {
    /// The owning file's path, as text.
    pub file_path: String,
    /// 1-based line number within the file.
    pub line_number: usize,
    /// The line's text, trimmed.
    pub line_content: String,
    /// The reference the line declares, if the line holds a marker at all.
    pub reference: Option<TodoReference>,
    /// The attribute set, present only for a tracked `identifier, attributes`
    /// shape.
    pub attributes: Option<AttrMap>,
}

/// Command-line arguments, as plain values.
#[derive(Debug, Clone)]
pub struct Args {
    /// File or directory to scan.
    pub path: String,
    /// Show verbose output.
    pub verbose: bool,
    /// Output format: standard or json (overrides config).
    pub format: Option<String>,
}

/// Tool configuration.
#[derive(Debug)]
pub struct Config {
    pub scan: ScanConfig,
    pub mode: String,
    pub providers: HashMap<String, ProviderConfig>,
    pub output: OutputConfig,
}

/// Which files a scan takes and how markers are matched.
#[derive(Debug)]
pub struct ScanConfig {
    pub ignore: Vec<String>,
    pub included: Vec<String>,
    pub match_case_insensitive: bool,
}

/// The selection of one issue-tracker backend.
#[derive(Debug)]
pub enum ProviderConfig {
    Notion(NotionConfig),
    Jira(JiraConfig),
    Github(GithubConfig),
}

/// How scan results are rendered.
#[derive(Debug)]
pub struct OutputConfig {
    pub format: String,
    pub verbose: bool,
}

/// A structured-store backend: the collection queried by identifier.
#[derive(Debug, Clone)]
pub struct NotionConfig {
    pub database_id: String,
}

/// A ticket-tracker backend: server URL and project key.
#[derive(Debug, Clone)]
pub struct JiraConfig {
    pub server: String,
    pub project: String,
}

/// A code-forge backend: owner and repository.
#[derive(Debug, Clone)]
pub struct GithubConfig {
    pub owner: String,
    pub repo: String,
}

/// The mode a run uses when none is configured.
pub fn default_mode() -> (r: String)
    ensures
        r@ == "validate"@,
{
    String::from_str("validate")
}

/// The output format used when none is configured.
pub fn default_format() -> (r: String)
    ensures
        r@ == "standard"@,
{
    String::from_str("standard")
}

impl Default for ScanConfig {
    /// No ignores, no includes, case-sensitive matching.
    fn default() -> (r: Self)
        ensures
            r.ignore@ == Seq::<String>::empty(),
            r.included@ == Seq::<String>::empty(),
            !r.match_case_insensitive,
    {
        ScanConfig { ignore: Vec::new(), included: Vec::new(), match_case_insensitive: false }
    }
}

impl Default for OutputConfig {
    /// The standard format, not verbose.
    fn default() -> (r: Self)
        ensures
            r.format@ == "standard"@,
            !r.verbose,
    {
        OutputConfig { format: default_format(), verbose: false }
    }
}

impl Default for Config {
    /// Default scanning and output, validate mode, no providers.
    fn default() -> (r: Self)
        ensures
            r.scan.ignore@ == Seq::<String>::empty(),
            r.scan.included@ == Seq::<String>::empty(),
            !r.scan.match_case_insensitive,
            r.mode@ == "validate"@,
            r.providers@ == Map::<String, ProviderConfig>::empty(),
            r.output.format@ == "standard"@,
            !r.output.verbose,
    {
        Config {
            scan: ScanConfig::default(),
            mode: default_mode(),
            providers: HashMap::new(),
            output: OutputConfig::default(),
        }
    }
}

} // verus!
