//! The configuration of a project.
use crate::labels::Labels;
use crate::model::RunMode;
use crate::paths::{ancestors, inner, is_inner, join_path, joined_path, parent, parent_path};
use crate::report::text_option;
use crate::text::{
    alnum, blank, chars_of, decimal, decimal_of, glue2, glue3, glue5, is_alnum, is_blank, same,
    string_of, texts,
};
use vstd::prelude::*;

verus! {

/// What a run observes besides its collectors.
#[derive(Clone, Debug, Default)]
pub struct ObservabilityConfig {
    /// The systemd units that are sampled from their control groups.
    pub service_units: Vec<String>,
}

/// Where the conversations with agents are kept.
#[derive(Clone, Debug, Default)]
pub struct ContextConfig {
    pub agent: Option<AgentContextConfig>,
    /// The name that the section had when there was one agent.
    pub codex: Option<CodexContextConfig>,
}

#[derive(Clone, Debug)]
pub struct AgentContextConfig {
    pub history_dir: String,
}

#[derive(Clone, Debug)]
pub struct CodexContextConfig {
    pub history_dir: String,
}

/// The files that are kept with each run.
#[derive(Clone, Debug, Default)]
pub struct ToolingConfig {
    pub included: Vec<String>,
}

/// The repository that is tuned.
#[derive(Clone, Debug)]
pub struct SourceConfig {
    pub repo: String,
    pub exclude: Vec<String>,
}

#[derive(Clone, Copy, Debug, PartialEq, Eq, Structural)]
pub enum BenchmarkMode {
    /// A command runs the benchmark.
    Command,
    /// The benchmark is started elsewhere.
    External,
}

#[derive(Clone, Debug)]
pub struct BenchmarkConfig {
    pub mode: BenchmarkMode,
    pub command: Vec<String>,
    pub working_dir: Option<String>,
    pub env: Labels,
    pub stream_output: bool,
    pub score_pattern: String,
    pub initialize_start_marker: String,
    pub initialize_finish_marker: String,
    /// Lines that match are for the organizers, and are dropped before anything is saved.
    pub operator_line_pattern: Option<String>,
    /// An output of the benchmark, against which the parsers are tried.
    pub sample_output: Option<String>,
    pub parsers: Vec<BenchmarkParserConfig>,
}

#[derive(Clone, Debug)]
pub struct BenchmarkParserConfig {
    pub name: String,
    pub command: Vec<String>,
    pub timeout_seconds: u64,
    pub max_output_bytes: u64,
}

#[derive(Clone, Debug)]
pub struct SshConfig {
    pub user: String,
    pub identity_file: Option<String>,
    pub connect_timeout_seconds: u64,
    pub compression: bool,
    pub known_hosts_file: Option<String>,
}

#[derive(Clone, Debug)]
pub struct NodeConfig {
    pub name: String,
    pub host: String,
    pub roles: Vec<String>,
    pub user: Option<String>,
    /// The node belongs to the benchmark, and is not observed.
    pub rule_side: bool,
}

/// How much room the nodes need.
#[derive(Clone, Debug)]
pub struct DiskConfig {
    pub paths: Vec<String>,
    pub node_warn_free_mb: u64,
    pub node_min_free_mb: u64,
}

#[derive(Clone, Debug)]
pub struct LockConfig {
    pub path: String,
}

#[derive(Clone, Copy, Debug, PartialEq, Eq, Structural)]
pub enum CollectorPhase {
    Before,
    During,
    After,
}

impl CollectorPhase {
    pub open spec fn name(self) -> Seq<char> {
        match self {
            CollectorPhase::Before => "before"@,
            CollectorPhase::During => "during"@,
            CollectorPhase::After => "after"@,
        }
    }

    pub fn as_str(self) -> (r: &'static str)
        ensures
            r@ == self.name(),
    {
        match self {
            CollectorPhase::Before => "before",
            CollectorPhase::During => "during",
            CollectorPhase::After => "after",
        }
    }
}

#[derive(Clone, Copy, Debug, PartialEq, Eq, Structural)]
pub enum Transport {
    Local,
    Ssh,
}

/// How the output of a standard tool is read.
#[derive(Clone, Copy, Debug, PartialEq, Eq, Structural)]
pub enum CollectorParser {
    AlpJson,
    AlpWindows,
    MysqlSlow,
    SlpJson,
    SlpTsv,
    SlpWindows,
    Sysstat,
    ServiceCgroup,
    PerfScript,
}

#[derive(Clone, Debug)]
pub struct CollectorConfig {
    pub name: String,
    pub phase: CollectorPhase,
    pub transport: Transport,
    pub roles: Vec<String>,
    pub modes: Vec<RunMode>,
    pub command: Vec<String>,
    /// A command that tells whether the collector can work.
    pub preflight: Vec<String>,
    pub parser: Option<CollectorParser>,
    pub timeout_seconds: u64,
    pub max_output_bytes: u64,
    pub required: bool,
    pub unavailable_exit_codes: Vec<i32>,
}

/// A collector that names no mode works in all of them.
pub open spec fn enabled(modes: Seq<RunMode>, mode: RunMode) -> bool {
    modes.len() == 0 || modes.contains(mode)
}

impl CollectorConfig {
    pub fn enabled_for(&self, mode: RunMode) -> (r: bool)
        ensures
            r == enabled(self.modes@, mode),
    {
        if self.modes.len() == 0 {
            return true;
        }
        let mut i: usize = 0;
        while i < self.modes.len()
            invariant
                i <= self.modes@.len(),
                forall|j: int| 0 <= j < i ==> self.modes@[j] != mode,
            decreases self.modes.len() - i,
        {
            if self.modes[i] == mode {
                return true;
            }
            i += 1;
        }
        false
    }
}

#[derive(Clone, Debug)]
pub struct Config {
    pub data_dir: String,
    pub source: SourceConfig,
    pub tooling: ToolingConfig,
    pub context: ContextConfig,
    pub observability: ObservabilityConfig,
    pub benchmark: BenchmarkConfig,
    pub ssh: SshConfig,
    pub disk: DiskConfig,
    pub lock: Option<LockConfig>,
    pub nodes: Vec<NodeConfig>,
    pub collectors: Vec<CollectorConfig>,
}

/// The repository is the project itself, without exclusions.
impl Default for SourceConfig {
    fn default() -> (r: SourceConfig)
        ensures
            r.repo@ == "."@,
            r.exclude@.len() == 0,
    {
        SourceConfig { repo: ".".to_owned(), exclude: Vec::new() }
    }
}

impl Default for SshConfig {
    fn default() -> (r: SshConfig)
        ensures
            r.user@ == "ubuntu"@,
            r.identity_file is None,
            r.connect_timeout_seconds == 5,
            r.compression,
            r.known_hosts_file is None,
    {
        SshConfig {
            user: "ubuntu".to_owned(),
            identity_file: None,
            connect_timeout_seconds: 5,
            compression: true,
            known_hosts_file: None,
        }
    }
}

impl Default for DiskConfig {
    fn default() -> (r: DiskConfig)
        ensures
            texts(r.paths@) == seq!["/"@, "/var/log"@, "/tmp"@],
            r.node_warn_free_mb == 4096,
            r.node_min_free_mb == 1024,
    {
        let mut paths: Vec<String> = Vec::new();
        paths.push("/".to_owned());
        paths.push("/var/log".to_owned());
        paths.push("/tmp".to_owned());
        assert(texts(paths@) == seq!["/"@, "/var/log"@, "/tmp"@]);
        DiskConfig { paths, node_warn_free_mb: 4096, node_min_free_mb: 1024 }
    }
}

impl Default for Transport {
    fn default() -> (r: Transport)
        ensures
            r == Transport::Local,
    {
        Transport::Local
    }
}

pub fn default_data_dir() -> (r: String)
    ensures
        r@ == ".isuscope"@,
{
    ".isuscope".to_owned()
}

pub fn default_benchmark_mode() -> (r: BenchmarkMode)
    ensures
        r == BenchmarkMode::Command,
{
    BenchmarkMode::Command
}

pub fn default_score_pattern() -> (r: String)
    ensures
        r@ == "スコア:\\s*([0-9]+)"@,
{
    "スコア:\\s*([0-9]+)".to_owned()
}

pub fn default_initialize_start_marker() -> (r: String)
    ensures
        r@ == "webappの初期化を行います"@,
{
    "webappの初期化を行います".to_owned()
}

pub fn default_initialize_finish_marker() -> (r: String)
    ensures
        r@ == "ベンチマーク走行前のデータ整合性チェック"@,
{
    "ベンチマーク走行前のデータ整合性チェック".to_owned()
}

/// Seconds that a collector may take.
pub const COLLECTOR_TIMEOUT: u64 = 90;

/// Bytes of the output of a collector that are kept.
pub const MAX_OUTPUT_BYTES: u64 = 1024 * 1024 * 1024;

/// Seconds that a benchmark parser may take.
pub const PARSER_TIMEOUT: u64 = 30;

/// Bytes of the output of a benchmark parser that are kept.
pub const PARSER_OUTPUT_BYTES: u64 = 16 * 1024 * 1024;

/// The exit code with which a collector says that it is not available.
pub const UNAVAILABLE_EXIT_CODE: i32 = 75;

pub fn default_unavailable_exit_codes() -> (r: Vec<i32>)
    ensures
        r@ == seq![75i32],
{
    let mut codes: Vec<i32> = Vec::new();
    codes.push(UNAVAILABLE_EXIT_CODE);
    codes
}

/// Why a configuration is refused.
#[derive(Debug)]
pub enum ConfigError {
    AgentHistory,
    CodexHistory,
    NoBenchmarkCommand,
    DuplicateNode(String),
    BlankParserName,
    InlineParserName,
    ParserName(String),
    NoParserCommand(String),
    DuplicateParser(String),
    NoCollectorCommand(String),
    DuplicateCollector(String, CollectorPhase),
    ServiceUnit(String),
    NoParent,
    NoProject,
}

pub enum ConfigFault {
    AgentHistory,
    CodexHistory,
    NoBenchmarkCommand,
    DuplicateNode(Seq<char>),
    BlankParserName,
    InlineParserName,
    ParserName(Seq<char>),
    NoParserCommand(Seq<char>),
    DuplicateParser(Seq<char>),
    NoCollectorCommand(Seq<char>),
    DuplicateCollector(Seq<char>, CollectorPhase),
    ServiceUnit(Seq<char>),
    NoParent,
    NoProject,
}

impl View for ConfigError {
    type V = ConfigFault;

    open spec fn view(&self) -> ConfigFault {
        match self {
            ConfigError::AgentHistory => ConfigFault::AgentHistory,
            ConfigError::CodexHistory => ConfigFault::CodexHistory,
            ConfigError::NoBenchmarkCommand => ConfigFault::NoBenchmarkCommand,
            ConfigError::DuplicateNode(s) => ConfigFault::DuplicateNode(s@),
            ConfigError::BlankParserName => ConfigFault::BlankParserName,
            ConfigError::InlineParserName => ConfigFault::InlineParserName,
            ConfigError::ParserName(s) => ConfigFault::ParserName(s@),
            ConfigError::NoParserCommand(s) => ConfigFault::NoParserCommand(s@),
            ConfigError::DuplicateParser(s) => ConfigFault::DuplicateParser(s@),
            ConfigError::NoCollectorCommand(s) => ConfigFault::NoCollectorCommand(s@),
            ConfigError::DuplicateCollector(s, p) => ConfigFault::DuplicateCollector(s@, *p),
            ConfigError::ServiceUnit(s) => ConfigFault::ServiceUnit(s@),
            ConfigError::NoParent => ConfigFault::NoParent,
            ConfigError::NoProject => ConfigFault::NoProject,
        }
    }
}

impl ConfigFault {
    pub open spec fn message(self) -> Seq<char> {
        match self {
            ConfigFault::AgentHistory =>
                "context.agent.history_dir must be a non-empty relative path without `..`"@,
            ConfigFault::CodexHistory =>
                "context.codex.history_dir must be a non-empty relative path without `..`"@,
            ConfigFault::NoBenchmarkCommand =>
                "benchmark.command must not be empty when benchmark.mode is `command`"@,
            ConfigFault::DuplicateNode(s) => "duplicate node name `"@ + s + "`"@,
            ConfigFault::BlankParserName => "benchmark parser name must not be empty"@,
            ConfigFault::InlineParserName => "benchmark parser name `inline` is reserved"@,
            ConfigFault::ParserName(s) => "benchmark parser name `"@ + s
                + "` may contain only ASCII letters, digits, `-`, and `_`"@,
            ConfigFault::NoParserCommand(s) => "benchmark parser `"@ + s
                + "` has an empty command"@,
            ConfigFault::DuplicateParser(s) => "duplicate benchmark parser name `"@ + s + "`"@,
            ConfigFault::NoCollectorCommand(s) => "collector `"@ + s + "` has an empty command"@,
            ConfigFault::DuplicateCollector(s, p) => "collector `"@ + s
                + "` is duplicated in phase `"@ + p.name() + "`"@,
            ConfigFault::ServiceUnit(s) => "observability service unit `"@ + s
                + "` may contain only ASCII letters, digits, `.`, `_`, `@`, and `-`"@,
            ConfigFault::NoParent => "config path has no parent"@,
            ConfigFault::NoProject => ".isuscope must be inside a project directory"@,
        }
    }
}

impl ConfigError {
    pub fn message(&self) -> (r: String)
        ensures
            r@ == self@.message(),
    {
        match self {
            ConfigError::AgentHistory =>
                "context.agent.history_dir must be a non-empty relative path without `..`".to_owned(),
            ConfigError::CodexHistory =>
                "context.codex.history_dir must be a non-empty relative path without `..`".to_owned(),
            ConfigError::NoBenchmarkCommand =>
                "benchmark.command must not be empty when benchmark.mode is `command`".to_owned(),
            ConfigError::DuplicateNode(s) => glue3("duplicate node name `", s.as_str(), "`"),
            ConfigError::BlankParserName => "benchmark parser name must not be empty".to_owned(),
            ConfigError::InlineParserName => "benchmark parser name `inline` is reserved".to_owned(),
            ConfigError::ParserName(s) => glue3(
                "benchmark parser name `",
                s.as_str(),
                "` may contain only ASCII letters, digits, `-`, and `_`",
            ),
            ConfigError::NoParserCommand(s) => glue3(
                "benchmark parser `",
                s.as_str(),
                "` has an empty command",
            ),
            ConfigError::DuplicateParser(s) => glue3(
                "duplicate benchmark parser name `",
                s.as_str(),
                "`",
            ),
            ConfigError::NoCollectorCommand(s) => glue3(
                "collector `",
                s.as_str(),
                "` has an empty command",
            ),
            ConfigError::DuplicateCollector(s, p) => glue5(
                "collector `",
                s.as_str(),
                "` is duplicated in phase `",
                p.as_str(),
                "`",
            ),
            ConfigError::ServiceUnit(s) => glue3(
                "observability service unit `",
                s.as_str(),
                "` may contain only ASCII letters, digits, `.`, `_`, `@`, and `-`",
            ),
            ConfigError::NoParent => "config path has no parent".to_owned(),
            ConfigError::NoProject => ".isuscope must be inside a project directory".to_owned(),
        }
    }
}

/// What `at` finds at the first position from `i` on at which it finds something.
pub open spec fn first_found<U>(n: int, at: spec_fn(int) -> Option<U>, i: int) -> Option<U>
    decreases n - i,
{
    if i >= n {
        None
    } else if at(i) is Some {
        at(i)
    } else {
        first_found(n, at, i + 1)
    }
}

/// A character of a parser's name.
pub open spec fn is_name_char(c: char) -> bool {
    is_alnum(c) || c == '-' || c == '_'
}

pub open spec fn is_plain_name(s: Seq<char>) -> bool {
    forall|i: int| 0 <= i < s.len() ==> is_name_char(#[trigger] s[i])
}

/// A character of the name of a systemd unit.
pub open spec fn is_unit_char(c: char) -> bool {
    is_alnum(c) || c == '.' || c == '_' || c == '@' || c == '-'
}

pub open spec fn is_unit_name(s: Seq<char>) -> bool {
    s.len() > 0 && forall|i: int| 0 <= i < s.len() ==> is_unit_char(#[trigger] s[i])
}

fn plain_name(s: &str) -> (r: bool)
    ensures
        r == is_plain_name(s@),
{
    let chars = chars_of(s);
    let mut i: usize = 0;
    while i < chars.len()
        invariant
            i <= chars@.len(),
            chars@ == s@,
            forall|j: int| 0 <= j < i ==> is_name_char(#[trigger] s@[j]),
        decreases chars.len() - i,
    {
        let c = chars[i];
        assert(c == s@[i as int]);
        if !(alnum(c) || c == '-' || c == '_') {
            return false;
        }
        i += 1;
    }
    true
}

fn unit_name(s: &str) -> (r: bool)
    ensures
        r == is_unit_name(s@),
{
    let chars = chars_of(s);
    if chars.len() == 0 {
        return false;
    }
    let mut i: usize = 0;
    while i < chars.len()
        invariant
            i <= chars@.len(),
            chars@ == s@,
            forall|j: int| 0 <= j < i ==> is_unit_char(#[trigger] s@[j]),
        decreases chars.len() - i,
    {
        let c = chars[i];
        assert(c == s@[i as int]);
        if !(alnum(c) || c == '.' || c == '_' || c == '@' || c == '-') {
            return false;
        }
        i += 1;
    }
    true
}

pub open spec fn context_fault(context: ContextConfig) -> Option<ConfigFault> {
    if context.agent matches Some(agent) && !is_inner(agent.history_dir@) {
        Some(ConfigFault::AgentHistory)
    } else if context.codex matches Some(codex) && !is_inner(codex.history_dir@) {
        Some(ConfigFault::CodexHistory)
    } else {
        None
    }
}

/// The node at `i` has the name of one before it.
pub open spec fn node_fault(nodes: Seq<NodeConfig>) -> spec_fn(int) -> Option<ConfigFault> {
    |i: int|
        if exists|j: int| 0 <= j < i && (#[trigger] nodes[j]).name@ == nodes[i].name@ {
            Some(ConfigFault::DuplicateNode(nodes[i].name@))
        } else {
            None
        }
}

/// What is wrong with the parser at `i`.
pub open spec fn parser_fault(parsers: Seq<BenchmarkParserConfig>) -> spec_fn(int) -> Option<
    ConfigFault,
> {
    |i: int|
        {
            let name = parsers[i].name@;
            if is_blank(name) {
                Some(ConfigFault::BlankParserName)
            } else if name == "inline"@ {
                Some(ConfigFault::InlineParserName)
            } else if !is_plain_name(name) {
                Some(ConfigFault::ParserName(name))
            } else if parsers[i].command@.len() == 0 {
                Some(ConfigFault::NoParserCommand(name))
            } else if exists|j: int| 0 <= j < i && (#[trigger] parsers[j]).name@ == name {
                Some(ConfigFault::DuplicateParser(name))
            } else {
                None
            }
        }
}

/// What is wrong with the collector at `i`.
pub open spec fn collector_fault(collectors: Seq<CollectorConfig>) -> spec_fn(int) -> Option<
    ConfigFault,
> {
    |i: int|
        {
            let c = collectors[i];
            if c.command@.len() == 0 {
                Some(ConfigFault::NoCollectorCommand(c.name@))
            } else if exists|j: int|
                0 <= j < i && (#[trigger] collectors[j]).name@ == c.name@ && collectors[j].phase
                    == c.phase {
                Some(ConfigFault::DuplicateCollector(c.name@, c.phase))
            } else {
                None
            }
        }
}

/// The unit at `i` has a name that no unit has.
pub open spec fn unit_fault(units: Seq<String>) -> spec_fn(int) -> Option<ConfigFault> {
    |i: int|
        if !is_unit_name(units[i]@) {
            Some(ConfigFault::ServiceUnit(units[i]@))
        } else {
            None
        }
}

pub open spec fn or_fault(a: Option<ConfigFault>, b: Option<ConfigFault>) -> Option<ConfigFault> {
    match a {
        Some(fault) => Some(fault),
        None => b,
    }
}

pub open spec fn command_fault(benchmark: BenchmarkConfig) -> Option<ConfigFault> {
    if benchmark.mode == BenchmarkMode::Command && benchmark.command@.len() == 0 {
        Some(ConfigFault::NoBenchmarkCommand)
    } else {
        None
    }
}

/// The first thing that is wrong with a configuration.
pub open spec fn config_fault(config: Config) -> Option<ConfigFault> {
    let nodes = config.nodes@;
    let parsers = config.benchmark.parsers@;
    let collectors = config.collectors@;
    let units = config.observability.service_units@;
    or_fault(
        context_fault(config.context),
        or_fault(
            command_fault(config.benchmark),
            or_fault(
                first_found(nodes.len() as int, node_fault(nodes), 0),
                or_fault(
                    first_found(parsers.len() as int, parser_fault(parsers), 0),
                    or_fault(
                        first_found(collectors.len() as int, collector_fault(collectors), 0),
                        first_found(units.len() as int, unit_fault(units), 0),
                    ),
                ),
            ),
        ),
    )
}

pub open spec fn error_view(error: Option<ConfigError>) -> Option<ConfigFault> {
    match error {
        Some(e) => Some(e@),
        None => None,
    }
}

fn check_nodes(nodes: &Vec<NodeConfig>) -> (r: Option<ConfigError>)
    ensures
        error_view(r) == first_found(nodes@.len() as int, node_fault(nodes@), 0),
{
    let ghost at = node_fault(nodes@);
    let ghost n = nodes@.len() as int;
    let mut i: usize = 0;
    while i < nodes.len()
        invariant
            i <= nodes@.len(),
            n == nodes@.len(),
            at == node_fault(nodes@),
            first_found(n, at, 0) == first_found(n, at, i as int),
        decreases nodes.len() - i,
    {
        let mut j: usize = 0;
        while j < i
            invariant
                j <= i < nodes@.len(),
                n == nodes@.len(),
                at == node_fault(nodes@),
                first_found(n, at, 0) == first_found(n, at, i as int),
                forall|k: int| 0 <= k < j ==> (#[trigger] nodes@[k]).name@ != nodes@[i as int].name@,
            decreases i - j,
        {
            if same(nodes[j].name.as_str(), nodes[i].name.as_str()) {
                assert(at(i as int) is Some);
                return Some(ConfigError::DuplicateNode(nodes[i].name.clone()));
            }
            j += 1;
        }
        assert(at(i as int) is None);
        i += 1;
    }
    None
}

fn check_parsers(parsers: &Vec<BenchmarkParserConfig>) -> (r: Option<ConfigError>)
    ensures
        error_view(r) == first_found(parsers@.len() as int, parser_fault(parsers@), 0),
{
    let ghost at = parser_fault(parsers@);
    let ghost n = parsers@.len() as int;
    let mut i: usize = 0;
    while i < parsers.len()
        invariant
            i <= parsers@.len(),
            n == parsers@.len(),
            at == parser_fault(parsers@),
            first_found(n, at, 0) == first_found(n, at, i as int),
        decreases parsers.len() - i,
    {
        let parser = &parsers[i];
        let name = parser.name.as_str();
        if blank(name) {
            assert(at(i as int) is Some);
            return Some(ConfigError::BlankParserName);
        }
        if same(name, "inline") {
            assert(at(i as int) is Some);
            return Some(ConfigError::InlineParserName);
        }
        if !plain_name(name) {
            assert(at(i as int) is Some);
            return Some(ConfigError::ParserName(parser.name.clone()));
        }
        if parser.command.len() == 0 {
            assert(at(i as int) is Some);
            return Some(ConfigError::NoParserCommand(parser.name.clone()));
        }
        let mut j: usize = 0;
        while j < i
            invariant
                j <= i < parsers@.len(),
                n == parsers@.len(),
                at == parser_fault(parsers@),
                first_found(n, at, 0) == first_found(n, at, i as int),
                !is_blank(parsers@[i as int].name@),
                parsers@[i as int].name@ != "inline"@,
                is_plain_name(parsers@[i as int].name@),
                parsers@[i as int].command@.len() > 0,
                forall|k: int|
                    0 <= k < j ==> (#[trigger] parsers@[k]).name@ != parsers@[i as int].name@,
            decreases i - j,
        {
            if same(parsers[j].name.as_str(), parsers[i].name.as_str()) {
                assert(at(i as int) is Some);
                return Some(ConfigError::DuplicateParser(parsers[i].name.clone()));
            }
            j += 1;
        }
        assert(at(i as int) is None);
        i += 1;
    }
    None
}

fn check_collectors(collectors: &Vec<CollectorConfig>) -> (r: Option<ConfigError>)
    ensures
        error_view(r) == first_found(collectors@.len() as int, collector_fault(collectors@), 0),
{
    let ghost at = collector_fault(collectors@);
    let ghost n = collectors@.len() as int;
    let mut i: usize = 0;
    while i < collectors.len()
        invariant
            i <= collectors@.len(),
            n == collectors@.len(),
            at == collector_fault(collectors@),
            first_found(n, at, 0) == first_found(n, at, i as int),
        decreases collectors.len() - i,
    {
        if collectors[i].command.len() == 0 {
            assert(at(i as int) is Some);
            return Some(ConfigError::NoCollectorCommand(collectors[i].name.clone()));
        }
        let mut j: usize = 0;
        while j < i
            invariant
                j <= i < collectors@.len(),
                n == collectors@.len(),
                at == collector_fault(collectors@),
                first_found(n, at, 0) == first_found(n, at, i as int),
                collectors@[i as int].command@.len() > 0,
                forall|k: int|
                    0 <= k < j ==> !((#[trigger] collectors@[k]).name@
                        == collectors@[i as int].name@ && collectors@[k].phase
                        == collectors@[i as int].phase),
            decreases i - j,
        {
            if collectors[j].phase == collectors[i].phase && same(
                collectors[j].name.as_str(),
                collectors[i].name.as_str(),
            ) {
                assert(at(i as int) is Some);
                return Some(
                    ConfigError::DuplicateCollector(
                        collectors[i].name.clone(),
                        collectors[i].phase,
                    ),
                );
            }
            j += 1;
        }
        assert(at(i as int) is None);
        i += 1;
    }
    None
}

fn check_units(units: &Vec<String>) -> (r: Option<ConfigError>)
    ensures
        error_view(r) == first_found(units@.len() as int, unit_fault(units@), 0),
{
    let ghost at = unit_fault(units@);
    let ghost n = units@.len() as int;
    let mut i: usize = 0;
    while i < units.len()
        invariant
            i <= units@.len(),
            n == units@.len(),
            at == unit_fault(units@),
            first_found(n, at, 0) == first_found(n, at, i as int),
        decreases units.len() - i,
    {
        if !unit_name(units[i].as_str()) {
            assert(at(i as int) is Some);
            return Some(ConfigError::ServiceUnit(units[i].clone()));
        }
        assert(at(i as int) is None);
        i += 1;
    }
    None
}

/// Refuses a configuration that cannot be used.
pub fn validate(config: &Config) -> (r: Result<(), ConfigError>)
    ensures
        match r {
            Ok(_) => config_fault(*config) is None,
            Err(error) => config_fault(*config) == Some(error@),
        },
{
    match &config.context.agent {
        Some(agent) => if !inner(agent.history_dir.as_str()) {
            return Err(ConfigError::AgentHistory);
        },
        None => {},
    }
    match &config.context.codex {
        Some(codex) => if !inner(codex.history_dir.as_str()) {
            return Err(ConfigError::CodexHistory);
        },
        None => {},
    }
    if config.benchmark.mode == BenchmarkMode::Command && config.benchmark.command.len() == 0 {
        return Err(ConfigError::NoBenchmarkCommand);
    }
    match check_nodes(&config.nodes) {
        Some(error) => {
            return Err(error);
        },
        None => {},
    }
    match check_parsers(&config.benchmark.parsers) {
        Some(error) => {
            return Err(error);
        },
        None => {},
    }
    match check_collectors(&config.collectors) {
        Some(error) => {
            return Err(error);
        },
        None => {},
    }
    match check_units(&config.observability.service_units) {
        Some(error) => {
            return Err(error);
        },
        None => {},
    }
    Ok(())
}

/// `path` as seen from `base`.
pub fn resolve(base: &str, path: &str) -> (r: String)
    ensures
        r@ == join_path(base@, path@),
{
    joined_path(base, path)
}

/// A configuration with the place where it was found.
#[derive(Clone, Debug)]
pub struct LoadedConfig {
    pub config: Config,
    pub config_path: String,
    pub project_root: String,
    pub data_dir: String,
}

/// Where a configuration may stand, seen from a directory: in it or in one above it.
pub open spec fn candidates_of(start: Seq<char>) -> Seq<Seq<char>> {
    ancestors(start).map_values(|dir: Seq<char>| join_path(dir, ".isuscope/config.toml"@))
}

/// The first of the texts whose flag is set.
pub open spec fn first_flagged(items: Seq<Seq<char>>, flags: Seq<bool>) -> Option<Seq<char>>
    decreases items.len(),
{
    if items.len() == 0 || flags.len() == 0 {
        None
    } else if flags[0] {
        Some(items[0])
    } else {
        first_flagged(items.skip(1), flags.skip(1))
    }
}

impl LoadedConfig {
    /// The places where a configuration may stand, the nearest first.
    pub fn candidates(start: &str) -> (r: Vec<String>)
        ensures
            texts(r@) == candidates_of(start@),
    {
        let ghost each = |dir: Seq<char>| join_path(dir, ".isuscope/config.toml"@);
        let mut out: Vec<String> = Vec::new();
        let mut dir: Option<String> = Some(start.to_owned());
        let mut more = true;
        let ghost mut rest: Seq<Seq<char>> = ancestors(start@);
        assert(texts(out@) + rest.map_values(each) == candidates_of(start@));
        while more
            invariant
                each == (|dir: Seq<char>| join_path(dir, ".isuscope/config.toml"@)),
                more ==> dir is Some && rest == ancestors(dir->0@),
                !more ==> rest.len() == 0,
                texts(out@) + rest.map_values(each) == candidates_of(start@),
            decreases rest.len(),
        {
            let here = match dir {
                Some(d) => d,
                None => String::new(),
            };
            let candidate = joined_path(here.as_str(), ".isuscope/config.toml");
            let above = parent_path(here.as_str());
            let ghost was = out@;
            out.push(candidate);
            proof {
                let next = rest.skip(1);
                assert(rest[0] == here@);
                assert(texts(out@) == texts(was).push(candidate@));
                assert(rest.map_values(each) == seq![each(here@)] + next.map_values(each));
                assert(texts(was) + (seq![each(here@)] + next.map_values(each)) == texts(was).push(
                    each(here@),
                ) + next.map_values(each));
                if parent(here@) is Some {
                    assert(next == ancestors(parent(here@)->0));
                } else {
                    assert(next.len() == 0);
                }
                rest = next;
            }
            more = above.is_some();
            dir = above;
        }
        assert(texts(out@) + rest.map_values(each) == texts(out@));
        out
    }

    /// The configuration that is used from a directory: of the places where one may stand, the
    /// first that `found` marks as a file.
    pub fn discover(start: &str, found: &Vec<bool>) -> (r: Option<String>)
        ensures
            text_option(r) == first_flagged(candidates_of(start@), found@),
    {
        let places = LoadedConfig::candidates(start);
        let ghost all = candidates_of(start@);
        let mut i: usize = 0;
        assert(all.skip(0) == all);
        assert(found@.skip(0) == found@);
        while i < places.len() && i < found.len()
            invariant
                i <= places@.len(),
                i <= found@.len(),
                all == texts(places@),
                first_flagged(all, found@) == first_flagged(
                    all.skip(i as int),
                    found@.skip(i as int),
                ),
                all == candidates_of(start@),
            decreases places.len() - i,
        {
            assert(all.skip(i as int)[0] == places@[i as int]@);
            assert(found@.skip(i as int)[0] == found@[i as int]);
            if found[i] {
                return Some(places[i].clone());
            }
            assert(all.skip(i as int).skip(1) == all.skip(i + 1));
            assert(found@.skip(i as int).skip(1) == found@.skip(i + 1));
            i += 1;
        }
        None
    }

    /// Takes the configuration that was read from `path`.
    pub fn load(path: &str, config: Config) -> (r: Result<LoadedConfig, ConfigError>)
        ensures
            match r {
                Ok(loaded) => {
                    &&& config_fault(config) is None
                    &&& loaded.config == config
                    &&& loaded.config_path@ == path@
                    &&& parent(path@) matches Some(dir) && (parent(dir) matches Some(root)
                        && loaded.project_root@ == root && loaded.data_dir@ == join_path(
                        root,
                        config.data_dir@,
                    ))
                },
                Err(error) => match config_fault(config) {
                    Some(fault) => error@ == fault,
                    None => match parent(path@) {
                        None => error@ == ConfigFault::NoParent,
                        Some(dir) => parent(dir) is None && error@ == ConfigFault::NoProject,
                    },
                },
            },
    {
        match validate(&config) {
            Ok(_) => {},
            Err(error) => {
                return Err(error);
            },
        }
        let dir = match parent_path(path) {
            Some(dir) => dir,
            None => {
                return Err(ConfigError::NoParent);
            },
        };
        let project_root = match parent_path(dir.as_str()) {
            Some(root) => root,
            None => {
                return Err(ConfigError::NoProject);
            },
        };
        let data_dir = resolve(project_root.as_str(), config.data_dir.as_str());
        Ok(LoadedConfig { config, config_path: path.to_owned(), project_root, data_dir })
    }

    pub open spec fn source_path(self) -> Seq<char> {
        join_path(self.project_root@, self.config.source.repo@)
    }

    pub fn source_repo(&self) -> (r: String)
        ensures
            r@ == self.source_path(),
    {
        resolve(self.project_root.as_str(), self.config.source.repo.as_str())
    }

    pub fn benchmark_working_dir(&self) -> (r: String)
        ensures
            r@ == (match self.config.benchmark.working_dir {
                Some(path) => join_path(self.project_root@, path@),
                None => self.project_root@,
            }),
    {
        match &self.config.benchmark.working_dir {
            Some(path) => resolve(self.project_root.as_str(), path.as_str()),
            None => self.project_root.clone(),
        }
    }

    pub fn codex_history_dir(&self) -> (r: Option<String>)
        ensures
            text_option(r) == (match self.config.context.codex {
                Some(codex) => Some(join_path(self.source_path(), codex.history_dir@)),
                None => None,
            }),
    {
        match &self.config.context.codex {
            Some(codex) => {
                let repo = self.source_repo();
                Some(resolve(repo.as_str(), codex.history_dir.as_str()))
            },
            None => None,
        }
    }

    /// Where the conversations are kept, under either name of the section.
    pub fn agent_history_dir(&self) -> (r: Option<String>)
        ensures
            text_option(r) == (match self.config.context.history() {
                Some(dir) => Some(join_path(self.source_path(), dir)),
                None => None,
            }),
    {
        match self.config.context.history_dir() {
            Some(dir) => {
                let repo = self.source_repo();
                Some(resolve(repo.as_str(), dir.as_str()))
            },
            None => None,
        }
    }

    /// The options that every call of `ssh` gets.
    pub open spec fn ssh_arguments(self) -> Seq<Seq<char>> {
        let ssh = self.config.ssh;
        let base = seq![
            "-o"@,
            "BatchMode=yes"@,
            "-o"@,
            "ConnectTimeout="@ + decimal(ssh.connect_timeout_seconds as nat),
        ];
        let packed = if ssh.compression {
            base.push("-C"@)
        } else {
            base
        };
        let known = match ssh.known_hosts_file {
            Some(file) => packed.push("-o"@).push(
                "UserKnownHostsFile="@ + join_path(self.project_root@, file@),
            ).push("-o"@).push("StrictHostKeyChecking=accept-new"@),
            None => packed,
        };
        match ssh.identity_file {
            Some(file) => known.push("-i"@).push(join_path(self.project_root@, file@)),
            None => known,
        }
    }

    pub fn ssh_options(&self) -> (r: Vec<String>)
        ensures
            texts(r@) == self.ssh_arguments(),
    {
        let ssh = &self.config.ssh;
        let mut out: Vec<String> = Vec::new();
        assert(texts(out@) == Seq::<Seq<char>>::empty());
        push_text(&mut out, "-o");
        push_text(&mut out, "BatchMode=yes");
        push_text(&mut out, "-o");
        let seconds = string_of(decimal_of(ssh.connect_timeout_seconds).as_slice());
        let timeout = glue2("ConnectTimeout=", seconds.as_str());
        push_text(&mut out, timeout.as_str());
        assert(texts(out@) == seq!["-o"@, "BatchMode=yes"@, "-o"@, timeout@]);
        if ssh.compression {
            push_text(&mut out, "-C");
        }
        match &ssh.known_hosts_file {
            Some(file) => {
                let path = resolve(self.project_root.as_str(), file.as_str());
                let option = glue2("UserKnownHostsFile=", path.as_str());
                push_text(&mut out, "-o");
                push_text(&mut out, option.as_str());
                push_text(&mut out, "-o");
                push_text(&mut out, "StrictHostKeyChecking=accept-new");
            },
            None => {},
        }
        match &ssh.identity_file {
            Some(file) => {
                let path = resolve(self.project_root.as_str(), file.as_str());
                push_text(&mut out, "-i");
                push_text(&mut out, path.as_str());
            },
            None => {},
        }
        out
    }
}

impl ContextConfig {
    pub open spec fn history(self) -> Option<Seq<char>> {
        match self.agent {
            Some(agent) => Some(agent.history_dir@),
            None => match self.codex {
                Some(codex) => Some(codex.history_dir@),
                None => None,
            },
        }
    }

    pub fn history_dir(&self) -> (r: Option<&String>)
        ensures
            match r {
                Some(dir) => self.history() == Some(dir@),
                None => self.history() is None,
            },
    {
        match &self.agent {
            Some(agent) => Some(&agent.history_dir),
            None => match &self.codex {
                Some(codex) => Some(&codex.history_dir),
                None => None,
            },
        }
    }
}

/// Adds a text to a list.
pub fn push_text(out: &mut Vec<String>, text: &str)
    ensures
        texts(final(out)@) == texts(old(out)@).push(text@),
{
    let ghost was = out@;
    out.push(text.to_owned());
    assert(texts(out@) == texts(was).push(text@));
}

/// In a configuration that is not refused no two nodes share a name, no two collectors share both
/// name and phase, and every collector has a command.
pub proof fn names_are_unique(config: Config, i: int, j: int)
    requires
        config_fault(config) is None,
        0 <= i < j,
    ensures
        j < config.nodes@.len() ==> config.nodes@[i].name@ != config.nodes@[j].name@,
        j < config.collectors@.len() ==> !(config.collectors@[i].name@
            == config.collectors@[j].name@ && config.collectors@[i].phase
            == config.collectors@[j].phase),
        j < config.collectors@.len() ==> config.collectors@[j].command@.len() > 0,
        j < config.benchmark.parsers@.len() ==> config.benchmark.parsers@[i].name@
            != config.benchmark.parsers@[j].name@,
{
    let nodes = config.nodes@;
    let collectors = config.collectors@;
    let parsers = config.benchmark.parsers@;
    if j < nodes.len() {
        nothing_at(nodes.len() as int, node_fault(nodes), 0, j);
        assert(nodes[i].name@ == nodes[i].name@);
    }
    if j < collectors.len() {
        nothing_at(collectors.len() as int, collector_fault(collectors), 0, j);
        assert(collectors[i].name@ == collectors[i].name@);
    }
    if j < parsers.len() {
        nothing_at(parsers.len() as int, parser_fault(parsers), 0, j);
        assert(parsers[i].name@ == parsers[i].name@);
    }
}

proof fn nothing_at<U>(n: int, at: spec_fn(int) -> Option<U>, from: int, i: int)
    requires
        first_found(n, at, from) is None,
        from <= i < n,
    ensures
        at(i) is None,
    decreases i - from,
{
    if from < i {
        nothing_at(n, at, from + 1, i);
    }
}

} // verus!
