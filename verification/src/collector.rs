//! Which collectors run, with which commands and in which order, and what becomes of their output.
use crate::alp::{
    all_windows, parse_alp_json, parse_alp_windows, routed_metrics, AlpError, AlpFault, WindowError,
    WindowFault,
};
use crate::cgroup::{parse_service_cgroup, readings_in, service_samples};
use crate::compression::{decompress, decompressed};
use crate::config::{
    enabled, push_text, CollectorConfig, CollectorParser, CollectorPhase, LoadedConfig, NodeConfig,
    Transport,
};
use crate::join::{chain, derefs, keep, value_views};
use crate::json::json_of_text;
use crate::labels::{lookup, with_label, Labels, Pair};
use crate::model::{
    on_calendar, BenchmarkResult, CollectorResult, Fingerprint, LogRef, Metric, MetricView, RunMode,
    Transition,
};
use crate::moment::{BucketGrid, Moment};
use crate::number::{apply, arithmetic, is_arithmetic, Number, Op};
use crate::numeral::{is_reader, is_writer, reading, write_number, written};
use crate::perf::{
    binary_name, canonical_perf_binary, canonical_perf_symbol, parse_perf_script, perf_metrics,
    symbol_name, PerfError,
};
use crate::protocol::FingerprintView;
use crate::report::text_option;
use crate::sampled::summaries;
use crate::shell::{command_line, quote_command, sanitize, sanitized};
use crate::slow_log::{
    log_metrics, parse_mysql_slow_reader, slow_lines, CutInsideCharacter, Interval,
};
use crate::slp::{
    parse_slp_json, parse_slp_tsv, parse_slp_windows, slp_metrics_of, slp_windows, tsv_lines,
    SlpError,
};
use crate::sysstat::{dated_metrics, narrow, output_day, parse_sysstat};
use crate::text::{
    chars_of, contains_text, decimal, decimal_of, ends, ends_with, glue2, glue3, glue5, is_blank,
    join, joined, last_halves, lines, lines_of, lossy_text, number_of, parsed_number, replace,
    replaced, same, split_last, string_of, text_from_bytes, text_from_lossy, texts, trim, trimmed,
    views,
};
use crate::transition::{
    first_fault, has_text, loaded, matching_groups, LoadedRules, RouteError, RouteErrorView,
    RouteNormalizer,
};
use vstd::prelude::*;

verus! {

/// A collector that runs in a mode and a phase.
pub open spec fn is_selected(mode: RunMode, phase: CollectorPhase) -> spec_fn(
    CollectorConfig,
) -> bool {
    |c: CollectorConfig| enabled(c.modes@, mode) && c.phase == phase
}

/// The collectors of a mode and a phase, in the order of the configuration.
pub fn selected(config: &LoadedConfig, mode: RunMode, phase: CollectorPhase) -> (r: Vec<
    &CollectorConfig,
>)
    ensures
        derefs(r@) == config.config.collectors@.filter(is_selected(mode, phase)),
{
    let all = &config.config.collectors;
    let mut flags: Vec<bool> = Vec::new();
    let mut i: usize = 0;
    while i < all.len()
        invariant
            i <= all@.len(),
            flags@.len() == i,
            forall|j: int|
                0 <= j < i ==> #[trigger] flags@[j] == is_selected(mode, phase)(all@[j]),
        decreases all.len() - i,
    {
        flags.push(all[i].enabled_for(mode) && all[i].phase == phase);
        i += 1;
    }
    keep(all.as_slice(), &flags, Ghost(is_selected(mode, phase)))
}

/// The two lists share a text.
pub open spec fn share_text(a: Seq<Seq<char>>, b: Seq<Seq<char>>) -> bool {
    exists|i: int, j: int|
        0 <= i < a.len() && 0 <= j < b.len() && #[trigger] a[i] == #[trigger] b[j]
}

pub fn shares(a: &Vec<String>, b: &Vec<String>) -> (r: bool)
    ensures
        r == share_text(texts(a@), texts(b@)),
{
    let ghost left = texts(a@);
    let ghost right = texts(b@);
    let mut i: usize = 0;
    while i < a.len()
        invariant
            i <= a@.len(),
            left == texts(a@),
            right == texts(b@),
            forall|x: int, y: int|
                0 <= x < i && 0 <= y < right.len() ==> #[trigger] left[x] != #[trigger] right[y],
        decreases a.len() - i,
    {
        let mut j: usize = 0;
        while j < b.len()
            invariant
                i < a@.len(),
                j <= b@.len(),
                left == texts(a@),
                right == texts(b@),
                forall|x: int, y: int|
                    0 <= x < i && 0 <= y < right.len() ==> #[trigger] left[x]
                        != #[trigger] right[y],
                forall|y: int| 0 <= y < j ==> left[i as int] != #[trigger] right[y],
            decreases b.len() - j,
        {
            if same(a[i].as_str(), b[j].as_str()) {
                assert(left[i as int] == right[j as int]);
                return true;
            }
            j += 1;
        }
        i += 1;
    }
    false
}

/// A node on which a collector runs: one that is observed, and has one of the roles of the
/// collector where it names any.
pub open spec fn is_target(roles: Seq<Seq<char>>) -> spec_fn(NodeConfig) -> bool {
    |n: NodeConfig| !n.rule_side && (roles.len() == 0 || share_text(roles, texts(n.roles@)))
}

/// The nodes on which a collector runs, in the order of the configuration.
pub fn targets<'a>(config: &'a LoadedConfig, collector: &CollectorConfig) -> (r: Vec<&'a NodeConfig>)
    ensures
        derefs(r@) == config.config.nodes@.filter(is_target(texts(collector.roles@))),
{
    let all = &config.config.nodes;
    let ghost p = is_target(texts(collector.roles@));
    let mut flags: Vec<bool> = Vec::new();
    let mut i: usize = 0;
    while i < all.len()
        invariant
            i <= all@.len(),
            p == is_target(texts(collector.roles@)),
            flags@.len() == i,
            forall|j: int| 0 <= j < i ==> #[trigger] flags@[j] == p(all@[j]),
        decreases all.len() - i,
    {
        let node = &all[i];
        assert(texts(collector.roles@).len() == collector.roles@.len());
        flags.push(
            !node.rule_side && (collector.roles.len() == 0 || shares(
                &collector.roles,
                &node.roles,
            )),
        );
        i += 1;
    }
    keep(all.as_slice(), &flags, Ghost(p))
}

/// Seconds since the epoch in whole microseconds, with six decimal places; the empty text without a
/// point in time.
pub open spec fn epoch_text(
    f: spec_fn(Op) -> Number,
    g: spec_fn(Number, u32) -> Seq<char>,
    at: Option<Moment>,
) -> Seq<char> {
    match at {
        Some(t) => g(
            f(
                Op::Divide(
                    f(Op::Integer((t.nanos as int / 1000) as i64)),
                    f(Op::Integer(1_000_000)),
                ),
            ),
            6,
        ),
        None => Seq::empty(),
    }
}

fn epoch<F: Fn(Op) -> Number, S: Fn(Number, u32) -> String>(
    at: Option<Moment>,
    compute: &F,
    show: &S,
) -> (r: String)
    requires
        is_arithmetic(*compute),
        is_writer(*show),
        on_calendar(at),
    ensures
        r@ == epoch_text(arithmetic(*compute), written(*show), at),
{
    match at {
        Some(t) => {
            let whole = crate::moment::to_micros(t);
            let micros: i128 = whole.nanos / 1000;
            proof {
                let n = t.nanos as int;
                assert(whole.nanos == n / 1000 * 1000);
                assert(n / 1000 * 1000 >= 0 ==> micros == n / 1000) by {
                    assert((n / 1000) * 1000 / 1000 == n / 1000);
                }
                truncated_multiple(n / 1000);
            }
            let value = apply(compute, Op::Integer(micros as i64));
            let million = apply(compute, Op::Integer(1_000_000));
            let seconds = apply(compute, Op::Divide(value, million));
            write_number(show, seconds, 6)
        },
        None => String::new(),
    }
}

proof fn truncated_multiple(k: int)
    ensures
        k * 1000 / 1000 == k,
{
}

/// The borders of the windows of a run, as collectors are given them.
#[derive(Clone, Debug)]
pub struct RunWindows {
    pub started_at: String,
    pub load_started_at: String,
    pub finished_at: String,
}

impl RunWindows {
    /// The borders of a run whose benchmark has the result `benchmark`; without one they are
    /// unknown.
    pub fn read<F: Fn(Op) -> Number, S: Fn(Number, u32) -> String>(
        benchmark: Option<&BenchmarkResult>,
        compute: &F,
        show: &S,
    ) -> (r: RunWindows)
        requires
            is_arithmetic(*compute),
            is_writer(*show),
            benchmark matches Some(b) ==> on_calendar(b.started_at) && on_calendar(
                b.initialize_finished_at,
            ) && on_calendar(b.finished_at),
        ensures
            ({
                let f = arithmetic(*compute);
                let g = written(*show);
                match benchmark {
                    Some(b) => r.started_at@ == epoch_text(f, g, b.started_at)
                        && r.load_started_at@ == epoch_text(f, g, b.initialize_finished_at)
                        && r.finished_at@ == epoch_text(f, g, b.finished_at),
                    None => r.started_at@.len() == 0 && r.load_started_at@.len() == 0
                        && r.finished_at@.len() == 0,
                }
            }),
    {
        match benchmark {
            Some(b) => RunWindows {
                started_at: epoch(b.started_at, compute, show),
                load_started_at: epoch(b.initialize_finished_at, compute, show),
                finished_at: epoch(b.finished_at, compute, show),
            },
            None => RunWindows {
                started_at: String::new(),
                load_started_at: String::new(),
                finished_at: String::new(),
            },
        }
    }
}

/// What stands for the placeholders in a command.
#[verifier::ext_equal]
pub struct Placeholders {
    pub run_id: Seq<char>,
    pub run_dir: Seq<char>,
    pub node: Seq<char>,
    pub host: Seq<char>,
    pub groups: Seq<char>,
    pub units: Seq<char>,
    pub started_at: Seq<char>,
    pub load_started_at: Seq<char>,
    pub finished_at: Seq<char>,
}

/// A word of a command with its placeholders filled in, one after the other.
pub open spec fn filled(word: Seq<char>, p: Placeholders) -> Seq<char> {
    replace(
        replace(
            replace(
                replace(
                    replace(
                        replace(
                            replace(
                                replace(
                                    replace(word, "{run_id}"@, p.run_id),
                                    "{run_dir}"@,
                                    p.run_dir,
                                ),
                                "{node}"@,
                                p.node,
                            ),
                            "{host}"@,
                            p.host,
                        ),
                        "{route_matching_groups}"@,
                        p.groups,
                    ),
                    "{service_units}"@,
                    p.units,
                ),
                "{benchmark_started_at}"@,
                p.started_at,
            ),
            "{load_started_at}"@,
            p.load_started_at,
        ),
        "{benchmark_finished_at}"@,
        p.finished_at,
    )
}

fn fill(word: &[char], name: &str, value: &str) -> (r: Vec<char>)
    ensures
        r@ == replace(word@, name@, value@),
{
    replaced(word, chars_of(name).as_slice(), chars_of(value).as_slice())
}

/// The values for the placeholders of one command.
#[derive(Debug)]
pub struct Values {
    pub run_id: String,
    pub run_dir: String,
    pub node: String,
    pub host: String,
    pub groups: String,
    pub units: String,
    pub windows: RunWindows,
}

impl View for Values {
    type V = Placeholders;

    open spec fn view(&self) -> Placeholders {
        Placeholders {
            run_id: self.run_id@,
            run_dir: self.run_dir@,
            node: self.node@,
            host: self.host@,
            groups: self.groups@,
            units: self.units@,
            started_at: self.windows.started_at@,
            load_started_at: self.windows.load_started_at@,
            finished_at: self.windows.finished_at@,
        }
    }
}

/// Fills in the placeholders of one word.
pub fn replace_placeholders(word: &str, values: &Values) -> (r: String)
    ensures
        r@ == filled(word@, values@),
{
    let w = chars_of(word);
    let w = fill(w.as_slice(), "{run_id}", values.run_id.as_str());
    let w = fill(w.as_slice(), "{run_dir}", values.run_dir.as_str());
    let w = fill(w.as_slice(), "{node}", values.node.as_str());
    let w = fill(w.as_slice(), "{host}", values.host.as_str());
    let w = fill(w.as_slice(), "{route_matching_groups}", values.groups.as_str());
    let w = fill(w.as_slice(), "{service_units}", values.units.as_str());
    let w = fill(w.as_slice(), "{benchmark_started_at}", values.windows.started_at.as_str());
    let w = fill(w.as_slice(), "{load_started_at}", values.windows.load_started_at.as_str());
    let w = fill(w.as_slice(), "{benchmark_finished_at}", values.windows.finished_at.as_str());
    string_of(w.as_slice())
}

pub open spec fn filled_words(words: Seq<Seq<char>>, p: Placeholders) -> Seq<Seq<char>> {
    words.map_values(|w: Seq<char>| filled(w, p))
}

fn fill_words(words: &Vec<String>, values: &Values) -> (r: Vec<String>)
    ensures
        texts(r@) == filled_words(texts(words@), values@),
{
    let ghost all = texts(words@);
    let ghost each = |w: Seq<char>| filled(w, values@);
    let mut out: Vec<String> = Vec::new();
    let mut i: usize = 0;
    while i < words.len()
        invariant
            i <= words@.len(),
            all == texts(words@),
            each == (|w: Seq<char>| filled(w, values@)),
            texts(out@) == all.take(i as int).map_values(each),
        decreases words.len() - i,
    {
        let word = replace_placeholders(words[i].as_str(), values);
        push_text(&mut out, word.as_str());
        assert(all[i as int] == words@[i as int]@);
        assert(all.take(i + 1).map_values(each) == all.take(i as int).map_values(each).push(
            each(all[i as int]),
        ));
        i += 1;
    }
    assert(all.take(i as int) == all);
    out
}

/// A command that is ready to run.
#[derive(Debug)]
pub struct ExecutionSpec<'a> {
    pub collector: &'a CollectorConfig,
    pub node: Option<&'a NodeConfig>,
    pub program: String,
    pub args: Vec<String>,
    pub id_prefix: String,
    pub working_dir: String,
}

#[verifier::ext_equal]
pub struct SpecView {
    pub program: Seq<char>,
    pub args: Seq<Seq<char>>,
    pub id_prefix: Seq<char>,
    pub working_dir: Seq<char>,
}

impl<'a> ExecutionSpec<'a> {
    pub open spec fn command(self) -> SpecView {
        SpecView {
            program: self.program@,
            args: texts(self.args@),
            id_prefix: self.id_prefix@,
            working_dir: self.working_dir@,
        }
    }
}

/// Why a collector cannot be started.
#[derive(Debug)]
pub enum SpecError {
    /// The route rules cannot be given to alp.
    Routes(RouteError),
    /// The route rules cannot be read.
    Unreadable(String),
    EmptyCommand,
    NoNode,
}

pub enum SpecFault {
    Routes(RouteErrorView),
    Unreadable(Seq<char>),
    EmptyCommand,
    NoNode,
}

impl View for SpecError {
    type V = SpecFault;

    open spec fn view(&self) -> SpecFault {
        match self {
            SpecError::Routes(error) => SpecFault::Routes(error@),
            SpecError::Unreadable(error) => SpecFault::Unreadable(error@),
            SpecError::EmptyCommand => SpecFault::EmptyCommand,
            SpecError::NoNode => SpecFault::NoNode,
        }
    }
}

impl SpecFault {
    pub open spec fn message(self) -> Seq<char> {
        match self {
            SpecFault::Routes(error) => error.message(),
            SpecFault::Unreadable(error) => error,
            SpecFault::EmptyCommand => "collector.command must not be empty"@,
            SpecFault::NoNode => "SSH collector has no target node"@,
        }
    }
}

impl SpecError {
    pub fn message(&self) -> (r: String)
        ensures
            r@ == self@.message(),
    {
        match self {
            SpecError::Routes(error) => error.message(),
            SpecError::Unreadable(error) => error.clone(),
            SpecError::EmptyCommand => "collector.command must not be empty".to_owned(),
            SpecError::NoNode => "SSH collector has no target node".to_owned(),
        }
    }
}

/// The command names the matching groups of the routes.
pub open spec fn wants_groups(command: Seq<Seq<char>>) -> bool {
    exists|i: int|
        0 <= i < command.len() && contains_text(
            #[trigger] command[i],
            "{route_matching_groups}"@,
        )
}

/// Whether the command needs the route rules.
pub fn needs_routes(collector: &CollectorConfig) -> (r: bool)
    ensures
        r == wants_groups(texts(collector.command@)),
{
    let ghost all = texts(collector.command@);
    let mut i: usize = 0;
    while i < collector.command.len()
        invariant
            i <= collector.command@.len(),
            all == texts(collector.command@),
            forall|j: int|
                0 <= j < i ==> !contains_text(#[trigger] all[j], "{route_matching_groups}"@),
        decreases collector.command.len() - i,
    {
        assert(all[i as int] == collector.command@[i as int]@);
        if has_text(collector.command[i].as_str(), "{route_matching_groups}") {
            return true;
        }
        i += 1;
    }
    false
}

/// What a run gives to its collectors.
#[derive(Debug)]
pub struct RunPlace {
    pub run_id: String,
    pub run_dir: String,
    pub windows: RunWindows,
    /// The path of the program that is running, where it is known.
    pub program: Option<String>,
}

pub open spec fn node_name(node: Option<&NodeConfig>) -> Seq<char> {
    match node {
        Some(n) => n.name@,
        None => "local"@,
    }
}

pub open spec fn node_host(node: Option<&NodeConfig>) -> Seq<char> {
    match node {
        Some(n) => n.host@,
        None => "localhost"@,
    }
}

pub open spec fn placeholders_of(
    config: LoadedConfig,
    node: Option<&NodeConfig>,
    place: RunPlace,
    groups: Seq<char>,
) -> Placeholders {
    Placeholders {
        run_id: place.run_id@,
        run_dir: place.run_dir@,
        node: node_name(node),
        host: node_host(node),
        groups,
        units: join(texts(config.config.observability.service_units@), " "@),
        started_at: place.windows.started_at@,
        load_started_at: place.windows.load_started_at@,
        finished_at: place.windows.finished_at@,
    }
}

/// The program that a word names: this program itself by the path it runs from, so that an older
/// copy elsewhere is not used.
pub open spec fn own_program(program: Seq<char>, current: Option<Seq<char>>) -> Seq<char> {
    if program == "isuscope"@ && current is Some {
        current->0
    } else {
        program
    }
}

pub open spec fn login(config: LoadedConfig, node: NodeConfig) -> Seq<char> {
    (match node.user {
        Some(user) => user@,
        None => config.config.ssh.user@,
    }) + "@"@ + node.host@
}

pub open spec fn prefix_of(collector: CollectorConfig, node: Option<&NodeConfig>) -> Seq<char> {
    sanitized(collector.name@) + "-"@ + sanitized(node_name(node)) + "-"@ + collector.phase.name()
}

/// What stops the rules from becoming matching groups. Only a collector that asks for the groups
/// is stopped by it.
pub open spec fn group_trouble(rules: LoadedRules) -> Option<SpecFault> {
    match rules {
        Ok(list) => match first_fault(list) {
            Some(fault) => Some(SpecFault::Routes(fault)),
            None => None,
        },
        Err(error) => Some(SpecFault::Unreadable(error)),
    }
}

/// The command of a collector on a node, or here without one.
pub open spec fn spec_of(
    config: LoadedConfig,
    collector: CollectorConfig,
    node: Option<&NodeConfig>,
    place: RunPlace,
    rules: LoadedRules,
) -> Result<SpecView, SpecFault> {
    let command = texts(collector.command@);
    if wants_groups(command) && group_trouble(rules) is Some {
        Err(group_trouble(rules)->0)
    } else if command.len() == 0 {
        Err(SpecFault::EmptyCommand)
    } else {
        let groups = if wants_groups(command) {
            matching_groups(rules->Ok_0)
        } else {
            Seq::empty()
        };
        let words = filled_words(command, placeholders_of(config, node, place, groups));
        if collector.transport == Transport::Ssh {
            match node {
                None => Err(SpecFault::NoNode),
                Some(n) => Ok(
                    SpecView {
                        program: "ssh"@,
                        args: config.ssh_arguments().push(login(config, *n)).push("--"@).push(
                            command_line(words),
                        ),
                        id_prefix: prefix_of(collector, node),
                        working_dir: config.project_root@,
                    },
                ),
            }
        } else {
            Ok(
                SpecView {
                    program: own_program(words[0], text_option(place.program)),
                    args: words.skip(1),
                    id_prefix: prefix_of(collector, node),
                    working_dir: config.project_root@,
                },
            )
        }
    }
}

fn joined_texts(parts: &Vec<String>, separator: &str) -> (r: String)
    ensures
        r@ == join(texts(parts@), separator@),
{
    let ghost all = texts(parts@);
    let mut list: Vec<Vec<char>> = Vec::new();
    let mut i: usize = 0;
    while i < parts.len()
        invariant
            i <= parts@.len(),
            all == texts(parts@),
            views(list@) == all.take(i as int),
        decreases parts.len() - i,
    {
        let part = chars_of(parts[i].as_str());
        let ghost was = list@;
        list.push(part);
        assert(views(list@) == views(was).push(part@));
        assert(all.take(i + 1) == all.take(i as int).push(all[i as int]));
        i += 1;
    }
    assert(all.take(i as int) == all);
    string_of(joined(list.as_slice(), chars_of(separator).as_slice()).as_slice())
}

pub fn login_text(config: &LoadedConfig, node: &NodeConfig) -> (r: String)
    ensures
        r@ == login(*config, *node),
{
    let user: &str = match &node.user {
        Some(user) => user.as_str(),
        None => config.config.ssh.user.as_str(),
    };
    glue3(user, "@", node.host.as_str())
}

/// Prepares the command of a collector on a node, or here without one.
pub fn make_spec<'a>(
    config: &LoadedConfig,
    collector: &'a CollectorConfig,
    node: Option<&'a NodeConfig>,
    place: &RunPlace,
    rules: &Result<RouteNormalizer, String>,
) -> (r: Result<ExecutionSpec<'a>, SpecError>)
    ensures
        match r {
            Ok(spec) => {
                &&& spec_of(*config, *collector, node, *place, loaded(*rules)) == Ok::<SpecView, SpecFault>(
                    spec.command(),
                )
                &&& spec.collector == collector
                &&& spec.node == node
            },
            Err(error) => spec_of(*config, *collector, node, *place, loaded(*rules)) == Err::<
                SpecView,
                SpecFault,
            >(error@),
        },
{
    let ghost command = texts(collector.command@);
    assert(command.len() == collector.command@.len());
    let groups: String = if needs_routes(collector) {
        match rules {
            Ok(rules) => match rules.alp_matching_groups() {
                Ok(text) => text,
                Err(error) => {
                    return Err(SpecError::Routes(error));
                },
            },
            Err(error) => {
                return Err(SpecError::Unreadable(error.clone()));
            },
        }
    } else {
        String::new()
    };
    assert(!wants_groups(command) ==> groups@ == Seq::<char>::empty());
    if collector.command.len() == 0 {
        return Err(SpecError::EmptyCommand);
    }
    let (name, host): (&str, &str) = match node {
        Some(n) => (n.name.as_str(), n.host.as_str()),
        None => ("local", "localhost"),
    };
    let values = Values {
        run_id: place.run_id.clone(),
        run_dir: place.run_dir.clone(),
        node: name.to_owned(),
        host: host.to_owned(),
        groups,
        units: joined_texts(&config.config.observability.service_units, " "),
        windows: RunWindows {
            started_at: place.windows.started_at.clone(),
            load_started_at: place.windows.load_started_at.clone(),
            finished_at: place.windows.finished_at.clone(),
        },
    };
    assert(values@ == placeholders_of(*config, node, *place, groups@));
    let words = fill_words(&collector.command, &values);
    let ghost all = texts(words@);
    assert(all.len() == command.len());
    let plain_collector = sanitize(collector.name.as_str());
    let plain_node = sanitize(name);
    let id_prefix = glue5(
        plain_collector.as_str(),
        "-",
        plain_node.as_str(),
        "-",
        collector.phase.as_str(),
    );
    if collector.transport == Transport::Ssh {
        match node {
            None => {
                return Err(SpecError::NoNode);
            },
            Some(n) => {
                let mut args = config.ssh_options();
                let target = login_text(config, n);
                push_text(&mut args, target.as_str());
                push_text(&mut args, "--");
                let line = quote_command(&words);
                push_text(&mut args, line.as_str());
                return Ok(
                    ExecutionSpec {
                        collector,
                        node,
                        program: "ssh".to_owned(),
                        args,
                        id_prefix,
                        working_dir: config.project_root.clone(),
                    },
                );
            },
        }
    }
    assert(all[0] == words@[0]@);
    let program: String = match &place.program {
        Some(current) => if same(words[0].as_str(), "isuscope") {
            current.clone()
        } else {
            words[0].clone()
        },
        None => words[0].clone(),
    };
    let mut args: Vec<String> = Vec::new();
    let mut i: usize = 1;
    assert(texts(args@) == all.skip(1).take(0));
    while i < words.len()
        invariant
            1 <= i <= words@.len(),
            all == texts(words@),
            texts(args@) == all.skip(1).take(i - 1),
        decreases words.len() - i,
    {
        push_text(&mut args, words[i].as_str());
        assert(all.skip(1).take(i as int) == all.skip(1).take(i - 1).push(all[i as int]));
        i += 1;
    }
    assert(all.skip(1).take(i - 1) == all.skip(1));
    Ok(
        ExecutionSpec {
            collector,
            node,
            program,
            args,
            id_prefix,
            working_dir: config.project_root.clone(),
        },
    )
}

/// The commands of a collector on some nodes, or the fault of the first that has one.
pub open spec fn specs_on(
    config: LoadedConfig,
    collector: CollectorConfig,
    nodes: Seq<NodeConfig>,
    place: RunPlace,
    rules: LoadedRules,
) -> Result<Seq<SpecView>, SpecFault>
    decreases nodes.len(),
{
    if nodes.len() == 0 {
        Ok(Seq::empty())
    } else {
        match specs_on(config, collector, nodes.drop_last(), place, rules) {
            Err(fault) => Err(fault),
            Ok(specs) => match spec_of(config, collector, Some(&nodes.last()), place, rules) {
                Err(fault) => Err(fault),
                Ok(spec) => Ok(specs.push(spec)),
            },
        }
    }
}

/// The commands of a collector: one here, or one on each of its nodes.
pub open spec fn expanded(
    config: LoadedConfig,
    collector: CollectorConfig,
    place: RunPlace,
    rules: LoadedRules,
) -> Result<Seq<SpecView>, SpecFault> {
    if collector.transport == Transport::Local {
        match spec_of(config, collector, None, place, rules) {
            Ok(spec) => Ok(seq![spec]),
            Err(fault) => Err(fault),
        }
    } else {
        specs_on(
            config,
            collector,
            config.config.nodes@.filter(is_target(texts(collector.roles@))),
            place,
            rules,
        )
    }
}

pub open spec fn commands<'a>(specs: Seq<ExecutionSpec<'a>>) -> Seq<SpecView> {
    specs.map_values(|s: ExecutionSpec<'a>| s.command())
}

proof fn first_spec_fault_stays(
    config: LoadedConfig,
    collector: CollectorConfig,
    nodes: Seq<NodeConfig>,
    place: RunPlace,
    rules: LoadedRules,
    i: int,
)
    requires
        0 <= i <= nodes.len(),
        specs_on(config, collector, nodes.take(i), place, rules) is Err,
    ensures
        specs_on(config, collector, nodes, place, rules) == specs_on(
            config,
            collector,
            nodes.take(i),
            place,
            rules,
        ),
    decreases nodes.len() - i,
{
    if i < nodes.len() {
        assert(nodes.take(i + 1).drop_last() == nodes.take(i));
        first_spec_fault_stays(config, collector, nodes, place, rules, i + 1);
    } else {
        assert(nodes.take(i) == nodes);
    }
}

/// The node of each command is one of the nodes of the collector, in their order.
pub open spec fn on_nodes<'a>(specs: Seq<ExecutionSpec<'a>>, nodes: Seq<NodeConfig>) -> bool {
    specs.len() == nodes.len() && forall|i: int|
        0 <= i < specs.len() ==> ((#[trigger] specs[i]).node matches Some(n) && *n == nodes[i])
}

/// Prepares the commands of a collector.
pub fn expand<'a>(
    config: &'a LoadedConfig,
    collector: &'a CollectorConfig,
    place: &RunPlace,
    rules: &Result<RouteNormalizer, String>,
) -> (r: Result<Vec<ExecutionSpec<'a>>, SpecError>)
    ensures
        match r {
            Ok(specs) => {
                &&& expanded(*config, *collector, *place, loaded(*rules)) == Ok::<Seq<SpecView>, SpecFault>(
                    commands(specs@),
                )
                &&& forall|i: int|
                    0 <= i < specs@.len() ==> (#[trigger] specs@[i]).collector == collector
                &&& collector.transport == Transport::Local ==> specs@.len() == 1
                    && specs@[0].node is None
                &&& collector.transport == Transport::Ssh ==> on_nodes(
                    specs@,
                    config.config.nodes@.filter(is_target(texts(collector.roles@))),
                )
            },
            Err(error) => expanded(*config, *collector, *place, loaded(*rules)) == Err::<
                Seq<SpecView>,
                SpecFault,
            >(error@),
        },
{
    let mut out: Vec<ExecutionSpec<'a>> = Vec::new();
    if collector.transport == Transport::Local {
        match make_spec(config, collector, None, place, rules) {
            Ok(spec) => {
                out.push(spec);
                assert(commands(out@) == seq![spec.command()]);
                return Ok(out);
            },
            Err(error) => {
                return Err(error);
            },
        }
    }
    let nodes = targets(config, collector);
    let ghost all = derefs(nodes@);
    let mut i: usize = 0;
    assert(all.take(0) == Seq::<NodeConfig>::empty());
    assert(commands(out@) == Seq::<SpecView>::empty());
    while i < nodes.len()
        invariant
            i <= nodes@.len(),
            all == derefs(nodes@),
            all == config.config.nodes@.filter(is_target(texts(collector.roles@))),
            collector.transport == Transport::Ssh,
            out@.len() == i,
            specs_on(*config, *collector, all.take(i as int), *place, loaded(*rules)) == Ok::<
                Seq<SpecView>,
                SpecFault,
            >(commands(out@)),
            forall|j: int| 0 <= j < i ==> (#[trigger] out@[j]).collector == collector,
            forall|j: int|
                0 <= j < i ==> ((#[trigger] out@[j]).node matches Some(n) && *n == all[j]),
        decreases nodes.len() - i,
    {
        proof {
            assert(all.take(i + 1).drop_last() == all.take(i as int));
            assert(all.take(i + 1).last() == *nodes@[i as int]);
        }
        match make_spec(config, collector, Some(nodes[i]), place, rules) {
            Ok(spec) => {
                let ghost was = out@;
                out.push(spec);
                assert(commands(out@) == commands(was).push(spec.command()));
            },
            Err(error) => {
                proof {
                    first_spec_fault_stays(*config, *collector, all, *place, loaded(*rules), i + 1);
                }
                return Err(error);
            },
        }
        i += 1;
    }
    assert(all.take(i as int) == all);
    Ok(out)
}

/// No collector ever runs on a node that belongs to the benchmark.
pub proof fn rule_side_is_never_touched(nodes: Seq<NodeConfig>, roles: Seq<Seq<char>>, i: int)
    requires
        0 <= i < nodes.filter(is_target(roles)).len(),
    ensures
        !nodes.filter(is_target(roles))[i].rule_side,
{
    nodes.lemma_filter_pred(is_target(roles), i);
}

/// What came of a collector.
#[derive(Debug)]
pub struct CollectorOutput {
    pub result: CollectorResult,
    pub logs: Vec<LogRef>,
    pub metrics: Vec<Metric>,
    pub fingerprints: Vec<Fingerprint>,
    pub transitions: Vec<Transition>,
}

#[verifier::ext_equal]
pub struct ResultView {
    pub name: Seq<char>,
    pub node: Option<Seq<char>>,
    pub phase: Seq<char>,
    pub status: Seq<char>,
    pub exit_code: Option<i32>,
    pub error: Option<Seq<char>>,
    pub log_ids: Seq<Seq<char>>,
}

impl View for CollectorResult {
    type V = ResultView;

    open spec fn view(&self) -> ResultView {
        ResultView {
            name: self.name@,
            node: text_option(self.node),
            phase: self.phase@,
            status: self.status@,
            exit_code: self.exit_code,
            error: text_option(self.error),
            log_ids: texts(self.log_ids@),
        }
    }
}

#[verifier::ext_equal]
pub struct LogView {
    pub id: Seq<char>,
    pub kind: Seq<char>,
    pub node: Option<Seq<char>>,
}

impl View for LogRef {
    type V = LogView;

    open spec fn view(&self) -> LogView {
        LogView { id: self.id@, kind: self.kind@, node: text_option(self.node) }
    }
}

/// A collector that did not run, with the reason.
pub open spec fn unrun(
    collector: CollectorConfig,
    node: Option<Seq<char>>,
    status: Seq<char>,
    error: Seq<char>,
    out: CollectorOutput,
) -> bool {
    &&& out.result@ == (ResultView {
        name: collector.name@,
        node,
        phase: collector.phase.name(),
        status,
        exit_code: None,
        error: Some(error),
        log_ids: Seq::empty(),
    })
    &&& out.logs@.len() == 0
    &&& out.metrics@.len() == 0
    &&& out.fingerprints@.len() == 0
    &&& out.transitions@.len() == 0
}

fn not_run(collector: &CollectorConfig, node: Option<String>, status: &str, error: String) -> (r:
    CollectorOutput)
    ensures
        unrun(*collector, text_option(node), status@, error@, r),
{
    let ids: Vec<String> = Vec::new();
    assert(texts(ids@) == Seq::<Seq<char>>::empty());
    CollectorOutput {
        result: CollectorResult {
            name: collector.name.clone(),
            node,
            phase: collector.phase.as_str().to_owned(),
            status: status.to_owned(),
            exit_code: None,
            error: Some(error),
            log_ids: ids,
        },
        logs: Vec::new(),
        metrics: Vec::new(),
        fingerprints: Vec::new(),
        transitions: Vec::new(),
    }
}

/// A collector that could not be started.
pub fn failed(collector: &CollectorConfig, node: Option<String>, error: String) -> (r:
    CollectorOutput)
    ensures
        unrun(*collector, text_option(node), "failed"@, error@, r),
{
    not_run(collector, node, "failed", error)
}

/// A collector that had nothing to do.
pub fn skipped(collector: &CollectorConfig, reason: &str) -> (r: CollectorOutput)
    ensures
        unrun(*collector, None, "skipped"@, reason@, r),
{
    not_run(collector, None, "skipped", reason.to_owned())
}

/// How the capture of a stream ended.
#[derive(Debug)]
pub enum Captured {
    Complete,
    Truncated,
    Failed(String),
    TaskFailed(String),
}

/// What is said of a capture that did not end well.
pub open spec fn capture_fault(stream: Seq<char>, end: Captured, limit: nat) -> Option<Seq<char>> {
    match end {
        Captured::Complete => None,
        Captured::Truncated => Some(
            stream + " truncated at "@ + crate::text::decimal(limit) + " bytes"@,
        ),
        Captured::Failed(error) => Some(stream + " capture failed: "@ + error@),
        Captured::TaskFailed(error) => Some(stream + " capture task failed: "@ + error@),
    }
}

pub fn capture_error(stream: &str, end: &Captured, limit: u64) -> (r: Option<String>)
    ensures
        text_option(r) == capture_fault(stream@, *end, limit as nat),
{
    match end {
        Captured::Complete => None,
        Captured::Truncated => {
            let bytes = string_of(crate::text::decimal_of(limit).as_slice());
            let head = glue3(stream, " truncated at ", bytes.as_str());
            Some(glue2(head.as_str(), " bytes"))
        },
        Captured::Failed(error) => Some(glue3(stream, " capture failed: ", error.as_str())),
        Captured::TaskFailed(error) => Some(
            glue3(stream, " capture task failed: ", error.as_str()),
        ),
    }
}

/// What is known when a collector has ended.
#[derive(Debug)]
pub struct Ending {
    pub exit_code: Option<i32>,
    /// Why it was stopped or could not be waited for.
    pub error: Option<String>,
    /// It was stopped because its time was over.
    pub intentionally_stopped: bool,
    pub stdout: Captured,
    pub stderr: Captured,
    /// Why the log of the output could not be written.
    pub stdout_log_error: Option<String>,
    pub stderr_log_error: Option<String>,
    /// The records of the output.
    pub metrics: Vec<Metric>,
    pub fingerprints: Vec<Fingerprint>,
    pub transitions: Vec<Transition>,
    /// What the parser of the collector made of the output, where it has one.
    pub parsed: Option<Result<Vec<Metric>, String>>,
    /// Why the artifact of the collector is not one.
    pub artifact_error: Option<String>,
}

/// How the wait for a collector ended.
#[derive(Debug)]
pub enum CollectorWait {
    Exited(Option<i32>),
    Failed(String),
    TimedOut,
    Interrupted,
}

/// Why a collector was stopped or could not be waited for.
pub open spec fn wait_fault(wait: CollectorWait, timeout_seconds: nat) -> Option<Seq<char>> {
    match wait {
        CollectorWait::Exited(_) => None,
        CollectorWait::Failed(error) => Some(error@),
        CollectorWait::TimedOut => Some(
            "collector timed out after "@ + decimal(timeout_seconds) + "s"@,
        ),
        CollectorWait::Interrupted => Some("interrupted by signal"@),
    }
}

/// The exit status of a collector, and why it was stopped or could not be waited for.
pub fn read_wait(wait: CollectorWait, timeout_seconds: u64) -> (r: (Option<i32>, Option<String>))
    ensures
        r.0 == (match wait {
            CollectorWait::Exited(code) => code,
            _ => None,
        }),
        text_option(r.1) == wait_fault(wait, timeout_seconds as nat),
{
    match wait {
        CollectorWait::Exited(code) => (code, None),
        CollectorWait::Failed(error) => (None, Some(error)),
        CollectorWait::TimedOut => {
            let seconds = string_of(decimal_of(timeout_seconds).as_slice());
            (None, Some(glue3("collector timed out after ", seconds.as_str(), "s")))
        },
        CollectorWait::Interrupted => (None, Some("interrupted by signal".to_owned())),
    }
}

pub open spec fn option_list(a: Option<Seq<char>>) -> Seq<Seq<char>> {
    match a {
        Some(s) => seq![s],
        None => Seq::empty(),
    }
}

/// The collector ended as it should.
pub open spec fn ended_well(end: Ending) -> bool {
    end.intentionally_stopped || end.exit_code == Some(0i32)
}

pub open spec fn parse_fault(end: Ending) -> Option<Seq<char>> {
    match end.parsed {
        Some(Err(error)) => Some("standard output parse failed: "@ + error@),
        _ => None,
    }
}

pub open spec fn artifact_fault(end: Ending) -> Option<Seq<char>> {
    if end.error is None && ended_well(end) {
        text_option(end.artifact_error)
    } else {
        None
    }
}

/// Everything that went wrong after the collector ended, in order.
pub open spec fn troubles(end: Ending, limit: nat) -> Seq<Seq<char>> {
    option_list(capture_fault("stdout"@, end.stdout, limit)) + option_list(
        capture_fault("stderr"@, end.stderr, limit),
    ) + option_list(text_option(end.stdout_log_error)) + option_list(
        text_option(end.stderr_log_error),
    ) + option_list(parse_fault(end)) + option_list(artifact_fault(end))
}

/// The error of the collector, with what went wrong afterwards.
pub open spec fn whole_error(end: Ending, limit: nat) -> Option<Seq<char>> {
    let more = troubles(end, limit);
    match end.error {
        Some(error) => if more.len() == 0 {
            Some(error@)
        } else {
            Some(error@ + "; "@ + join(more, "; "@))
        },
        None => if more.len() == 0 {
            None
        } else {
            Some(join(more, "; "@))
        },
    }
}

/// The status of a collector: an exit code that says so makes it unavailable, and anything that
/// went wrong makes it failed.
pub open spec fn status_of(
    error: Option<Seq<char>>,
    end: Ending,
    unavailable_codes: Seq<i32>,
) -> Seq<char> {
    if error is None && (end.exit_code matches Some(code) && unavailable_codes.contains(code)) {
        "unavailable"@
    } else if error is None && ended_well(end) {
        "complete"@
    } else {
        "failed"@
    }
}

/// The logs that were written.
pub open spec fn logs_of(
    prefix: Seq<char>,
    collector: Seq<char>,
    node: Option<Seq<char>>,
    end: Ending,
) -> Seq<LogView> {
    let out = if end.stdout_log_error is None {
        seq![
            LogView {
                id: prefix + "-stdout"@,
                kind: "collector:"@ + collector + ":stdout"@,
                node,
            },
        ]
    } else {
        Seq::empty()
    };
    let err = if end.stderr_log_error is None {
        seq![
            LogView {
                id: prefix + "-stderr"@,
                kind: "collector:"@ + collector + ":stderr"@,
                node,
            },
        ]
    } else {
        Seq::empty()
    };
    out + err
}

/// The labels with one more, where they do not have it yet.
pub open spec fn with_default(labels: Seq<Pair>, name: Seq<char>, value: Seq<char>) -> Seq<Pair> {
    if lookup(labels, name) is Some {
        labels
    } else {
        with_label(labels, name, value)
    }
}

pub open spec fn of_samples(name: Seq<char>) -> bool {
    name == "cpu.sample_count"@ || name == "cpu.sample_percent"@
}

/// The labels of a processor sample with the canonical names of binary and symbol.
pub open spec fn perf_labels(name: Seq<char>, labels: Seq<Pair>) -> Seq<Pair> {
    if !of_samples(name) {
        labels
    } else {
        let a = match lookup(labels, "binary"@) {
            Some(value) => with_label(labels, "binary"@, binary_name(value)),
            None => labels,
        };
        match lookup(a, "symbol"@) {
            Some(value) => with_label(a, "symbol"@, symbol_name(value)),
            None => a,
        }
    }
}

/// A metric as it is kept: with the collector and the node it comes from, where it does not say
/// so itself.
pub open spec fn placed(collector: Seq<char>, node: Option<Seq<char>>) -> spec_fn(
    MetricView,
) -> MetricView {
    |m: MetricView|
        {
            let named = with_default(perf_labels(m.name, m.labels), "collector"@, collector);
            MetricView {
                labels: match node {
                    Some(n) => with_default(named, "node"@, n),
                    None => named,
                },
                ..m
            }
        }
}

pub open spec fn placed_print(node: Option<Seq<char>>) -> spec_fn(
    FingerprintView,
) -> FingerprintView {
    |p: FingerprintView|
        FingerprintView {
            labels: match node {
                Some(n) => with_default(p.labels, "node"@, n),
                None => p.labels,
            },
            ..p
        }
}

/// The metrics of the records and of the parser.
pub open spec fn all_metrics(end: Ending) -> Seq<MetricView> {
    match end.parsed {
        Some(Ok(parsed)) => value_views(end.metrics@) + value_views(parsed@),
        _ => value_views(end.metrics@),
    }
}

/// What a collector that ended comes to.
pub open spec fn finalized(spec: ExecutionSpec<'_>, end: Ending, out: CollectorOutput) -> bool {
    let collector = *spec.collector;
    let node = match spec.node {
        Some(n) => Some(n.name@),
        None => None,
    };
    let error = whole_error(end, collector.max_output_bytes as nat);
    let logs = logs_of(spec.id_prefix@, collector.name@, node, end);
    &&& out.result@ == (ResultView {
        name: collector.name@,
        node,
        phase: collector.phase.name(),
        status: status_of(error, end, collector.unavailable_exit_codes@),
        exit_code: end.exit_code,
        error,
        log_ids: logs.map_values(|l: LogView| l.id),
    })
    &&& value_views(out.logs@) == logs
    &&& value_views(out.metrics@) == all_metrics(end).map_values(placed(collector.name@, node))
    &&& value_views(out.fingerprints@) == value_views(end.fingerprints@).map_values(
        placed_print(node),
    )
    &&& out.transitions == end.transitions
}

fn add_trouble(list: &mut Vec<Vec<char>>, trouble: &Option<String>)
    ensures
        views(final(list)@) == views(old(list)@) + option_list(text_option(*trouble)),
{
    let ghost before = list@;
    match trouble {
        Some(text) => {
            let chars = chars_of(text.as_str());
            list.push(chars);
            assert(views(list@) == views(before).push(chars@));
        },
        None => {},
    }
    assert(views(list@) == views(before) + option_list(text_option(*trouble)));
}

/// The last entry with this name in place of the others: how a label is added where it is missing.
pub fn add_default(labels: &mut Labels, name: &str, value: &str)
    ensures
        final(labels)@ == with_default(old(labels)@, name@, value@),
{
    if !labels.has(name) {
        labels.insert(name.to_owned(), value.to_owned());
    }
}

fn normalize_perf_labels(name: &str, labels: &mut Labels)
    ensures
        final(labels)@ == perf_labels(name@, old(labels)@),
{
    if !same(name, "cpu.sample_count") && !same(name, "cpu.sample_percent") {
        return;
    }
    let binary: Option<String> = match labels.get("binary") {
        Some(value) => Some(
            string_of(canonical_perf_binary(chars_of(value.as_str()).as_slice()).as_slice()),
        ),
        None => None,
    };
    match binary {
        Some(value) => {
            labels.insert("binary".to_owned(), value);
        },
        None => {},
    }
    let symbol: Option<String> = match labels.get("symbol") {
        Some(value) => Some(
            string_of(canonical_perf_symbol(chars_of(value.as_str()).as_slice()).as_slice()),
        ),
        None => None,
    };
    match symbol {
        Some(value) => {
            labels.insert("symbol".to_owned(), value);
        },
        None => {},
    }
}

fn place_metrics(metrics: Vec<Metric>, collector: &str, node: Option<&NodeConfig>) -> (r: Vec<
    Metric,
>)
    ensures
        value_views(r@) == value_views(metrics@).map_values(
            placed(
                collector@,
                match node {
                    Some(n) => Some(n.name@),
                    None => None,
                },
            ),
        ),
{
    let ghost at = match node {
        Some(n) => Some(n.name@),
        None => None,
    };
    let ghost each = placed(collector@, at);
    let ghost source = metrics@;
    let ghost all = value_views(source);
    let mut out: Vec<Metric> = Vec::new();
    assert(value_views(out@) == all.take(0).map_values(each));
    for metric in it: metrics
        invariant
            it.seq() == source,
            all == value_views(source),
            at == (match node {
                Some(n) => Some(n.name@),
                None => None,
            }),
            each == placed(collector@, at),
            value_views(out@) == all.take(it.index() as int).map_values(each),
    {
        let ghost m = metric@;
        let mut labels = metric.labels;
        normalize_perf_labels(metric.name.as_str(), &mut labels);
        add_default(&mut labels, "collector", collector);
        match node {
            Some(n) => {
                add_default(&mut labels, "node", n.name.as_str());
            },
            None => {},
        }
        let kept = Metric {
            name: metric.name,
            value: metric.value,
            unit: metric.unit,
            timestamp: metric.timestamp,
            labels,
        };
        let ghost was = out@;
        out.push(kept);
        assert(kept@ == each(m));
        assert(value_views(out@) == value_views(was).push(kept@));
        assert(all.take(it.index() + 1).map_values(each) == all.take(
            it.index() as int,
        ).map_values(each).push(each(m)));
    }
    assert(all.take(all.len() as int) == all);
    out
}

fn place_prints(prints: Vec<Fingerprint>, node: Option<&NodeConfig>) -> (r: Vec<Fingerprint>)
    ensures
        value_views(r@) == value_views(prints@).map_values(
            placed_print(
                match node {
                    Some(n) => Some(n.name@),
                    None => None,
                },
            ),
        ),
{
    let ghost at = match node {
        Some(n) => Some(n.name@),
        None => None,
    };
    let ghost each = placed_print(at);
    let ghost source = prints@;
    let ghost all = value_views(source);
    let mut out: Vec<Fingerprint> = Vec::new();
    assert(value_views(out@) == all.take(0).map_values(each));
    for print in it: prints
        invariant
            it.seq() == source,
            all == value_views(source),
            at == (match node {
                Some(n) => Some(n.name@),
                None => None,
            }),
            each == placed_print(at),
            value_views(out@) == all.take(it.index() as int).map_values(each),
    {
        let ghost p = print@;
        let mut labels = print.labels;
        match node {
            Some(n) => {
                add_default(&mut labels, "node", n.name.as_str());
            },
            None => {},
        }
        let kept = Fingerprint { name: print.name, value: print.value, labels };
        let ghost was = out@;
        out.push(kept);
        assert(kept@ == each(p));
        assert(value_views(out@) == value_views(was).push(kept@));
        assert(all.take(it.index() + 1).map_values(each) == all.take(
            it.index() as int,
        ).map_values(each).push(each(p)));
    }
    assert(all.take(all.len() as int) == all);
    out
}

fn log_for(prefix: &str, collector: &str, node: Option<&NodeConfig>, stream: &str) -> (r: LogRef)
    ensures
        r@ == (LogView {
            id: prefix@ + "-"@ + stream@,
            kind: "collector:"@ + collector@ + ":"@ + stream@,
            node: match node {
                Some(n) => Some(n.name@),
                None => None,
            },
        }),
{
    let kind = glue3("collector:", collector, ":");
    LogRef {
        id: glue3(prefix, "-", stream),
        kind: glue2(kind.as_str(), stream),
        node: match node {
            Some(n) => Some(n.name.clone()),
            None => None,
        },
    }
}

fn has_code(codes: &Vec<i32>, code: i32) -> (r: bool)
    ensures
        r == codes@.contains(code),
{
    let mut i: usize = 0;
    while i < codes.len()
        invariant
            i <= codes@.len(),
            forall|j: int| 0 <= j < i ==> codes@[j] != code,
        decreases codes.len() - i,
    {
        if codes[i] == code {
            return true;
        }
        i += 1;
    }
    false
}

fn gather_troubles(end: &Ending, limit: u64) -> (r: Vec<Vec<char>>)
    ensures
        views(r@) == troubles(*end, limit as nat),
{
    let mut list: Vec<Vec<char>> = Vec::new();
    assert(views(list@) == Seq::<Seq<char>>::empty());
    let stdout = capture_error("stdout", &end.stdout, limit);
    let stderr = capture_error("stderr", &end.stderr, limit);
    add_trouble(&mut list, &stdout);
    add_trouble(&mut list, &stderr);
    add_trouble(&mut list, &end.stdout_log_error);
    add_trouble(&mut list, &end.stderr_log_error);
    let parse: Option<String> = match &end.parsed {
        Some(Err(error)) => Some(glue2("standard output parse failed: ", error.as_str())),
        _ => None,
    };
    add_trouble(&mut list, &parse);
    let well = end.intentionally_stopped || (match end.exit_code {
        Some(code) => code == 0,
        None => false,
    });
    assert(well == ended_well(*end));
    if end.error.is_none() && well {
        add_trouble(&mut list, &end.artifact_error);
    } else {
        assert(views(list@) + option_list(None) == views(list@));
    }
    proof {
        let a = option_list(capture_fault("stdout"@, end.stdout, limit as nat));
        assert(Seq::<Seq<char>>::empty() + a == a);
    }
    list
}

/// Decides what a collector that ended comes to.
pub fn finalize(spec: &ExecutionSpec<'_>, end: Ending) -> (r: CollectorOutput)
    ensures
        finalized(*spec, end, r),
{
    let collector = spec.collector;
    let ghost node = match spec.node {
        Some(n) => Some(n.name@),
        None => None,
    };
    let ghost whole = end;
    let more = gather_troubles(&end, collector.max_output_bytes);
    assert(views(more@).len() == more@.len());
    let semicolon = chars_of("; ");
    let error: Option<String> = if more.len() == 0 {
        match &end.error {
            Some(error) => Some(error.clone()),
            None => None,
        }
    } else {
        let rest = string_of(joined(more.as_slice(), semicolon.as_slice()).as_slice());
        match &end.error {
            Some(error) => Some(glue3(error.as_str(), "; ", rest.as_str())),
            None => Some(rest),
        }
    };
    assert(text_option(error) == whole_error(whole, collector.max_output_bytes as nat));
    let well = end.intentionally_stopped || (match end.exit_code {
        Some(code) => code == 0,
        None => false,
    });
    let unavailable = error.is_none() && (match end.exit_code {
        Some(code) => has_code(&collector.unavailable_exit_codes, code),
        None => false,
    });
    let status: &str = if unavailable {
        "unavailable"
    } else if error.is_none() && well {
        "complete"
    } else {
        "failed"
    };
    assert(status@ == status_of(text_option(error), whole, collector.unavailable_exit_codes@));
    let mut logs: Vec<LogRef> = Vec::new();
    let mut ids: Vec<String> = Vec::new();
    let ghost ids_of = |l: LogView| l.id;
    proof {
        reveal_strlit("-");
        reveal_strlit("stdout");
        reveal_strlit("stderr");
        reveal_strlit("-stdout");
        reveal_strlit("-stderr");
        reveal_strlit(":");
        reveal_strlit(":stdout");
        reveal_strlit(":stderr");
        assert("-"@ + "stdout"@ == "-stdout"@);
        assert("-"@ + "stderr"@ == "-stderr"@);
        assert(":"@ + "stdout"@ == ":stdout"@);
        assert(":"@ + "stderr"@ == ":stderr"@);
        let p = spec.id_prefix@;
        let k = "collector:"@ + collector.name@;
        assert(p + "-"@ + "stdout"@ == p + "-stdout"@);
        assert(p + "-"@ + "stderr"@ == p + "-stderr"@);
        assert(k + ":"@ + "stdout"@ == k + ":stdout"@);
        assert(k + ":"@ + "stderr"@ == k + ":stderr"@);
    }
    if end.stdout_log_error.is_none() {
        let log = log_for(
            spec.id_prefix.as_str(),
            collector.name.as_str(),
            spec.node,
            "stdout",
        );
        push_text(&mut ids, log.id.as_str());
        logs.push(log);
    }
    if end.stderr_log_error.is_none() {
        let log = log_for(
            spec.id_prefix.as_str(),
            collector.name.as_str(),
            spec.node,
            "stderr",
        );
        push_text(&mut ids, log.id.as_str());
        logs.push(log);
    }
    proof {
        let expected = logs_of(spec.id_prefix@, collector.name@, node, whole);
        assert(value_views(logs@) == expected);
        assert(texts(ids@) == expected.map_values(ids_of));
    }
    let mut metrics = end.metrics;
    match end.parsed {
        Some(Ok(parsed)) => {
            let ghost before = metrics@;
            let ghost added = parsed@;
            let mut parsed = parsed;
            metrics.append(&mut parsed);
            assert(value_views(metrics@) == value_views(before) + value_views(added));
        },
        _ => {},
    }
    assert(value_views(metrics@) == all_metrics(whole));
    let metrics = place_metrics(metrics, collector.name.as_str(), spec.node);
    let fingerprints = place_prints(end.fingerprints, spec.node);
    CollectorOutput {
        result: CollectorResult {
            name: collector.name.clone(),
            node: match spec.node {
                Some(n) => Some(n.name.clone()),
                None => None,
            },
            phase: collector.phase.as_str().to_owned(),
            status: status.to_owned(),
            exit_code: end.exit_code,
            error,
            log_ids: ids,
        },
        logs,
        metrics,
        fingerprints,
        transitions: end.transitions,
    }
}

/// A collector is complete only if nothing went wrong with it or with its output: a truncated
/// output, a log that was not written, a parser that failed or an artifact that is none make it
/// fail.
pub proof fn trouble_is_never_complete(end: Ending, limit: nat, codes: Seq<i32>)
    requires
        troubles(end, limit).len() > 0 || end.error is Some,
    ensures
        status_of(whole_error(end, limit), end, codes) == "failed"@,
{
}

/// Why the artifact of a collector is not one.
#[derive(Clone, Debug, PartialEq, Eq)]
pub enum ArtifactError {
    /// The log is damaged.
    Corrupt(String),
    /// The log is not UTF-8.
    NotText,
    NotSvg,
    NoSamples,
    NotFolded,
}

pub enum ArtifactFault {
    Corrupt(Seq<char>),
    NotText,
    NotSvg,
    NoSamples,
    NotFolded,
}

impl View for ArtifactError {
    type V = ArtifactFault;

    open spec fn view(&self) -> ArtifactFault {
        match self {
            ArtifactError::Corrupt(error) => ArtifactFault::Corrupt(error@),
            ArtifactError::NotText => ArtifactFault::NotText,
            ArtifactError::NotSvg => ArtifactFault::NotSvg,
            ArtifactError::NoSamples => ArtifactFault::NoSamples,
            ArtifactError::NotFolded => ArtifactFault::NotFolded,
        }
    }
}

impl ArtifactError {
    pub open spec fn text(self) -> Seq<char> {
        match self {
            ArtifactError::Corrupt(error) => error@,
            ArtifactError::NotText => "stream did not contain valid UTF-8"@,
            ArtifactError::NotSvg => "perf-flamegraph output is not a complete SVG document"@,
            ArtifactError::NoSamples => "offcpu output has no samples"@,
            ArtifactError::NotFolded => "offcpu output is not folded stack format"@,
        }
    }

    pub fn message(&self) -> (r: String)
        ensures
            r@ == self.text(),
    {
        match self {
            ArtifactError::Corrupt(error) => error.clone(),
            ArtifactError::NotText => "stream did not contain valid UTF-8".to_owned(),
            ArtifactError::NotSvg =>
                "perf-flamegraph output is not a complete SVG document".to_owned(),
            ArtifactError::NoSamples => "offcpu output has no samples".to_owned(),
            ArtifactError::NotFolded => "offcpu output is not folded stack format".to_owned(),
        }
    }
}

/// A whole SVG document.
pub open spec fn is_svg(text: Seq<char>) -> bool {
    contains_text(trim(text), "<svg"@) && ends(trim(text), "</svg>"@)
}

/// A stack and the number of its samples after the last space.
pub open spec fn is_folded(line: Seq<char>) -> bool {
    split_last(line, ' ') matches Some((stack, count)) && stack.len() > 0 && parsed_number(
        count,
        0xffff_ffff_ffff_ffff,
    ) is Some
}

pub open spec fn is_written_line() -> spec_fn(Seq<char>) -> bool {
    |line: Seq<char>| !is_blank(line)
}

/// What is wrong with the artifact of a collector; other collectors have none.
pub open spec fn artifact_error(name: Seq<char>, text: Seq<char>) -> Option<ArtifactFault> {
    if name == "perf-flamegraph"@ {
        if is_svg(text) {
            None
        } else {
            Some(ArtifactFault::NotSvg)
        }
    } else if name == "offcpu"@ {
        let written = lines(text).filter(is_written_line());
        if written.len() == 0 {
            Some(ArtifactFault::NoSamples)
        } else if exists|i: int| 0 <= i < written.len() && !is_folded(#[trigger] written[i]) {
            Some(ArtifactFault::NotFolded)
        } else {
            None
        }
    } else {
        None
    }
}

fn folded(line: &[char]) -> (r: bool)
    ensures
        r == is_folded(line@),
{
    match last_halves(line, ' ') {
        Some((stack, count)) => stack.len() > 0 && number_of(
            count.as_slice(),
            u64::MAX,
        ).is_some(),
        None => false,
    }
}

fn is_whole_svg(text: &[char]) -> (r: bool)
    ensures
        r == is_svg(text@),
{
    let short = trimmed(text);
    let whole = string_of(short.as_slice());
    has_text(whole.as_str(), "<svg") && ends_with(short.as_slice(), chars_of("</svg>").as_slice())
}

/// Tells what is wrong with the text of an artifact.
pub fn check_artifact(name: &str, text: &str) -> (r: Option<ArtifactError>)
    ensures
        match r {
            Some(error) => artifact_error(name@, text@) == Some(error@),
            None => artifact_error(name@, text@) is None,
        },
{
    proof {
        reveal_strlit("perf-flamegraph");
        reveal_strlit("offcpu");
        assert("perf-flamegraph"@.len() == 15 && "offcpu"@.len() == 6);
    }
    let chars = chars_of(text);
    if same(name, "perf-flamegraph") {
        if is_whole_svg(chars.as_slice()) {
            return None;
        }
        return Some(ArtifactError::NotSvg);
    }
    if !same(name, "offcpu") {
        return None;
    }
    let log = lines_of(chars.as_slice());
    let ghost all = lines(text@);
    let ghost written = all.filter(is_written_line());
    let mut any = false;
    let mut wrong = false;
    let mut i: usize = 0;
    proof {
        reveal(Seq::filter);
        assert(all.take(0) == Seq::<Seq<char>>::empty());
        assert(all.take(0).filter(is_written_line()).len() == 0);
    }
    while i < log.len()
        invariant
            i <= log@.len(),
            all == views(log@),
            any == (all.take(i as int).filter(is_written_line()).len() > 0),
            wrong == exists|j: int|
                0 <= j < all.take(i as int).filter(is_written_line()).len() && !is_folded(
                    #[trigger] all.take(i as int).filter(is_written_line())[j],
                ),
        decreases log.len() - i,
    {
        let ghost head = all.take(i as int).filter(is_written_line());
        let ghost next = all.take(i + 1).filter(is_written_line());
        let line = log[i].as_slice();
        proof {
            reveal(Seq::filter);
            assert(all.take(i + 1).drop_last() == all.take(i as int));
            assert(all.take(i + 1).last() == line@);
        }
        if trimmed(line).len() > 0 {
            assert(next == head.push(line@));
            let ghost was = wrong;
            any = true;
            if !folded(line) {
                wrong = true;
            }
            proof {
                if !is_folded(line@) {
                    assert(!is_folded(next[head.len() as int]));
                }
                if was {
                    let j = choose|j: int| 0 <= j < head.len() && !is_folded(#[trigger] head[j]);
                    assert(next[j] == head[j]);
                }
                if exists|j: int| 0 <= j < next.len() && !is_folded(#[trigger] next[j]) {
                    let j = choose|j: int| 0 <= j < next.len() && !is_folded(#[trigger] next[j]);
                    if j < head.len() {
                        assert(!is_folded(head[j]));
                    }
                }
            }
        }
        i += 1;
    }
    assert(all.take(i as int) == all);
    if !any {
        Some(ArtifactError::NoSamples)
    } else if wrong {
        Some(ArtifactError::NotFolded)
    } else {
        None
    }
}

/// What is wrong with the log that holds the artifact of a collector.
pub open spec fn log_artifact_error(name: Seq<char>, log: Seq<u8>) -> Option<ArtifactFault> {
    if name != "perf-flamegraph"@ && name != "offcpu"@ {
        None
    } else {
        match decompressed(log) {
            Err(error) => Some(ArtifactFault::Corrupt(error)),
            Ok(output) => if vstd::utf8::valid_utf8(output) {
                artifact_error(name, vstd::utf8::decode_utf8(output))
            } else {
                Some(ArtifactFault::NotText)
            },
        }
    }
}

/// Refuses a profile that is not one.
pub fn validate_profile_artifact(name: &str, log: &[u8]) -> (r: Result<(), ArtifactError>)
    ensures
        match r {
            Ok(_) => log_artifact_error(name@, log@) is None,
            Err(error) => log_artifact_error(name@, log@) == Some(error@),
        },
{
    if !same(name, "perf-flamegraph") && !same(name, "offcpu") {
        return Ok(());
    }
    let raw = match decompress(log) {
        Ok(raw) => raw,
        Err(error) => {
            return Err(ArtifactError::Corrupt(error));
        },
    };
    match text_from_bytes(raw.as_slice()) {
        Some(text) => match check_artifact(name, text.as_str()) {
            Some(error) => Err(error),
            None => Ok(()),
        },
        None => Err(ArtifactError::NotText),
    }
}

/// Why the output of a tool cannot be read.
#[derive(Debug)]
pub enum ParseError {
    /// The log is not a complete Zstandard stream.
    Corrupt(String),
    /// The output is not UTF-8.
    NotText,
    Alp(AlpError),
    Windows(WindowError),
    Slp(SlpError),
    Perf(PerfError),
    Digest(CutInsideCharacter),
}

impl ParseError {
    pub open spec fn text(self, g: spec_fn(Number, u32) -> Seq<char>) -> Seq<char> {
        match self {
            ParseError::Corrupt(error) => error@,
            ParseError::NotText => "stream did not contain valid UTF-8"@,
            ParseError::Alp(error) => error.text(),
            ParseError::Windows(error) => error.text(),
            ParseError::Slp(error) => error.text(),
            ParseError::Perf(error) => error.text(g),
            ParseError::Digest(_) => "a digest would be cut inside a character"@,
        }
    }

    pub fn message<S: Fn(Number, u32) -> String>(&self, show: &S) -> (r: String)
        requires
            is_writer(*show),
        ensures
            r@ == self.text(written(*show)),
    {
        match self {
            ParseError::Corrupt(error) => error.clone(),
            ParseError::NotText => "stream did not contain valid UTF-8".to_owned(),
            ParseError::Alp(error) => error.message(),
            ParseError::Windows(error) => error.message(),
            ParseError::Slp(error) => error.message(),
            ParseError::Perf(error) => error.message(show),
            ParseError::Digest(_) => "a digest would be cut inside a character".to_owned(),
        }
    }
}

pub enum ParseFault {
    Corrupt(Seq<char>),
    NotText,
    Alp(AlpFault),
    Windows(WindowFault),
    Slp(SlpError),
    Perf(PerfError),
    Digest,
}

impl View for ParseError {
    type V = ParseFault;

    open spec fn view(&self) -> ParseFault {
        match self {
            ParseError::Corrupt(error) => ParseFault::Corrupt(error@),
            ParseError::NotText => ParseFault::NotText,
            ParseError::Alp(error) => ParseFault::Alp(error@),
            ParseError::Windows(error) => ParseFault::Windows(error@),
            ParseError::Slp(error) => ParseFault::Slp(*error),
            ParseError::Perf(error) => ParseFault::Perf(*error),
            ParseError::Digest(_) => ParseFault::Digest,
        }
    }
}

/// What a tool printed as text comes to.
pub open spec fn text_metrics(
    f: spec_fn(Op) -> Number,
    number: spec_fn(Seq<char>) -> Option<Number>,
    parser: CollectorParser,
    rules: LoadedRules,
    interval: Interval,
    grid: BucketGrid,
    raw: Seq<char>,
) -> Result<Seq<MetricView>, ParseFault> {
    match parser {
        CollectorParser::AlpJson => match routed_metrics(f, number, rules, json_of_text(raw)) {
            Ok(m) => Ok(m),
            Err(fault) => Err(ParseFault::Alp(fault)),
        },
        CollectorParser::AlpWindows => match all_windows(f, number, rules, lines(raw)) {
            Ok(m) => Ok(m),
            Err(fault) => Err(ParseFault::Windows(fault)),
        },
        CollectorParser::SlpJson => match slp_metrics_of(f, number, json_of_text(raw)) {
            Ok(m) => Ok(m),
            Err(error) => Err(ParseFault::Slp(error)),
        },
        CollectorParser::SlpTsv => match tsv_lines(f, number, lines(raw)) {
            Ok(m) => Ok(m),
            Err(error) => Err(ParseFault::Slp(error)),
        },
        CollectorParser::Sysstat => Ok(
            dated_metrics(f, number, interval, narrow(output_day(raw)), raw),
        ),
        CollectorParser::ServiceCgroup => {
            let samples = service_samples(f, interval, readings_in(raw));
            Ok(samples + summaries(f, samples))
        },
        CollectorParser::PerfScript => match perf_metrics(f, number, grid, raw) {
            Ok(m) => Ok(m),
            Err(error) => Err(ParseFault::Perf(error)),
        },
        // Read from bytes, and not from text.
        CollectorParser::MysqlSlow | CollectorParser::SlpWindows => Ok(Seq::empty()),
    }
}

/// What the output of a tool comes to. A slow log and statistics of statements may hold any bytes;
/// every other output is text.
pub open spec fn output_metrics(
    f: spec_fn(Op) -> Number,
    number: spec_fn(Seq<char>) -> Option<Number>,
    parser: CollectorParser,
    rules: LoadedRules,
    interval: Interval,
    grid: BucketGrid,
    output: Seq<u8>,
) -> Result<Seq<MetricView>, ParseFault> {
    match parser {
        CollectorParser::MysqlSlow => match log_metrics(f, number, slow_lines(output), interval) {
            Some(m) => Ok(m),
            None => Err(ParseFault::Digest),
        },
        CollectorParser::SlpWindows => Ok(slp_windows(f, number, lossy_text(output))),
        _ => if vstd::utf8::valid_utf8(output) {
            text_metrics(
                f,
                number,
                parser,
                rules,
                interval,
                grid,
                vstd::utf8::decode_utf8(output),
            )
        } else {
            Err(ParseFault::NotText)
        },
    }
}

pub open spec fn parse_view(r: Result<Vec<Metric>, ParseError>) -> Result<
    Seq<MetricView>,
    ParseFault,
> {
    match r {
        Ok(metrics) => Ok(value_views(metrics@)),
        Err(error) => Err(error@),
    }
}

/// Reads what a tool printed.
pub fn parse_output<F: Fn(Op) -> Number, R: Fn(&str) -> Option<Number>>(
    output: &[u8],
    parser: CollectorParser,
    rules: &Result<RouteNormalizer, String>,
    interval: Interval,
    grid: BucketGrid,
    compute: &F,
    read: &R,
) -> (r: Result<Vec<Metric>, ParseError>)
    requires
        is_arithmetic(*compute),
        is_reader(*read),
        on_calendar(grid.origin),
        on_calendar(grid.begin),
    ensures
        parse_view(r) == output_metrics(
            arithmetic(*compute),
            reading(*read),
            parser,
            loaded(*rules),
            interval,
            grid,
            output@,
        ),
{
    match parser {
        CollectorParser::MysqlSlow => {
            return match parse_mysql_slow_reader(output, interval, compute, read) {
                Ok(metrics) => Ok(metrics),
                Err(error) => Err(ParseError::Digest(error)),
            };
        },
        CollectorParser::SlpWindows => {
            let text = text_from_lossy(output);
            return Ok(parse_slp_windows(text.as_str(), compute, read));
        },
        _ => {},
    }
    let text = match text_from_bytes(output) {
        Some(text) => text,
        None => {
            return Err(ParseError::NotText);
        },
    };
    let raw = text.as_str();
    match parser {
        CollectorParser::AlpJson => match parse_alp_json(raw, rules, compute, read) {
            Ok(metrics) => Ok(metrics),
            Err(error) => Err(ParseError::Alp(error)),
        },
        CollectorParser::AlpWindows => match parse_alp_windows(raw, rules, compute, read) {
            Ok(metrics) => Ok(metrics),
            Err(error) => Err(ParseError::Windows(error)),
        },
        CollectorParser::SlpJson => match parse_slp_json(raw, compute, read) {
            Ok(metrics) => Ok(metrics),
            Err(error) => Err(ParseError::Slp(error)),
        },
        CollectorParser::SlpTsv => match parse_slp_tsv(raw, compute, read) {
            Ok(metrics) => Ok(metrics),
            Err(error) => Err(ParseError::Slp(error)),
        },
        CollectorParser::Sysstat => Ok(parse_sysstat(raw, interval, compute, read)),
        CollectorParser::ServiceCgroup => Ok(parse_service_cgroup(raw, interval, compute)),
        CollectorParser::PerfScript => match parse_perf_script(raw, grid, compute, read) {
            Ok(metrics) => Ok(metrics),
            Err(error) => Err(ParseError::Perf(error)),
        },
        CollectorParser::MysqlSlow | CollectorParser::SlpWindows => {
            assert(false);
            Err(ParseError::NotText)
        },
    }
}

/// What the log of a tool comes to.
pub open spec fn standard_metrics(
    f: spec_fn(Op) -> Number,
    number: spec_fn(Seq<char>) -> Option<Number>,
    parser: CollectorParser,
    rules: LoadedRules,
    interval: Interval,
    grid: BucketGrid,
    log: Seq<u8>,
) -> Result<Seq<MetricView>, ParseFault> {
    match decompressed(log) {
        Ok(output) => output_metrics(f, number, parser, rules, interval, grid, output),
        Err(error) => Err(ParseFault::Corrupt(error)),
    }
}

/// Reads the compressed log of what a tool printed.
pub fn parse_standard_output<F: Fn(Op) -> Number, R: Fn(&str) -> Option<Number>>(
    log: &[u8],
    parser: CollectorParser,
    rules: &Result<RouteNormalizer, String>,
    interval: Interval,
    grid: BucketGrid,
    compute: &F,
    read: &R,
) -> (r: Result<Vec<Metric>, ParseError>)
    requires
        is_arithmetic(*compute),
        is_reader(*read),
        on_calendar(grid.origin),
        on_calendar(grid.begin),
    ensures
        parse_view(r) == standard_metrics(
            arithmetic(*compute),
            reading(*read),
            parser,
            loaded(*rules),
            interval,
            grid,
            log@,
        ),
{
    match decompress(log) {
        Ok(output) => parse_output(
            output.as_slice(),
            parser,
            rules,
            interval,
            grid,
            compute,
            read,
        ),
        Err(error) => Err(ParseError::Corrupt(error)),
    }
}

/// From when to when a benchmark ran.
pub open spec fn interval_of(benchmark: BenchmarkResult) -> Interval {
    match (benchmark.started_at, benchmark.finished_at) {
        (Some(start), Some(end)) => Some((start, end)),
        _ => None,
    }
}

pub fn benchmark_interval(benchmark: &BenchmarkResult) -> (r: Interval)
    ensures
        r == interval_of(*benchmark),
{
    match (benchmark.started_at, benchmark.finished_at) {
        (Some(start), Some(end)) => Some((start, end)),
        _ => None,
    }
}

/// The collectors of a phase: those that do not run, and the commands of those that do.
#[derive(Debug)]
pub struct PhasePlan<'a> {
    pub settled: Vec<CollectorOutput>,
    pub jobs: Vec<ExecutionSpec<'a>>,
}

/// What is said at once of a collector that has no command to run.
pub open spec fn settled_at_once(
    config: LoadedConfig,
    place: RunPlace,
    rules: LoadedRules,
) -> spec_fn(CollectorConfig) -> Option<(Seq<char>, Seq<char>)> {
    |c: CollectorConfig|
        match expanded(config, c, place, rules) {
            Err(fault) => Some(("failed"@, fault.message())),
            Ok(specs) => if specs.len() == 0 {
                Some(("skipped"@, "no node matched collector roles"@))
            } else {
                None
            },
        }
}

pub open spec fn commands_of(config: LoadedConfig, place: RunPlace, rules: LoadedRules) -> spec_fn(
    CollectorConfig,
) -> Seq<SpecView> {
    |c: CollectorConfig|
        match expanded(config, c, place, rules) {
            Err(_) => Seq::empty(),
            Ok(specs) => specs,
        }
}

pub open spec fn has_settled(
    config: LoadedConfig,
    place: RunPlace,
    rules: LoadedRules,
) -> spec_fn(CollectorConfig) -> bool {
    |c: CollectorConfig| settled_at_once(config, place, rules)(c) is Some
}

/// The plan of some collectors: all their commands in their order, and what is said at once of each
/// that has none.
pub open spec fn planned(
    config: LoadedConfig,
    collectors: Seq<CollectorConfig>,
    place: RunPlace,
    rules: LoadedRules,
    plan: PhasePlan<'_>,
) -> bool {
    let idle = collectors.filter(has_settled(config, place, rules));
    &&& commands(plan.jobs@) == chain(collectors.map_values(commands_of(config, place, rules)))
    &&& plan.settled@.len() == idle.len()
    &&& forall|i: int|
        0 <= i < idle.len() ==> {
            let said = settled_at_once(config, place, rules)(idle[i])->0;
            unrun(idle[i], None, said.0, said.1, #[trigger] plan.settled@[i])
        }
}

/// Plans the collectors of a mode and a phase.
pub fn plan_phase<'a>(
    config: &'a LoadedConfig,
    mode: RunMode,
    phase: CollectorPhase,
    place: &RunPlace,
    rules: &Result<RouteNormalizer, String>,
) -> (r: PhasePlan<'a>)
    ensures
        planned(
            *config,
            config.config.collectors@.filter(is_selected(mode, phase)),
            *place,
            loaded(*rules),
            r,
        ),
{
    let collectors = selected(config, mode, phase);
    let ghost all = derefs(collectors@);
    let ghost idle = has_settled(*config, *place, loaded(*rules));
    let ghost each = commands_of(*config, *place, loaded(*rules));
    let mut plan = PhasePlan { settled: Vec::new(), jobs: Vec::new() };
    let mut i: usize = 0;
    proof {
        reveal(Seq::filter);
        assert(all.take(0) == Seq::<CollectorConfig>::empty());
        assert(commands(plan.jobs@) == chain(all.take(0).map_values(each)));
        assert(all.take(0).filter(idle).len() == 0);
    }
    while i < collectors.len()
        invariant
            i <= collectors@.len(),
            all == derefs(collectors@),
            idle == has_settled(*config, *place, loaded(*rules)),
            each == commands_of(*config, *place, loaded(*rules)),
            planned(*config, all.take(i as int), *place, loaded(*rules), plan),
        decreases collectors.len() - i,
    {
        let collector: &'a CollectorConfig = collectors[i];
        let ghost before = plan;
        let ghost head = all.take(i as int);
        let ghost next = all.take(i + 1);
        proof {
            reveal(Seq::filter);
            assert(next.drop_last() == head);
            assert(next.last() == *collector);
            assert(next.map_values(each).drop_last() == head.map_values(each));
            assert(next.map_values(each).last() == each(*collector));
        }
        match expand(config, collector, place, rules) {
            Err(error) => {
                let text = error.message();
                let output = failed(collector, None, text);
                plan.settled.push(output);
                assert(idle(*collector));
                assert(chain(head.map_values(each)) + each(*collector) == chain(
                    head.map_values(each),
                ));
            },
            Ok(specs) => {
                if specs.len() == 0 {
                    assert(commands(specs@) == Seq::<SpecView>::empty());
                    let output = skipped(collector, "no node matched collector roles");
                    plan.settled.push(output);
                    assert(idle(*collector));
                    assert(chain(head.map_values(each)) + each(*collector) == chain(
                        head.map_values(each),
                    ));
                } else {
                    let mut specs = specs;
                    let ghost added = specs@;
                    assert(commands(added).len() == added.len());
                    assert(!idle(*collector));
                    plan.jobs.append(&mut specs);
                    assert(commands(plan.jobs@) == commands(before.jobs@) + commands(added));
                }
            },
        }
        proof {
            let list = next.filter(idle);
            let old_list = head.filter(idle);
            assert forall|j: int| 0 <= j < list.len() implies {
                let said = settled_at_once(*config, *place, loaded(*rules))(list[j])->0;
                unrun(list[j], None, said.0, said.1, #[trigger] plan.settled@[j])
            } by {
                if j < old_list.len() {
                    assert(list[j] == old_list[j]);
                    assert(plan.settled@[j] == before.settled@[j]);
                }
            }
        }
        i += 1;
    }
    assert(all.take(i as int) == all);
    plan
}

} // verus!
