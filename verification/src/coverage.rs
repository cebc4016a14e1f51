//! What the collectors of a run were expected to measure, and what they did.
use crate::join::{derefs, keep};
use crate::labels::lookup;
use crate::model::{CollectorResult, Metric};
use crate::paths::{join_path, joined_path};
use crate::report::text_option;
use crate::text::{append_str, chars_of, same, string_of, texts};
use vstd::prelude::*;

verus! {

/// How one collector of one section fared on one node.
#[derive(Debug, PartialEq, Eq)]
pub struct CoverageSummary {
    pub section: String,
    pub node: String,
    pub collector: String,
    pub phase: String,
    pub status: String,
    pub missing_metrics: Vec<String>,
    pub error: Option<String>,
}

/// The mathematical value of a coverage summary.
#[verifier::ext_equal]
pub struct CoverageView {
    pub section: Seq<char>,
    pub node: Seq<char>,
    pub collector: Seq<char>,
    pub phase: Seq<char>,
    pub status: Seq<char>,
    pub missing_metrics: Seq<Seq<char>>,
    pub error: Option<Seq<char>>,
}

impl View for CoverageSummary {
    type V = CoverageView;

    open spec fn view(&self) -> CoverageView {
        CoverageView {
            section: self.section@,
            node: self.node@,
            collector: self.collector@,
            phase: self.phase@,
            status: self.status@,
            missing_metrics: texts(self.missing_metrics@),
            error: text_option(self.error),
        }
    }
}

pub open spec fn coverage_views(rows: Seq<CoverageSummary>) -> Seq<CoverageView> {
    rows.map_values(|r: CoverageSummary| r@)
}

/// The section that a collector feeds.
pub open spec fn section_of(name: Seq<char>) -> Option<Seq<char>> {
    if name == "alp"@ || name == "nginx-series"@ || name == "user-transition"@ {
        Some("http"@)
    } else if name == "slp"@ || name == "mysql-log-delta"@ || name == "pg-stat-statements"@ {
        Some("database"@)
    } else if name == "perf-report"@ || name == "perf-series"@ {
        Some("cpu"@)
    } else if name == "host-sampler"@ || name == "sysstat"@ {
        Some("host"@)
    } else if name == "perf-flamegraph"@ || name == "offcpu"@ {
        Some("profiles"@)
    } else {
        None
    }
}

/// The metrics without which a section says nothing.
pub open spec fn section_metrics(section: Seq<char>) -> Seq<Seq<char>> {
    if section == "http"@ {
        seq!["http.requests"@, "http.request_duration"@]
    } else if section == "database"@ {
        seq!["db.query.calls"@, "db.query.total_duration"@]
    } else if section == "cpu"@ {
        seq!["cpu.sample_percent"@]
    } else if section == "host"@ {
        seq!["host.cpu_percent"@, "host.memory_used_bytes"@]
    } else {
        Seq::empty()
    }
}

/// The metrics that a collector is expected to give.
pub open spec fn collector_metrics(name: Seq<char>) -> Seq<Seq<char>> {
    if name == "alp"@ || name == "nginx-series"@ {
        seq!["http.requests"@, "http.request_duration"@]
    } else if name == "slp"@ || name == "mysql-log-delta"@ || name == "pg-stat-statements"@ {
        seq!["db.query.calls"@, "db.query.total_duration"@]
    } else if name == "perf-report"@ || name == "perf-series"@ {
        seq!["cpu.sample_percent"@]
    } else if name == "host-sampler"@ {
        seq!["host.cpu_percent"@, "host.memory_used_bytes"@]
    } else if name == "sysstat"@ {
        seq!["host.cpu_percent"@]
    } else {
        Seq::empty()
    }
}

/// A metric that this collector gave on this node.
pub open spec fn given_by(metric: Metric, collector: CollectorResult) -> bool {
    &&& lookup(metric.labels@, "collector"@) == Some(collector.name@)
    &&& match collector.node {
        Some(node) => lookup(metric.labels@, "node"@) == Some(node@),
        None => lookup(metric.labels@, "node"@) is None || lookup(metric.labels@, "node"@) == Some(
            "local"@,
        ),
    }
}

pub open spec fn gave(metrics: Seq<Metric>, collector: CollectorResult, name: Seq<char>) -> bool {
    exists|i: int|
        0 <= i < metrics.len() && (#[trigger] metrics[i]).name@ == name && given_by(
            metrics[i],
            collector,
        )
}

/// The expected metrics that the collector did not give.
pub open spec fn missing_of(metrics: Seq<Metric>, collector: CollectorResult) -> Seq<Seq<char>> {
    collector_metrics(collector.name@).filter(|name: Seq<char>| !gave(metrics, collector, name))
}

pub open spec fn node_or_local(node: Option<String>) -> Seq<char> {
    match node {
        Some(n) => n@,
        None => "local"@,
    }
}

/// A collector that ended well but gave less than expected is missing something; what failed or
/// was unavailable stays so.
pub open spec fn coverage_status(status: Seq<char>, missing: int) -> Seq<char> {
    if status == "complete"@ && missing == 0 {
        "complete"@
    } else if status == "unavailable"@ {
        "unavailable"@
    } else if status == "failed"@ {
        "failed"@
    } else {
        "missing"@
    }
}

pub open spec fn collector_row(
    section: Seq<char>,
    collector: CollectorResult,
    metrics: Seq<Metric>,
) -> CoverageView {
    let missing = missing_of(metrics, collector);
    CoverageView {
        section,
        node: node_or_local(collector.node),
        collector: collector.name@,
        phase: collector.phase@,
        status: coverage_status(collector.status@, missing.len() as int),
        missing_metrics: missing,
        error: text_option(collector.error),
    }
}

/// A section without any collector.
pub open spec fn uncovered_row(section: Seq<char>) -> CoverageView {
    CoverageView {
        section,
        node: "-"@,
        collector: "-"@,
        phase: "-"@,
        status: "missing"@,
        missing_metrics: section_metrics(section),
        error: None,
    }
}

pub open spec fn feeds(section: Seq<char>) -> spec_fn(CollectorResult) -> bool {
    |c: CollectorResult| section_of(c.name@) == Some(section)
}

/// One row for each collector of the section, or one that says that there is none.
pub open spec fn section_rows(
    section: Seq<char>,
    collectors: Seq<CollectorResult>,
    metrics: Seq<Metric>,
) -> Seq<CoverageView> {
    let own = collectors.filter(feeds(section));
    if own.len() == 0 {
        seq![uncovered_row(section)]
    } else {
        own.map_values(|c: CollectorResult| collector_row(section, c, metrics))
    }
}

/// The rows of all sections.
pub open spec fn coverage_rows(
    collectors: Seq<CollectorResult>,
    metrics: Seq<Metric>,
) -> Seq<CoverageView> {
    section_rows("http"@, collectors, metrics) + section_rows("database"@, collectors, metrics)
        + section_rows("cpu"@, collectors, metrics) + section_rows("host"@, collectors, metrics)
        + section_rows("profiles"@, collectors, metrics)
}

/// The section that a collector feeds.
pub fn collector_section(name: &str) -> (r: Option<&'static str>)
    ensures
        match r {
            Some(s) => section_of(name@) == Some(s@),
            None => section_of(name@) is None,
        },
{
    if same(name, "alp") || same(name, "nginx-series") || same(name, "user-transition") {
        Some("http")
    } else if same(name, "slp") || same(name, "mysql-log-delta") || same(
        name,
        "pg-stat-statements",
    ) {
        Some("database")
    } else if same(name, "perf-report") || same(name, "perf-series") {
        Some("cpu")
    } else if same(name, "host-sampler") || same(name, "sysstat") {
        Some("host")
    } else if same(name, "perf-flamegraph") || same(name, "offcpu") {
        Some("profiles")
    } else {
        None
    }
}

fn two(a: &str, b: &str) -> (r: Vec<String>)
    ensures
        texts(r@) == seq![a@, b@],
{
    let mut out: Vec<String> = Vec::new();
    out.push(a.to_string());
    out.push(b.to_string());
    assert(texts(out@) == seq![a@, b@]);
    out
}

fn one(a: &str) -> (r: Vec<String>)
    ensures
        texts(r@) == seq![a@],
{
    let mut out: Vec<String> = Vec::new();
    out.push(a.to_string());
    assert(texts(out@) == seq![a@]);
    out
}

fn none() -> (r: Vec<String>)
    ensures
        texts(r@) == Seq::<Seq<char>>::empty(),
{
    let out: Vec<String> = Vec::new();
    assert(texts(out@) == Seq::<Seq<char>>::empty());
    out
}

/// The metrics without which a section says nothing.
pub fn expected_metrics(section: &str) -> (r: Vec<String>)
    ensures
        texts(r@) == section_metrics(section@),
{
    if same(section, "http") {
        two("http.requests", "http.request_duration")
    } else if same(section, "database") {
        two("db.query.calls", "db.query.total_duration")
    } else if same(section, "cpu") {
        one("cpu.sample_percent")
    } else if same(section, "host") {
        two("host.cpu_percent", "host.memory_used_bytes")
    } else {
        none()
    }
}

/// The metrics that a collector is expected to give.
pub fn expected_collector_metrics(name: &str) -> (r: Vec<String>)
    ensures
        texts(r@) == collector_metrics(name@),
{
    if same(name, "alp") || same(name, "nginx-series") {
        two("http.requests", "http.request_duration")
    } else if same(name, "slp") || same(name, "mysql-log-delta") || same(
        name,
        "pg-stat-statements",
    ) {
        two("db.query.calls", "db.query.total_duration")
    } else if same(name, "perf-report") || same(name, "perf-series") {
        one("cpu.sample_percent")
    } else if same(name, "host-sampler") {
        two("host.cpu_percent", "host.memory_used_bytes")
    } else if same(name, "sysstat") {
        one("host.cpu_percent")
    } else {
        none()
    }
}

fn metric_matches_collector(metric: &Metric, collector: &CollectorResult) -> (r: bool)
    ensures
        r == given_by(*metric, *collector),
{
    if !metric.labels.holds("collector", collector.name.as_str()) {
        return false;
    }
    match &collector.node {
        Some(node) => metric.labels.holds("node", node.as_str()),
        None => !metric.labels.has("node") || metric.labels.holds("node", "local"),
    }
}

fn was_given(metrics: &[Metric], collector: &CollectorResult, name: &str) -> (r: bool)
    ensures
        r == gave(metrics@, *collector, name@),
{
    let mut i: usize = 0;
    while i < metrics.len()
        invariant
            i <= metrics@.len(),
            forall|j: int|
                0 <= j < i ==> !((#[trigger] metrics@[j]).name@ == name@ && given_by(
                    metrics@[j],
                    *collector,
                )),
        decreases metrics.len() - i,
    {
        if same(metrics[i].name.as_str(), name) && metric_matches_collector(
            &metrics[i],
            collector,
        ) {
            return true;
        }
        i += 1;
    }
    false
}

proof fn gave_in_either(
    summary: Seq<Metric>,
    series: Seq<Metric>,
    collector: CollectorResult,
    name: Seq<char>,
)
    ensures
        gave(summary + series, collector, name) == (gave(summary, collector, name) || gave(
            series,
            collector,
            name,
        )),
{
    let both = summary + series;
    if gave(summary, collector, name) {
        let i = choose|i: int|
            0 <= i < summary.len() && (#[trigger] summary[i]).name@ == name && given_by(
                summary[i],
                collector,
            );
        assert(both[i] == summary[i]);
    }
    if gave(series, collector, name) {
        let i = choose|i: int|
            0 <= i < series.len() && (#[trigger] series[i]).name@ == name && given_by(
                series[i],
                collector,
            );
        assert(both[summary.len() + i] == series[i]);
    }
    if gave(both, collector, name) {
        let i = choose|i: int|
            0 <= i < both.len() && (#[trigger] both[i]).name@ == name && given_by(
                both[i],
                collector,
            );
        if i < summary.len() {
            assert(summary[i] == both[i]);
        } else {
            assert(series[i - summary.len()] == both[i]);
        }
    }
}

fn missing_metrics(
    summary: &[Metric],
    series: &[Metric],
    collector: &CollectorResult,
) -> (r: Vec<String>)
    ensures
        texts(r@) == missing_of(summary@ + series@, *collector),
{
    let ghost metrics = summary@ + series@;
    let expected = expected_collector_metrics(collector.name.as_str());
    let ghost names = collector_metrics(collector.name@);
    let ghost lacks = |name: Seq<char>| !gave(metrics, *collector, name);
    let mut out: Vec<String> = Vec::new();
    let mut i: usize = 0;
    proof {
        reveal(Seq::filter);
        assert(names.take(0) == Seq::<Seq<char>>::empty());
        assert(texts(out@) == names.take(0).filter(lacks));
    }
    while i < expected.len()
        invariant
            i <= expected@.len(),
            names == texts(expected@),
            metrics == summary@ + series@,
            lacks == (|name: Seq<char>| !gave(metrics, *collector, name)),
            texts(out@) == names.take(i as int).filter(lacks),
        decreases expected.len() - i,
    {
        proof {
            reveal(Seq::filter);
            assert(names.take(i + 1).drop_last() == names.take(i as int));
            assert(names.take(i + 1).last() == expected@[i as int]@);
        }
        proof {
            gave_in_either(summary@, series@, *collector, names[i as int]);
        }
        if !was_given(summary, collector, expected[i].as_str()) && !was_given(
            series,
            collector,
            expected[i].as_str(),
        ) {
            let ghost was = out@;
            out.push(expected[i].clone());
            assert(texts(out@) == texts(was).push(names[i as int]));
        }
        i += 1;
    }
    assert(names.take(i as int) == names);
    out
}

fn local_if_none(node: &Option<String>) -> (r: String)
    ensures
        r@ == node_or_local(*node),
{
    match node {
        Some(n) => n.clone(),
        None => "local".to_string(),
    }
}

fn add_section(
    out: &mut Vec<CoverageSummary>,
    section: &str,
    collectors: &[CollectorResult],
    summary: &[Metric],
    series: &[Metric],
)
    ensures
        coverage_views(final(out)@) == coverage_views(old(out)@) + section_rows(
            section@,
            collectors@,
            summary@ + series@,
        ),
{
    let ghost metrics = summary@ + series@;
    let mut flags: Vec<bool> = Vec::new();
    let mut i: usize = 0;
    while i < collectors.len()
        invariant
            i <= collectors@.len(),
            flags@.len() == i,
            forall|j: int| 0 <= j < i ==> #[trigger] flags@[j] == feeds(section@)(collectors@[j]),
        decreases collectors.len() - i,
    {
        let own = match collector_section(collectors[i].name.as_str()) {
            Some(s) => same(s, section),
            None => false,
        };
        flags.push(own);
        i += 1;
    }
    let own = keep(collectors, &flags, Ghost(feeds(section@)));
    let ghost all = derefs(own@);
    let ghost before = coverage_views(out@);
    if own.len() == 0 {
        let ghost was = out@;
        let row = CoverageSummary {
            section: section.to_string(),
            node: "-".to_string(),
            collector: "-".to_string(),
            phase: "-".to_string(),
            status: "missing".to_string(),
            missing_metrics: expected_metrics(section),
            error: None,
        };
        out.push(row);
        assert(coverage_views(out@) == coverage_views(was).push(row@));
        assert(row@ == uncovered_row(section@));
        return ;
    }
    let ghost row_of = |c: CollectorResult| collector_row(section@, c, metrics);
    let mut j: usize = 0;
    assert(before + all.take(0).map_values(row_of) == before);
    while j < own.len()
        invariant
            j <= own@.len(),
            all == derefs(own@),
            metrics == summary@ + series@,
            row_of == (|c: CollectorResult| collector_row(section@, c, metrics)),
            coverage_views(out@) == before + all.take(j as int).map_values(row_of),
        decreases own.len() - j,
    {
        let collector = own[j];
        let missing = missing_metrics(summary, series, collector);
        let status = collector.status.as_str();
        let status = if same(status, "complete") && missing.len() == 0 {
            "complete"
        } else if same(status, "unavailable") {
            "unavailable"
        } else if same(status, "failed") {
            "failed"
        } else {
            "missing"
        };
        let ghost was = out@;
        let row = CoverageSummary {
            section: section.to_string(),
            node: local_if_none(&collector.node),
            collector: collector.name.clone(),
            phase: collector.phase.clone(),
            status: status.to_string(),
            missing_metrics: missing,
            error: collector.error.clone(),
        };
        assert(row@.missing_metrics == missing_of(metrics, *collector));
        assert(missing@.len() == texts(missing@).len());
        assert(row@ == collector_row(section@, *collector, metrics));
        out.push(row);
        assert(coverage_views(out@) == coverage_views(was).push(row@));
        assert(all.take(j + 1).map_values(row_of) == all.take(j as int).map_values(row_of).push(
            row_of(all[j as int]),
        ));
        j += 1;
    }
    assert(all.take(j as int) == all);
}

/// Says of every section which collectors covered it, and what they left out.
pub fn coverage(
    collectors: &[CollectorResult],
    summary: &[Metric],
    series: &[Metric],
) -> (r: Vec<CoverageSummary>)
    ensures
        coverage_views(r@) == coverage_rows(collectors@, summary@ + series@),
{
    let mut out: Vec<CoverageSummary> = Vec::new();
    assert(coverage_views(out@) == Seq::<CoverageView>::empty());
    add_section(&mut out, "http", collectors, summary, series);
    assert(coverage_views(out@) == section_rows("http"@, collectors@, summary@ + series@));
    add_section(&mut out, "database", collectors, summary, series);
    add_section(&mut out, "cpu", collectors, summary, series);
    add_section(&mut out, "host", collectors, summary, series);
    add_section(&mut out, "profiles", collectors, summary, series);
    out
}

/// No section goes unmentioned.
pub proof fn every_section_has_a_row(
    collectors: Seq<CollectorResult>,
    metrics: Seq<Metric>,
    section: Seq<char>,
)
    ensures
        section_rows(section, collectors, metrics).len() > 0,
        forall|i: int|
            0 <= i < section_rows(section, collectors, metrics).len()
                ==> (#[trigger] section_rows(section, collectors, metrics)[i]).section == section,
{
}

/// A collector that failed is never reported as complete or missing, whatever it gave.
pub proof fn failures_stay_visible(
    section: Seq<char>,
    collector: CollectorResult,
    metrics: Seq<Metric>,
)
    requires
        collector.status@ == "failed"@,
    ensures
        collector_row(section, collector, metrics).status == "failed"@,
{
    reveal_strlit("failed");
    reveal_strlit("complete");
    reveal_strlit("unavailable");
    assert("failed"@.len() != "complete"@.len());
    assert("failed"@.len() != "unavailable"@.len());
}

/// A file that a profiling collector left behind.
#[derive(Debug, PartialEq, Eq)]
pub struct ProfileArtifact {
    pub node: String,
    pub kind: String,
    pub status: String,
    pub canonical_path: Option<String>,
    pub expanded_path: Option<String>,
    pub error: Option<String>,
}

/// The mathematical value of a profile artifact.
#[verifier::ext_equal]
pub struct ArtifactView {
    pub node: Seq<char>,
    pub kind: Seq<char>,
    pub status: Seq<char>,
    pub canonical_path: Option<Seq<char>>,
    pub expanded_path: Option<Seq<char>>,
    pub error: Option<Seq<char>>,
}

impl View for ProfileArtifact {
    type V = ArtifactView;

    open spec fn view(&self) -> ArtifactView {
        ArtifactView {
            node: self.node@,
            kind: self.kind@,
            status: self.status@,
            canonical_path: text_option(self.canonical_path),
            expanded_path: text_option(self.expanded_path),
            error: text_option(self.error),
        }
    }
}

pub open spec fn artifact_views(rows: Seq<ProfileArtifact>) -> Seq<ArtifactView> {
    rows.map_values(|r: ProfileArtifact| r@)
}

/// The kind and the file extension of what a profiling collector leaves behind.
pub open spec fn artifact_kind(name: Seq<char>) -> Option<(Seq<char>, Seq<char>)> {
    if name == "perf-flamegraph"@ {
        Some(("cpu-flamegraph"@, "svg"@))
    } else if name == "offcpu"@ {
        Some(("offcpu-folded"@, "folded"@))
    } else {
        None
    }
}

/// A profiling collector with output.
pub open spec fn leaves_artifact() -> spec_fn(CollectorResult) -> bool {
    |c: CollectorResult| artifact_kind(c.name@) is Some && c.log_ids@.len() > 0
}

/// The compressed file of the run, and the expanded one where the run is the latest; neither for
/// a collector that did not end well.
pub open spec fn artifact_of(
    c: CollectorResult,
    run_logs: Seq<char>,
    latest_logs: Option<Seq<char>>,
) -> ArtifactView {
    let id = c.log_ids@[0]@;
    let complete = c.status@ == "complete"@;
    let kind = artifact_kind(c.name@)->0;
    ArtifactView {
        node: node_or_local(c.node),
        kind: kind.0,
        status: c.status@,
        canonical_path: if complete {
            Some(join_path(run_logs, id + ".zst"@))
        } else {
            None
        },
        expanded_path: match latest_logs {
            Some(logs) => if complete {
                Some(join_path(logs, id + "."@ + kind.1))
            } else {
                None
            },
            None => None,
        },
        error: text_option(c.error),
    }
}

pub open spec fn artifacts(
    collectors: Seq<CollectorResult>,
    run_logs: Seq<char>,
    latest_logs: Option<Seq<char>>,
) -> Seq<ArtifactView> {
    collectors.filter(leaves_artifact()).map_values(
        |c: CollectorResult| artifact_of(c, run_logs, latest_logs),
    )
}

fn artifact_names(name: &str) -> (r: Option<(&'static str, &'static str)>)
    ensures
        match r {
            Some(k) => artifact_kind(name@) == Some((k.0@, k.1@)),
            None => artifact_kind(name@) is None,
        },
{
    if same(name, "perf-flamegraph") {
        Some(("cpu-flamegraph", "svg"))
    } else if same(name, "offcpu") {
        Some(("offcpu-folded", "folded"))
    } else {
        None
    }
}

/// Lists the files that the profiling collectors left behind.
pub fn profile_artifacts(
    collectors: &[CollectorResult],
    run_logs: &str,
    latest_logs: &Option<String>,
) -> (r: Vec<ProfileArtifact>)
    ensures
        artifact_views(r@) == artifacts(collectors@, run_logs@, text_option(*latest_logs)),
{
    let ghost latest = text_option(*latest_logs);
    let ghost row_of = |c: CollectorResult| artifact_of(c, run_logs@, latest);
    let mut out: Vec<ProfileArtifact> = Vec::new();
    let mut i: usize = 0;
    proof {
        reveal(Seq::filter);
        assert(collectors@.take(0) == Seq::<CollectorResult>::empty());
        assert(artifact_views(out@) == collectors@.take(0).filter(leaves_artifact()).map_values(
            row_of,
        ));
    }
    while i < collectors.len()
        invariant
            i <= collectors@.len(),
            latest == text_option(*latest_logs),
            row_of == (|c: CollectorResult| artifact_of(c, run_logs@, latest)),
            artifact_views(out@) == collectors@.take(i as int).filter(
                leaves_artifact(),
            ).map_values(row_of),
        decreases collectors.len() - i,
    {
        let c = &collectors[i];
        proof {
            reveal(Seq::filter);
            assert(collectors@.take(i + 1).drop_last() == collectors@.take(i as int));
            assert(collectors@.take(i + 1).last() == *c);
        }
        let ghost rest = collectors@.take(i as int).filter(leaves_artifact());
        match artifact_names(c.name.as_str()) {
            Some(kind) if c.log_ids.len() > 0 => {
                let complete = same(c.status.as_str(), "complete");
                let mut file = chars_of(c.log_ids[0].as_str());
                append_str(&mut file, ".zst");
                let mut expanded = chars_of(c.log_ids[0].as_str());
                append_str(&mut expanded, ".");
                append_str(&mut expanded, kind.1);
                let canonical_path = if complete {
                    Some(joined_path(run_logs, string_of(file.as_slice()).as_str()))
                } else {
                    None
                };
                let expanded_path = match latest_logs {
                    Some(logs) => if complete {
                        Some(joined_path(logs.as_str(), string_of(expanded.as_slice()).as_str()))
                    } else {
                        None
                    },
                    None => None,
                };
                let row = ProfileArtifact {
                    node: local_if_none(&c.node),
                    kind: kind.0.to_string(),
                    status: c.status.clone(),
                    canonical_path,
                    expanded_path,
                    error: c.error.clone(),
                };
                assert(row@ == row_of(*c));
                let ghost was = out@;
                out.push(row);
                assert(artifact_views(out@) == artifact_views(was).push(row@));
                assert(rest.push(*c).map_values(row_of) == rest.map_values(row_of).push(
                    row_of(*c),
                ));
            },
            _ => {},
        }
        i += 1;
    }
    assert(collectors@.take(i as int) == collectors@);
    out
}

} // verus!
