use isuscope::brief::{
    benchmark_messages, brief_run, build, client_nodes, coverage_issues, host_nodes, hosts_window,
    preferred_database, section, BriefInput, SampledMetric,
};
use isuscope::coverage::{CoverageSummary, ProfileArtifact};
use isuscope::labels::Labels;
use isuscope::metric_semantics::MetricAggregation;
use isuscope::model::{
    AnalysisStatus, BenchmarkMessage, BenchmarkMessageKind, BenchmarkResult, CollectorResult,
    EnrichmentResult, Metric, RunManifest, RunMode, RunState, SourceSnapshot, ToolingSnapshot,
};
use isuscope::moment::Moment;
use isuscope::number::{Number, Op};
use isuscope::query::{metric_query, MetricQueryOptions, MetricQueryOutput, QueryScope};
use isuscope::report::{diagnose, DatabaseSummary, HttpRouteSummary};
use isuscope::samples::{summarize_window, Family};
use isuscope::windows::Window;

fn float(n: Number) -> f64 {
    f64::from_bits(n.bits)
}

fn number(x: f64) -> Number {
    Number { bits: x.to_bits() }
}

fn compute(op: Op) -> Number {
    number(match op {
        Op::Add(a, b) => float(a) + float(b),
        Op::Subtract(a, b) => float(a) - float(b),
        Op::Multiply(a, b) => float(a) * float(b),
        Op::Divide(a, b) => float(a) / float(b),
        Op::Round(a, places) => {
            let scale = 10f64.powi(places as i32);
            (float(a) * scale).round() / scale
        }
        Op::Integer(n) => n as f64,
        Op::Natural(n) => n as f64,
    })
}

fn at(text: &str) -> Moment {
    let time = chrono::DateTime::parse_from_rfc3339(text).unwrap();
    Moment {
        nanos: i128::from(time.timestamp()) * 1_000_000_000
            + i128::from(time.timestamp_subsec_nanos()),
    }
}

fn run(id: &str) -> RunManifest {
    RunManifest {
        schema_version: 6,
        id: id.into(),
        mode: RunMode::Run,
        state: RunState::Complete,
        started_at: at("2026-09-19T00:00:00Z"),
        finished_at: None,
        hypothesis: String::new(),
        analysis_status: AnalysisStatus::NotRequired,
        analyses: Vec::new(),
        note: None,
        tags: Vec::new(),
        source: SourceSnapshot::default(),
        tooling: ToolingSnapshot {
            isuscope_version: "0.1.0".into(),
            config_sha256: String::new(),
            routes_sha256: None,
            setup_script_sha256: None,
            setup_state_sha256: None,
            extra_files_sha256: Labels::new(),
            error: None,
        },
        agent_context: None,
        benchmark: BenchmarkResult::default(),
        collectors: Vec::new(),
        enrichments: Vec::new(),
        logs: Vec::new(),
        metric_count: 0,
        fingerprint_count: 0,
        transition_count: 0,
        structured_snapshot: None,
    }
}

fn labels(pairs: &[(&str, &str)]) -> Labels {
    let mut labels = Labels::new();
    for (name, value) in pairs {
        labels.insert(name.to_string(), value.to_string());
    }
    labels
}

fn metric(name: &str, value: f64, unit: &str, pairs: &[(&str, &str)]) -> Metric {
    Metric {
        name: name.into(),
        value: number(value),
        unit: unit.into(),
        timestamp: None,
        labels: labels(pairs),
    }
}

fn statement(window: &str) -> DatabaseSummary {
    DatabaseSummary {
        node: "db1".into(),
        engine: "mysql".into(),
        digest: "INSERT INTO t VALUES (?)".into(),
        source: "slp".into(),
        window: Some(window.into()),
        digest_id: None,
        calls: number(100.0),
        total_ms: number(0.0),
        avg_ms: None,
        p95_ms: None,
        lock_ms: number(0.0),
        rows_sent: number(0.0),
        rows_examined: number(0.0),
        rows_examined_per_call: None,
    }
}

fn with_slp() -> RunManifest {
    let mut run = run("r");
    run.benchmark.mode = "command".into();
    run.benchmark.exit_code = Some(0);
    run.benchmark.score = Some(1);
    run.benchmark.passed = Some(true);
    run.benchmark.initialize_started_at = Some(at("2026-09-19T00:00:01Z"));
    run.benchmark.initialize_finished_at = Some(at("2026-09-19T00:00:10Z"));
    run.collectors.push(CollectorResult {
        name: "slp".into(),
        node: Some("db1".into()),
        phase: "after".into(),
        status: "complete".into(),
        exit_code: Some(0),
        error: None,
        log_ids: Vec::new(),
    });
    run
}

#[test]
fn database_shows_an_empty_load_rather_than_falling_back_to_initialize() {
    let run = with_slp();
    let (rows, omitted, window) = preferred_database(vec![statement("initialize")], &run);
    assert_eq!(window.as_deref(), Some("load"));
    assert!(rows.is_empty());
    assert_eq!(omitted, 1);
    let (rows, _, window) = preferred_database(Vec::new(), &run);
    assert_eq!((rows.len(), window.as_deref()), (0, Some("load")));
}

fn sampled(name: &str, value: Option<f64>, peak: f64) -> SampledMetric {
    SampledMetric {
        node: "app1".into(),
        metric: name.into(),
        target: "host".into(),
        source: "alp".into(),
        labels: Labels::new(),
        unit: "connections".into(),
        aggregation: MetricAggregation::Sum,
        value: value.map(number),
        peak: number(peak),
        peak_at: None,
        samples: 12,
    }
}

#[test]
fn new_connections_per_second_divide_the_window_total_by_its_length() {
    let row = sampled("client.connections_opened", Some(120.0), 10.0);
    let nodes = client_nodes(std::slice::from_ref(&row), Some(number(60.0)), &compute);
    assert_eq!(nodes[0].connections_opened_per_second.map(float), Some(2.0));
    assert_eq!(
        client_nodes(&[row], None, &compute)[0].connections_opened_per_second,
        None
    );
}

#[test]
fn coverage_issues_group_nodes_and_hide_info_rows() {
    let coverage = ["app2", "app3"]
        .into_iter()
        .map(|node| CoverageSummary {
            section: "http".into(),
            node: node.into(),
            collector: "alp".into(),
            phase: "after".into(),
            status: "missing".into(),
            missing_metrics: vec!["http.requests".into()],
            error: None,
        })
        .chain(std::iter::once(CoverageSummary {
            section: "cpu".into(),
            node: "app1".into(),
            collector: "perf".into(),
            phase: "after".into(),
            status: "unavailable".into(),
            missing_metrics: vec!["cpu.sample_count".into()],
            error: None,
        }))
        .collect();
    let (issues, info_count) = coverage_issues(coverage);
    assert_eq!(issues.len(), 1);
    assert_eq!(issues[0].nodes, ["app2", "app3"]);
    assert_eq!(issues[0].occurrences, 2);
    assert_eq!(info_count, 1);
}

#[test]
fn sections_keep_their_total() {
    let cut = section(vec![1, 2, 3], 2);
    assert_eq!((cut.total_count, cut.truncated, cut.items), (3, true, vec![1, 2]));
    let whole = section(vec![1, 2], 2);
    assert_eq!((whole.total_count, whole.truncated, whole.items), (2, false, vec![1, 2]));
}

#[test]
fn nodes_are_folded_into_one_row_each() {
    let rows = [
        sampled("host.cpu_busy_percent", Some(40.0), 90.0),
        sampled("host.load1", Some(1.0), 3.5),
    ];
    let nodes = host_nodes(&rows, &compute);
    assert_eq!(nodes.len(), 1);
    assert_eq!(nodes[0].node, "app1");
    assert_eq!(nodes[0].detail_rows, 2);
}

fn asked(metrics: Vec<Metric>, name: &str) -> MetricQueryOutput {
    metric_query(
        "run".into(),
        metrics,
        MetricQueryOptions {
            scope: QueryScope::Run,
            window: None,
            metrics: vec![name.into()],
            metric_prefix: None,
            node: None,
            source: None,
            labels: Vec::new(),
            label_contains: Vec::new(),
            group_by: vec!["route".into()],
            limit: 100,
        },
        &compute,
    )
}

const BACKEND: [(&str, &str); 2] = [("node", "app1"), ("upstream", "10.0.0.1:8080")];
const WITH_P50: [(&str, &str); 3] =
    [("node", "app1"), ("upstream", "10.0.0.1:8080"), ("quantile", "0.50")];
const WITH_P95: [(&str, &str); 3] =
    [("node", "app1"), ("upstream", "10.0.0.1:8080"), ("quantile", "0.95")];

fn sample(name: &str, value: f64, time: &str) -> Metric {
    Metric { timestamp: Some(at(time)), ..metric(name, value, "", &[("node", "app1")]) }
}

#[test]
fn a_run_is_told_in_short() {
    let mut run = with_slp();
    run.id = "01a03df2-ecb2-72b3-aa1f-c952d3dd102b".into();
    run.started_at = at("2026-09-19T00:00:00Z");
    run.benchmark.started_at = Some(at("2026-09-19T00:00:00Z"));
    run.benchmark.finished_at = Some(at("2026-09-19T00:01:10Z"));
    run.benchmark.passed = Some(false);
    run.enrichments.push(EnrichmentResult {
        name: "parser".into(),
        status: "complete".into(),
        command: Vec::new(),
        exit_code: Some(0),
        error: None,
        log_ids: Vec::new(),
        tooling_path: None,
        messages: vec![BenchmarkMessage {
            kind: BenchmarkMessageKind::Failure,
            category: None,
            text: "timeout".into(),
        }],
        omitted_message_count: 2,
    });
    assert_eq!(benchmark_messages(&run).failure, ["timeout"]);
    assert_eq!(benchmark_messages(&run).omitted_count, 2);
    assert_eq!(hosts_window(&run), Window::Load);
    let artifact = |status: &str| ProfileArtifact {
        node: "app1".into(),
        kind: "flamegraph".into(),
        status: status.into(),
        canonical_path: None,
        expanded_path: None,
        error: None,
    };
    let mut route = HttpRouteSummary::blank("app1".into(), "GET".into(), "/".into());
    route.avg_ms = Some(number(1.23456));
    // Ten connections in each five seconds of the load, and many in the initialization.
    let mut metrics = vec![
        sample("client.connections_opened", 500.0, "2026-09-19T00:00:05Z"),
        sample("host.cpu_busy_percent", 99.0, "2026-09-19T00:00:09.999999Z"),
        sample("host.cpu_busy_percent", 30.0, "2026-09-19T00:00:10Z"),
        sample("host.cpu_busy_percent", 50.0, "2026-09-19T00:00:20Z"),
        sample("host.cpu_busy_percent", 98.0, "2026-09-19T00:01:10Z"),
        metric("client.connection_requests_mean", 2.0, "requests", &[("node", "app1")]),
        metric("http.upstream_requests", 3.0, "requests", &BACKEND),
        metric("http.upstream_retried_requests", 1.0, "requests", &BACKEND),
        metric("http.upstream_connect_duration", 4.0, "ms", &WITH_P50),
        metric("http.upstream_connect_duration", 9.0, "ms", &WITH_P95),
    ];
    for bucket in 0..12 {
        let mut opened = sample("client.connections_opened", 10.0, "2026-09-19T00:00:10Z");
        opened.timestamp = Some(Moment {
            nanos: at("2026-09-19T00:00:10Z").nanos + bucket * 5_000_000_000,
        });
        metrics.push(opened);
    }
    let input = BriefInput {
        run,
        coverage: Vec::new(),
        http: vec![route],
        database: vec![statement("load"), statement("initialize")],
        cpu: Vec::new(),
        metrics,
        transitions: Vec::new(),
        artifacts: vec![artifact("failed"), artifact("unavailable"), artifact("complete")],
    };
    let benchmark = asked(
        vec![
            metric("benchmark.errors", 1.0, "errors", &[("route", "a")]),
            metric("benchmark.errors", 5.0, "errors", &[("route", "b")]),
        ],
        "benchmark.errors",
    );
    let scores = asked(Vec::new(), "score.input");
    let output = build(input, benchmark, scores, 1, &compute);
    assert_eq!(output.run.short_id, "d3dd102b");
    assert_eq!(output.run.started_at, "2026-09-19T00:00:00+00:00");
    assert_eq!(output.benchmark.total_count, 2);
    assert_eq!(output.benchmark.items[0].value.map(float), Some(5.0));
    assert_eq!(output.http.items[0].avg_ms.map(float), Some(1.235));
    assert_eq!(output.database_window.as_deref(), Some("load"));
    assert_eq!(output.omitted_alternative_database_rows, 1);
    assert_eq!(output.clients[0].connections_opened_per_second.map(float), Some(2.0));
    assert_eq!(output.clients[0].requests_per_connection.map(float), Some(2.0));
    assert_eq!(output.hosts_window, "load");
    assert_eq!(output.hosts.len(), 1);
    assert_eq!(output.hosts[0].cpu_busy_percent.map(float), Some(40.0));
    assert_eq!(output.hosts[0].cpu_busy_peak_percent.map(float), Some(50.0));
    assert_eq!(output.upstreams.total_count, 1);
    let backend = &output.upstreams.items[0];
    assert_eq!(backend.upstream, "10.0.0.1:8080");
    assert_eq!(backend.requests.map(float), Some(3.0));
    assert_eq!(backend.retried_requests.map(float), Some(1.0));
    assert_eq!(backend.connect_p95.map(float), Some(9.0));
    assert_eq!(backend.header_p95, None);
    assert_eq!(output.artifact_issues.total_count, 1);
    assert_eq!(output.unavailable_artifact_count, 1);
}

#[test]
fn the_brief_of_a_run_asks_for_its_own_metrics() {
    let mut run = run("01a03df2-ecb2-72b3-aa1f-c952d3dd102b");
    run.benchmark.started_at = Some(at("2026-09-19T00:00:00Z"));
    let metrics = || {
        vec![
            metric("benchmark.errors", 2.0, "errors", &[]),
            metric("score.tips", 7.0, "yen", &[]),
            sample("host.load1", 3.0, "2026-09-19T00:00:01Z"),
            sample("host.load1", 1.0, "2026-09-19T00:09:01Z"),
        ]
    };
    let diagnostics = diagnose(run, metrics(), Vec::new(), "logs".into(), None, &compute);
    let output = brief_run(diagnostics, metrics(), 5, &compute);
    assert_eq!(output.hosts_window, "whole");
    assert_eq!(output.hosts[0].load1_peak.map(float), Some(3.0));
    assert_eq!(output.benchmark.items.len(), 1);
    assert_eq!(output.benchmark.items[0].metric, "benchmark.errors");
    assert_eq!(output.score_inputs.items[0].value.map(float), Some(7.0));
    assert_eq!(output.upstreams.total_count, 0);
}

#[test]
fn only_samples_of_the_window_are_summarized() {
    let run = with_slp();
    let metrics = [
        sample("service.cpu_cores", 1.0, "2026-09-19T00:00:05Z"),
        sample("service.cpu_cores", 3.0, "2026-09-19T00:00:15Z"),
        sample("client.connections_opened", 4.0, "2026-09-19T00:00:15Z"),
        sample("client.connections_opened", 5.0, "2026-09-19T00:00:20Z"),
        metric("client.connections_opened", 99.0, "", &[("node", "app1")]),
    ];
    let hosts = summarize_window(&metrics, &run, Window::Load, Family::Hosts, &compute);
    assert_eq!(hosts.len(), 1);
    assert_eq!((hosts[0].samples, hosts[0].value.map(float)), (1, Some(3.0)));
    let whole = summarize_window(&metrics, &run, Window::Whole, Family::Hosts, &compute);
    assert_eq!((whole[0].samples, whole[0].value.map(float)), (2, Some(2.0)));
    assert_eq!(whole[0].peak_at, Some(at("2026-09-19T00:00:15Z")));
    let clients = summarize_window(&metrics, &run, Window::Load, Family::Clients, &compute);
    assert_eq!(clients.len(), 1);
    assert_eq!(clients[0].value.map(float), Some(9.0));
    assert_eq!(float(clients[0].peak), 5.0);
}
