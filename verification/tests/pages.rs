use isuscope::diff::{self, Presence};
use isuscope::labels::Labels;
use isuscope::model::{
    AnalysisStatus, BenchmarkResult, CollectorResult, Metric, RunManifest, RunMode, RunState,
    SourceSnapshot, ToolingSnapshot, Transition,
};
use isuscope::moment::Moment;
use isuscope::number::{Number, Op};
use isuscope::query::{
    database_query, database_query_diff, http_query, http_query_diff, DatabaseQueryOptions,
    HttpQueryOptions, QueryPresence,
};
use isuscope::report::{self, diagnose, RunDiagnostics};

fn float(n: Number) -> f64 {
    f64::from_bits(n.bits)
}

fn number(x: f64) -> Number {
    Number { bits: x.to_bits() }
}

fn compute(op: Op) -> Number {
    number(match op {
        Op::Add(a, b) => float(a) + float(b),
        Op::Subtract(a, b) => float(a) - float(b),
        Op::Multiply(a, b) => float(a) * float(b),
        Op::Divide(a, b) => float(a) / float(b),
        Op::Round(a, places) => {
            let scale = 10f64.powi(places as i32);
            (float(a) * scale).round() / scale
        }
        Op::Integer(n) => n as f64,
        Op::Natural(n) => n as f64,
    })
}

fn show(n: Number, decimals: u32) -> String {
    format!("{:.*}", decimals as usize, float(n))
}

fn at(text: &str) -> Moment {
    let time = chrono::DateTime::parse_from_rfc3339(text).unwrap();
    Moment {
        nanos: i128::from(time.timestamp()) * 1_000_000_000
            + i128::from(time.timestamp_subsec_nanos()),
    }
}

fn run(id: &str) -> RunManifest {
    RunManifest {
        schema_version: 6,
        id: id.into(),
        mode: RunMode::Run,
        state: RunState::Complete,
        started_at: at("2026-09-19T00:00:00Z"),
        finished_at: None,
        hypothesis: String::new(),
        analysis_status: AnalysisStatus::NotRequired,
        analyses: Vec::new(),
        note: None,
        tags: Vec::new(),
        source: SourceSnapshot::default(),
        tooling: ToolingSnapshot {
            isuscope_version: "0.1.0".into(),
            config_sha256: String::new(),
            routes_sha256: None,
            setup_script_sha256: None,
            setup_state_sha256: None,
            extra_files_sha256: Labels::new(),
            error: None,
        },
        agent_context: None,
        benchmark: BenchmarkResult::default(),
        collectors: Vec::new(),
        enrichments: Vec::new(),
        logs: Vec::new(),
        metric_count: 0,
        fingerprint_count: 0,
        transition_count: 0,
        structured_snapshot: None,
    }
}

fn labels(pairs: &[(&str, &str)]) -> Labels {
    let mut labels = Labels::new();
    for (name, value) in pairs {
        labels.insert(name.to_string(), value.to_string());
    }
    labels
}

fn metric(name: &str, value: f64, unit: &str, pairs: &[(&str, &str)]) -> Metric {
    Metric {
        name: name.into(),
        value: number(value),
        unit: unit.into(),
        timestamp: None,
        labels: labels(pairs),
    }
}

fn route(method: &str, path: &str, count: f64, total_ms: f64, p95_ms: f64) -> Vec<Metric> {
    let here = [("node", "app1"), ("method", method), ("route", path), ("collector", "alp")];
    let quantile = [here[0], here[1], here[2], here[3], ("quantile", "0.95")];
    let failed = [here[0], here[1], here[2], here[3], ("status_class", "5xx")];
    vec![
        metric("http.requests", count, "requests", &here),
        metric("http.requests", 1.0, "requests", &failed),
        metric("http.errors", 1.0, "requests", &here),
        metric("http.request_duration_sum", total_ms, "ms", &here),
        metric("http.request_duration", p95_ms, "ms", &quantile),
    ]
}

fn statement(digest: &str, calls: f64, total_ms: f64) -> Vec<Metric> {
    let here = [("node", "db1"), ("engine", "mysql"), ("digest", digest), ("collector", "slp")];
    vec![
        metric("db.query.calls", calls, "calls", &here),
        metric("db.query.total_duration", total_ms, "ms", &here),
    ]
}

fn diagnosed(id: &str, score: i64, metrics: Vec<Metric>) -> RunDiagnostics {
    let mut manifest = run(id);
    manifest.benchmark.score = Some(score);
    manifest.metric_count = metrics.len();
    manifest.collectors = vec![CollectorResult {
        name: "alp".into(),
        node: Some("app1".into()),
        phase: "after".into(),
        status: "failed".into(),
        exit_code: Some(1),
        error: Some("<no log>".into()),
        log_ids: Vec::new(),
    }];
    let steps = vec![Transition {
        from_route: "GET /".into(),
        to_route: "POST /login".into(),
        count: 7,
        p50_ms: Some(number(12.5)),
        p95_ms: None,
    }];
    diagnose(manifest, metrics, steps, format!("/d/runs/{id}/logs"), None, &compute)
}

#[test]
fn a_report_adds_up_what_was_measured() {
    let mut metrics = route("GET", "/items", 8.0, 400.0, 90.0);
    metrics.extend(route("GET", "/users", 2.0, 900.0, 500.0));
    metrics.extend(statement("SELECT 1", 4.0, 20.0));
    let report = diagnosed("run-00000001", 100, metrics).into_report();
    assert_eq!(report.schema_version, 6);
    let routes: Vec<&str> = report.http.items.iter().map(|row| row.route.as_str()).collect();
    assert_eq!(routes, ["/users", "/items"]);
    let items = &report.http.items[1];
    assert_eq!(items.count, number(8.0));
    assert_eq!(items.avg_ms, Some(number(50.0)));
    assert_eq!(items.p95_ms, Some(number(90.0)));
    assert_eq!(items.error_rate, Some(number(0.125)));
    assert_eq!(items.status_counts.get("5xx"), Some(&number(1.0)));
    assert_eq!(report.database.items[0].avg_ms, Some(number(5.0)));
    assert_eq!(report.transitions.total_count, 1);
    assert!(!report.transitions.truncated);
}

#[test]
fn pages_show_texts_as_they_are() {
    let report = diagnosed("run-00000001", 100, route("GET", "/<script>", 8.0, 400.0, 90.0));
    let report = report.into_report();
    let page = report::write_html(&report, "{\"a\":\"</script>\"}", &compute, &show);
    assert!(page.starts_with("<!doctype html>"));
    assert!(page.contains("/&lt;script&gt;"));
    assert!(!page.contains("/<script>"));
    assert!(page.contains("{\"a\":\"\\u003c/script>\"}"));
    assert!(page.contains("&lt;no log&gt;"));
    assert!(page.contains("12.50"));
}

#[test]
fn a_difference_pairs_the_rows_of_two_runs() {
    let mut before = route("GET", "/items", 8.0, 400.0, 90.0);
    before.extend(statement("SELECT 1", 4.0, 20.0));
    let mut after = route("GET", "/items", 10.0, 300.0, 60.0);
    after.extend(route("GET", "/new", 1.0, 5.0, 5.0));
    let difference = diff::build(
        diagnosed("run-00000001", 100, before),
        diagnosed("run-00000002", 150, after),
        &compute,
    );
    assert_eq!(difference.score.delta, Some(50));
    assert_eq!(difference.score.delta_percent, Some(number(50.0)));
    assert_eq!(difference.http.total_count, 2);
    let items = difference.http.items.iter().find(|row| row.route == "/items").unwrap();
    assert_eq!(items.presence, Presence::Both);
    assert_eq!(items.total_ms.delta, Some(number(-100.0)));
    assert_eq!(items.total_ms.delta_percent, Some(number(-25.0)));
    assert_eq!(items.total_ms.magnitude(), number(100.0));
    let new = difference.http.items.iter().find(|row| row.route == "/new").unwrap();
    assert_eq!(new.presence, Presence::Added);
    assert_eq!(new.total_ms.delta, None);
    assert_eq!(difference.database.items[0].presence, Presence::Removed);
    let page = diff::write_html(&difference, "{}", &show);
    assert!(page.starts_with("<!doctype html>"));
    assert!(page.contains("/items"));
}

#[test]
fn http_rows_are_compared_before_they_are_cut() {
    let options = || HttpQueryOptions {
        node: None,
        source: None,
        labels: Vec::new(),
        label_contains: Vec::new(),
        limit: usize::MAX,
    };
    let mut after = route("GET", "/items", 8.0, 400.0, 90.0);
    after.extend(route("GET", "/new", 1.0, 5000.0, 5.0));
    let base = http_query(
        "run-1".into(),
        route("GET", "/items", 8.0, 100.0, 90.0),
        options(),
        &compute,
    );
    let candidate = http_query("run-2".into(), after, options(), &compute);
    let difference = http_query_diff(base, candidate, 1, &compute);
    assert_eq!(difference.view, "http");
    assert_eq!((difference.total_count, difference.truncated), (2, true));
    assert_eq!(difference.rows.len(), 1);
    assert_eq!(difference.rows[0].key.get("route").map(String::as_str), Some("/new"));
    assert_eq!(difference.rows[0].presence, QueryPresence::Added);
}

#[test]
fn statements_are_compared_by_their_digest() {
    let options = || DatabaseQueryOptions {
        node: None,
        source: None,
        labels: Vec::new(),
        label_contains: Vec::new(),
        sql_shape: false,
        limit: usize::MAX,
    };
    let base =
        database_query("run-1".into(), statement("SELECT 1", 4.0, 20.0), options(), &compute);
    let candidate =
        database_query("run-2".into(), statement("SELECT 1", 8.0, 30.0), options(), &compute);
    let difference = database_query_diff(base, candidate, 10, &compute);
    assert_eq!(difference.rows.len(), 1);
    let row = &difference.rows[0];
    assert_eq!(row.presence, QueryPresence::Both);
    let calls = row.changes.get("calls").unwrap();
    assert_eq!(calls.delta, Some(number(4.0)));
    assert_eq!(calls.delta_percent, Some(number(100.0)));
}

fn windowed(name: &str, value: f64, window: &str, digest_id: &str) -> Metric {
    let mut pairs = vec![
        ("node", "db1"),
        ("engine", "mysql"),
        ("digest", "SELECT * FROM t WHERE id = 1"),
        ("collector", "slp"),
        ("window", window),
    ];
    if !digest_id.is_empty() {
        pairs.push(("digest_id", digest_id));
    }
    metric(name, value, "", &pairs)
}

fn all_statements(sql_shape: bool) -> DatabaseQueryOptions {
    DatabaseQueryOptions {
        node: None,
        source: None,
        labels: Vec::new(),
        label_contains: Vec::new(),
        sql_shape,
        limit: usize::MAX,
    }
}

#[test]
fn a_statement_of_two_windows_is_compared_in_both() {
    let statements = |calls: f64| {
        vec![
            windowed("db.query.calls", calls, "load", ""),
            windowed("db.query.total_duration", 10.0 * calls, "load", ""),
            windowed("db.query.calls", 1.0, "whole", ""),
            windowed("db.query.total_duration", 5.0, "whole", ""),
        ]
    };
    let base = database_query("run-1".into(), statements(4.0), all_statements(false), &compute);
    assert_eq!(base.rows.len(), 2);
    let candidate =
        database_query("run-2".into(), statements(9.0), all_statements(false), &compute);
    let difference = database_query_diff(base, candidate, 10, &compute);
    assert_eq!((difference.total_count, difference.rows.len()), (2, 2));
    let windows: Vec<Option<&str>> = difference
        .rows
        .iter()
        .map(|row| row.key.get("window").map(String::as_str))
        .collect();
    assert_eq!(windows, [Some("load"), Some("whole")]);
    assert!(difference.rows.iter().all(|row| row.presence == QueryPresence::Both));
    assert_eq!(difference.rows[0].changes.get("calls").unwrap().delta, Some(number(5.0)));
    assert_eq!(difference.rows[1].changes.get("calls").unwrap().delta, Some(number(0.0)));
    assert_eq!(
        difference.rows[0].candidate.as_ref().unwrap().window.as_deref(),
        Some("load")
    );
}

#[test]
fn statements_with_one_beginning_are_compared_apart() {
    let statements = || {
        vec![
            windowed("db.query.calls", 2.0, "load", "0a"),
            windowed("db.query.calls", 3.0, "load", "0b"),
        ]
    };
    let base = database_query("run-1".into(), statements(), all_statements(false), &compute);
    let candidate = database_query(
        "run-2".into(),
        vec![windowed("db.query.calls", 3.0, "load", "0b")],
        all_statements(false),
        &compute,
    );
    let difference = database_query_diff(base, candidate, 10, &compute);
    assert_eq!(difference.total_count, 2);
    let shown = |id: &str| {
        difference
            .rows
            .iter()
            .find(|row| row.key.get("digest_id").map(String::as_str) == Some(id))
            .map(|row| row.presence)
    };
    assert_eq!(shown("0a"), Some(QueryPresence::Removed));
    assert_eq!(shown("0b"), Some(QueryPresence::Both));
}

#[test]
fn quantiles_of_more_than_one_row_are_not_merged() {
    let quantile = |window: &str, id: &str| windowed("db.query.p95_duration", 7.0, window, id);
    let shaped = |metrics: Vec<Metric>| {
        let output = database_query("run".into(), metrics, all_statements(true), &compute);
        assert_eq!(output.rows.len(), 1);
        output.rows.into_iter().next().unwrap()
    };
    let one = shaped(vec![quantile("load", "")]);
    assert_eq!((one.p95_ms, one.digest_count), (Some(number(7.0)), 1));
    assert!(one.unavailable.get("p95_ms").is_none());
    let windows = shaped(vec![quantile("load", ""), quantile("whole", "")]);
    assert_eq!((windows.p95_ms, windows.digest_count), (None, 1));
    assert_eq!(
        windows.unavailable.get("p95_ms").map(String::as_str),
        Some("scalar quantiles cannot be merged across windows")
    );
    let digests = shaped(vec![quantile("load", "0a"), quantile("load", "0b")]);
    assert_eq!((digests.p95_ms, digests.digest_count), (None, 2));
    assert_eq!(
        digests.unavailable.get("p95_ms").map(String::as_str),
        Some("scalar quantiles cannot be merged across digests")
    );
}
