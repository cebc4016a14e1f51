use isuscope::coverage::{coverage, profile_artifacts};
use isuscope::inventory::show_metrics;
use isuscope::labels::Labels;
use isuscope::metric_semantics::{
    aggregate, grouped_aggregation, time_series_aggregation, MetricAggregation,
};
use isuscope::model::{CollectorResult, Metric};
use isuscope::moment::Moment;
use isuscope::number::{Number, Op};
use isuscope::query::{
    database_query, http_query, metric_query, metric_query_diff, DatabaseQueryOptions,
    HttpQueryOptions, MetricQueryOptions, QueryPresence, QueryScope,
};
use isuscope::report::{
    cpu_symbols, database_queries, host_metrics, http_routes, section, COMPACT_LIMIT,
};
use isuscope::sampled::append_metric_summaries;
use isuscope::series::{preferred_cpu, BucketRow};
use isuscope::sql_shape::sql_shape;

fn float(n: Number) -> f64 {
    f64::from_bits(n.bits)
}

fn number(x: f64) -> Number {
    Number { bits: x.to_bits() }
}

fn compute(op: Op) -> Number {
    number(match op {
        Op::Add(a, b) => float(a) + float(b),
        Op::Subtract(a, b) => float(a) - float(b),
        Op::Multiply(a, b) => float(a) * float(b),
        Op::Divide(a, b) => float(a) / float(b),
        Op::Round(a, places) => {
            let scale = 10f64.powi(places as i32);
            (float(a) * scale).round() / scale
        }
        Op::Integer(n) => n as f64,
        Op::Natural(n) => n as f64,
    })
}

fn at(text: &str) -> Moment {
    let time = chrono::DateTime::parse_from_rfc3339(text).unwrap();
    Moment {
        nanos: i128::from(time.timestamp()) * 1_000_000_000
            + i128::from(time.timestamp_subsec_nanos()),
    }
}

fn labels(pairs: &[(&str, &str)]) -> Labels {
    let mut labels = Labels::new();
    for (name, value) in pairs {
        labels.insert(name.to_string(), value.to_string());
    }
    labels
}

fn metric(name: &str, value: f64, unit: &str, pairs: &[(&str, &str)]) -> Metric {
    Metric {
        name: name.into(),
        value: number(value),
        unit: unit.into(),
        timestamp: None,
        labels: labels(pairs),
    }
}

fn named(name: &str) -> Metric {
    metric(name, 1.0, "", &[])
}

#[test]
fn host_sampler_cpu_wins_over_sysstat() {
    let row = BucketRow {
        cpu_host_sampler: vec![number(80.0)],
        cpu_sysstat: vec![number(10.0)],
        cpu_other: vec![number(20.0)],
        ..Default::default()
    };
    assert_eq!(preferred_cpu(&row), &[number(80.0)]);
}

#[test]
fn database_counters_and_durations_are_additive() {
    for name in [
        "db.query.calls",
        "db.query.total_duration",
        "db.query.lock_duration",
        "db.query.rows_sent",
        "db.query.rows_examined",
    ] {
        assert_eq!(time_series_aggregation(&named(name)), MetricAggregation::Sum, "{name}");
    }
}

#[test]
fn grouped_quantiles_are_not_fabricated() {
    let aggregation = grouped_aggregation(&named("db.query.p95_duration"));
    assert_eq!(aggregation, MetricAggregation::NonMergeable);
    assert_eq!(aggregate(&[number(1.0), number(10.0)], aggregation, &compute), None);
}

#[test]
fn unknown_grouped_metrics_are_not_implicitly_averaged() {
    let aggregation = grouped_aggregation(&named("custom.latency"));
    assert_eq!(aggregation, MetricAggregation::NonMergeable);
    assert_eq!(aggregate(&[number(1.0), number(2.0)], aggregation, &compute), None);
}

#[test]
fn sums_and_averages_are_exact() {
    let values = [number(1.0), number(2.5)];
    assert_eq!(aggregate(&values, MetricAggregation::Sum, &compute).map(float), Some(3.5));
    assert_eq!(aggregate(&values, MetricAggregation::Average, &compute).map(float), Some(1.75));
}

#[test]
fn shapes_have_their_own_shape() {
    for digest in [
        "  SELECT *\tFROM t WHERE a IN (?, ?) AND b IN(?)  ",
        "INSERT INTO t VALUES (?,?), (?",
        "insert into t values (?), (?, ?)",
    ] {
        let shape = sql_shape(digest);
        assert_eq!(sql_shape(&shape), shape);
        assert_eq!(shape.trim(), shape);
        assert!(!shape.contains("  "));
        assert_eq!(shape.to_ascii_lowercase(), shape);
    }
    let list = |n: usize| sql_shape(&format!("select in ({}) x", vec!["?"; n].join(",")));
    assert_eq!(list(1), "select in (?+) x");
    assert_eq!(list(7), list(1));
}

#[test]
fn sql_shape_collapses_variable_length_in_lists() {
    assert_eq!(
        sql_shape("UPDATE t SET n = ? WHERE id IN (?,?,?,?,?)"),
        "update t set n = ? where id in (?+)"
    );
    assert_eq!(
        sql_shape("select * from t where id in (?)"),
        "select * from t where id in (?+)"
    );
    assert_eq!(sql_shape("select begin from t"), "select begin from t");
    assert_eq!(
        sql_shape("INSERT INTO t (a,b) VALUES (?,?),(?,?),(?,?)"),
        "insert into t (a,b) values (?tuple+)"
    );
    assert_eq!(
        sql_shape("insert into t (a,b) values (?,?),(?,?),(?,?"),
        "insert into t (a,b) values (?tuple+)"
    );
    // Letters of every script are lowered, and keep `in` inside a word.
    assert_eq!(sql_shape("SELECT ÄIN (?)"), "select äin (?)");
}

#[test]
fn metric_query_preserves_provenance_when_grouping() {
    let metrics = ["mysql-log-delta", "slp"]
        .into_iter()
        .map(|collector| {
            metric(
                "db.query.calls",
                10.0,
                "queries",
                &[("collector", collector), ("digest", "select ?")],
            )
        })
        .collect();
    let output = metric_query(
        "run".into(),
        metrics,
        MetricQueryOptions {
            scope: QueryScope::Run,
            window: None,
            metrics: vec!["db.query.calls".into()],
            metric_prefix: None,
            node: None,
            source: None,
            labels: Vec::new(),
            label_contains: Vec::new(),
            group_by: vec!["digest".into()],
            limit: 100,
        },
        &compute,
    );
    assert_eq!(output.rows.len(), 2);
    assert!(output.rows.iter().all(|row| row.value.map(float) == Some(10.0)));
}

fn scenarios(values: &[(&str, f64)]) -> Vec<Metric> {
    values
        .iter()
        .map(|(scenario, value)| {
            metric("benchmark.scenario.success", *value, "runs", &[("scenario", *scenario)])
        })
        .collect()
}

fn by_scenario() -> MetricQueryOptions {
    MetricQueryOptions {
        scope: QueryScope::Run,
        window: None,
        metrics: vec!["benchmark.scenario.success".into()],
        metric_prefix: None,
        node: None,
        source: None,
        labels: Vec::new(),
        label_contains: Vec::new(),
        group_by: vec!["scenario".into()],
        limit: usize::MAX,
    }
}

#[test]
fn metric_diff_joins_all_rows_before_limiting() {
    let base = metric_query(
        "base".into(),
        scenarios(&[("a", 100.0), ("b", 1.0)]),
        by_scenario(),
        &compute,
    );
    let candidate = metric_query(
        "candidate".into(),
        scenarios(&[("a", 101.0), ("c", 50.0)]),
        by_scenario(),
        &compute,
    );
    let diff = metric_query_diff(base, candidate, 1, &compute);
    assert_eq!(diff.total_count, 3);
    assert!(diff.truncated);
    assert_eq!(diff.rows[0].presence, QueryPresence::Added);
    assert_eq!(diff.rows[0].key.get("scenario").map(String::as_str), Some("c"));
}

#[test]
fn summarizes_http_metrics_without_inventing_cross_route_scores() {
    let pairs = [("method", "GET"), ("route", "/items/:id")];
    let metrics = vec![
        metric("http.requests", 10.0, "", &pairs),
        metric("http.request_duration_sum", 80.0, "", &pairs),
        metric("http.errors", 2.0, "", &pairs),
    ];
    let report = http_routes(&metrics, &compute);
    assert_eq!(report[0].total_ms.map(float), Some(80.0));
    assert_eq!(report[0].error_rate.map(float), Some(0.2));
}

#[test]
fn http_summary_derives_count_from_status_classes() {
    let base = [
        ("collector", "user-transition"),
        ("node", "app1"),
        ("method", "GET"),
        ("route", "/items"),
    ];
    let with = |class: &'static str| {
        let mut pairs = base.to_vec();
        pairs.push(("status_class", class));
        pairs
    };
    let report = http_routes(
        &[
            metric("http.requests", 8.0, "", &with("2xx")),
            metric("http.requests", 2.0, "", &with("5xx")),
            metric("http.errors", 2.0, "", &base),
        ],
        &compute,
    );
    assert_eq!(float(report[0].count), 10.0);
    assert_eq!(report[0].error_rate.map(float), Some(0.2));
}

#[test]
fn http_summary_prefers_complete_source_and_fills_optional_fields() {
    let from = |collector: &'static str| {
        [("collector", collector), ("node", "app1"), ("method", "GET"), ("route", "/items")]
    };
    let report = http_routes(
        &[
            metric("http.requests", 10.0, "", &from("custom-access-summary")),
            metric("http.request_duration_sum", 80.0, "", &from("custom-access-summary")),
            metric("http.request_duration_mean", 8.0, "", &from("custom-access-summary")),
            metric("http.response_bytes", 1234.0, "", &from("user-transition")),
        ],
        &compute,
    );
    assert_eq!(report.len(), 1);
    assert_eq!(float(report[0].count), 10.0);
    assert_eq!(report[0].total_ms.map(float), Some(80.0));
    assert_eq!(report[0].avg_ms.map(float), Some(8.0));
    assert_eq!(report[0].response_bytes.map(float), Some(1234.0));
}

#[test]
fn summarizes_database_cpu_and_host_evidence() {
    let db = [("node", "db1"), ("engine", "mysql"), ("digest", "select ?")];
    let database = database_queries(
        &[
            metric("db.query.calls", 4.0, "ms", &db),
            metric("db.query.total_duration", 80.0, "ms", &db),
            metric("db.query.rows_examined", 100.0, "ms", &db),
        ],
        &compute,
    );
    assert_eq!(database[0].avg_ms.map(float), Some(20.0));
    assert_eq!(database[0].rows_examined_per_call.map(float), Some(25.0));

    let cpu = cpu_symbols(&[metric(
        "cpu.sample_percent",
        42.0,
        "ms",
        &[("node", "app1"), ("process", "app"), ("binary", "web"), ("symbol", "work")],
    )]);
    assert_eq!(float(cpu[0].sample_percent), 42.0);

    let mut first = metric("host.cpu_percent", 20.0, "percent", &[("node", "app1")]);
    first.timestamp = Some(at("2026-08-27T12:00:00Z"));
    let mut second = metric("host.cpu_percent", 80.0, "percent", &[("node", "app1")]);
    second.timestamp = Some(at("2026-08-27T12:00:01Z"));
    let host = host_metrics(&[], &[first, second], &compute);
    assert_eq!(float(host[0].average), 50.0);
    assert_eq!(float(host[0].peak), 80.0);
    assert!(host[0].peak_at.is_some());

    let summary_only = metric("host.cpu_percent", 30.0, "percent", &[("node", "db1")]);
    let mut series_only = metric("host.cpu_percent", 70.0, "percent", &[("node", "app1")]);
    series_only.timestamp = Some(at("2026-08-27T12:00:02Z"));
    let mixed = host_metrics(&[summary_only], &[series_only], &compute);
    assert_eq!(mixed.len(), 2);
    assert!(mixed.iter().any(|value| value.node == "db1" && float(value.peak) == 30.0));
}

#[test]
fn compact_sections_expose_total_and_truncation() {
    let values = (0..25).collect::<Vec<_>>();
    let compact = section(values);
    assert_eq!(compact.total_count, 25);
    assert_eq!(compact.items.len(), COMPACT_LIMIT);
    assert!(compact.truncated);
}

#[test]
fn artifacts_always_reference_the_run_and_only_latest_gets_expanded_paths() {
    let collector = CollectorResult {
        name: "perf-flamegraph".into(),
        node: Some("app1".into()),
        phase: "after".into(),
        status: "complete".into(),
        exit_code: Some(0),
        error: None,
        log_ids: vec!["perf-flamegraph-app1-after-stdout".into()],
    };
    let run_logs = "runs/old/logs";
    let historical = profile_artifacts(std::slice::from_ref(&collector), run_logs, &None);
    assert_eq!(
        historical[0].canonical_path.as_deref(),
        Some("runs/old/logs/perf-flamegraph-app1-after-stdout.zst")
    );
    assert_eq!(historical[0].expanded_path, None);

    let latest = profile_artifacts(&[collector], run_logs, &Some("latest/logs".into()));
    assert_eq!(
        latest[0].expanded_path.as_deref(),
        Some("latest/logs/perf-flamegraph-app1-after-stdout.svg")
    );
}

#[test]
fn coverage_is_scoped_to_node_and_collector_without_hiding_failures() {
    let collector = |name: &str, node: &str, status: &str| CollectorResult {
        name: name.into(),
        node: Some(node.into()),
        phase: "after".into(),
        status: status.into(),
        exit_code: (status == "complete").then_some(0),
        error: None,
        log_ids: Vec::new(),
    };
    let from = |name: &str, node: &str, collector: &str| {
        metric(name, 1.0, "", &[("node", node), ("collector", collector)])
    };
    let collectors = vec![
        collector("alp", "app1", "complete"),
        collector("alp", "app2", "failed"),
        collector("host-sampler", "app1", "complete"),
        collector("sysstat", "app2", "unavailable"),
    ];
    let metrics = vec![
        from("http.requests", "app1", "alp"),
        from("http.request_duration", "app1", "alp"),
        from("host.cpu_percent", "app1", "host-sampler"),
    ];
    let report = coverage(&collectors, &metrics, &[]);
    assert!(report.iter().any(|item| {
        item.section == "http"
            && item.node == "app1"
            && item.collector == "alp"
            && item.status == "complete"
    }));
    assert!(report.iter().any(|item| {
        item.section == "http"
            && item.node == "app2"
            && item.collector == "alp"
            && item.status == "failed"
    }));
    assert!(report.iter().any(|item| {
        item.section == "host"
            && item.node == "app1"
            && item.collector == "host-sampler"
            && item.status == "missing"
            && item.missing_metrics == ["host.memory_used_bytes"]
    }));
    assert!(report.iter().any(|item| {
        item.section == "host"
            && item.node == "app2"
            && item.collector == "sysstat"
            && item.status == "unavailable"
    }));
    assert!(report.iter().any(|item| {
        item.section == "profiles"
            && item.node == "-"
            && item.collector == "-"
            && item.status == "missing"
    }));
}

#[test]
fn gauges_gain_a_summary() {
    let mut one = metric("host.load1", 1.0, "load", &[("node", "a")]);
    one.timestamp = Some(Moment { nanos: 1 });
    let mut two = metric("host.load1", 3.0, "load", &[("node", "a")]);
    two.timestamp = Some(Moment { nanos: 2 });
    let mut metrics = vec![one, two];
    append_metric_summaries(&mut metrics, &compute);
    assert!(metrics.len() > 2);
    assert!(metrics
        .iter()
        .any(|metric| metric.timestamp.is_none() && float(metric.value) == 2.0));
}

#[test]
fn metrics_are_listed_by_name() {
    let rows = show_metrics(&vec![
        metric("b", 1.0, "x", &[("k", "v")]),
        metric("a", 1.0, "x", &[]),
        metric("b", 1.0, "y", &[("k", "w")]),
    ]);
    assert_eq!(rows.len(), 2);
    assert_eq!(rows[0].name, "a");
    assert_eq!(rows[1].rows, 2);
    assert_eq!(rows[1].units, ["x", "y"]);
    assert_eq!(rows[1].labels.len(), 1);
}

#[test]
fn statements_are_grouped_by_shape() {
    let pairs = |digest: &'static str| [("node", "db1"), ("engine", "mysql"), ("digest", digest)];
    let metrics = vec![
        metric("db.query.calls", 2.0, "", &pairs("select * from t where id in (?)")),
        metric("db.query.calls", 3.0, "", &pairs("select * from t where id in (?,?)")),
    ];
    let output = database_query(
        "run".into(),
        metrics,
        DatabaseQueryOptions {
            node: None,
            source: None,
            labels: Vec::new(),
            label_contains: Vec::new(),
            sql_shape: true,
            limit: 10,
        },
        &compute,
    );
    assert_eq!(output.rows.len(), 1);
}

#[test]
fn routes_are_rounded_when_asked_for() {
    let pairs = [("method", "GET"), ("route", "/a")];
    let output = http_query(
        "run".into(),
        vec![
            metric("http.requests", 3.0, "", &pairs),
            metric("http.request_duration_sum", 1.23456, "", &pairs),
        ],
        HttpQueryOptions {
            node: None,
            source: None,
            labels: Vec::new(),
            label_contains: Vec::new(),
            limit: 10,
        },
        &compute,
    );
    assert_eq!(output.rows[0].total_ms.map(float), Some(1.235));
}
