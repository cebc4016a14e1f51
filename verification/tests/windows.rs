use isuscope::labels::Labels;
use isuscope::model::{
    AnalysisStatus, BenchmarkResult, Metric, RunManifest, RunMode, RunState, SourceSnapshot,
    ToolingSnapshot,
};
use isuscope::moment::Moment;
use isuscope::number::{Number, Op};
use isuscope::query::{MetricQueryOptions, QueryScope};
use isuscope::series::{SeriesData, SeriesOptions};
use isuscope::windows::{
    keep_window, parse_window, query_run, series_of_run, with_window, Window, WindowError,
};

fn float(n: Number) -> f64 {
    f64::from_bits(n.bits)
}

fn number(x: f64) -> Number {
    Number { bits: x.to_bits() }
}

fn compute(op: Op) -> Number {
    number(match op {
        Op::Add(a, b) => float(a) + float(b),
        Op::Subtract(a, b) => float(a) - float(b),
        Op::Multiply(a, b) => float(a) * float(b),
        Op::Divide(a, b) => float(a) / float(b),
        Op::Round(a, places) => {
            let scale = 10f64.powi(places as i32);
            (float(a) * scale).round() / scale
        }
        Op::Integer(n) => n as f64,
        Op::Natural(n) => n as f64,
    })
}

fn at(text: &str) -> Moment {
    let time = chrono::DateTime::parse_from_rfc3339(text).unwrap();
    Moment {
        nanos: i128::from(time.timestamp()) * 1_000_000_000
            + i128::from(time.timestamp_subsec_nanos()),
    }
}

fn run(id: &str) -> RunManifest {
    RunManifest {
        schema_version: 6,
        id: id.into(),
        mode: RunMode::Run,
        state: RunState::Complete,
        started_at: at("2026-09-19T00:00:00Z"),
        finished_at: None,
        hypothesis: String::new(),
        analysis_status: AnalysisStatus::NotRequired,
        analyses: Vec::new(),
        note: None,
        tags: Vec::new(),
        source: SourceSnapshot::default(),
        tooling: ToolingSnapshot {
            isuscope_version: "0.1.0".into(),
            config_sha256: String::new(),
            routes_sha256: None,
            setup_script_sha256: None,
            setup_state_sha256: None,
            extra_files_sha256: Labels::new(),
            error: None,
        },
        agent_context: None,
        benchmark: BenchmarkResult::default(),
        collectors: Vec::new(),
        enrichments: Vec::new(),
        logs: Vec::new(),
        metric_count: 0,
        fingerprint_count: 0,
        transition_count: 0,
        structured_snapshot: None,
    }
}

fn labels(pairs: &[(&str, &str)]) -> Labels {
    let mut labels = Labels::new();
    for (name, value) in pairs {
        labels.insert(name.to_string(), value.to_string());
    }
    labels
}

fn metric(name: &str, value: f64, unit: &str, pairs: &[(&str, &str)]) -> Metric {
    Metric {
        name: name.into(),
        value: number(value),
        unit: unit.into(),
        timestamp: None,
        labels: labels(pairs),
    }
}

fn benchmarked() -> RunManifest {
    let mut run = run("r");
    run.benchmark.started_at = Some(at("2026-09-19T00:00:00.5Z"));
    run.benchmark.initialize_finished_at = Some(at("2026-09-19T00:00:10.123456789Z"));
    run.benchmark.finished_at = Some(at("2026-09-19T00:01:10Z"));
    run
}

fn sample(value: f64, time: &str) -> Metric {
    Metric { timestamp: Some(at(time)), ..metric("db.calls", value, "", &[("node", "db1")]) }
}

fn samples() -> Vec<Metric> {
    vec![
        sample(1.0, "2026-09-19T00:00:00Z"),
        sample(2.0, "2026-09-19T00:00:05Z"),
        sample(4.0, "2026-09-19T00:00:10.123455Z"),
        sample(8.0, "2026-09-19T00:00:10.123456Z"),
        sample(16.0, "2026-09-19T00:00:20Z"),
        sample(32.0, "2026-09-19T00:01:10Z"),
        metric("db.query.calls", 64.0, "", &[("window", "load")]),
        metric("db.query.calls", 128.0, "", &[("window", "initialize")]),
    ]
}

fn values(metrics: &[Metric]) -> Vec<f64> {
    metrics.iter().map(|metric| float(metric.value)).collect()
}

#[test]
fn a_window_keeps_its_samples() {
    let run = benchmarked();
    let kept = |window| values(&keep_window(samples(), window, &run));
    assert_eq!(kept(Window::Initialize), [2.0, 4.0, 128.0]);
    assert_eq!(kept(Window::Load), [8.0, 16.0, 64.0]);
    assert_eq!(kept(Window::Whole).len(), 8);
    let mut open = benchmarked();
    open.benchmark.finished_at = None;
    assert_eq!(values(&keep_window(samples(), Window::Load, &open)), [8.0, 16.0, 32.0, 64.0]);
}

fn asked(window: Option<&str>) -> MetricQueryOptions {
    MetricQueryOptions {
        scope: QueryScope::Series,
        window: window.map(String::from),
        metrics: vec!["db.calls".into()],
        metric_prefix: None,
        node: None,
        source: None,
        labels: Vec::new(),
        label_contains: Vec::new(),
        group_by: Vec::new(),
        limit: 10,
    }
}

#[test]
fn a_query_answers_for_its_window() {
    let run = benchmarked();
    let mean = |window: Option<&str>| {
        let output = query_run(&run, samples(), asked(window), &compute).unwrap();
        assert_eq!(output.run_id, "r");
        assert_eq!(output.selection.window.as_deref(), window);
        output.rows[0].value.map(float)
    };
    assert_eq!(mean(None), Some(10.5));
    assert_eq!(mean(Some("whole")), Some(10.5));
    assert_eq!(mean(Some("initialize")), Some(3.0));
    assert_eq!(mean(Some("load")), Some(12.0));
}

#[test]
fn a_window_that_cannot_be_found_is_refused() {
    let error = query_run(&benchmarked(), samples(), asked(Some("warmup")), &compute).unwrap_err();
    assert!(matches!(&error, WindowError::Unnamed(name) if name == "warmup"));
    assert_eq!(error.message(), "unknown window `warmup`; use whole, initialize or load");
    let error = query_run(&run("r"), samples(), asked(Some("load")), &compute).unwrap_err();
    assert!(matches!(error, WindowError::Unknown(Window::Load)));
    assert!(error.message().ends_with("it has no window load"));
    assert!(query_run(&run("r"), samples(), asked(Some("whole")), &compute).is_ok());
    assert_eq!(parse_window("Load"), None);
}

#[test]
fn a_series_shows_its_window() {
    let options = SeriesOptions {
        metrics: vec!["db.calls".into()],
        node: None,
        labels: Vec::new(),
        from: 0,
        to: None,
        bucket: 5,
        limit: 100,
    };
    let count = |window: Option<&str>| {
        let window = window.map(String::from);
        let output =
            series_of_run(&benchmarked(), samples(), &window, &options, &compute).unwrap();
        match output.data {
            SeriesData::Metrics(rows) => rows.total_count,
            SeriesData::Overview(_) => panic!("an overview was not asked for"),
        }
    };
    assert_eq!(count(None), 5);
    assert_eq!(count(Some("initialize")), 2);
    assert_eq!(count(Some("load")), 2);
    let window = Some("half".to_owned());
    assert!(series_of_run(&benchmarked(), samples(), &window, &options, &compute).is_err());
}

#[test]
fn a_window_is_one_more_label() {
    let labels = vec![("node".to_owned(), "db1".to_owned())];
    assert_eq!(with_window(labels.clone(), &None), labels);
    let all = with_window(labels, &Some("load".into()));
    assert_eq!(all[1], ("window".to_owned(), "load".to_owned()));
}
