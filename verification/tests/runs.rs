use isuscope::benchmark::BenchmarkExecution;
use isuscope::changes::{
    change_history, check_decision, compare_scores, list_changes, new_change, new_decision,
    prepare_change_decision, summarize, validate_id, ChangeError, DecisionStatus, Evidence,
};
use isuscope::cli::{
    analysis_lines, check_analysis, enrich_lines, parse_label_filter, parse_list_limit,
    plan_analysis, AnalysisText, AnalyzeError,
};
use isuscope::collector::{Captured, CollectorOutput};
use isuscope::config::BenchmarkParserConfig;
use isuscope::enrichment::{
    enrich_outcome, failed_parser, finish_parser, parse_messages, plan_parser, ParserEnding,
    ParserError, ParserPlace, SavedLog, Waited,
};
use isuscope::labels::Labels;
use isuscope::model::{
    AnalysisStatus, AnalysisVerdict, BenchmarkMessageKind, BenchmarkResult, CollectorResult,
    Fingerprint, LogRef, Metric, RunAnalysis, RunManifest, RunMode, RunState, SourceSnapshot, ToolingSnapshot,
};
use isuscope::moment::Moment;
use isuscope::number::{Number, Op};
use isuscope::premises::{compare_premises, Premise};
use isuscope::runner::{
    begin_run, can_shorten, check_others, check_request, collector_line, header_lines,
    recovered_lines, report_lines, short_id, PendingRun, Progress, RunAnnotations, RunRefusal,
};
use isuscope::series::{show_series, SeriesData, SeriesOptions};
use isuscope::storage::{
    abandon, append_analysis, final_dir, find_run, pending_analyses, pick_run, recovery_warning,
    run_marker_path, staging_dir, structured_records_from_logs, SavedOutput, RunName,
};

fn float(n: Number) -> f64 {
    f64::from_bits(n.bits)
}

fn number(x: f64) -> Number {
    Number { bits: x.to_bits() }
}

fn compute(op: Op) -> Number {
    number(match op {
        Op::Add(a, b) => float(a) + float(b),
        Op::Subtract(a, b) => float(a) - float(b),
        Op::Multiply(a, b) => float(a) * float(b),
        Op::Divide(a, b) => float(a) / float(b),
        Op::Round(a, places) => {
            let scale = 10f64.powi(places as i32);
            (float(a) * scale).round() / scale
        }
        Op::Integer(n) => n as f64,
        Op::Natural(n) => n as f64,
    })
}

fn at(text: &str) -> Moment {
    let time = chrono::DateTime::parse_from_rfc3339(text).unwrap();
    Moment {
        nanos: i128::from(time.timestamp()) * 1_000_000_000
            + i128::from(time.timestamp_subsec_nanos()),
    }
}

fn run(id: &str) -> RunManifest {
    RunManifest {
        schema_version: 6,
        id: id.into(),
        mode: RunMode::Run,
        state: RunState::Complete,
        started_at: at("2026-09-19T00:00:00Z"),
        finished_at: None,
        hypothesis: String::new(),
        analysis_status: AnalysisStatus::NotRequired,
        analyses: Vec::new(),
        note: None,
        tags: Vec::new(),
        source: SourceSnapshot::default(),
        tooling: ToolingSnapshot {
            isuscope_version: "0.1.0".into(),
            config_sha256: String::new(),
            routes_sha256: None,
            setup_script_sha256: None,
            setup_state_sha256: None,
            extra_files_sha256: Labels::new(),
            error: None,
        },
        agent_context: None,
        benchmark: BenchmarkResult::default(),
        collectors: Vec::new(),
        enrichments: Vec::new(),
        logs: Vec::new(),
        metric_count: 0,
        fingerprint_count: 0,
        transition_count: 0,
        structured_snapshot: None,
    }
}

fn labels(pairs: &[(&str, &str)]) -> Labels {
    let mut labels = Labels::new();
    for (name, value) in pairs {
        labels.insert(name.to_string(), value.to_string());
    }
    labels
}

fn metric(name: &str, value: f64, unit: &str, pairs: &[(&str, &str)]) -> Metric {
    Metric {
        name: name.into(),
        value: number(value),
        unit: unit.into(),
        timestamp: None,
        labels: labels(pairs),
    }
}

const ID: &str = "01a03df2-ecb2-72b3-aa1f-c952d3dd102b";

#[test]
fn recovers_incomplete_run_as_aborted() {
    let mut manifest = run(ID);
    manifest.schema_version = 4;
    manifest.state = RunState::Running;
    abandon(&mut manifest, at("2026-09-19T00:01:00Z"));
    assert!(matches!(manifest.state, RunState::Aborted));
    assert!(manifest.benchmark.interrupted);
    assert_eq!(manifest.finished_at, Some(at("2026-09-19T00:01:00Z")));
    assert_ne!(staging_dir("/d", ID), final_dir("/d", ID));
    assert!(run_marker_path("/d", ID).contains(ID));
}

#[test]
fn runs_are_named_by_the_end_of_their_id() {
    assert!(can_shorten(ID));
    assert_eq!(short_id(ID), "d3dd102b");
    assert_eq!(short_id("short"), "short");
    assert_eq!(pick_run("x", vec![ID.into()]).unwrap().as_deref(), Some(ID));
    assert_eq!(pick_run("x", Vec::new()).unwrap(), None);
    let runs: Vec<RunName> = [("01a03df2-b", "base"), ("01a03df2-a", "first"), ("02-x", "base")]
        .into_iter()
        .map(|(id, tag)| RunName { id: id.into(), tags: vec![tag.into()] })
        .collect();
    let found = |name: &str| find_run(name, &runs).map_err(|error| error.message());
    assert_eq!(found("latest"), Ok(Some("01a03df2-b".into())));
    assert_eq!(found("01a03df2-a"), Ok(Some("01a03df2-a".into())));
    assert_eq!(found("-x"), Ok(Some("02-x".into())));
    assert_eq!(found("-X"), Ok(None));
    assert_eq!(found("02_x"), Ok(None));
    assert_eq!(found("%"), Ok(None));
    assert_eq!(found("02"), Ok(Some("02-x".into())));
    assert_eq!(found("first"), Ok(Some("01a03df2-a".into())));
    assert_eq!(found("none"), Ok(None));
    assert_eq!(found("base"), Err("run ID prefix `base` is ambiguous".into()));
    assert_eq!(found("01a03df2"), Err("run ID prefix `01a03df2` is ambiguous".into()));
    assert_eq!(find_run("latest", &Vec::new()).unwrap(), None);
    let error = pick_run("x", vec![ID.into(), "other".into()]).unwrap_err();
    assert!(error.message().contains('x'));
}

#[test]
fn a_request_needs_a_hypothesis() {
    assert!(check_request(RunMode::Run, "cache it").is_ok());
    assert_eq!(check_request(RunMode::Run, " "), Err(RunRefusal::NoHypothesis));
    assert_eq!(check_request(RunMode::ScoreRun, "x"), Err(RunRefusal::ScoreRun));
    assert!(check_others(false, &Vec::new(), &Vec::new()).is_ok());
    assert_eq!(check_others(true, &Vec::new(), &Vec::new()), Err(RunRefusal::GateHeld));
    assert_eq!(
        check_others(false, &vec![ID.into()], &Vec::new()),
        Err(RunRefusal::Active(ID.into()))
    );
    let pending = vec![PendingRun { id: ID.into(), hypothesis: "h".into() }];
    let refusal = check_others(false, &Vec::new(), &pending).unwrap_err();
    assert_eq!(refusal, RunRefusal::Pending(ID.into(), "h".into()));
    assert!(refusal.message().contains("d3dd102b"));
}

fn collected(name: &str, node: Option<&str>, status: &str, metrics: Vec<Metric>) -> CollectorOutput {
    CollectorOutput {
        result: CollectorResult {
            name: name.into(),
            node: node.map(Into::into),
            phase: "after".into(),
            status: status.into(),
            exit_code: Some(0),
            error: None,
            log_ids: Vec::new(),
        },
        logs: Vec::new(),
        metrics,
        fingerprints: Vec::new(),
        transitions: Vec::new(),
    }
}

#[test]
fn a_run_gathers_what_its_collectors_give() {
    let blank = run(ID);
    let mut progress = begin_run(
        RunMode::Run,
        ID.into(),
        at("2026-09-19T00:00:00Z"),
        RunAnnotations {
            hypothesis: "h".into(),
            note: Some(" ".into()),
            tags: vec!["b".into(), "a".into(), "b".into()],
        },
        SourceSnapshot::default(),
        blank.tooling,
        None,
    );
    assert_eq!(progress.manifest.tags, ["a", "b"]);
    assert_eq!(progress.manifest.schema_version, 6);
    let lines = progress.absorb(vec![collected(
        "alp",
        Some("app1"),
        "complete",
        vec![metric("http.requests", 1.0, "requests", &[])],
    )]);
    assert_eq!(lines.len(), 1);
    progress.absorb_benchmark(BenchmarkExecution {
        result: BenchmarkResult { passed: Some(true), score: Some(7), ..Default::default() },
        logs: Vec::new(),
        metrics: Vec::new(),
    });
    progress.finish(at("2026-09-19T00:02:00Z"), &compute);
    let outcome = progress.outcome();
    assert!(outcome.passed);
    assert_eq!((outcome.state, outcome.score), (RunState::Complete, Some(7)));
    assert_eq!(progress.manifest.analysis_status, AnalysisStatus::Pending);
    assert_eq!(progress.manifest.metric_count, progress.metrics.len());
    assert!(!report_lines(&progress.manifest, "/d/runs/x").is_empty());
    assert!(!header_lines(&progress.manifest, "/d").is_empty());
    assert!(collector_line(&progress.manifest.collectors[0]).contains("alp"));
}

#[test]
fn a_failed_collector_degrades_a_passed_run() {
    let mut manifest = run(ID);
    manifest.benchmark.passed = Some(true);
    manifest.collectors.push(collected("perf", None, "failed", Vec::new()).result);
    manifest.settle_state();
    assert_eq!(manifest.state, RunState::Degraded);
    manifest.benchmark.passed = Some(false);
    manifest.settle_state();
    assert_eq!(manifest.state, RunState::Failed);
    assert_eq!(recovered_lines(&vec![ID.into()]).len(), 1);
}

fn analysis(verdict: AnalysisVerdict) -> RunAnalysis {
    RunAnalysis {
        id: "a1".into(),
        created_at: at("2026-09-19T01:00:00Z"),
        verdict,
        body: "because".into(),
        base_run_id: None,
    }
}

#[test]
fn analyses_settle_pending_runs() {
    let mut manifest = run(ID);
    manifest.benchmark.passed = Some(true);
    manifest.analysis_status = AnalysisStatus::Pending;
    manifest.hypothesis = "h".into();
    assert_eq!(pending_analyses(&vec![manifest.clone()]).len(), 1);
    append_analysis(&mut manifest, analysis(AnalysisVerdict::Supported)).unwrap();
    assert_eq!(manifest.analysis_status, AnalysisStatus::Complete);
    assert!(pending_analyses(&vec![manifest.clone()]).is_empty());
    assert!(!analysis_lines(&manifest).is_empty());
    let mut failed = run(ID);
    failed.benchmark.passed = Some(false);
    let error = append_analysis(&mut failed, analysis(AnalysisVerdict::Rejected)).unwrap_err();
    assert!(!error.message().is_empty());
}

#[test]
fn the_analysis_is_taken_from_one_place() {
    let (skipped, supported) = (AnalysisVerdict::Skipped, AnalysisVerdict::Supported);
    assert!(matches!(
        plan_analysis(supported, Some("x".into()), false, None),
        Ok(AnalysisText::Given(text)) if text == "x"
    ));
    assert!(matches!(plan_analysis(supported, None, true, None), Ok(AnalysisText::InFile)));
    assert!(matches!(
        plan_analysis(skipped, None, false, Some("later".into())),
        Ok(AnalysisText::Given(text)) if text == "later"
    ));
    assert!(matches!(
        plan_analysis(supported, None, false, None),
        Err(AnalyzeError::NoAnalysis)
    ));
    assert!(matches!(
        plan_analysis(supported, Some("x".into()), true, None),
        Err(AnalyzeError::TwoAnalyses)
    ));
    assert!(plan_analysis(skipped, None, false, None).is_err());
    assert!(plan_analysis(supported, None, false, Some("r".into())).is_err());
    assert!(check_analysis(" \n").is_err());
    assert!(check_analysis("done").is_ok());
    assert!(!AnalyzeError::NoAnalysis.message().is_empty());
}

#[test]
fn arguments_are_read() {
    assert_eq!(parse_list_limit("5"), Ok(5));
    assert!(parse_list_limit("0").is_err());
    assert!(parse_list_limit("many").is_err());
    assert_eq!(parse_label_filter("a=b=c"), Ok(("a".into(), "b=c".into())));
    assert!(parse_label_filter("a").is_err());
}

#[test]
fn changes_need_a_plain_id_and_a_description() {
    assert!(validate_id("cache-1").is_ok());
    assert!(matches!(validate_id("a b"), Err(ChangeError::Id)));
    assert!(matches!(validate_id(&"a".repeat(101)), Err(ChangeError::Id)));
    let created = at("2026-09-19T00:00:00Z");
    let change = new_change("cache", "Cache users".into(), created, None).unwrap();
    assert_eq!(change.schema_version, 1);
    assert!(new_change("cache", " ".into(), created, None).is_err());
    assert!(matches!(
        check_decision(DecisionStatus::Provisional, "why", &None, 1),
        Err(ChangeError::NoRevisit)
    ));
    assert!(matches!(
        check_decision(DecisionStatus::Accepted, "why", &None, 0),
        Err(ChangeError::NoRuns)
    ));
    assert!(matches!(
        check_decision(DecisionStatus::Accepted, " ", &None, 1),
        Err(ChangeError::NoReason)
    ));
    let evidence = vec![Evidence { run_id: ID.into(), source: SourceSnapshot::default() }];
    let decision = new_decision(
        "d1".into(),
        "cache",
        created,
        DecisionStatus::Accepted,
        "faster".into(),
        None,
        evidence,
    )
    .unwrap();
    let history = change_history("cache", change.clone(), vec![decision.clone()]).unwrap();
    let shown = list_changes(vec![history], Some(DecisionStatus::Accepted), Some(ID), 10);
    assert_eq!(shown.len(), 1);
    let summary = summarize(change_history("cache", change.clone(), vec![decision]).unwrap());
    assert_eq!(summary.latest_decision.unwrap().id, "d1");
    assert!(change_history("other", change, Vec::new()).is_err());
    let prepared = prepare_change_decision(
        "cache",
        DecisionStatus::Accepted,
        Some("Cache users".into()),
        None,
        true,
        false,
        &run(ID),
    )
    .unwrap();
    assert!(prepared.create.is_some());
    assert!(!ChangeError::NoRuns.message().is_empty());
}

#[test]
fn scores_are_compared_run_by_run() {
    let mut base = run("base-run-1");
    base.benchmark.score = Some(100);
    let mut candidate = run(ID);
    candidate.benchmark.score = Some(150);
    let none = Vec::new();
    let comparison = compare_scores(&base, &none, &candidate, &none, &compute);
    assert_eq!(comparison.score.delta, Some(50));
    assert_eq!(comparison.sample_count_per_side, 1);
    // Nothing is known of what the runs have in common.
    assert_eq!(comparison.premises.source, Premise::Unknown);
    assert_eq!(comparison.premises.observation, Premise::Unknown);
    assert_eq!(comparison.premises.environment, Premise::Unknown);
    assert_eq!(comparison.premises.benchmark, Premise::Unknown);
}

fn print(name: &str, value: &str, pairs: &[(&str, &str)]) -> Fingerprint {
    Fingerprint { name: name.into(), value: value.into(), labels: labels(pairs) }
}

#[test]
fn premises_tell_what_two_runs_have_in_common() {
    let mut base = run("base-run-1");
    base.source.state_sha256 = "a".into();
    base.tooling.config_sha256 = "c".into();
    base.tags = vec!["bench:warm".into(), "first".into()];
    let mut candidate = base.clone();
    candidate.id = ID.into();
    let prints = vec![
        print("nginx.config.sha256", "1", &[("node", "app1")]),
        print("kernel", "6.1", &[]),
    ];
    let premises = compare_premises(&base, &prints, &candidate, &prints);
    assert_eq!(premises.source.as_str(), "same");
    assert_eq!(premises.observation, Premise::Same);
    assert_eq!(premises.environment, Premise::Same);
    assert!(premises.changed_fingerprints.is_empty());
    assert_eq!(premises.benchmark, Premise::Same);

    candidate.source.state_sha256 = "b".into();
    candidate.tooling.routes_sha256 = Some("r".into());
    candidate.tags = vec!["bench:cold".into()];
    let changed = vec![
        print("nginx.config.sha256", "2", &[("node", "app1")]),
        print("kernel", "6.1", &[]),
    ];
    let premises = compare_premises(&base, &prints, &candidate, &changed);
    assert_eq!(premises.source.as_str(), "changed");
    assert_eq!(premises.observation, Premise::Changed);
    assert_eq!(premises.environment, Premise::Changed);
    assert_eq!(premises.changed_fingerprints, ["nginx.config.sha256@app1"]);
    assert_eq!(premises.benchmark, Premise::Changed);

    // What only one run tells of is unknown, not the same.
    candidate.source.state_sha256 = String::new();
    candidate.tooling.error = Some("unreadable".into());
    candidate.tags = vec!["first".into()];
    let fewer = vec![print("kernel", "6.1", &[])];
    let premises = compare_premises(&base, &prints, &candidate, &fewer);
    assert_eq!(premises.source.as_str(), "unknown");
    assert_eq!(premises.observation, Premise::Unknown);
    assert_eq!(premises.environment, Premise::Unknown);
    assert_eq!(premises.benchmark, Premise::Unknown);
    let back = compare_premises(&candidate, &fewer, &base, &prints);
    assert_eq!(back.environment, premises.environment);
}

#[test]
fn parsing_a_saved_run_again_replaces_what_the_parsers_gave() {
    let log = |id: &str, kind: &str| LogRef { id: id.into(), kind: kind.into(), node: None };
    let output = |value: f64| {
        let mut output = failed_parser(&parser(&["./parse"]), "late".into());
        output.result.status = "complete".into();
        output.result.error = None;
        output.logs = vec![log("p", "benchmark-parser:messages:stdout")];
        output.metrics = vec![metric("score.tip", value, "", &[("isuscope.parser", "messages")])];
        output
    };
    let mut manifest = run(ID);
    manifest.benchmark.passed = Some(true);
    manifest.logs = vec![log("b", "benchmark-stdout"), log("o", "benchmark-parser:old:stdout")];
    let mut progress = Progress {
        manifest,
        metrics: vec![
            metric("inline", 1.0, "", &[("isuscope.parser", "inline")]),
            metric("old", 2.0, "", &[("isuscope.parser", "messages")]),
            metric("host", 3.0, "", &[]),
        ],
        fingerprints: Vec::new(),
        transitions: Vec::new(),
    };
    let outcome = progress.replace_enrichments(vec![output(5.0)], "tooling/1");
    assert_eq!(outcome.parser_count, 1);
    assert_eq!(outcome.metric_count, 3);
    assert!(!outcome.failed);
    let outcome = progress.replace_enrichments(vec![output(6.0)], "tooling/2");
    assert_eq!(outcome.run_id, ID);
    let names: Vec<&str> = progress.metrics.iter().map(|metric| metric.name.as_str()).collect();
    assert_eq!(names, ["inline", "host", "score.tip"]);
    assert_eq!(progress.metrics[2].value, number(6.0));
    assert_eq!(progress.manifest.metric_count, 3);
    assert_eq!(progress.manifest.enrichments.len(), 1);
    assert_eq!(progress.manifest.enrichments[0].tooling_path.as_deref(), Some("tooling/2"));
    let logs: Vec<&str> = progress.manifest.logs.iter().map(|log| log.id.as_str()).collect();
    assert_eq!(logs, ["b", "p"]);
    assert!(matches!(progress.manifest.state, RunState::Complete));
    let mut failed = output(7.0);
    failed.result.status = "failed".into();
    assert!(progress.replace_enrichments(vec![failed], "tooling/3").failed);
    assert!(matches!(progress.manifest.state, RunState::Degraded));
}

fn parser(command: &[&str]) -> BenchmarkParserConfig {
    BenchmarkParserConfig {
        name: "messages".into(),
        command: command.iter().map(|word| word.to_string()).collect(),
        timeout_seconds: 30,
        max_output_bytes: 1000,
    }
}

#[test]
fn parsers_are_given_the_output_of_the_benchmark() {
    let place = ParserPlace { run_id: ID.into(), run_dir: "/r".into() };
    let plan = plan_parser(&parser(&["./parse", "{run_id}"]), &place, true).unwrap();
    assert_eq!(plan.command, ["./parse", ID]);
    assert!(plan.stdout_log.starts_with("/r/"));
    assert!(matches!(
        plan_parser(&parser(&["./parse"]), &place, false),
        Err(ParserError::NoOutput(_))
    ));
    assert!(matches!(plan_parser(&parser(&[]), &place, true), Err(ParserError::NoCommand)));
}

#[test]
fn messages_are_kept_within_limits() {
    let mut lines = String::new();
    for index in 0..3 {
        lines.push_str(&format!(
            "{{\"type\":\"message\",\"kind\":\"error\",\"category\":\"a\",\"text\":\"e{index}\"}}\n"
        ));
    }
    lines.push_str("{\"type\":\"message\",\"kind\":\"odd\",\"text\":\"x\"}\nplain\n");
    let parsed = parse_messages(lines.as_bytes());
    assert_eq!(parsed.messages.len() + parsed.omitted, 3);
    assert_eq!(parsed.invalid, 1);
    assert!(parsed.messages.iter().all(|m| m.kind == BenchmarkMessageKind::Error));
}

#[test]
fn a_parser_ends_in_its_records_or_its_faults() {
    let bytes = b"{\"type\":\"metric\",\"name\":\"bench.posts\",\"value\":2}\n";
    let log = zstd::encode_all(&bytes[..], 1).unwrap();
    let end = ParserEnding {
        waited: Waited::Exited(Some(0)),
        stdout: Captured::Complete,
        stderr: Captured::Complete,
        stdout_log_error: None,
        stderr_log_error: None,
        log: SavedLog::Bytes(log),
    };
    let output = finish_parser(&parser(&["./parse"]), vec!["./parse".into()], &end, &compute);
    assert_eq!(output.result.status, "complete");
    let end = ParserEnding { waited: Waited::TimedOut, ..end };
    let output = finish_parser(&parser(&["./parse"]), vec!["./parse".into()], &end, &compute);
    assert_eq!(output.result.status, "failed");
    assert!(output.result.error.as_ref().unwrap().contains("benchmark parser timed out after 30s"));
    let failed = failed_parser(&parser(&["./parse"]), "gone".into());
    let outcome = enrich_outcome(ID, &vec![output, failed], 4);
    assert!(outcome.failed);
    assert_eq!(outcome.parser_count, 2);
    assert!(!enrich_lines(&outcome).is_empty());
}

#[test]
fn records_are_recovered_from_the_logs() {
    let bytes = b"{\"type\":\"metric\",\"name\":\"a\",\"value\":2}\n";
    let saved = SavedOutput {
        log: LogRef { id: "x-stdout".into(), kind: "collector:x:stdout".into(), node: None },
        bytes: Some(zstd::encode_all(&bytes[..], 1).unwrap()),
    };
    let mut manifest = run(ID);
    let records = structured_records_from_logs(&vec![saved], &manifest, &compute);
    assert!(records.metrics.iter().any(|metric| metric.name == "a"));
    manifest.metric_count = records.metrics.len();
    assert_eq!(recovery_warning(&manifest, &records), None);
    manifest.metric_count += 1;
    assert!(recovery_warning(&manifest, &records).is_some());
}

#[test]
fn series_are_cut_into_buckets() {
    let mut manifest = run(ID);
    manifest.benchmark.started_at = Some(at("2026-09-19T00:00:00Z"));
    manifest.benchmark.finished_at = Some(at("2026-09-19T00:01:00Z"));
    manifest.finished_at = Some(at("2026-09-19T00:02:00Z"));
    let sample = |text: &str, value: f64| {
        let mut sample = metric("host.load1", value, "load", &[("node", "app1")]);
        sample.timestamp = Some(at(text));
        sample
    };
    let options = SeriesOptions {
        metrics: vec!["host.load1".into()],
        node: None,
        labels: Vec::new(),
        from: 0,
        to: None,
        bucket: 10,
        limit: 100,
    };
    let output = show_series(
        &manifest,
        vec![
            sample("2026-09-19T00:00:01Z", 1.0),
            sample("2026-09-19T00:00:03Z", 3.0),
            sample("2026-09-19T00:00:15Z", 5.0),
            sample("2026-09-19T00:05:00Z", 9.0),
        ],
        &options,
        &compute,
    );
    match output.data {
        SeriesData::Metrics(rows) => {
            assert_eq!(rows.rows.len(), 2);
            assert_eq!(float(rows.rows[0].value), 2.0);
            assert_eq!((rows.rows[1].from_seconds, rows.rows[1].to_seconds), (10, 20));
        }
        other => panic!("{other:?}"),
    }
}
