use isuscope::benchmark::{
    advance, capture_line, capture_lines, check_start, conclude, kept_lines, observe_line,
    read_inline_metrics, settle_times, AnswerError, ExitStatus, External, ExternalStep,
    Observation, OutputLine,
};
use isuscope::config::{BenchmarkConfig, BenchmarkMode};
use isuscope::labels::Labels;
use isuscope::model::BenchmarkResult;
use isuscope::moment::Moment;
use isuscope::number::{Number, Op};

fn float(n: Number) -> f64 {
    f64::from_bits(n.bits)
}

fn number(x: f64) -> Number {
    Number { bits: x.to_bits() }
}

fn compute(op: Op) -> Number {
    number(match op {
        Op::Add(a, b) => float(a) + float(b),
        Op::Subtract(a, b) => float(a) - float(b),
        Op::Multiply(a, b) => float(a) * float(b),
        Op::Divide(a, b) => float(a) / float(b),
        Op::Round(a, places) => {
            let scale = 10f64.powi(places as i32);
            (float(a) * scale).round() / scale
        }
        Op::Integer(n) => n as f64,
        Op::Natural(n) => n as f64,
    })
}

fn config() -> BenchmarkConfig {
    BenchmarkConfig {
        mode: BenchmarkMode::Command,
        command: vec!["bench".into()],
        working_dir: None,
        env: Labels::new(),
        stream_output: false,
        score_pattern: r"スコア:\s*([0-9]+)".into(),
        initialize_start_marker: "初期化を行います".into(),
        initialize_finish_marker: "整合性チェック".into(),
        operator_line_pattern: None,
        sample_output: None,
        parsers: Vec::new(),
    }
}

fn now(seconds: i128) -> Moment {
    Moment { nanos: seconds * 1_000_000_000 }
}

#[test]
fn parses_japanese_score_and_failure_json() {
    let mut value = Observation::default();
    observe_line(&mut value, "スコア: 954885", false, &config(), now(1));
    observe_line(
        &mut value,
        r#"{"type":"isuscope.event","name":"initialize-started"}"#,
        false,
        &config(),
        now(2),
    );
    observe_line(
        &mut value,
        r#"{"type":"isuscope.event","name":"initialize-finished"}"#,
        false,
        &config(),
        now(3),
    );
    observe_line(
        &mut value,
        r#"{"type":"isuscope.result","pass":false,"score":0,"messages":["initialize failed"]}"#,
        false,
        &config(),
        now(4),
    );
    assert_eq!(value.score, Some(0));
    assert_eq!(value.passed, Some(false));
    assert_eq!(value.messages, vec!["initialize failed"]);
    assert!(value.initialize_started_at.is_some());
    assert!(value.initialize_finished_at.is_some());
}

#[test]
fn accepts_legacy_stderr_score_but_not_untyped_or_stderr_json() {
    let mut value = Observation::default();
    observe_line(&mut value, "スコア: 3211", true, &config(), now(1));
    observe_line(&mut value, r#"{"score":9999,"pass":true}"#, false, &config(), now(2));
    observe_line(
        &mut value,
        r#"{"type":"isuscope.result","score":8888,"pass":true}"#,
        true,
        &config(),
        now(3),
    );
    assert_eq!(value.score, Some(3211));
    assert_eq!(value.passed, None);
    assert_eq!(value.protocol_result_count, 0);
}

#[test]
fn markers_set_the_times_of_the_initialization_once() {
    let mut value = Observation::default();
    observe_line(&mut value, "初期化を行います", false, &config(), now(5));
    observe_line(&mut value, "初期化を行います", false, &config(), now(6));
    observe_line(&mut value, "整合性チェック", false, &config(), now(7));
    assert_eq!(value.initialize_started_at, Some(now(5)));
    assert_eq!(value.initialize_finished_at, Some(now(7)));
}

#[test]
fn operator_lines_leave_no_trace_but_their_number() {
    let mut config = config();
    config.operator_line_pattern = Some(r"^\[ADMIN\]".into());
    let mut value = Observation::default();
    assert!(!capture_line(&mut value, "[ADMIN] スコア: 12".as_bytes(), false, &config, now(1)));
    assert!(capture_line(&mut value, "スコア: 7".as_bytes(), false, &config, now(2)));
    assert!(capture_line(&mut value, &[0xff, 0xfe], false, &config, now(3)));
    assert_eq!(value.score, Some(7));
    assert_eq!(value.operator_lines_dropped, 1);
}

#[test]
fn lines_for_the_organizers_are_not_saved() {
    let mut config = config();
    config.operator_line_pattern = Some(r"^\[ADMIN\]".into());
    let lines: Vec<OutputLine> = ["start", "[ADMIN] seed 1", "スコア: 7", "[ADMIN] end"]
        .into_iter()
        .enumerate()
        .map(|(i, line)| OutputLine { bytes: line.into(), stderr: false, at: now(i as i128) })
        .collect();
    let mut seen = Observation::default();
    let saved = capture_lines(&mut seen, &lines, &config);
    assert_eq!(saved, "start\nスコア: 7\n".as_bytes());
    assert_eq!((seen.score, seen.operator_lines_dropped), (Some(7), 2));
    assert_eq!(kept_lines(b"a\n[ADMIN] b\n\nc", &config), b"a\n\nc");
    assert_eq!(kept_lines(b"a\n\nc", &config), b"a\n\nc");
    assert_eq!(kept_lines(b"[ADMIN] b", &config), b"");
}

#[test]
fn a_result_is_concluded_from_what_was_seen() {
    let mut seen = Observation::default();
    observe_line(
        &mut seen,
        r#"{"type":"isuscope.result","pass":true,"score":12,"messages":[]}"#,
        false,
        &config(),
        now(1),
    );
    let status = ExitStatus { success: true, code: Some(0), text: "exit status: 0".into() };
    let result = conclude(&vec!["bench".into()], seen, &status, false);
    assert_eq!(result.passed, Some(true));
    assert_eq!(result.score, Some(12));
    assert_eq!(result.error, None);
    let status = ExitStatus { success: false, code: Some(1), text: "exit status: 1".into() };
    let result = conclude(&vec!["bench".into()], Observation::default(), &status, false);
    assert_eq!(result.passed, Some(false));
    assert!(result.error.is_some());
    let result = conclude(&vec!["bench".into()], Observation::default(), &status, true);
    assert!(result.interrupted);
}

#[test]
fn a_command_is_needed_to_start() {
    assert!(check_start(&config()).is_ok());
    let mut bare = config();
    bare.command = Vec::new();
    assert!(check_start(&bare).is_err());
}

#[test]
fn times_that_the_benchmark_did_not_tell_are_filled_in() {
    let mut result = BenchmarkResult::default();
    settle_times(&mut result, now(10), now(20));
    assert_eq!(result.started_at, Some(now(10)));
    assert_eq!(result.finished_at, Some(now(20)));
}

#[test]
fn inline_metrics_are_read_from_compressed_logs() {
    let line = br#"{"type":"metric","name":"bench.posts","value":3,"unit":"posts"}"#;
    let log = zstd::encode_all(&line[..], 1).unwrap();
    let metrics = read_inline_metrics(&log, &compute);
    assert_eq!(metrics.len(), 1);
    assert_eq!(metrics[0].name, "bench.posts");
    assert_eq!(float(metrics[0].value), 3.0);
    assert!(read_inline_metrics(line, &compute).is_empty());
}

#[test]
fn an_external_benchmark_is_told_step_by_step() {
    let mut state = External::Armed;
    for (seconds, answer) in [(1, "\n"), (2, "\n"), (3, "1200")] {
        assert!(!state.prompt().is_empty());
        state = match advance(state, Some(answer), now(seconds)) {
            ExternalStep::Ask(next) => next,
            other => panic!("{other:?}"),
        };
    }
    assert_eq!(state, External::Scored(now(1), now(2), Some(1200)));
    assert!(matches!(
        advance(state, Some("maybe"), now(4)),
        ExternalStep::Refused(AnswerError::Verdict)
    ));
    match advance(state, Some(" PASS\n"), now(4)) {
        ExternalStep::Done(result) => {
            assert_eq!(result.passed, Some(true));
            assert_eq!(result.score, Some(1200));
            assert_eq!(result.finished_at, Some(now(2)));
        }
        other => panic!("{other:?}"),
    }
    match advance(state, None, now(4)) {
        ExternalStep::Done(result) => assert!(result.interrupted),
        other => panic!("{other:?}"),
    }
    assert!(matches!(
        advance(External::Finished(now(1), now(2)), Some("many"), now(3)),
        ExternalStep::Refused(AnswerError::Score)
    ));
    assert_eq!(AnswerError::Score.message(), "score must be an integer");
}
