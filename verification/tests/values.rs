use isuscope::agent_context::header_value;
use isuscope::collector::{check_artifact, replace_placeholders, ArtifactError, RunWindows, Values};
use isuscope::coverage::{collector_section, expected_metrics};
use isuscope::model::BenchmarkResult;
use isuscope::moment::{
    bucket_start, epoch_seconds, from_timestamp, in_window, to_micros, Moment,
};
use isuscope::number::{average, maximum, minimum, sum, Number, Op};
use isuscope::paths::{absolute, is_in, joined_path, parent_path, path_below};
use isuscope::perf::{canonical_perf_binary, canonical_perf_symbol};
use isuscope::protocol::parse_records;
use isuscope::rounding::{ceiling, floor, percentile};
use isuscope::sql_shape::digest_example;
use isuscope::transition::parse_timestamp;
use isuscope::text::{
    chars_of, decimal_of, last_halves, lines_of, number_of, shorten, signed_number, string_of,
    trimmed, words_of,
};

fn float(n: Number) -> f64 {
    f64::from_bits(n.bits)
}

fn number(x: f64) -> Number {
    Number { bits: x.to_bits() }
}

fn compute(op: Op) -> Number {
    number(match op {
        Op::Add(a, b) => float(a) + float(b),
        Op::Subtract(a, b) => float(a) - float(b),
        Op::Multiply(a, b) => float(a) * float(b),
        Op::Divide(a, b) => float(a) / float(b),
        Op::Round(a, places) => {
            let scale = 10f64.powi(places as i32);
            (float(a) * scale).round() / scale
        }
        Op::Integer(n) => n as f64,
        Op::Natural(n) => n as f64,
    })
}

fn at(text: &str) -> Moment {
    let time = chrono::DateTime::parse_from_rfc3339(text).unwrap();
    Moment {
        nanos: i128::from(time.timestamp()) * 1_000_000_000
            + i128::from(time.timestamp_subsec_nanos()),
    }
}

fn show(n: Number, decimals: u32) -> String {
    format!("{:.*}", decimals as usize, float(n))
}

fn text(chars: Vec<char>) -> String {
    chars.into_iter().collect()
}

#[test]
fn numbers_round_as_they_should() {
    assert_eq!(floor(number(2.7)), 2);
    assert_eq!(floor(number(-2.2)), -3);
    assert_eq!(ceiling(number(2.2)), 3);
    assert_eq!(ceiling(number(-2.7)), -2);
    assert_eq!(floor(number(5.0)), ceiling(number(5.0)));
}

#[test]
fn percentiles_are_values_that_were_measured() {
    let sorted: Vec<Number> = [1.0, 2.0, 3.0, 4.0].into_iter().map(number).collect();
    assert_eq!(percentile(&sorted, number(0.5), &compute).map(float), Some(2.0));
    assert_eq!(percentile(&sorted, number(1.0), &compute).map(float), Some(4.0));
    assert_eq!(percentile(&[], number(0.5), &compute), None);
}

#[test]
fn sums_and_extremes() {
    let values: Vec<Number> = [3.0, -1.0, 4.0].into_iter().map(number).collect();
    assert_eq!(float(sum(&values, &compute)), 6.0);
    assert_eq!(float(average(&values, &compute)), 2.0);
    assert_eq!(maximum(&values).map(float), Some(4.0));
    assert_eq!(minimum(&values).map(float), Some(-1.0));
    assert_eq!(maximum(&[]), None);
    let nan = number(f64::NAN);
    assert!(nan.is_nan() && !nan.is_finite());
    assert_eq!(Number::max(nan, number(1.0)), number(1.0));
    assert_eq!(Number::min(number(2.0), number(1.0)), number(1.0));
    assert!(number(-0.0).is_zero());
    assert!(number(2.0).greater(number(1.0)));
    assert!(number(1.0).within(number(1.0)));
}

#[test]
fn buckets_begin_every_five_seconds() {
    let point = at("2026-09-19T00:00:07.5Z");
    assert_eq!(bucket_start(point, None), Some(at("2026-09-19T00:00:05Z")));
    let origin = at("2026-09-19T00:00:03Z");
    assert_eq!(bucket_start(point, Some(origin)), Some(at("2026-09-19T00:00:03Z")));
    assert_eq!(bucket_start(at("2026-09-19T00:00:08Z"), Some(origin)), Some(at("2026-09-19T00:00:08Z")));
    let fine = Moment { nanos: point.nanos + 1_999 };
    assert_eq!(to_micros(fine), Moment { nanos: point.nanos + 1_000 });
    assert!(in_window(point, at("2026-09-19T00:00:07Z"), at("2026-09-19T00:00:08Z")));
    assert!(!in_window(point, at("2026-09-19T00:00:08Z"), at("2026-09-19T00:00:09Z")));
    assert_eq!(from_timestamp(1, 5), Some(Moment { nanos: 1_000_000_005 }));
    assert_eq!(from_timestamp(i64::MAX, 0), None);
}

#[test]
fn records_may_give_their_time_in_several_ways() {
    let lines = concat(&[
        r#"{"type":"metric","name":"a","value":1,"timestamp":"2026-09-19T00:00:00Z"}"#,
        r#"{"type":"metric","name":"b","value":2,"timestamp":1789776000.5}"#,
        r#"{"type":"metric","name":"c","value":3}"#,
        r#"{"type":"metric","name":"d"}"#,
        "not json",
        r#"{"type":"fingerprint","name":"kernel","value":"6.1","labels":{"node":"app1"}}"#,
    ]);
    let records = parse_records(lines.as_bytes(), &compute);
    assert_eq!(records.metrics.len(), 3);
    assert_eq!(records.metrics[0].timestamp, Some(at("2026-09-19T00:00:00Z")));
    assert_eq!(records.metrics[1].timestamp, Some(at("2026-09-19T00:00:00.5Z")));
    assert_eq!(records.metrics[2].timestamp, None);
    assert_eq!(records.fingerprints[0].value, "6.1");
}

fn concat(lines: &[&str]) -> String {
    let mut text = String::new();
    for line in lines {
        text.push_str(line);
        text.push('\n');
    }
    text
}

#[test]
fn perf_names_are_canonical() {
    let binary = |name: &str| text(canonical_perf_binary(&chars_of(name)));
    let symbol = |name: &str| text(canonical_perf_symbol(&chars_of(name)));
    assert_eq!(binary("/usr/sbin/mysqld"), "mysqld");
    assert_eq!(symbol("main.handler"), "main.handler");
}

#[test]
fn paths_join_and_part() {
    assert!(absolute("/a") && !absolute("a"));
    assert_eq!(joined_path("/a", "b"), "/a/b");
    assert_eq!(joined_path("/a", "/b"), "/b");
    assert_eq!(parent_path("/a/b").as_deref(), Some("/a"));
    assert_eq!(parent_path("/"), None);
    assert_eq!(path_below("/a", "/a/b/c").as_deref(), Some("b/c"));
    assert_eq!(path_below("/a", "/ab"), None);
    assert!(is_in("docs/history/1.md", "docs/history"));
    assert!(!is_in("docs/history2/1.md", "docs/history"));
}

#[test]
fn placeholders_are_filled() {
    let values = Values {
        run_id: "r".into(),
        run_dir: "/d/r".into(),
        node: "app1".into(),
        host: "10.0.0.1".into(),
        groups: "^/items/[0-9]+$".into(),
        units: "nginx".into(),
        windows: RunWindows {
            started_at: "1".into(),
            load_started_at: "2".into(),
            finished_at: "3".into(),
        },
    };
    assert_eq!(replace_placeholders("{run_dir}/{node}@{host}", &values), "/d/r/app1@10.0.0.1");
    assert_eq!(replace_placeholders("{unknown}", &values), "{unknown}");
}

#[test]
fn artifacts_must_be_what_they_claim() {
    assert_eq!(check_artifact("perf-flamegraph", "<svg></svg>\n"), None);
    assert_eq!(check_artifact("perf-flamegraph", "<svg>"), Some(ArtifactError::NotSvg));
    assert_eq!(check_artifact("offcpu", "main;wait 12\n"), None);
    assert_eq!(check_artifact("offcpu", "\n"), Some(ArtifactError::NoSamples));
    assert_eq!(check_artifact("offcpu", "main;wait\n"), Some(ArtifactError::NotFolded));
    assert_eq!(check_artifact("alp", ""), None);
}

#[test]
fn sections_expect_their_metrics() {
    assert_eq!(collector_section("alp"), Some("http"));
    assert_eq!(collector_section("fingerprint"), None);
    assert!(expected_metrics("http").contains(&"http.requests".to_owned()));
}

#[test]
fn long_digests_are_shown_in_part() {
    assert_eq!(digest_example("SELECT 1"), "SELECT 1");
    assert!(digest_example(&"x".repeat(5000)).len() < 5000);
}

#[test]
fn headers_stand_at_the_top() {
    let history = "# Log\n\n- Agent: `codex`\n- Session: `abc`\n";
    assert_eq!(header_value(history, "Agent").as_deref(), Some("codex"));
    assert_eq!(header_value(history, "Session").as_deref(), Some("abc"));
    assert_eq!(header_value(history, "Missing"), None);
    let late = "\n".repeat(20) + history;
    assert_eq!(header_value(&late, "Agent"), None);
}

#[test]
fn texts_are_cut_and_read() {
    let words: Vec<String> = words_of(&chars_of("  a b\tc ")).into_iter().map(text).collect();
    assert_eq!(words, ["a", "b", "c"]);
    let lines: Vec<String> = lines_of(&chars_of("a\r\nb\n\nc")).into_iter().map(text).collect();
    assert_eq!(lines, ["a", "b", "", "c"]);
    assert_eq!(text(trimmed(&chars_of("  \u{3000}a "))), "a");
    assert_eq!(number_of(&chars_of("+42"), 100), Some(42));
    assert_eq!(number_of(&chars_of("101"), 100), None);
    assert_eq!(signed_number(&chars_of("-9223372036854775808")), Some(i64::MIN));
    assert_eq!(signed_number(&chars_of("9223372036854775808")), None);
    assert_eq!(text(decimal_of(0)), "0");
    assert_eq!(text(decimal_of(u64::MAX)), "18446744073709551615");
    let (head, tail) = last_halves(&chars_of("a b 3"), ' ').unwrap();
    assert_eq!((text(head), text(tail)), ("a b".into(), "3".into()));
    assert_eq!(string_of(&['a', 'é']), "aé");
    assert_eq!(text(shorten(&chars_of("abc"), 3)), "abc");
}

#[test]
fn boundaries_are_handed_over_in_microseconds() {
    let benchmark = BenchmarkResult {
        initialize_finished_at: Some(Moment { nanos: 1_800_000_000_123_456_000 }),
        ..BenchmarkResult::default()
    };
    let windows = RunWindows::read(Some(&benchmark), &compute, &show);
    assert_eq!(windows.load_started_at, "1800000000.123456");
    assert_eq!(windows.started_at, "");
    assert_eq!(windows.finished_at, "");
}

#[test]
fn epoch_seconds_are_rounded_to_microseconds() {
    let point = epoch_seconds(number(1_800_000_000.123_456_7), &compute).unwrap();
    assert_eq!(point.nanos, 1_800_000_000_123_457_000);
    let point = epoch_seconds(number(1_789_653_660.4), &compute).unwrap();
    assert_eq!(point.nanos, 1_789_653_660_400_000_000);
    assert_eq!(epoch_seconds(number(-0.25), &compute).unwrap().nanos, -250_000_000);
}

#[test]
fn a_leap_second_stays_in_its_minute() {
    let leap = parse_timestamp("2016-12-31T23:59:60.500Z").unwrap();
    let last = parse_timestamp("2016-12-31T23:59:59Z").unwrap();
    assert_eq!(leap.seconds(), last.seconds());
    assert!(leap.nanos > last.nanos);
    assert_eq!(from_timestamp(59, 1_500_000_000).unwrap().nanos, 59_999_999_999);
}
