use isuscope::labels::Labels;
use isuscope::model::{BenchmarkResult, Metric};
use isuscope::moment::{from_micros, from_timestamp, in_window, BucketGrid, Moment};
use isuscope::number::{Number, Op};
use isuscope::project_tools::{
    compose_rule, describe_rule, normalize, pin, suggest_routes, Segment, SegmentKind,
};
use isuscope::rounding::percentile;
use isuscope::transition::{
    edges, find_logs, parse_timestamp, read_compressed, read_log, LogError, RouteError,
    RouteNormalizer, RouteRule, RouteRules, TransitionOptions,
};

fn float(n: Number) -> f64 {
    f64::from_bits(n.bits)
}

fn number(x: f64) -> Number {
    Number { bits: x.to_bits() }
}

fn compute(op: Op) -> Number {
    number(match op {
        Op::Add(a, b) => float(a) + float(b),
        Op::Subtract(a, b) => float(a) - float(b),
        Op::Multiply(a, b) => float(a) * float(b),
        Op::Divide(a, b) => float(a) / float(b),
        Op::Round(a, places) => {
            let scale = 10f64.powi(places as i32);
            (float(a) * scale).round() / scale
        }
        Op::Integer(n) => n as f64,
        Op::Natural(n) => n as f64,
    })
}

fn labels(pairs: &[(&str, &str)]) -> Labels {
    let mut labels = Labels::new();
    for (name, value) in pairs {
        labels.insert(name.to_string(), value.to_string());
    }
    labels
}

fn metric(name: &str, value: f64, unit: &str, pairs: &[(&str, &str)]) -> Metric {
    Metric {
        name: name.into(),
        value: number(value),
        unit: unit.into(),
        timestamp: None,
        labels: labels(pairs),
    }
}

fn options() -> TransitionOptions<'static> {
    TransitionOptions {
        run_dir: "/run",
        prefix: "nginx-",
        rules: None,
        time_field: "time",
        session_field: "session",
        method_field: "method",
        uri_field: "uri",
    }
}

fn rules(pairs: &[(&str, &str)]) -> RouteNormalizer {
    let routes = pairs
        .iter()
        .map(|(pattern, replace)| RouteRule {
            pattern: pattern.to_string(),
            replace: replace.to_string(),
        })
        .collect();
    RouteNormalizer::from_rules(RouteRules { routes }).unwrap()
}

#[test]
fn reads_session_transitions_across_compressed_logs() {
    let lines = [
        "time:2026-08-26T10:00:00+09:00\tsession:a\tmethod:GET\turi:/api/user/nao/icon",
        "time:2026-08-26T10:00:01+09:00\tsession:a\tmethod:GET\turi:/api/livestream/42?x=1",
        "time:2026-08-26T10:00:01+09:00\tsession:-\tmethod:GET\turi:/api/tag",
    ];
    let log = zstd::encode_all(format!("{}\n", lines.join("\n")).as_bytes(), 1).unwrap();
    let rules = rules(&[
        (r"^/api/user/[^/]+/icon$", "/api/user/:name/icon"),
        (r"^/api/livestream/[0-9]+$", "/api/livestream/:id"),
    ]);
    let events = read_compressed(&rules, &log, &options()).unwrap();
    assert!(events.iter().all(|event| event.session == "a"));
    assert_eq!(events[0].route, "GET /api/user/:name/icon");
    assert_eq!(events[1].route, "GET /api/livestream/:id");
    let moves = edges(&events, &compute);
    assert_eq!(moves.len(), 1);
    assert_eq!(moves[0].count, 1);
    assert_eq!(moves[0].p50_ms.map(float), Some(1000.0));
    let Err(LogError::Corrupt(error)) = read_compressed(&rules, b"raw", &options()) else {
        panic!("a log that is not compressed was read");
    };
    assert!(!error.is_empty());
}

#[test]
fn access_log_without_method_or_uri_fails_instead_of_reporting_nothing() {
    let line = "127.0.0.1 - - [26/Aug/2026:10:00:00 +0900] \"GET / HTTP/1.1\" 200 12\n";
    let error = read_log(&rules(&[]), line, &options()).unwrap_err();
    assert!(matches!(error, LogError::NoFields(1)));
    assert!(error
        .message("/run/logs/nginx-isu1.zst", &options())
        .contains("none of 1 access-log lines"));
}

#[test]
fn matching_groups_are_the_pieces_between_commas() {
    let rules = rules(&[("^/a/[0-9]+$", "/a"), ("^/a/new$", "/a"), ("^/b$", "/b")]);
    let text = rules.alp_matching_groups().unwrap();
    let groups: Vec<&str> = text.split(',').collect();
    assert_eq!(groups, ["(^/a/[0-9]+$)|(^/a/new$)", "^/b$"]);
    assert_eq!(rules.normalize(groups[0]), "/a");
    assert_eq!(rules.normalize(groups[1]), "/b");
}

#[test]
fn parses_supported_timestamp_formats_and_percentiles() {
    assert_eq!(
        parse_timestamp("1787742994.060").unwrap().nanos / 1_000_000,
        1_787_742_994_060
    );
    assert_eq!(
        parse_timestamp("26/Aug/2026:11:16:34 +0000").unwrap().seconds(),
        1_787_742_994
    );
    let values = [number(1.0), number(2.0), number(3.0), number(4.0)];
    assert_eq!(percentile(&values, number(0.50), &compute).map(float), Some(2.0));
    assert_eq!(percentile(&values, number(0.95), &compute).map(float), Some(4.0));
}

#[test]
fn alp_matching_groups_preserve_exact_route_percentiles() {
    let rules = rules(&[(r"^/api/livestream/[0-9]+/reaction$", "/api/livestream/:id/reaction")]);
    assert_eq!(rules.alp_matching_groups().unwrap(), r"^/api/livestream/[0-9]+/reaction$");
    assert_eq!(
        rules.normalize(r"^/api/livestream/[0-9]+/reaction$"),
        "/api/livestream/:id/reaction"
    );
    assert_eq!(rules.normalize("/api/livestream/42/reaction"), "/api/livestream/:id/reaction");
}

#[test]
fn alp_matching_groups_bundle_adjacent_rules_for_the_same_route() {
    let rules = rules(&[
        (r"^/items/[0-9]+$", "/items/:key"),
        (r"^/items/[a-z]+$", "/items/:key"),
        (r"^/users/[0-9]+$", "/users/:id"),
        (r"^/items/[A-Z]+$", "/items/:key"),
    ]);
    let groups = rules.alp_matching_groups().unwrap();
    assert_eq!(
        groups,
        r"(^/items/[0-9]+$)|(^/items/[a-z]+$),^/users/[0-9]+$,^/items/[A-Z]+$"
    );
    assert_eq!(rules.normalize(r"(^/items/[0-9]+$)|(^/items/[a-z]+$)"), "/items/:key");
    assert_eq!(rules.normalize(r"^/items/[A-Z]+$"), "/items/:key");
    assert_eq!(rules.normalize("/items/abc"), "/items/:key");
}

#[test]
fn alp_matching_groups_reject_ambiguous_rules() {
    let captured = rules(&[(r"^/api/(user|livestream)/([^/]+)$", "/api/$1/:id")]);
    assert!(captured.alp_matching_groups().is_err());

    let comma = rules(&[(r"^/api/(foo,bar)$", "/api/:name")]);
    assert!(comma.alp_matching_groups().is_err());

    let optional = rules(&[(r"^/api/tags/?$", "/api/tags")]);
    assert!(optional.alp_matching_groups().is_err());
}

#[test]
fn a_rule_that_is_no_expression_is_refused() {
    let routes = vec![RouteRule { pattern: "(".into(), replace: "/".into() }];
    let error = RouteNormalizer::from_rules(RouteRules { routes }).unwrap_err();
    assert!(matches!(&error, RouteError::InvalidPattern(pattern) if pattern == "("));
    assert!(!error.message().is_empty());
    let named = rules(&[(r"^/u/(?P<name>[^/]+)$", "/users/$name")]);
    assert_eq!(named.normalize("/u/nao"), "/users/nao");
}

#[test]
fn logs_are_found_by_prefix_and_suffix() {
    assert_eq!(
        find_logs(vec!["nginx-b.zst".into(), "x.zst".into(), "nginx-a.zst".into()], "nginx-"),
        ["nginx-a.zst", "nginx-b.zst"]
    );
}

#[test]
fn buckets_start_at_the_load_start_and_are_cut_at_the_benchmark_start() {
    let at = |micros| from_micros(micros);
    let grid = BucketGrid { origin: at(1_012_300_000), begin: at(1_000_100_000) };
    assert_eq!(grid.start(at(1_012_800_000).unwrap()), at(1_012_300_000));
    assert_eq!(grid.start(at(1_012_299_999).unwrap()), at(1_007_300_000));
    assert_eq!(grid.start(at(1_001_000_000).unwrap()), at(1_000_100_000));
    assert_eq!(grid.start(at(999_000_000).unwrap()), at(997_300_000));
    assert!(in_window(
        at(1_000_100_000).unwrap(),
        at(1_000_100_000).unwrap(),
        at(1_060_000_000).unwrap()
    ));
    assert!(!in_window(
        at(1_060_000_000).unwrap(),
        at(1_000_100_000).unwrap(),
        at(1_060_000_000).unwrap()
    ));
    let boundary = from_timestamp(1_800_000_000, 123_456_789).unwrap();
    let bucket = from_micros(1_800_000_000_123_456).unwrap();
    assert!(in_window(bucket, boundary, Moment { nanos: boundary.nanos + 60_000_000_000 }));
    let benchmark = BenchmarkResult {
        initialize_finished_at: Some(boundary),
        ..Default::default()
    };
    assert_eq!(benchmark.bucket_origin(), Some(bucket));
}

#[test]
fn dynamic_segments_become_rules() {
    assert_eq!(
        normalize("/users/42/profile"),
        Some(("^/users/[0-9]+/profile$".into(), "/users/:id/profile".into()))
    );
    assert_eq!(normalize("/login"), None);
    assert_eq!(
        normalize("/items/0123456789abcdef0123").map(|rule| rule.1),
        Some("/items/:key".into())
    );
}

#[test]
fn segments_are_told_apart_by_their_kind() {
    let uuid = normalize("/u/0123abcd-0123-0123-0123-0123456789ab").unwrap();
    assert_eq!(uuid.1, "/u/:uuid");
    // What is not dynamic is matched as it stands.
    assert_eq!(normalize("/a.b/7").unwrap().0, r"^/a\.b/[0-9]+$");
    let parts = vec![
        Segment { text: "a".into(), escaped: "a".into(), kind: None },
        Segment { text: "x".into(), escaped: "x".into(), kind: Some(SegmentKind::Token) },
    ];
    assert_eq!(compose_rule(&parts), Some(("^/a/[A-Za-z0-9_-]+$".into(), "/a/:key".into())));
    assert_eq!(compose_rule(&Vec::new()), None);
}

#[test]
fn rules_are_suggested_once_with_examples() {
    let requests = |route: &str| metric("http.requests", 1.0, "requests", &[("route", route)]);
    let (text, count) = suggest_routes(&vec![
        requests("/users/4"),
        requests("/users/1"),
        requests("/users/2"),
        requests("/users/3"),
        requests("/login"),
        metric("http.errors", 1.0, "errors", &[("route", "/items/9")]),
    ]);
    assert_eq!(count, 1);
    assert_eq!(
        text,
        "# Generated candidates. Review before copying to .isuscope/routes.toml.\n\n# examples: /users/1, /users/2, /users/3\n[[routes]]\npattern = \"^/users/[0-9]+$\"\nreplace = \"/users/:id\"\n"
    );
    assert_eq!(
        describe_rule(&vec!["/a".into()], "p", "r"),
        "\n# examples: /a\n[[routes]]\npattern = p\nreplace = r\n"
    );
}

#[test]
fn runs_are_staged_with_their_logs() {
    assert_eq!(
        pin("id", "/repo", "/repo/.isuscope/data/runs/id", true, true).unwrap(),
        ["-C", "/repo", "add", "-f", "-A", "--", ".isuscope/data/runs/id"]
    );
    assert_eq!(
        pin("id", "/repo", "/data/id", true, true).unwrap_err(),
        "run id is outside source repository /repo"
    );
    assert_eq!(pin("id", "/repo", "/repo/r", false, true).unwrap_err(), "run.json not found: r");
    assert_eq!(pin("id", "/repo", "/repo/r", true, false).unwrap_err(), "logs not found: r/logs");
}
