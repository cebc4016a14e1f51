use isuscope::alp::{parse_alp_json, parse_alp_windows, AlpError, WindowError};
use isuscope::cgroup::parse_service_cgroup;
use isuscope::clock::to_rfc3339;
use isuscope::collector::{parse_standard_output, validate_profile_artifact, ArtifactError, ParseError};
use isuscope::config::CollectorParser;
use isuscope::model::Metric;
use isuscope::moment::{BucketGrid, Moment};
use isuscope::number::{Number, Op};
use isuscope::perf::{parse_perf_script, PerfError};
use isuscope::protocol::parse_protocol;
use isuscope::report::database_queries;
use isuscope::slow_log::{normalize_sql_digest, parse_mysql_slow_reader};
use isuscope::slp::{parse_slp_json, parse_slp_tsv, parse_slp_windows, SlpError, DIGEST_LIMIT};
use isuscope::sysstat::parse_sysstat;
use isuscope::transition::{RouteNormalizer, RouteRule, RouteRules};

fn float(n: Number) -> f64 {
    f64::from_bits(n.bits)
}

fn number(x: f64) -> Number {
    Number { bits: x.to_bits() }
}

fn compute(op: Op) -> Number {
    number(match op {
        Op::Add(a, b) => float(a) + float(b),
        Op::Subtract(a, b) => float(a) - float(b),
        Op::Multiply(a, b) => float(a) * float(b),
        Op::Divide(a, b) => float(a) / float(b),
        Op::Round(a, places) => {
            let scale = 10f64.powi(places as i32);
            (float(a) * scale).round() / scale
        }
        Op::Integer(n) => n as f64,
        Op::Natural(n) => n as f64,
    })
}

fn read(text: &str) -> Option<Number> {
    text.parse::<f64>().ok().map(number)
}

fn at(text: &str) -> Moment {
    let time = chrono::DateTime::parse_from_rfc3339(text).unwrap();
    Moment {
        nanos: i128::from(time.timestamp()) * 1_000_000_000
            + i128::from(time.timestamp_subsec_nanos()),
    }
}

const NO_GRID: BucketGrid = BucketGrid { origin: None, begin: None };

fn no_rules() -> Result<RouteNormalizer, String> {
    Ok(rules(&[]))
}

fn rules(pairs: &[(&str, &str)]) -> RouteNormalizer {
    let routes = pairs
        .iter()
        .map(|(pattern, replace)| RouteRule {
            pattern: pattern.to_string(),
            replace: replace.to_string(),
        })
        .collect();
    RouteNormalizer::from_rules(RouteRules { routes }).unwrap()
}

fn label<'a>(metric: &'a Metric, name: &str) -> Option<&'a str> {
    metric.labels.get(name).map(String::as_str)
}

fn digest(text: &str) -> String {
    let chars: Vec<char> = text.chars().collect();
    normalize_sql_digest(&chars).unwrap().into_iter().collect()
}

#[test]
fn slp_windows_cap_long_statements_and_survive_tabs_in_queries() {
    let long = format!("SELECT '{}'", "x".repeat(4000));
    let raw = format!(
        "load\t3\t{long}\t0.3\t0.2\t0.2\t0.2\t0\t1\t1\nload\t1\tSELECT a\tb\t0.1\t0.1\t0.1\t0.1\t0\t2\t3\n"
    );
    let metrics = parse_slp_windows(&raw, &compute, &read);
    let digests = metrics
        .iter()
        .filter(|metric| metric.name == "db.query.calls")
        .map(|metric| label(metric, "digest").unwrap().to_owned())
        .collect::<Vec<_>>();
    assert!(digests[0].chars().count() <= DIGEST_LIMIT + 1, "{}", digests[0].len());
    assert!(digests[0].ends_with('…'));
    assert_eq!(digests[1], "SELECT a\tb");
}

#[test]
fn slp_windows_keep_long_statements_with_the_same_prefix_apart() {
    let columns = (0..200).map(|index| format!("col_{index:03}")).collect::<Vec<_>>().join(", ");
    let raw = format!(
        "load\t10\tSELECT {columns} FROM a\t1.0\t0.1\t0.1\t0.1\t0\t10\t10\n\
         load\t20\tSELECT {columns} FROM b\t8.0\t0.4\t0.4\t0.4\t0\t20\t20\n"
    );
    let rows = database_queries(&parse_slp_windows(&raw, &compute, &read), &compute);
    assert_eq!(rows.len(), 2);
    assert_eq!(rows[0].digest, rows[1].digest);
    assert_ne!(rows[0].digest_id, rows[1].digest_id);
    assert_eq!(rows.iter().map(|row| float(row.calls)).sum::<f64>(), 30.0);
    assert_eq!(rows.iter().map(|row| float(row.total_ms)).sum::<f64>(), 9_000.0);
    let short = parse_slp_windows("load\t1\tSELECT 1\t0.1\t0.1\t0.1\t0.1\t0\t1\t1\n", &compute, &read);
    assert!(!short[0].labels.has("digest_id"));
}

#[test]
fn perf_samples_on_the_monotonic_clock_become_wall_time() {
    let raw = "# isuscope-perf-clock 1787827200.250000000 1000.25\n\
nginx 1200 [000] 1000.350000000: cycles: 7f00 ngx_http_handler (/usr/local/sbin/nginx)\n\
nginx 1200 [001] 1006.000000000: cycles: 7f01 ngx_http_handler (/usr/local/sbin/nginx)\n";
    let metrics = parse_perf_script(raw, NO_GRID, &compute, &read).unwrap();
    let buckets = metrics
        .iter()
        .filter(|metric| metric.name == "cpu.sample_count")
        .filter_map(|metric| metric.timestamp.map(to_rfc3339))
        .collect::<std::collections::BTreeSet<_>>();
    assert_eq!(
        buckets.into_iter().collect::<Vec<_>>(),
        ["2026-08-27T10:40:00+00:00", "2026-08-27T10:40:05+00:00"]
    );

    assert!(parse_perf_script("# isuscope-perf-clock 1787827200. 1000.25\n", NO_GRID, &compute, &read).is_ok());

    // Buckets begin with the load, and not before the benchmark.
    let grid = BucketGrid {
        origin: Some(Moment { nanos: 1_787_827_203_500_000_000 }),
        begin: Some(Moment { nanos: 1_787_827_199_000_000_000 }),
    };
    let metrics = parse_perf_script(raw, grid, &compute, &read).unwrap();
    let buckets = metrics
        .iter()
        .filter(|metric| metric.name == "cpu.sample_count")
        .filter_map(|metric| metric.timestamp.map(|at| at.nanos))
        .collect::<std::collections::BTreeSet<_>>();
    assert_eq!(
        buckets.into_iter().collect::<Vec<_>>(),
        [1_787_827_199_000_000_000, 1_787_827_203_500_000_000]
    );

    let mismatched = "# isuscope-perf-clock 1787827200.25 1000.25\n\
nginx 1200 [000] 900000.0: cycles: 7f00 ngx_http_handler (/usr/local/sbin/nginx)\n";
    assert!(parse_perf_script(mismatched, NO_GRID, &compute, &read).is_err());
}

#[test]
fn sysstat_samples_after_midnight_move_to_the_next_day() {
    let raw = "Linux 5.15.0 (app1) \t09/18/26 \t_x86_64_\t(2 CPU)\n\n\
23:59:59        CPU     %user     %nice   %system   %iowait    %steal     %idle\n\
23:59:59        all     10.00      0.00      5.00      0.00      0.00     85.00\n\
00:00:00        CPU     %user     %nice   %system   %iowait    %steal     %idle\n\
00:00:00        all     20.00      0.00      5.00      0.00      0.00     75.00\n";
    let interval = Some((at("2026-09-18T23:59:58Z"), at("2026-09-19T00:00:02Z")));
    let metrics = parse_sysstat(raw, interval, &compute, &read);
    let busy = metrics
        .iter()
        .filter(|metric| metric.name == "host.cpu_busy_percent" && metric.timestamp.is_some())
        .map(|metric| (to_rfc3339(metric.timestamp.unwrap()), float(metric.value)))
        .collect::<Vec<_>>();
    assert_eq!(
        busy,
        [
            ("2026-09-18T23:59:59+00:00".to_owned(), 15.0),
            ("2026-09-19T00:00:00+00:00".to_owned(), 25.0),
        ]
    );
}

#[test]
fn sql_digests_keep_digits_inside_identifiers() {
    assert_eq!(
        digest("SELECT * FROM user_items_2 t1 WHERE t1.id = 42 LIMIT 10"),
        "select * from user_items_2 t1 where t1.id = ? limit ?"
    );
    assert_eq!(
        digest("UPDATE t SET c=0x1F, d=-3.5e2 WHERE `col9` IN (1,2)"),
        "update t set c=?,d=-? where `col9` in (?,?)"
    );
}

fn packed(text: &str) -> Vec<u8> {
    zstd::encode_all(text.as_bytes(), 1).unwrap()
}

#[test]
fn artifacts_have_the_shape_of_their_kind() {
    let svg = "<?xml version=\"1.0\"?>\n<svg version=\"1.1\">\n<g/>\n</svg>\n";
    assert!(validate_profile_artifact("perf-flamegraph", &packed(svg)).is_ok());
    assert_eq!(
        validate_profile_artifact("perf-flamegraph", &packed("<svg>")),
        Err(ArtifactError::NotSvg)
    );
    assert!(validate_profile_artifact("offcpu", &packed("app;main;read 12\n")).is_ok());
    assert_eq!(validate_profile_artifact("offcpu", &packed("")), Err(ArtifactError::NoSamples));
    assert_eq!(
        validate_profile_artifact("offcpu", &packed("not-folded")),
        Err(ArtifactError::NotFolded)
    );
    let Err(ArtifactError::Corrupt(error)) = validate_profile_artifact("offcpu", b"not compressed")
    else {
        panic!("a log that is not compressed was accepted");
    };
    assert!(!error.is_empty());
    assert_eq!(ArtifactError::Corrupt(error.clone()).message(), error);
    assert!(!ArtifactError::NotSvg.message().is_empty());
}

#[test]
fn alp_adapter_uses_shared_route_rules() {
    let rules = Ok(rules(&[("^/items/[0-9]+$", "/items/:id")]));
    let metrics = parse_alp_json(
        r#"[{"count":12,"method":"GET","uri":"/items/42?x=1","p95":0.125},{"count":8,"method":"GET","uri":"/items/43","p95":0.150}]"#,
        &rules,
        &compute,
        &read,
    )
    .unwrap();
    assert!(metrics.iter().all(|metric| label(metric, "route") == Some("/items/:id")));
    assert!(metrics
        .iter()
        .any(|metric| metric.name == "http.requests" && float(metric.value) == 20.0));
    assert!(metrics
        .iter()
        .any(|metric| metric.name == "http.request_duration" && float(metric.value) == 150.0));
}

#[test]
fn only_alp_needs_readable_rules() {
    let broken = Err("cannot read routes.toml".to_owned());
    let json = "[{\"count\":1,\"method\":\"GET\",\"uri\":\"/a\"}]";
    let error = parse_alp_json(json, &broken, &compute, &read).unwrap_err();
    assert_eq!(error.message(), "cannot read routes.toml");
    let windows = format!("whole\t{json}\n");
    let error = parse_alp_windows(&windows, &broken, &compute, &read).unwrap_err();
    assert_eq!(error.message(), "alp output for window whole is not valid");
    assert!(parse_alp_windows("\n", &broken, &compute, &read).unwrap().is_empty());
    let statements = packed(r#"[{"query":"SELECT 1","count":4,"total":0.8}]"#);
    let parser = CollectorParser::SlpJson;
    assert!(
        parse_standard_output(&statements, parser, &broken, None, NO_GRID, &compute, &read).is_ok()
    );
}

#[test]
fn alp_records_of_every_shape_are_read() {
    let none = no_rules();
    let parse = |text: &str| parse_alp_json(text, &none, &compute, &read);
    assert!(matches!(parse("{"), Err(AlpError::NotJson)));
    assert!(matches!(parse(r#"[{"url":"/unknown","number":1}]"#), Err(AlpError::NoFields)));
    assert!(matches!(parse(r#"[["count","uri"],[1]]"#), Err(AlpError::Fields(1, 2))));
    assert!(matches!(parse(r#"[["count",1],[1,2]]"#), Err(AlpError::Header)));
    assert!(matches!(parse(r#"[["count","uri"],7]"#), Err(AlpError::Row)));
    let table = parse(r#"[["count","method","uri","sum"],[2,"GET","/a",0.02]]"#).unwrap();
    assert!(table.iter().any(|metric| {
        metric.name == "http.requests"
            && float(metric.value) == 2.0
            && label(metric, "route") == Some("/a")
    }));
    assert!(table
        .iter()
        .any(|metric| metric.name == "http.request_duration_sum" && float(metric.value) == 20.0));
}

#[test]
fn alp_windows_are_read_line_by_line() {
    let none = no_rules();
    let raw = "whole\t[{\"count\":4,\"method\":\"GET\",\"uri\":\"/a\",\"p95\":0.02}]\n\
1789653660\t[{\"count\":3,\"method\":\"GET\",\"uri\":\"/a\",\"p95\":0.04}]\n\
{\"type\":\"metric\",\"name\":\"client.connections_opened\",\"value\":1}\n";
    let metrics = parse_alp_windows(raw, &none, &compute, &read).unwrap();
    assert!(metrics.iter().any(|metric| {
        metric.name == "http.requests" && metric.timestamp.is_none() && float(metric.value) == 4.0
    }));
    assert!(metrics.iter().any(|metric| {
        metric.name == "http.requests"
            && metric.timestamp == Some(Moment { nanos: 1_789_653_660_000_000_000 })
            && float(metric.value) == 3.0
    }));
    assert!(!metrics.iter().any(|metric| metric.name.starts_with("client.")));
    let cut = parse_alp_windows(
        "1789653660.123456\t[{\"count\":3,\"method\":\"GET\",\"uri\":\"/a\"}]\n",
        &none,
        &compute,
        &read,
    )
    .unwrap();
    assert_eq!(cut[0].timestamp, Some(Moment { nanos: 1_789_653_660_123_456_000 }));
    assert!(matches!(
        parse_alp_windows("whole", &none, &compute, &read),
        Err(WindowError::NoTab)
    ));
    assert!(matches!(
        parse_alp_windows("soon\t[]", &none, &compute, &read),
        Err(WindowError::NotEpoch(_))
    ));
    assert!(matches!(
        parse_alp_windows("whole\t{", &none, &compute, &read),
        Err(WindowError::Statistics(_, AlpError::NotJson))
    ));
}

#[test]
fn slp_output_of_every_shape_is_read() {
    let json = parse_slp_json(
        r#"[{"query":"SELECT 1","count":4,"total":0.8}]"#,
        &compute,
        &read,
    )
    .unwrap();
    assert!(json
        .iter()
        .any(|metric| metric.name == "db.query.calls" && float(metric.value) == 4.0));
    assert!(json
        .iter()
        .any(|metric| metric.name == "db.query.total_duration" && float(metric.value) == 800.0));
    assert!(matches!(
        parse_slp_json(r#"[{"sql":"SELECT 1","elapsed":1}]"#, &compute, &read),
        Err(SlpError::NoFields)
    ));
    assert!(matches!(parse_slp_json("{", &compute, &read), Err(SlpError::NotJson)));
    assert!(parse_slp_tsv("", &compute, &read).unwrap().is_empty());
    assert!(parse_slp_tsv("not tsv", &compute, &read).is_err());
    let tsv = parse_slp_tsv("3\tSELECT * FROM users WHERE id = ?\t0.8\t0.4\n", &compute, &read).unwrap();
    assert!(tsv.iter().any(|metric| {
        metric.name == "db.query.calls"
            && float(metric.value) == 3.0
            && label(metric, "digest") == Some("SELECT * FROM users WHERE id = ?")
    }));
    assert!(tsv
        .iter()
        .any(|metric| metric.name == "db.query.total_duration" && float(metric.value) == 800.0));
    assert!(tsv
        .iter()
        .any(|metric| metric.name == "db.query.p95_duration" && float(metric.value) == 400.0));
    assert!(matches!(
        parse_slp_tsv("x\tSELECT 1\t0.8\t0.4\n", &compute, &read),
        Err(SlpError::Count(1))
    ));
}

#[test]
fn perf_samples_are_counted_by_symbol_and_process() {
    let raw = "# isuscope-perf-clock 1787827200.0 1000.0\n\
nginx 1200 [000] 1001.000000000: cycles: 7f00 ngx_http_handler (/usr/local/sbin/nginx)\n\
nginx 1200 [001] 1002.000000000: cycles: 7f01 ngx_http_handler (/usr/local/sbin/nginx)\n\
app 1300 [000] 1003.000000000: cycles: 7f02 work (/home/isucon/app)\n";
    let metrics = parse_perf_script(raw, NO_GRID, &compute, &read).unwrap();
    assert!(metrics.iter().any(|metric| {
        metric.name == "cpu.sample_count"
            && float(metric.value) == 2.0
            && label(metric, "process") == Some("nginx")
            && metric.timestamp.is_some()
    }));
    let whole: Vec<&Metric> = metrics
        .iter()
        .filter(|metric| metric.name == "cpu.sample_percent" && metric.timestamp.is_none())
        .collect();
    assert!((whole.iter().map(|metric| float(metric.value)).sum::<f64>() - 100.0).abs() < 1e-9);
    let nginx = whole.iter().find(|metric| label(metric, "symbol") == Some("ngx_http_handler")).unwrap();
    assert!((float(nginx.value) - 200.0 / 3.0).abs() < 1e-9);
    assert_eq!(label(nginx, "binary"), Some("nginx"));
    assert!(matches!(
        parse_perf_script("app 1 [000] 1.0: cycles: 1 f (/a)\n", NO_GRID, &compute, &read),
        Err(PerfError::NoStart)
    ));
    assert!(matches!(
        parse_perf_script("# isuscope-perf-clock 1787827200.0 1000.0\nrubbish\n", NO_GRID, &compute, &read),
        Err(PerfError::NoSamples)
    ));
}

#[test]
fn perf_call_graphs_count_their_leaf() {
    let raw = "# isuscope-perf-clock 1787827200.0 1000.0\n\
app 1300 [000] 1003.000000000:     250000 cycles: \n\
\t    7f02 leaf (/home/isucon/app)\n\
\t    7f03 caller (/home/isucon/app)\n\n";
    let metrics = parse_perf_script(raw, NO_GRID, &compute, &read).unwrap();
    let counts: Vec<&Metric> = metrics
        .iter()
        .filter(|metric| metric.name == "cpu.sample_count" && metric.timestamp.is_some())
        .collect();
    assert_eq!(counts.iter().map(|metric| float(metric.value)).sum::<f64>(), 1.0);
    assert_eq!(label(counts[0], "symbol"), Some("leaf"));
}

#[test]
fn sysstat_tables_become_host_metrics() {
    let raw = "Linux 5.15.0 (app1) \t08/27/26 \t_x86_64_\t(2 CPU)\n\n\
12:00:01        CPU     %user     %nice   %system   %iowait    %steal     %idle\n\
12:00:01        all      2.00      0.00      0.73     18.66      0.00     78.61\n";
    let metrics = parse_sysstat(raw, None, &compute, &read);
    assert!(metrics.iter().any(|metric| {
        metric.name == "host.cpu_iowait_percent"
            && metric.timestamp.is_some()
            && (float(metric.value) - 18.66).abs() < 0.000_001
    }));
    assert!(metrics.iter().any(|metric| {
        metric.name == "host.cpu_busy_percent"
            && metric.timestamp.is_some()
            && (float(metric.value) - 2.73).abs() < 0.000_001
    }));
    let outside = parse_sysstat(
        raw,
        Some((at("2026-08-27T12:00:02Z"), at("2026-08-27T12:00:03Z"))),
        &compute,
        &read,
    );
    assert!(outside.iter().all(|metric| metric.timestamp.is_none()));
}

#[test]
fn service_cgroup_adapter_calculates_rates_and_keeps_gauges() {
    let metrics = parse_service_cgroup(
        "2026-08-27T12:00:00.000000000Z\tisu.service\t1000000\t1048576\t100\t200\t3\n\
         2026-08-27T12:00:01.000000000Z\tisu.service\t2500000\t2097152\t1124\t2248\t4\n",
        None,
        &compute,
    );
    assert!(metrics.iter().any(|metric| {
        metric.name == "service.cpu_cores"
            && metric.timestamp.is_some()
            && float(metric.value) == 1.5
            && label(metric, "service") == Some("isu.service")
    }));
    assert!(metrics.iter().any(|metric| {
        metric.name == "service.io_read_bytes_per_second"
            && metric.timestamp.is_some()
            && float(metric.value) == 1024.0
    }));
    assert!(metrics.iter().any(|metric| {
        metric.name == "service.memory_bytes"
            && metric.timestamp.is_none()
            && float(metric.value) == 1_572_864.0
    }));
    assert!(metrics.iter().any(|metric| {
        metric.name == "service.pids" && metric.timestamp.is_none() && float(metric.value) == 3.5
    }));
}

#[test]
fn mysql_slow_log_tolerates_binary_query_literals() {
    let log = zstd::encode_all(
        &b"# Time: 2026-08-27T12:00:01.000000Z\n# Query_time: 0.001000  Lock_time: 0.000000 Rows_sent: 0 Rows_examined: 0\nINSERT INTO icons(image) VALUES ('\xff\xfe');\n"[..],
        1,
    )
    .unwrap();
    let metrics = parse_standard_output(
        &log,
        CollectorParser::MysqlSlow,
        &no_rules(),
        None,
        NO_GRID,
        &compute,
        &read,
    )
    .expect("binary literals should be decoded lossily");

    assert!(metrics.iter().any(|metric| metric.name == "db.query.calls"));
}

#[test]
fn slow_statements_are_counted_in_their_interval() {
    let raw = b"# Time: 2026-08-27T12:00:01.000000Z\n\
# Query_time: 0.100000  Lock_time: 0.010000 Rows_sent: 1 Rows_examined: 1\n\
SELECT * FROM items WHERE id=7;\n\
# Time: 2026-08-27T12:00:02.000000Z\n\
# Query_time: 0.250000  Lock_time: 0.000000 Rows_sent: 1 Rows_examined: 1\n\
SELECT * FROM items WHERE id=8;\n\
# Time: 2026-08-27T12:00:09.000000Z\n\
# Query_time: 9.000000  Lock_time: 0.000000 Rows_sent: 1 Rows_examined: 1\n\
SELECT * FROM items WHERE id=9;\n";
    let interval = Some((at("2026-08-27T12:00:00Z"), at("2026-08-27T12:00:05Z")));
    let metrics = parse_mysql_slow_reader(raw, interval, &compute, &read).unwrap();
    assert!(metrics.iter().any(|metric| {
        metric.name == "db.query.calls" && float(metric.value) == 2.0 && metric.timestamp.is_some()
    }));
    assert!(metrics
        .iter()
        .any(|metric| metric.name == "db.query.total_duration" && float(metric.value) == 350.0));
    assert!(metrics.iter().any(|metric| {
        metric.timestamp.is_none()
            && label(metric, "digest") == Some("select * from items where id=?")
    }));
}

#[test]
fn damaged_logs_are_told() {
    assert!(matches!(
        parse_standard_output(b"x", CollectorParser::AlpJson, &no_rules(), None, NO_GRID, &compute, &read),
        Err(ParseError::Corrupt(error)) if !error.is_empty()
    ));
    let bytes = zstd::encode_all(&[0xffu8][..], 1).unwrap();
    assert!(matches!(
        parse_standard_output(&bytes, CollectorParser::AlpJson, &no_rules(), None, NO_GRID, &compute, &read),
        Err(ParseError::NotText)
    ));
}

#[test]
fn a_piece_before_the_damage_of_a_log_is_dropped() {
    let record = r#"{"type":"metric","name":"a","value":1,"unit":"x"}"#;
    let whole = packed(&format!("{record}\n{record}"));
    assert_eq!(parse_protocol(&whole, &compute).metrics.len(), 2);
    let mut damaged = whole;
    damaged.extend_from_slice(b"damage");
    assert_eq!(parse_protocol(&damaged, &compute).metrics.len(), 1);
}

#[test]
fn records_are_read_among_other_lines() {
    let log = packed(
        "noise\n{\"type\":\"metric\",\"name\":\"a\",\"value\":2.5,\"unit\":\"x\",\"labels\":{\"k\":\"v\"},\"timestamp\":1787827200.5}\n{\"type\":\"fingerprint\",\"name\":\"app\",\"value\":\"abc\"}\n{\"type\":\"transition\",\"from\":\"/a\",\"to\":\"/b\",\"count\":3}\n{broken\n",
    );
    let records = parse_protocol(&log, &compute);
    assert_eq!(records.metrics.len(), 1);
    assert_eq!(records.metrics[0].timestamp, Some(Moment { nanos: 1_787_827_200_500_000_000 }));
    assert_eq!(label(&records.metrics[0], "k"), Some("v"));
    assert_eq!(records.fingerprints.len(), 1);
    assert_eq!(records.transitions.len(), 1);
    assert_eq!(records.transitions[0].count, 3);
}
