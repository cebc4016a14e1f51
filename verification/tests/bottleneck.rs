use isuscope::bottleneck::rank;
use isuscope::labels::Labels;
use isuscope::model::Metric;
use isuscope::number::{Number, Op};

fn float(n: Number) -> f64 {
    f64::from_bits(n.bits)
}

fn number(x: f64) -> Number {
    Number { bits: x.to_bits() }
}

fn compute(op: Op) -> Number {
    number(match op {
        Op::Add(a, b) => float(a) + float(b),
        Op::Subtract(a, b) => float(a) - float(b),
        Op::Multiply(a, b) => float(a) * float(b),
        Op::Divide(a, b) => float(a) / float(b),
        Op::Round(a, places) => {
            let scale = 10f64.powi(places as i32);
            (float(a) * scale).round() / scale
        }
        Op::Integer(n) => n as f64,
        Op::Natural(n) => n as f64,
    })
}

fn show(n: Number, decimals: u32) -> String {
    format!("{:.*}", decimals as usize, float(n))
}

fn labels(pairs: &[(&str, &str)]) -> Labels {
    let mut labels = Labels::new();
    for (name, value) in pairs {
        labels.insert(name.to_string(), value.to_string());
    }
    labels
}

fn metric(name: &str, value: f64, unit: &str, pairs: &[(&str, &str)]) -> Metric {
    Metric {
        name: name.into(),
        value: number(value),
        unit: unit.into(),
        timestamp: None,
        labels: labels(pairs),
    }
}

#[test]
fn keeps_each_observed_category_before_filling_top_five() {
    let metrics = vec![
        metric("http.requests", 100., "ms", &[("route", "/a"), ("method", "GET")]),
        metric(
            "http.request_duration",
            10.,
            "ms",
            &[("route", "/a"), ("method", "GET"), ("quantile", "0.95")],
        ),
        metric("db.query.calls", 2., "ms", &[("digest", "select ?"), ("engine", "mysql")]),
        metric(
            "db.query.total_duration",
            200.,
            "ms",
            &[("digest", "select ?"), ("engine", "mysql")],
        ),
        metric("cpu.sample_percent", 90., "ms", &[("symbol", "work"), ("binary", "app")]),
        metric("host.disk_await", 30., "ms", &[("device", "sda")]),
    ];
    let r = rank(&metrics, &compute, &show);
    assert_eq!(r.candidates.len(), 4);
    assert!(r.coverage.iter().all(|c| c.available));
    assert_eq!(
        r.candidates.iter().map(|c| c.category).collect::<Vec<_>>(),
        vec!["http", "database", "cpu", "host"]
    );
}

#[test]
fn evidence_names_the_values_it_rests_on() {
    let metrics = vec![metric("host.disk_await", 30., "ms", &[("device", "sda"), ("node", "db1")])];
    let r = rank(&metrics, &compute, &show);
    assert_eq!(r.candidates.len(), 1);
    assert_eq!(r.candidates[0].node, "db1");
    assert_eq!(r.candidates[0].evidence, "host.disk_await=30.00ms");
    assert_eq!(r.coverage.iter().filter(|c| c.available).count(), 1);
    assert!(rank(&[], &compute, &show).candidates.is_empty());
}
