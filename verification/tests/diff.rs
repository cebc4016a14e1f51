use isuscope::diff::{http_diff, score_diff, NumericDiff, Presence};
use isuscope::number::{Number, Op};
use isuscope::report::{HttpRouteSummary, COMPACT_LIMIT};

fn float(n: Number) -> f64 {
    f64::from_bits(n.bits)
}

fn number(x: f64) -> Number {
    Number { bits: x.to_bits() }
}

fn compute(op: Op) -> Number {
    number(match op {
        Op::Add(a, b) => float(a) + float(b),
        Op::Subtract(a, b) => float(a) - float(b),
        Op::Multiply(a, b) => float(a) * float(b),
        Op::Divide(a, b) => float(a) / float(b),
        Op::Round(a, places) => {
            let scale = 10f64.powi(places as i32);
            (float(a) * scale).round() / scale
        }
        Op::Integer(n) => n as f64,
        Op::Natural(n) => n as f64,
    })
}

fn route(name: String, total_ms: f64) -> HttpRouteSummary {
    let mut route = HttpRouteSummary::blank("web-1".into(), "GET".into(), name);
    route.count = number(1.0);
    route.total_ms = Some(number(total_ms));
    route
}

#[test]
fn diff_joins_full_inputs_before_compacting() {
    let mut base = (0..20)
        .map(|index| route(format!("/stable-{index:02}"), 1000.0 - index as f64))
        .collect::<Vec<_>>();
    base.push(route("/was-rank-21".into(), 1.0));
    let mut candidate = (0..20)
        .map(|index| route(format!("/stable-{index:02}"), 1000.0 - index as f64))
        .collect::<Vec<_>>();
    candidate.push(route("/was-rank-21".into(), 2001.0));

    let section = http_diff(base, candidate, &compute);

    assert_eq!(section.total_count, 21);
    assert!(section.truncated);
    assert_eq!(section.items.len(), COMPACT_LIMIT);
    let changed = section
        .items
        .iter()
        .find(|item| item.route == "/was-rank-21")
        .expect("a large delta from outside the original top 20 must remain visible");
    assert_eq!(changed.presence, Presence::Both);
    assert_eq!(changed.total_ms.base.map(float), Some(1.0));
    assert_eq!(changed.total_ms.candidate.map(float), Some(2001.0));
    assert_eq!(changed.total_ms.delta.map(float), Some(2000.0));
}

#[test]
fn zero_base_has_no_percentage_delta() {
    let values = NumericDiff::new(Some(number(0.0)), Some(number(10.0)), &compute);
    assert_eq!(values.delta.map(float), Some(10.0));
    assert_eq!(values.delta_percent, None);

    let score = score_diff(Some(0), Some(10), &compute);
    assert_eq!(score.delta, Some(10));
    assert_eq!(score.delta_percent, None);
}

#[test]
fn union_marks_added_and_removed_routes() {
    let section = http_diff(
        vec![route("/removed".into(), 10.0)],
        vec![route("/added".into(), 20.0)],
        &compute,
    );
    assert_eq!(section.total_count, 2);
    assert_eq!(
        section.items.iter().find(|item| item.route == "/added").unwrap().presence,
        Presence::Added
    );
    assert_eq!(
        section.items.iter().find(|item| item.route == "/removed").unwrap().presence,
        Presence::Removed
    );
}

#[test]
fn differences_and_percentages_are_exact() {
    let values = NumericDiff::new(Some(number(8.0)), Some(number(10.0)), &compute);
    assert_eq!(values.delta.map(float), Some(2.0));
    assert_eq!(values.delta_percent.map(float), Some(25.0));
    let added = NumericDiff::new(None, Some(number(10.0)), &compute);
    assert_eq!((added.delta, added.delta_percent), (None, None));
    let score = score_diff(Some(200), Some(100), &compute);
    assert_eq!(score.delta, Some(-100));
    assert_eq!(score.delta_percent.map(float), Some(-50.0));
}
