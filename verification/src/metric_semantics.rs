//! How the values of a metric may be combined.
use crate::labels::lookup;
use crate::model::Metric;
use crate::number::{
    arithmetic, average, is_arithmetic, largest, maximum, mean, minimum, smallest, sum, total,
    Number, Op,
};
use crate::text::{chars_of, contains_text, ends, ends_with, find_at, find_is_first, same};
use vstd::prelude::*;

verus! {

#[derive(Clone, Copy, Debug, PartialEq, Eq, Structural)]
pub enum MetricAggregation {
    Sum,
    Average,
    Minimum,
    Maximum,
    MaxOfQuantile,
    NonMergeable,
}

/// A metric that carries a quantile.
pub open spec fn quantile(metric: Metric) -> bool {
    lookup(metric.labels@, "quantile"@) is Some || contains_text(metric.name@, "p95"@)
}

/// Counters and durations whose values may be added up.
pub open spec fn additive(name: Seq<char>) -> bool {
    ||| name == "http.requests"@
    ||| name == "http.errors"@
    ||| name == "http.response_bytes"@
    ||| name == "http.connection_reused_requests"@
    ||| name == "http.request_duration_sum"@
    ||| name == "http.upstream_duration_sum"@
    ||| name == "db.query.calls"@
    ||| name == "db.query.total_duration"@
    ||| name == "db.query.lock_duration"@
    ||| name == "db.query.rows_sent"@
    ||| name == "db.query.rows_examined"@
    ||| name == "cpu.sample_count"@
    ||| name == "benchmark.dns.failed"@
    ||| name == "benchmark.dns.resolved"@
    ||| name == "benchmark.scenario.failure"@
    ||| name == "benchmark.scenario.success"@
}

/// How samples of one series are combined over time.
pub open spec fn series_rule(metric: Metric) -> MetricAggregation {
    if quantile(metric) {
        MetricAggregation::MaxOfQuantile
    } else if additive(metric.name@) {
        MetricAggregation::Sum
    } else if ends(metric.name@, "_min"@) {
        MetricAggregation::Minimum
    } else if ends(metric.name@, "_max"@) {
        MetricAggregation::Maximum
    } else {
        MetricAggregation::Average
    }
}

/// How values of different label sets are combined: quantiles, means and metrics of unknown
/// meaning are not.
pub open spec fn grouped_rule(metric: Metric) -> MetricAggregation {
    if quantile(metric) || ends(metric.name@, "_mean"@) || metric.name@
        == "db.query.p95_duration"@ {
        MetricAggregation::NonMergeable
    } else if additive(metric.name@) {
        MetricAggregation::Sum
    } else if ends(metric.name@, "_min"@) {
        MetricAggregation::Minimum
    } else if ends(metric.name@, "_max"@) {
        MetricAggregation::Maximum
    } else {
        MetricAggregation::NonMergeable
    }
}

fn is_quantile(metric: &Metric) -> (r: bool)
    ensures
        r == quantile(*metric),
{
    if metric.labels.has("quantile") {
        return true;
    }
    let name = chars_of(metric.name.as_str());
    let needle = chars_of("p95");
    proof {
        find_is_first(name@, needle@, 0);
    }
    find_at(name.as_slice(), needle.as_slice(), 0).is_some()
}

fn is_additive(name: &str) -> (r: bool)
    ensures
        r == additive(name@),
{
    same(name, "http.requests") || same(name, "http.errors") || same(name, "http.response_bytes")
        || same(name, "http.connection_reused_requests") || same(
        name,
        "http.request_duration_sum",
    ) || same(name, "http.upstream_duration_sum") || same(name, "db.query.calls") || same(
        name,
        "db.query.total_duration",
    ) || same(name, "db.query.lock_duration") || same(name, "db.query.rows_sent") || same(
        name,
        "db.query.rows_examined",
    ) || same(name, "cpu.sample_count") || same(name, "benchmark.dns.failed") || same(
        name,
        "benchmark.dns.resolved",
    ) || same(name, "benchmark.scenario.failure") || same(name, "benchmark.scenario.success")
}

fn name_ends(name: &str, suffix: &str) -> (r: bool)
    ensures
        r == ends(name@, suffix@),
{
    let name = chars_of(name);
    let suffix = chars_of(suffix);
    ends_with(name.as_slice(), suffix.as_slice())
}

pub fn time_series_aggregation(metric: &Metric) -> (r: MetricAggregation)
    ensures
        r == series_rule(*metric),
{
    if is_quantile(metric) {
        MetricAggregation::MaxOfQuantile
    } else if is_additive(metric.name.as_str()) {
        MetricAggregation::Sum
    } else if name_ends(metric.name.as_str(), "_min") {
        MetricAggregation::Minimum
    } else if name_ends(metric.name.as_str(), "_max") {
        MetricAggregation::Maximum
    } else {
        MetricAggregation::Average
    }
}

pub fn grouped_aggregation(metric: &Metric) -> (r: MetricAggregation)
    ensures
        r == grouped_rule(*metric),
{
    if is_quantile(metric) || name_ends(metric.name.as_str(), "_mean") || same(
        metric.name.as_str(),
        "db.query.p95_duration",
    ) {
        MetricAggregation::NonMergeable
    } else if is_additive(metric.name.as_str()) {
        MetricAggregation::Sum
    } else if name_ends(metric.name.as_str(), "_min") {
        MetricAggregation::Minimum
    } else if name_ends(metric.name.as_str(), "_max") {
        MetricAggregation::Maximum
    } else {
        MetricAggregation::NonMergeable
    }
}

/// The value that `values` come to; nothing where there are none or where they cannot be merged.
pub open spec fn combined(
    f: spec_fn(Op) -> Number,
    values: Seq<Number>,
    aggregation: MetricAggregation,
) -> Option<Number> {
    if values.len() == 0 {
        None
    } else {
        match aggregation {
            MetricAggregation::Sum => Some(total(f, values)),
            MetricAggregation::Average => Some(mean(f, values)),
            MetricAggregation::Minimum => Some(smallest(values, values.len() as int)),
            MetricAggregation::Maximum | MetricAggregation::MaxOfQuantile => Some(
                largest(values, values.len() as int),
            ),
            MetricAggregation::NonMergeable => if values.len() == 1 {
                Some(values[0])
            } else {
                None
            },
        }
    }
}

/// Combines `values` by `aggregation`.
pub fn aggregate<F: Fn(Op) -> Number>(
    values: &[Number],
    aggregation: MetricAggregation,
    compute: &F,
) -> (r: Option<Number>)
    requires
        is_arithmetic(*compute),
    ensures
        r == combined(arithmetic(*compute), values@, aggregation),
{
    if values.len() == 0 {
        return None;
    }
    match aggregation {
        MetricAggregation::Sum => Some(sum(values, compute)),
        MetricAggregation::Average => Some(average(values, compute)),
        MetricAggregation::Minimum => minimum(values),
        MetricAggregation::Maximum | MetricAggregation::MaxOfQuantile => maximum(values),
        MetricAggregation::NonMergeable => if values.len() == 1 {
            Some(values[0])
        } else {
            None
        },
    }
}

/// Values of quantiles from different label sets are never averaged nor added: they either stay
/// alone or come to nothing.
pub proof fn quantiles_are_not_fabricated(
    f: spec_fn(Op) -> Number,
    metric: Metric,
    values: Seq<Number>,
)
    requires
        quantile(metric),
    ensures
        combined(f, values, grouped_rule(metric)) == (if values.len() == 1 {
            Some(values[0])
        } else {
            None
        }),
        series_rule(metric) == MetricAggregation::MaxOfQuantile,
{
}

} // verus!
