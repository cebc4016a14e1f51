//! What the samples of a window come to, for each series of each node, and what the backends did.
use crate::brief::{is_dated, SampledMetric};
use crate::join::{derefs, group_rows, keep, value_views, with_key, with_key_holds};
use crate::labels::{lookup, Labels, Pair};
use crate::metric_semantics::{
    aggregate, combined, series_rule, time_series_aggregation, MetricAggregation,
};
use crate::model::{Metric, RunManifest};
use crate::moment::Moment;
use crate::number::{arithmetic, is_arithmetic, Number, Op};
use crate::order::{distinct_sorted, models, Key};
use crate::query::{RowKey, RowKeyModel};
use crate::report::{label, label_or_dash, metric_values, peak_of, source_of};
use crate::text::{chars_of, same, starts, starts_with};
use crate::windows::{covers, window_holds, Window};
use vstd::prelude::*;

verus! {

/// What some metrics are about.
#[derive(Clone, Copy, Debug, PartialEq, Eq, Structural)]
pub enum Family {
    /// The nodes and their services.
    Hosts,
    /// The connections of the benchmark.
    Clients,
}

pub open spec fn is_of(family: Family, m: Metric) -> bool {
    match family {
        Family::Hosts => starts(m.name@, "host."@) || starts(m.name@, "service."@),
        Family::Clients => starts(m.name@, "client."@),
    }
}

/// The device or the service that a metric is about, or the host itself.
pub open spec fn target_of(m: Metric) -> Seq<char> {
    match (lookup(m.labels@, "device"@), lookup(m.labels@, "service"@)) {
        (Some(device), _) => device,
        (None, Some(service)) => service,
        (None, None) => "host"@,
    }
}

/// What a metric measures, whichever collector measured it.
pub open spec fn subject(m: Metric) -> (Seq<char>, (Seq<char>, Seq<char>)) {
    (label_or_dash(m, "node"@), (m.name@, target_of(m)))
}

/// There are samples of what the metric measures.
pub open spec fn is_sampled(all: Seq<Metric>, m: Metric) -> bool {
    exists|i: int|
        0 <= i < all.len() && (#[trigger] all[i]).timestamp is Some && subject(all[i]) == subject(m)
}

/// The metrics of a family that a window is summarized from: its samples, and the aggregates of
/// what was not sampled.
pub open spec fn is_summarized(
    all: Seq<Metric>,
    run: RunManifest,
    window: Window,
    family: Family,
) -> spec_fn(Metric) -> bool {
    |m: Metric|
        is_of(family, m) && match m.timestamp {
            Some(at) => covers(window, run, at),
            None => !is_sampled(all, m),
        }
}

/// A series: its node, its name and its labels.
pub open spec fn by_series() -> spec_fn(Metric) -> RowKeyModel {
    |m: Metric| (label_or_dash(m, "node"@), (m.name@, m.labels@))
}

/// How the samples of a series are combined. Connections that were opened add up.
pub open spec fn sampled_rule(m: Metric) -> MetricAggregation {
    if m.name@ == "client.connections_opened"@ {
        MetricAggregation::Sum
    } else {
        series_rule(m)
    }
}

/// The mathematical value of a summary.
#[verifier::ext_equal]
pub struct SampledView {
    pub node: Seq<char>,
    pub metric: Seq<char>,
    pub target: Seq<char>,
    pub source: Seq<char>,
    pub labels: Seq<Pair>,
    pub unit: Seq<char>,
    pub aggregation: MetricAggregation,
    pub value: Option<Number>,
    pub peak: Number,
    pub peak_at: Option<Moment>,
    pub samples: nat,
}

impl View for SampledMetric {
    type V = SampledView;

    open spec fn view(&self) -> SampledView {
        SampledView {
            node: self.node@,
            metric: self.metric@,
            target: self.target@,
            source: self.source@,
            labels: self.labels@,
            unit: self.unit@,
            aggregation: self.aggregation,
            value: self.value,
            peak: self.peak,
            peak_at: self.peak_at,
            samples: self.samples as nat,
        }
    }
}

/// The summary of one series.
pub open spec fn summary_of(
    f: spec_fn(Op) -> Number,
    k: RowKeyModel,
    samples: Seq<Metric>,
) -> SampledView {
    SampledView {
        node: k.0,
        metric: k.1.0,
        target: target_of(samples[0]),
        source: source_of(samples[0]),
        labels: k.1.1,
        unit: samples[0].unit@,
        aggregation: sampled_rule(samples[0]),
        value: combined(f, metric_values(samples), sampled_rule(samples[0])),
        peak: peak_of(samples).value,
        peak_at: peak_of(samples).timestamp,
        samples: samples.len(),
    }
}

/// The summaries of all series of a family over a window, by node, name and labels.
pub open spec fn summaries(
    f: spec_fn(Op) -> Number,
    all: Seq<Metric>,
    run: RunManifest,
    window: Window,
    family: Family,
) -> Seq<SampledView> {
    let chosen = all.filter(is_summarized(all, run, window, family));
    distinct_sorted::<RowKey>(chosen.map_values(by_series())).map_values(
        |k: RowKeyModel| summary_of(f, k, with_key(chosen, by_series(), k)),
    )
}

/// No sample from outside a window goes into its summaries.
pub proof fn only_the_window_is_summarized(
    all: Seq<Metric>,
    run: RunManifest,
    window: Window,
    family: Family,
    i: int,
)
    requires
        0 <= i < all.filter(is_summarized(all, run, window, family)).len(),
    ensures
        ({
            let m = all.filter(is_summarized(all, run, window, family))[i];
            is_of(family, m) && (m.timestamp matches Some(at) ==> covers(window, run, at))
        }),
{
    let p = is_summarized(all, run, window, family);
    all.lemma_filter_pred(p, i);
}

fn begins(name: &str, prefix: &str) -> (r: bool)
    ensures
        r == starts(name@, prefix@),
{
    starts_with(chars_of(name).as_slice(), chars_of(prefix).as_slice())
}

fn of_family(metric: &Metric, family: Family) -> (r: bool)
    ensures
        r == is_of(family, *metric),
{
    match family {
        Family::Hosts => begins(metric.name.as_str(), "host.") || begins(
            metric.name.as_str(),
            "service.",
        ),
        Family::Clients => begins(metric.name.as_str(), "client."),
    }
}

fn target(metric: &Metric) -> (r: String)
    ensures
        r@ == target_of(*metric),
{
    match metric.labels.get("device") {
        Some(device) => device.clone(),
        None => match metric.labels.get("service") {
            Some(service) => service.clone(),
            None => "host".to_owned(),
        },
    }
}

fn same_subject(a: &Metric, b: &Metric) -> (r: bool)
    ensures
        r == (subject(*a) == subject(*b)),
{
    same(label(a, "node").as_str(), label(b, "node").as_str()) && same(
        a.name.as_str(),
        b.name.as_str(),
    ) && same(target(a).as_str(), target(b).as_str())
}

fn has_samples(all: &[Metric], metric: &Metric) -> (r: bool)
    ensures
        r == is_sampled(all@, *metric),
{
    let mut i: usize = 0;
    while i < all.len()
        invariant
            i <= all@.len(),
            forall|j: int|
                0 <= j < i ==> !((#[trigger] all@[j]).timestamp is Some && subject(all@[j])
                    == subject(*metric)),
        decreases all.len() - i,
    {
        if all[i].timestamp.is_some() && same_subject(&all[i], metric) {
            assert(all@[i as int].timestamp is Some);
            return true;
        }
        i += 1;
    }
    false
}

fn summarize<F: Fn(Op) -> Number>(
    samples: &Vec<&Metric>,
    compute: &F,
    Ghost(k): Ghost<RowKeyModel>,
) -> (r: SampledMetric)
    requires
        is_arithmetic(*compute),
        samples@.len() > 0,
        forall|i: int| 0 <= i < samples@.len() ==> by_series()(*#[trigger] samples@[i]) == k,
    ensures
        r@ == summary_of(arithmetic(*compute), k, derefs(samples@)),
{
    let first = samples[0];
    assert(by_series()(*samples@[0]) == k);
    let ghost all = derefs(samples@);
    let mut values: Vec<Number> = Vec::new();
    let mut peak: &Metric = first;
    let mut i: usize = 0;
    while i < samples.len()
        invariant
            i <= samples@.len(),
            samples@.len() > 0,
            all == derefs(samples@),
            values@ == metric_values(all).take(i as int),
            i == 0 ==> *peak == all[0],
            i > 0 ==> *peak == peak_of(all.take(i as int)),
        decreases samples.len() - i,
    {
        let m = samples[i];
        assert(all[i as int] == *m);
        assert(all.take(i + 1).drop_last() == all.take(i as int));
        assert(all.take(i + 1).last() == *m);
        values.push(m.value);
        assert(metric_values(all).take(i + 1) == metric_values(all).take(i as int).push(m.value));
        if i > 0 && m.value.greater(peak.value) {
            peak = m;
        }
        i += 1;
    }
    assert(all.take(i as int) == all);
    assert(metric_values(all).take(i as int) == metric_values(all));
    let aggregation = if same(first.name.as_str(), "client.connections_opened") {
        MetricAggregation::Sum
    } else {
        time_series_aggregation(first)
    };
    SampledMetric {
        node: label(first, "node"),
        metric: first.name.clone(),
        target: target(first),
        source: label(first, "collector"),
        labels: first.labels.clone(),
        unit: first.unit.clone(),
        aggregation,
        value: aggregate(values.as_slice(), aggregation, compute),
        peak: peak.value,
        peak_at: peak.timestamp,
        samples: samples.len(),
    }
}

/// Summarizes each series of a family over a window.
pub fn summarize_window<F: Fn(Op) -> Number>(
    metrics: &[Metric],
    run: &RunManifest,
    window: Window,
    family: Family,
    compute: &F,
) -> (r: Vec<SampledMetric>)
    requires
        is_arithmetic(*compute),
        is_dated(*run),
    ensures
        value_views(r@) == summaries(arithmetic(*compute), metrics@, *run, window, family),
{
    let ghost f = arithmetic(*compute);
    let ghost p = is_summarized(metrics@, *run, window, family);
    let mut flags: Vec<bool> = Vec::new();
    let mut i: usize = 0;
    while i < metrics.len()
        invariant
            i <= metrics@.len(),
            is_dated(*run),
            p == is_summarized(metrics@, *run, window, family),
            flags@.len() == i,
            forall|j: int| 0 <= j < i ==> #[trigger] flags@[j] == p(metrics@[j]),
        decreases metrics.len() - i,
    {
        let m = &metrics[i];
        let chosen = of_family(m, family) && match m.timestamp {
            Some(at) => window_holds(window, run, at),
            None => !has_samples(metrics, m),
        };
        flags.push(chosen);
        i += 1;
    }
    let chosen = keep(metrics, &flags, Ghost(p));
    let ghost all = derefs(chosen@);
    let mut keys: Vec<RowKey> = Vec::new();
    let mut n: usize = 0;
    while n < chosen.len()
        invariant
            n <= chosen@.len(),
            all == derefs(chosen@),
            models(keys@) == all.take(n as int).map_values(by_series()),
        decreases chosen.len() - n,
    {
        let m = chosen[n];
        let ghost was = keys@;
        keys.push((label(m, "node"), (m.name.clone(), m.labels.clone())));
        assert(models(keys@) == models(was).push(by_series()(all[n as int])));
        assert(all.take(n + 1).map_values(by_series()) == all.take(n as int).map_values(
            by_series(),
        ).push(by_series()(all[n as int])));
        n += 1;
    }
    assert(all.take(n as int) == all);
    let groups = group_rows(&chosen, &keys, Ghost(by_series()));
    let ghost names = distinct_sorted::<RowKey>(all.map_values(by_series()));
    let ghost each = |k: RowKeyModel| summary_of(f, k, with_key(all, by_series(), k));
    let mut found: Vec<SampledMetric> = Vec::new();
    let mut g: usize = 0;
    while g < groups.len()
        invariant
            is_arithmetic(*compute),
            f == arithmetic(*compute),
            g <= groups@.len(),
            names == distinct_sorted::<RowKey>(all.map_values(by_series())),
            each == (|k: RowKeyModel| summary_of(f, k, with_key(all, by_series(), k))),
            groups@.len() == names.len(),
            forall|h: int|
                0 <= h < groups@.len() ==> derefs((#[trigger] groups@[h])@) == with_key(
                    all,
                    by_series(),
                    names[h],
                ) && groups@[h]@.len() > 0,
            value_views(found@) == names.take(g as int).map_values(each),
        decreases groups.len() - g,
    {
        let members = &groups[g];
        proof {
            let part = derefs(members@);
            let k = names[g as int];
            assert forall|x: int| 0 <= x < members@.len() implies by_series()(
                *#[trigger] members@[x],
            ) == k by {
                assert(part[x] == *members@[x]);
                with_key_holds(all, by_series(), k, x);
            }
        }
        let row = summarize(members, compute, Ghost(names[g as int]));
        let ghost was = found@;
        found.push(row);
        proof {
            assert(value_views(found@) == value_views(was).push(row@));
            assert(names.take(g + 1).map_values(each) == names.take(g as int).map_values(each).push(
                each(names[g as int]),
            ));
        }
        g += 1;
    }
    assert(names.take(g as int) == names);
    found
}

/// What one backend did for one node, counted by attempts.
#[derive(Debug)]
pub struct UpstreamSummary {
    pub node: String,
    pub upstream: String,
    pub source: String,
    pub requests: Option<Number>,
    /// Attempts that failed there and went on to another backend.
    pub retried_requests: Option<Number>,
    pub connect_p95: Option<Number>,
    pub header_p95: Option<Number>,
    pub response_p95: Option<Number>,
}

/// The mathematical value of an upstream summary.
#[verifier::ext_equal]
pub struct UpstreamView {
    pub node: Seq<char>,
    pub upstream: Seq<char>,
    pub source: Seq<char>,
    pub requests: Option<Number>,
    pub retried_requests: Option<Number>,
    pub connect_p95: Option<Number>,
    pub header_p95: Option<Number>,
    pub response_p95: Option<Number>,
}

impl View for UpstreamSummary {
    type V = UpstreamView;

    open spec fn view(&self) -> UpstreamView {
        UpstreamView {
            node: self.node@,
            upstream: self.upstream@,
            source: self.source@,
            requests: self.requests,
            retried_requests: self.retried_requests,
            connect_p95: self.connect_p95,
            header_p95: self.header_p95,
            response_p95: self.response_p95,
        }
    }
}

pub open spec fn upstream_views(rows: Seq<UpstreamSummary>) -> Seq<UpstreamView> {
    rows.map_values(|r: UpstreamSummary| r@)
}

/// A metric of the whole run about a backend.
pub open spec fn is_of_upstream() -> spec_fn(Metric) -> bool {
    |m: Metric|
        m.timestamp is None && starts(m.name@, "http.upstream_"@) && lookup(
            m.labels@,
            "upstream"@,
        ) is Some
}

pub type UpstreamKey = (String, (String, String));

pub type UpstreamKeyModel = (Seq<char>, (Seq<char>, Seq<char>));

pub open spec fn by_upstream() -> spec_fn(Metric) -> UpstreamKeyModel {
    |m: Metric|
        (label_or_dash(m, "node"@), (label_or_dash(m, "upstream"@), source_of(m)))
}

/// The value of the first metric of a name and a quantile.
pub open spec fn first_value(
    metrics: Seq<Metric>,
    name: Seq<char>,
    quantile: Option<Seq<char>>,
) -> Option<Number>
    decreases metrics.len(),
{
    if metrics.len() == 0 {
        None
    } else if metrics[0].name@ == name && lookup(metrics[0].labels@, "quantile"@) == quantile {
        Some(metrics[0].value)
    } else {
        first_value(metrics.skip(1), name, quantile)
    }
}

/// The summary of one backend.
pub open spec fn upstream_of(k: UpstreamKeyModel, metrics: Seq<Metric>) -> UpstreamView {
    UpstreamView {
        node: k.0,
        upstream: k.1.0,
        source: k.1.1,
        requests: first_value(metrics, "http.upstream_requests"@, None),
        retried_requests: first_value(metrics, "http.upstream_retried_requests"@, None),
        connect_p95: first_value(metrics, "http.upstream_connect_duration"@, Some("0.95"@)),
        header_p95: first_value(metrics, "http.upstream_header_duration"@, Some("0.95"@)),
        response_p95: first_value(metrics, "http.upstream_response_duration"@, Some("0.95"@)),
    }
}

/// The summaries of all backends, by node, address and collector.
pub open spec fn upstreams_of(all: Seq<Metric>) -> Seq<UpstreamView> {
    let chosen = all.filter(is_of_upstream());
    distinct_sorted::<UpstreamKey>(chosen.map_values(by_upstream())).map_values(
        |k: UpstreamKeyModel| upstream_of(k, with_key(chosen, by_upstream(), k)),
    )
}

fn has_quantile(labels: &Labels, quantile: Option<&str>) -> (r: bool)
    ensures
        r == (lookup(labels@, "quantile"@) == (match quantile {
            Some(q) => Some(q@),
            None => None,
        })),
{
    match (labels.get("quantile"), quantile) {
        (Some(a), Some(b)) => same(a.as_str(), b),
        (None, None) => true,
        _ => false,
    }
}

fn value_of(metrics: &Vec<&Metric>, name: &str, quantile: Option<&str>) -> (r: Option<Number>)
    ensures
        r == first_value(
            derefs(metrics@),
            name@,
            match quantile {
                Some(q) => Some(q@),
                None => None,
            },
        ),
{
    let ghost all = derefs(metrics@);
    let ghost q = match quantile {
        Some(q) => Some(q@),
        None => None,
    };
    let mut i: usize = 0;
    assert(all.skip(0) == all);
    while i < metrics.len()
        invariant
            i <= metrics@.len(),
            all == derefs(metrics@),
            q == (match quantile {
                Some(q) => Some(q@),
                None => None,
            }),
            first_value(all, name@, q) == first_value(all.skip(i as int), name@, q),
        decreases metrics.len() - i,
    {
        let m = metrics[i];
        assert(all.skip(i as int)[0] == *m);
        if same(m.name.as_str(), name) && has_quantile(&m.labels, quantile) {
            return Some(m.value);
        }
        assert(all.skip(i as int).skip(1) == all.skip(i + 1));
        i += 1;
    }
    None
}

fn is_upstream_metric(m: &Metric) -> (r: bool)
    ensures
        r == is_of_upstream()(*m),
{
    m.timestamp.is_none() && begins(m.name.as_str(), "http.upstream_") && m.labels.has("upstream")
}

fn upstream_row(metrics: &Vec<&Metric>, Ghost(k): Ghost<UpstreamKeyModel>) -> (r: UpstreamSummary)
    requires
        metrics@.len() > 0,
        by_upstream()(*metrics@[0]) == k,
    ensures
        r@ == upstream_of(k, derefs(metrics@)),
{
    let first = metrics[0];
    UpstreamSummary {
        node: label(first, "node"),
        upstream: label(first, "upstream"),
        source: label(first, "collector"),
        requests: value_of(metrics, "http.upstream_requests", None),
        retried_requests: value_of(metrics, "http.upstream_retried_requests", None),
        connect_p95: value_of(metrics, "http.upstream_connect_duration", Some("0.95")),
        header_p95: value_of(metrics, "http.upstream_header_duration", Some("0.95")),
        response_p95: value_of(metrics, "http.upstream_response_duration", Some("0.95")),
    }
}

/// Summarizes the backends of a run.
pub fn upstreams(metrics: &[Metric]) -> (r: Vec<UpstreamSummary>)
    ensures
        upstream_views(r@) == upstreams_of(metrics@),
{
    let ghost p = is_of_upstream();
    let mut flags: Vec<bool> = Vec::new();
    let mut i: usize = 0;
    while i < metrics.len()
        invariant
            i <= metrics@.len(),
            p == is_of_upstream(),
            flags@.len() == i,
            forall|j: int| 0 <= j < i ==> #[trigger] flags@[j] == p(metrics@[j]),
        decreases metrics.len() - i,
    {
        flags.push(is_upstream_metric(&metrics[i]));
        i += 1;
    }
    let chosen = keep(metrics, &flags, Ghost(p));
    let ghost all = derefs(chosen@);
    let mut keys: Vec<UpstreamKey> = Vec::new();
    let mut n: usize = 0;
    while n < chosen.len()
        invariant
            n <= chosen@.len(),
            all == derefs(chosen@),
            models(keys@) == all.take(n as int).map_values(by_upstream()),
        decreases chosen.len() - n,
    {
        let m = chosen[n];
        let ghost was = keys@;
        keys.push((label(m, "node"), (label(m, "upstream"), label(m, "collector"))));
        assert(models(keys@) == models(was).push(by_upstream()(all[n as int])));
        assert(all.take(n + 1).map_values(by_upstream()) == all.take(n as int).map_values(
            by_upstream(),
        ).push(by_upstream()(all[n as int])));
        n += 1;
    }
    assert(all.take(n as int) == all);
    let groups = group_rows(&chosen, &keys, Ghost(by_upstream()));
    let ghost names = distinct_sorted::<UpstreamKey>(all.map_values(by_upstream()));
    let ghost each = |k: UpstreamKeyModel| upstream_of(k, with_key(all, by_upstream(), k));
    let mut found: Vec<UpstreamSummary> = Vec::new();
    let mut g: usize = 0;
    while g < groups.len()
        invariant
            g <= groups@.len(),
            names == distinct_sorted::<UpstreamKey>(all.map_values(by_upstream())),
            each == (|k: UpstreamKeyModel| upstream_of(k, with_key(all, by_upstream(), k))),
            groups@.len() == names.len(),
            forall|h: int|
                0 <= h < groups@.len() ==> derefs((#[trigger] groups@[h])@) == with_key(
                    all,
                    by_upstream(),
                    names[h],
                ) && groups@[h]@.len() > 0,
            upstream_views(found@) == names.take(g as int).map_values(each),
        decreases groups.len() - g,
    {
        let members = &groups[g];
        proof {
            let k = names[g as int];
            assert(derefs(members@)[0] == *members@[0]);
            with_key_holds(all, by_upstream(), k, 0);
        }
        let row = upstream_row(members, Ghost(names[g as int]));
        let ghost was = found@;
        found.push(row);
        proof {
            assert(upstream_views(found@) == upstream_views(was).push(row@));
            assert(names.take(g + 1).map_values(each) == names.take(g as int).map_values(each).push(
                each(names[g as int]),
            ));
        }
        g += 1;
    }
    assert(names.take(g as int) == names);
    found
}

} // verus!
