//! Metrics over time, in buckets.
use crate::brief::distinct_texts;
use crate::clock::{rfc3339, to_rfc3339};
use crate::collector::ResultView;
use crate::enrichment::first_of;
use crate::join::{grouped, ref_views, value_views, with_key, with_key_holds};
use crate::labels::{lookup, without, without_label, Labels, Pair};
use crate::model::{on_calendar, CollectorResult, Metric, MetricView, RunManifest};
use crate::moment::{remainder, Moment, LATEST};
use crate::number::{
    apply, arithmetic, average, is_arithmetic, largest, maximum, mean, sum, total, total_from,
    Number, Op,
};
use crate::order::{distinct_sorted, models, Key};
use crate::protocol::picked;
use crate::report::text_option;
use crate::text::{same, texts};
use vstd::prelude::*;

verus! {

/// What part of the metrics of a run is asked for.
#[derive(Clone, Debug)]
pub struct SeriesOptions {
    pub metrics: Vec<String>,
    pub node: Option<String>,
    pub labels: Vec<(String, String)>,
    /// Seconds after the start of the benchmark.
    pub from: u64,
    pub to: Option<u64>,
    /// Seconds of a bucket.
    pub bucket: u64,
    pub limit: usize,
}

/// When the benchmark ran, and what part of it is asked for.
#[derive(Clone, Copy, Debug, PartialEq, Eq, Structural)]
pub struct SeriesRange {
    pub start: Moment,
    pub end: Moment,
    pub from: Moment,
    pub to: Moment,
}

/// A moment some seconds later.
pub open spec fn later(at: Moment, seconds: nat) -> Moment {
    Moment { nanos: (at.nanos + seconds * 1_000_000_000) as i128 }
}

/// The moment lies in the calendar some seconds later too.
pub open spec fn can_wait(at: Moment, seconds: nat) -> bool {
    at.nanos + seconds * 1_000_000_000 <= LATEST
}

pub open spec fn earlier(a: Moment, b: Moment) -> Moment {
    if a.nanos <= b.nanos {
        a
    } else {
        b
    }
}

pub open spec fn start_of(m: RunManifest) -> Moment {
    match m.benchmark.started_at {
        Some(at) => at,
        None => m.started_at,
    }
}

pub open spec fn end_of(m: RunManifest) -> Moment {
    match (m.benchmark.finished_at, m.finished_at) {
        (Some(at), _) => at,
        (None, Some(at)) => at,
        (None, None) => start_of(m),
    }
}

/// What is asked for never reaches beyond the end of the benchmark.
pub open spec fn range_of(m: RunManifest, o: SeriesOptions) -> SeriesRange {
    let start = start_of(m);
    let end = end_of(m);
    let to = match o.to {
        Some(seconds) => earlier(later(start, seconds as nat), end),
        None => end,
    };
    SeriesRange { start, end, from: earlier(later(start, o.from as nat), to), to }
}

/// The moments of a run lie in the calendar.
pub open spec fn dated(m: RunManifest) -> bool {
    &&& m.started_at.valid()
    &&& on_calendar(m.finished_at)
    &&& on_calendar(m.benchmark.started_at)
    &&& on_calendar(m.benchmark.finished_at)
}

/// The seconds that are asked for can be counted from the start of the benchmark.
pub open spec fn countable(m: RunManifest, o: SeriesOptions) -> bool {
    &&& can_wait(start_of(m), o.from as nat)
    &&& o.to matches Some(seconds) ==> can_wait(start_of(m), seconds as nat)
    &&& 1 <= o.bucket <= 3600
}

/// The start of the bucket of a second.
pub open spec fn bucket_start(second: int, bucket: int) -> int {
    second - second % bucket
}

pub open spec fn valid_range(r: SeriesRange) -> bool {
    r.start.valid() && r.end.valid() && r.from.valid() && r.to.valid()
}

fn wait(at: Moment, seconds: u64) -> (r: Moment)
    requires
        at.valid(),
        can_wait(at, seconds as nat),
    ensures
        r == later(at, seconds as nat),
        r.valid(),
{
    Moment { nanos: at.nanos + (seconds as i128) * 1_000_000_000 }
}

fn first_moment(a: Moment, b: Moment) -> (r: Moment)
    ensures
        r == earlier(a, b),
{
    if a.nanos <= b.nanos {
        a
    } else {
        b
    }
}

/// Finds the part of the benchmark that is asked for.
pub fn series_range(m: &RunManifest, o: &SeriesOptions) -> (r: SeriesRange)
    requires
        dated(*m),
        countable(*m, *o),
    ensures
        r == range_of(*m, *o),
        valid_range(r),
        r.from.nanos <= r.to.nanos <= r.end.nanos,
{
    let start = match m.benchmark.started_at {
        Some(at) => at,
        None => m.started_at,
    };
    let end = match m.benchmark.finished_at {
        Some(at) => at,
        None => match m.finished_at {
            Some(at) => at,
            None => start,
        },
    };
    let to = match o.to {
        Some(seconds) => first_moment(wait(start, seconds), end),
        None => end,
    };
    let from = first_moment(wait(start, o.from), to);
    SeriesRange { start, end, from, to }
}

fn bucket_of_second(second: i64, bucket: u64) -> (r: i64)
    requires
        1 <= bucket <= 3600,
        -1_000_000_000_000_000 <= second <= 1_000_000_000_000_000,
    ensures
        r == bucket_start(second as int, bucket as int),
        second - 3600 <= r <= second,
{
    let rest: i128 = remainder(second as i128, bucket as i128);
    second - rest as i64
}

/// The seconds of a moment of the calendar are few.
proof fn seconds_are_few(at: Moment)
    requires
        at.valid(),
    ensures
        -1_000_000_000_000_000 <= at.seconds_spec() <= 1_000_000_000_000_000,
{
    assert(-1_000_000_000_000_000 <= at.nanos as int / 1_000_000_000 <= 1_000_000_000_000_000);
}

/// The whole seconds from one moment to another, rounded towards zero.
pub open spec fn seconds_between(a: int, b: int) -> int {
    if b >= a {
        (b - a) / 1_000_000_000
    } else {
        -((a - b) / 1_000_000_000)
    }
}

fn count_seconds(a: Moment, b: Moment) -> (r: i64)
    requires
        a.valid(),
        b.valid(),
    ensures
        r == seconds_between(a.nanos as int, b.nanos as int),
        -2_000_000_000_000_000 <= r <= 2_000_000_000_000_000,
{
    let seconds: i128 = if b.nanos >= a.nanos {
        (b.nanos - a.nanos) / 1_000_000_000
    } else {
        -((a.nanos - b.nanos) / 1_000_000_000)
    };
    seconds as i64
}

/// A metric has these labels.
pub open spec fn has_labels(m: MetricView, labels: Seq<(String, String)>) -> bool {
    forall|i: int|
        0 <= i < labels.len() ==> lookup(m.labels, (#[trigger] labels[i]).0@) == Some(labels[i].1@)
}

/// Whether a metric is asked for. Only metrics with a time are.
pub open spec fn is_asked(o: SeriesOptions, r: SeriesRange) -> spec_fn(MetricView) -> bool {
    |m: MetricView|
        {
            &&& o.metrics@.len() == 0 || texts(o.metrics@).contains(m.name)
            &&& o.node matches Some(node) ==> lookup(m.labels, "node"@) == Some(node@)
            &&& has_labels(m, o.labels@)
            &&& m.timestamp matches Some(at) && at.seconds_spec() >= bucket_start(
                r.from.seconds_spec(),
                o.bucket as int,
            ) && at.nanos <= r.to.nanos
        }
}

/// The times of the metrics lie in the calendar.
pub open spec fn timed_well(metrics: Seq<Metric>) -> bool {
    forall|i: int| 0 <= i < metrics.len() ==> on_calendar((#[trigger] metrics[i]).timestamp)
}

/// All metrics have a time, and it lies in the calendar.
pub open spec fn all_timed(metrics: Seq<Metric>) -> bool {
    forall|i: int|
        0 <= i < metrics.len() ==> ((#[trigger] metrics[i]).timestamp matches Some(at)
            && at.valid())
}

fn labels_match(labels: &Labels, wanted: &Vec<(String, String)>, Ghost(m): Ghost<MetricView>) -> (r:
    bool)
    requires
        labels@ == m.labels,
    ensures
        r == has_labels(m, wanted@),
{
    let mut i: usize = 0;
    while i < wanted.len()
        invariant
            i <= wanted@.len(),
            labels@ == m.labels,
            forall|j: int|
                0 <= j < i ==> lookup(m.labels, (#[trigger] wanted@[j]).0@) == Some(
                    wanted@[j].1@,
                ),
        decreases wanted.len() - i,
    {
        if !labels.holds(wanted[i].0.as_str(), wanted[i].1.as_str()) {
            return false;
        }
        i += 1;
    }
    true
}

fn holds_text(list: &Vec<String>, text: &str) -> (r: bool)
    ensures
        r == texts(list@).contains(text@),
{
    let mut i: usize = 0;
    while i < list.len()
        invariant
            i <= list@.len(),
            forall|j: int| 0 <= j < i ==> (#[trigger] list@[j])@ != text@,
        decreases list.len() - i,
    {
        if same(list[i].as_str(), text) {
            assert(texts(list@)[i as int] == text@);
            return true;
        }
        i += 1;
    }
    proof {
        if texts(list@).contains(text@) {
            let j = choose|j: int| 0 <= j < texts(list@).len() && texts(list@)[j] == text@;
            assert(list@[j]@ == text@);
        }
    }
    false
}

/// Tells whether a metric is asked for.
pub fn metric_matches(metric: &Metric, o: &SeriesOptions, range: &SeriesRange) -> (r: bool)
    requires
        valid_range(*range),
        1 <= o.bucket <= 3600,
        on_calendar(metric.timestamp),
    ensures
        r == is_asked(*o, *range)(metric@),
{
    if o.metrics.len() > 0 && !holds_text(&o.metrics, metric.name.as_str()) {
        return false;
    }
    match &o.node {
        Some(node) => {
            if !metric.labels.holds("node", node.as_str()) {
                return false;
            }
        },
        None => {},
    }
    if !labels_match(&metric.labels, &o.labels, Ghost(metric@)) {
        return false;
    }
    match metric.timestamp {
        Some(at) => {
            proof {
                seconds_are_few(range.from);
            }
            let first = bucket_of_second(range.from.seconds(), o.bucket);
            at.seconds() >= first && at.nanos <= range.to.nanos
        },
        None => false,
    }
}

/// The metrics that are asked for.
pub fn asked_metrics(metrics: Vec<Metric>, o: &SeriesOptions, range: &SeriesRange) -> (r: Vec<Metric>)
    requires
        valid_range(*range),
        1 <= o.bucket <= 3600,
        timed_well(metrics@),
    ensures
        value_views(r@) == value_views(metrics@).filter(is_asked(*o, *range)),
        all_timed(r@),
{
    let ghost given = metrics@;
    let ghost all = value_views(metrics@);
    let ghost p = is_asked(*o, *range);
    let mut out: Vec<Metric> = Vec::new();
    proof {
        reveal(Seq::filter);
        assert(all.take(0) == Seq::<MetricView>::empty());
        assert(value_views(out@) == all.take(0).filter(p));
    }
    for metric in it: metrics
        invariant
            it.seq() == given,
            all == value_views(given),
            p == is_asked(*o, *range),
            valid_range(*range),
            1 <= o.bucket <= 3600,
            timed_well(given),
            value_views(out@) == all.take(it.index() as int).filter(p),
            all_timed(out@),
    {
        let ghost i = it.index() as int;
        proof {
            reveal(Seq::filter);
            assert(given[i] == metric);
            assert(all[i] == metric@);
            assert(all.take(i + 1).drop_last() == all.take(i));
            assert(all.take(i + 1).last() == metric@);
        }
        if metric_matches(&metric, o, range) {
            let ghost was = out@;
            let ghost added = metric@;
            out.push(metric);
            assert(value_views(out@) == value_views(was).push(added));
        }
    }
    assert(all.take(all.len() as int) == all);
    out
}

/// The node of a metric.
pub open spec fn node_of(m: MetricView) -> Seq<char> {
    match lookup(m.labels, "node"@) {
        Some(node) => node,
        None => "local"@,
    }
}

/// The start of the bucket of a metric with a time.
pub open spec fn bucket_of(m: MetricView, bucket: int) -> int {
    bucket_start(m.timestamp->0.seconds_spec(), bucket)
}

fn metric_node(metric: &Metric) -> (r: String)
    ensures
        r@ == node_of(metric@),
{
    match metric.labels.get("node") {
        Some(node) => node.clone(),
        None => "local".to_owned(),
    }
}

fn metric_bucket(metric: &Metric, bucket: u64) -> (r: i64)
    requires
        1 <= bucket <= 3600,
        metric.timestamp matches Some(at) && at.valid(),
    ensures
        r == bucket_of(metric@, bucket as int),
        -1_000_000_000_100_000 <= r <= 1_000_000_000_000_000,
{
    match metric.timestamp {
        Some(at) => {
            proof {
                seconds_are_few(at);
            }
            bucket_of_second(at.seconds(), bucket)
        },
        None => 0,
    }
}

/// How the values of a bucket become one.
#[derive(Clone, Copy, Debug, PartialEq, Eq, Structural)]
pub enum SeriesAggregation {
    Sum,
    Average,
    MaxOfQuantile,
}

/// Quantiles are not added or averaged, and only counts and total times are added.
pub open spec fn aggregation_of(name: Seq<char>, labels: Seq<Pair>) -> SeriesAggregation {
    if lookup(labels, "quantile"@) is Some {
        SeriesAggregation::MaxOfQuantile
    } else if name == "http.requests"@ || name == "http.errors"@ || name == "http.response_bytes"@
        || name == "http.connection_reused_requests"@ || name == "db.query.calls"@ || name
        == "db.query.total_duration"@ || name == "cpu.sample_count"@ {
        SeriesAggregation::Sum
    } else {
        SeriesAggregation::Average
    }
}

pub fn aggregation_for(name: &str, labels: &Labels) -> (r: SeriesAggregation)
    ensures
        r == aggregation_of(name@, labels@),
{
    if labels.has("quantile") {
        return SeriesAggregation::MaxOfQuantile;
    }
    if same(name, "http.requests") || same(name, "http.errors") || same(name, "http.response_bytes")
        || same(name, "http.connection_reused_requests") || same(name, "db.query.calls") || same(
        name,
        "db.query.total_duration",
    ) || same(name, "cpu.sample_count") {
        SeriesAggregation::Sum
    } else {
        SeriesAggregation::Average
    }
}

/// What the rows of metrics are told apart by: node, bucket, name, unit and the other labels.
pub type SeriesKey = (((String, i64), (String, String)), Labels);

pub type SeriesKeyModel = (((Seq<char>, int), (Seq<char>, Seq<char>)), Seq<Pair>);

pub open spec fn series_key(bucket: int) -> spec_fn(MetricView) -> SeriesKeyModel {
    |m: MetricView|
        (
            ((node_of(m), bucket_of(m, bucket)), (m.name, m.unit)),
            without_label(m.labels, "node"@),
        )
}

/// A bucket of one metric.
#[derive(Clone, Debug)]
pub struct MetricSeriesRow {
    pub node: String,
    pub from_seconds: i64,
    pub to_seconds: i64,
    pub metric: String,
    pub value: Number,
    pub unit: String,
    pub aggregation: SeriesAggregation,
    pub labels: Labels,
}

#[verifier::ext_equal]
pub struct MetricSeriesView {
    pub node: Seq<char>,
    pub from_seconds: int,
    pub to_seconds: int,
    pub metric: Seq<char>,
    pub value: Number,
    pub unit: Seq<char>,
    pub aggregation: SeriesAggregation,
    pub labels: Seq<Pair>,
}

impl View for MetricSeriesRow {
    type V = MetricSeriesView;

    open spec fn view(&self) -> MetricSeriesView {
        MetricSeriesView {
            node: self.node@,
            from_seconds: self.from_seconds as int,
            to_seconds: self.to_seconds as int,
            metric: self.metric@,
            value: self.value,
            unit: self.unit@,
            aggregation: self.aggregation,
            labels: self.labels@,
        }
    }
}

pub open spec fn largest_int(a: int, b: int) -> int {
    if a >= b {
        a
    } else {
        b
    }
}

pub open spec fn smallest_int(a: int, b: int) -> int {
    if a <= b {
        a
    } else {
        b
    }
}

/// Where a bucket begins, in seconds after the start of the benchmark.
pub open spec fn row_from(start: Moment, at: int) -> int {
    largest_int(at - start.seconds_spec(), 0)
}

/// Where a bucket ends, in seconds after the start of the benchmark: no later than `duration`.
pub open spec fn row_to(start: Moment, at: int, bucket: int, duration: int) -> int {
    smallest_int(at - start.seconds_spec() + bucket, largest_int(duration, 1))
}

pub open spec fn values_of(metrics: Seq<MetricView>) -> Seq<Number> {
    metrics.map_values(|m: MetricView| m.value)
}

pub open spec fn aggregated(
    f: spec_fn(Op) -> Number,
    aggregation: SeriesAggregation,
    values: Seq<Number>,
) -> Number {
    match aggregation {
        SeriesAggregation::Sum => total(f, values),
        SeriesAggregation::Average => mean(f, values),
        SeriesAggregation::MaxOfQuantile => largest(values, values.len() as int),
    }
}

/// The row of one key.
pub open spec fn metric_row(
    f: spec_fn(Op) -> Number,
    r: SeriesRange,
    bucket: int,
    chosen: Seq<MetricView>,
) -> spec_fn(SeriesKeyModel) -> MetricSeriesView {
    |k: SeriesKeyModel|
        {
            let aggregation = aggregation_of(k.0.1.0, k.1);
            MetricSeriesView {
                node: k.0.0.0,
                from_seconds: row_from(r.start, k.0.0.1),
                to_seconds: row_to(
                    r.start,
                    k.0.0.1,
                    bucket,
                    seconds_between(r.start.nanos as int, r.to.nanos as int),
                ),
                metric: k.0.1.0,
                value: aggregated(
                    f,
                    aggregation,
                    values_of(with_key(chosen, series_key(bucket), k)),
                ),
                unit: k.0.1.1,
                aggregation,
                labels: k.1,
            }
        }
}

/// All rows of the metrics, in the order of their keys.
pub open spec fn metric_rows(
    f: spec_fn(Op) -> Number,
    r: SeriesRange,
    bucket: int,
    chosen: Seq<MetricView>,
) -> Seq<MetricSeriesView> {
    distinct_sorted::<SeriesKey>(chosen.map_values(series_key(bucket))).map_values(
        metric_row(f, r, bucket, chosen),
    )
}

fn key_of(metric: &Metric, bucket: u64) -> (r: SeriesKey)
    requires
        1 <= bucket <= 3600,
        metric.timestamp matches Some(at) && at.valid(),
    ensures
        r.model() == series_key(bucket as int)(metric@),
{
    let node = metric_node(metric);
    let at = metric_bucket(metric, bucket);
    let labels = without(&metric.labels, "node");
    (((node, at), (metric.name.clone(), metric.unit.clone())), labels)
}

fn keys_of(metrics: &Vec<Metric>, bucket: u64) -> (r: Vec<SeriesKey>)
    requires
        1 <= bucket <= 3600,
        all_timed(metrics@),
    ensures
        models(r@) == value_views(metrics@).map_values(series_key(bucket as int)),
{
    let mut out: Vec<SeriesKey> = Vec::new();
    let ghost key = series_key(bucket as int);
    let ghost all = value_views(metrics@).map_values(key);
    let mut i: usize = 0;
    assert(models(out@) == all.take(0));
    while i < metrics.len()
        invariant
            i <= metrics@.len(),
            1 <= bucket <= 3600,
            all_timed(metrics@),
            key == series_key(bucket as int),
            all == value_views(metrics@).map_values(key),
            models(out@) == all.take(i as int),
        decreases metrics.len() - i,
    {
        let ghost was = out@;
        let k = key_of(&metrics[i], bucket);
        let ghost model = k.model();
        out.push(k);
        assert(models(out@) == models(was).push(model));
        assert(all[i as int] == model);
        assert(all.take(i + 1) == all.take(i as int).push(all[i as int]));
        i += 1;
    }
    assert(all.take(i as int) == all);
    out
}

fn collect_values(metrics: &Vec<&Metric>) -> (r: Vec<Number>)
    ensures
        r@ == values_of(ref_views(metrics@)),
{
    let mut out: Vec<Number> = Vec::new();
    let ghost all = values_of(ref_views(metrics@));
    let mut i: usize = 0;
    while i < metrics.len()
        invariant
            i <= metrics@.len(),
            all == values_of(ref_views(metrics@)),
            out@ == all.take(i as int),
        decreases metrics.len() - i,
    {
        assert(all[i as int] == metrics@[i as int].value);
        out.push(metrics[i].value);
        assert(all.take(i + 1) == all.take(i as int).push(all[i as int]));
        i += 1;
    }
    assert(all.take(i as int) == all);
    out
}

fn aggregate<F: Fn(Op) -> Number>(
    aggregation: SeriesAggregation,
    values: &Vec<Number>,
    compute: &F,
) -> (r: Number)
    requires
        is_arithmetic(*compute),
        values@.len() > 0,
    ensures
        r == aggregated(arithmetic(*compute), aggregation, values@),
{
    match aggregation {
        SeriesAggregation::Sum => sum(values.as_slice(), compute),
        SeriesAggregation::Average => average(values.as_slice(), compute),
        SeriesAggregation::MaxOfQuantile => match maximum(values.as_slice()) {
            Some(value) => value,
            None => Number::zero(),
        },
    }
}

fn edge(start: i64, at: i64) -> (r: i64)
    requires
        -1_000_000_000_000_000 <= start <= 1_000_000_000_000_000,
        -1_000_000_000_100_000 <= at <= 1_000_000_000_000_000,
    ensures
        r == largest_int(at - start, 0),
{
    if at - start >= 0 {
        at - start
    } else {
        0
    }
}

fn far_edge(start: i64, at: i64, bucket: u64, duration: i64) -> (r: i64)
    requires
        -1_000_000_000_000_000 <= start <= 1_000_000_000_000_000,
        -1_000_000_000_100_000 <= at <= 1_000_000_000_000_000,
        1 <= bucket <= 3600,
    ensures
        r == smallest_int(at - start + bucket, largest_int(duration as int, 1)),
{
    let longest: i64 = if duration >= 1 {
        duration
    } else {
        1
    };
    let end: i64 = at - start + bucket as i64;
    if end <= longest {
        end
    } else {
        longest
    }
}

fn make_row<F: Fn(Op) -> Number>(
    group: &Vec<&Metric>,
    range: &SeriesRange,
    bucket: u64,
    compute: &F,
    Ghost(chosen): Ghost<Seq<MetricView>>,
    Ghost(k): Ghost<SeriesKeyModel>,
) -> (r: MetricSeriesRow)
    requires
        is_arithmetic(*compute),
        1 <= bucket <= 3600,
        valid_range(*range),
        group@.len() > 0,
        ref_views(group@) == with_key(chosen, series_key(bucket as int), k),
        group@[0].timestamp matches Some(at) && at.valid(),
    ensures
        r@ == metric_row(arithmetic(*compute), *range, bucket as int, chosen)(k),
{
    let first = group[0];
    proof {
        assert(ref_views(group@)[0] == first@);
        with_key_holds(chosen, series_key(bucket as int), k, 0);
        seconds_are_few(range.start);
    }
    let (((node, at), (metric, unit)), labels) = key_of(first, bucket);
    assert(-1_000_000_000_100_000 <= at <= 1_000_000_000_000_000) by {
        seconds_are_few(first.timestamp->0);
    }
    let aggregation = aggregation_for(metric.as_str(), &labels);
    let values = collect_values(group);
    assert(values@.len() == group@.len());
    let value = aggregate(aggregation, &values, compute);
    let start = range.start.seconds();
    let duration = count_seconds(range.start, range.to);
    MetricSeriesRow {
        node,
        from_seconds: edge(start, at),
        to_seconds: far_edge(start, at, bucket, duration),
        metric,
        value,
        unit,
        aggregation,
        labels,
    }
}

/// The rows of the metrics that are asked for, as many as the limit allows.
#[derive(Debug)]
pub struct MetricRows {
    pub total_count: usize,
    pub truncated: bool,
    pub rows: Vec<MetricSeriesRow>,
}

pub open spec fn shown_rows(all: Seq<MetricSeriesView>, limit: nat, out: MetricRows) -> bool {
    &&& out.total_count == all.len()
    &&& out.truncated == (all.len() > limit)
    &&& value_views(out.rows@) == first_of(all, limit)
}

/// Every metric of a group has a time.
proof fn group_is_timed(metrics: Seq<Metric>, chosen: Seq<MetricView>, m: MetricView)
    requires
        all_timed(metrics),
        chosen == value_views(metrics),
        chosen.contains(m),
    ensures
        m.timestamp matches Some(at) && at.valid(),
{
    let i = choose|i: int| 0 <= i < chosen.len() && chosen[i] == m;
    assert(metrics[i]@ == m);
}

/// Makes the rows of the metrics.
pub fn generic_series_data<F: Fn(Op) -> Number>(
    metrics: &Vec<Metric>,
    range: &SeriesRange,
    o: &SeriesOptions,
    compute: &F,
) -> (r: MetricRows)
    requires
        is_arithmetic(*compute),
        1 <= o.bucket <= 3600,
        valid_range(*range),
        all_timed(metrics@),
    ensures
        shown_rows(
            metric_rows(
                arithmetic(*compute),
                *range,
                o.bucket as int,
                value_views(metrics@),
            ),
            o.limit as nat,
            r,
        ),
{
    let bucket = o.bucket;
    let keys = keys_of(metrics, bucket);
    let ghost f = arithmetic(*compute);
    let ghost chosen = value_views(metrics@);
    let ghost key = series_key(bucket as int);
    let ghost names = distinct_sorted::<SeriesKey>(chosen.map_values(key));
    let ghost row = metric_row(f, *range, bucket as int, chosen);
    let ghost all = names.map_values(row);
    let groups = grouped(metrics.as_slice(), &keys, Ghost(key));
    let mut rows: Vec<MetricSeriesRow> = Vec::new();
    let mut g: usize = 0;
    assert(value_views(rows@) == all.take(0));
    while g < groups.len() && g < o.limit
        invariant
            g <= groups@.len(),
            g <= o.limit,
            is_arithmetic(*compute),
            1 <= bucket <= 3600,
            valid_range(*range),
            all_timed(metrics@),
            f == arithmetic(*compute),
            chosen == value_views(metrics@),
            key == series_key(bucket as int),
            names == distinct_sorted::<SeriesKey>(chosen.map_values(key)),
            row == metric_row(f, *range, bucket as int, chosen),
            all == names.map_values(row),
            groups@.len() == names.len(),
            forall|j: int|
                0 <= j < groups@.len() ==> ref_views((#[trigger] groups@[j])@) == with_key(
                    chosen,
                    key,
                    names[j],
                ) && groups@[j]@.len() > 0,
            value_views(rows@) == all.take(g as int),
        decreases groups.len() - g,
    {
        let ghost k = names[g as int];
        let group = &groups[g];
        proof {
            assert(ref_views(group@) == with_key(chosen, key, k));
            with_key_holds(chosen, key, k, 0);
            assert(ref_views(group@)[0] == group@[0]@);
            group_is_timed(metrics@, chosen, group@[0]@);
        }
        let ghost was = rows@;
        let made = make_row(group, range, bucket, compute, Ghost(chosen), Ghost(k));
        let ghost added = made@;
        rows.push(made);
        assert(value_views(rows@) == value_views(was).push(added));
        assert(all[g as int] == added);
        assert(all.take(g + 1) == all.take(g as int).push(all[g as int]));
        g += 1;
    }
    assert(all.len() == groups@.len());
    assert(value_views(rows@) == first_of(all, o.limit as nat));
    MetricRows { total_count: groups.len(), truncated: groups.len() > o.limit, rows }
}

/// The values of one node in one bucket.
#[derive(Debug)]
pub struct BucketRow {
    pub cpu_host_sampler: Vec<Number>,
    pub cpu_sysstat: Vec<Number>,
    pub cpu_other: Vec<Number>,
    pub memory: Vec<Number>,
    pub load: Vec<Number>,
    pub disk_util: Vec<Number>,
    pub disk_await: Vec<Number>,
    pub http_requests: Number,
    pub http_p95: Vec<Number>,
    pub http_errors: Number,
    pub db_calls: Number,
    pub db_time: Number,
}

impl Default for BucketRow {
    fn default() -> (r: BucketRow)
        ensures
            r.cpu_host_sampler@.len() == 0,
            r.cpu_sysstat@.len() == 0,
            r.cpu_other@.len() == 0,
            r.memory@.len() == 0,
            r.load@.len() == 0,
            r.disk_util@.len() == 0,
            r.disk_await@.len() == 0,
            r.http_requests == Number::zero_spec(),
            r.http_p95@.len() == 0,
            r.http_errors == Number::zero_spec(),
            r.db_calls == Number::zero_spec(),
            r.db_time == Number::zero_spec(),
    {
        BucketRow {
            cpu_host_sampler: Vec::new(),
            cpu_sysstat: Vec::new(),
            cpu_other: Vec::new(),
            memory: Vec::new(),
            load: Vec::new(),
            disk_util: Vec::new(),
            disk_await: Vec::new(),
            http_requests: Number::zero(),
            http_p95: Vec::new(),
            http_errors: Number::zero(),
            db_calls: Number::zero(),
            db_time: Number::zero(),
        }
    }
}

/// The value of a metric with this name.
pub open spec fn pick_named(name: Seq<char>) -> spec_fn(MetricView) -> Option<Number> {
    |m: MetricView|
        if m.name == name {
            Some(m.value)
        } else {
            None
        }
}

/// The processor share that a collector measured.
pub open spec fn pick_cpu(collector: Seq<char>) -> spec_fn(MetricView) -> Option<Number> {
    |m: MetricView|
        if m.name == "host.cpu_percent"@ && lookup(m.labels, "collector"@) == Some(collector) {
            Some(m.value)
        } else {
            None
        }
}

/// The processor share that another collector measured.
pub open spec fn pick_other_cpu() -> spec_fn(MetricView) -> Option<Number> {
    |m: MetricView|
        if m.name == "host.cpu_percent"@ && lookup(m.labels, "collector"@) != Some(
            "host-sampler"@,
        ) && lookup(m.labels, "collector"@) != Some("sysstat"@) {
            Some(m.value)
        } else {
            None
        }
}

pub open spec fn pick_memory(f: spec_fn(Op) -> Number) -> spec_fn(MetricView) -> Option<Number> {
    |m: MetricView|
        if m.name == "host.memory_used_bytes"@ {
            Some(f(Op::Divide(m.value, f(Op::Integer(1_048_576)))))
        } else {
            None
        }
}

pub open spec fn pick_p95() -> spec_fn(MetricView) -> Option<Number> {
    |m: MetricView|
        if m.name == "http.request_duration"@ && lookup(m.labels, "quantile"@) == Some("0.95"@) {
            Some(m.value)
        } else {
            None
        }
}

/// The sum of the values with this name, counted from zero.
pub open spec fn named_sum(f: spec_fn(Op) -> Number, own: Seq<MetricView>, name: Seq<char>) -> Number {
    total_from(f, Number::zero_spec(), picked(own, pick_named(name)))
}

/// What the metrics of one node in one bucket come to.
pub open spec fn bucket_row(f: spec_fn(Op) -> Number, own: Seq<MetricView>, row: BucketRow) -> bool {
    &&& row.cpu_host_sampler@ == picked(own, pick_cpu("host-sampler"@))
    &&& row.cpu_sysstat@ == picked(own, pick_cpu("sysstat"@))
    &&& row.cpu_other@ == picked(own, pick_other_cpu())
    &&& row.memory@ == picked(own, pick_memory(f))
    &&& row.load@ == picked(own, pick_named("host.load1"@))
    &&& row.disk_util@ == picked(own, pick_named("host.disk_util_percent"@))
    &&& row.disk_await@ == picked(own, pick_named("host.disk_await"@))
    &&& row.http_requests == named_sum(f, own, "http.requests"@)
    &&& row.http_p95@ == picked(own, pick_p95())
    &&& row.http_errors == named_sum(f, own, "http.errors"@)
    &&& row.db_calls == named_sum(f, own, "db.query.calls"@)
    &&& row.db_time == named_sum(f, own, "db.query.total_duration"@)
}

fn add_named<F: Fn(Op) -> Number>(
    sum_so_far: Number,
    metric: &Metric,
    name: &str,
    compute: &F,
    Ghost(own): Ghost<Seq<MetricView>>,
) -> (r: Number)
    requires
        is_arithmetic(*compute),
        sum_so_far == named_sum(arithmetic(*compute), own, name@),
    ensures
        r == named_sum(arithmetic(*compute), own.push(metric@), name@),
{
    assert(own.push(metric@).drop_last() == own);
    if same(metric.name.as_str(), name) {
        let ghost values = picked(own, pick_named(name@));
        assert(values.push(metric.value).drop_last() == values);
        apply(compute, Op::Add(sum_so_far, metric.value))
    } else {
        sum_so_far
    }
}

fn push_named(values: &mut Vec<Number>, metric: &Metric, name: &str, Ghost(own): Ghost<
    Seq<MetricView>,
>)
    requires
        old(values)@ == picked(own, pick_named(name@)),
    ensures
        final(values)@ == picked(own.push(metric@), pick_named(name@)),
{
    assert(own.push(metric@).drop_last() == own);
    if same(metric.name.as_str(), name) {
        values.push(metric.value);
    }
}

fn push_cpu(row: &mut BucketRow, metric: &Metric, Ghost(own): Ghost<Seq<MetricView>>)
    requires
        old(row).cpu_host_sampler@ == picked(own, pick_cpu("host-sampler"@)),
        old(row).cpu_sysstat@ == picked(own, pick_cpu("sysstat"@)),
        old(row).cpu_other@ == picked(own, pick_other_cpu()),
    ensures
        final(row).cpu_host_sampler@ == picked(own.push(metric@), pick_cpu("host-sampler"@)),
        final(row).cpu_sysstat@ == picked(own.push(metric@), pick_cpu("sysstat"@)),
        final(row).cpu_other@ == picked(own.push(metric@), pick_other_cpu()),
        *final(row) == (BucketRow {
            cpu_host_sampler: final(row).cpu_host_sampler,
            cpu_sysstat: final(row).cpu_sysstat,
            cpu_other: final(row).cpu_other,
            ..*old(row)
        }),
{
    proof {
        assert(own.push(metric@).drop_last() == own);
        reveal_strlit("host-sampler");
        reveal_strlit("sysstat");
        assert("host-sampler"@.len() != "sysstat"@.len());
    }
    if same(metric.name.as_str(), "host.cpu_percent") {
        if metric.labels.holds("collector", "host-sampler") {
            row.cpu_host_sampler.push(metric.value);
        } else if metric.labels.holds("collector", "sysstat") {
            row.cpu_sysstat.push(metric.value);
        } else {
            row.cpu_other.push(metric.value);
        }
    }
}

fn add_to_row<F: Fn(Op) -> Number>(
    row: BucketRow,
    metric: &Metric,
    compute: &F,
    Ghost(own): Ghost<Seq<MetricView>>,
) -> (r: BucketRow)
    requires
        is_arithmetic(*compute),
        bucket_row(arithmetic(*compute), own, row),
    ensures
        bucket_row(arithmetic(*compute), own.push(metric@), r),
{
    let mut row = row;
    assert(own.push(metric@).drop_last() == own);
    push_cpu(&mut row, metric, Ghost(own));
    if same(metric.name.as_str(), "host.memory_used_bytes") {
        let unit = apply(compute, Op::Integer(1_048_576));
        let size = apply(compute, Op::Divide(metric.value, unit));
        row.memory.push(size);
    }
    push_named(&mut row.load, metric, "host.load1", Ghost(own));
    push_named(&mut row.disk_util, metric, "host.disk_util_percent", Ghost(own));
    push_named(&mut row.disk_await, metric, "host.disk_await", Ghost(own));
    row.http_requests = add_named(row.http_requests, metric, "http.requests", compute, Ghost(own));
    row.http_errors = add_named(row.http_errors, metric, "http.errors", compute, Ghost(own));
    if same(metric.name.as_str(), "http.request_duration") && metric.labels.holds(
        "quantile",
        "0.95",
    ) {
        row.http_p95.push(metric.value);
    }
    row.db_calls = add_named(row.db_calls, metric, "db.query.calls", compute, Ghost(own));
    row.db_time = add_named(row.db_time, metric, "db.query.total_duration", compute, Ghost(own));
    row
}

/// The metrics of a node in a bucket.
pub open spec fn is_of(node: Seq<char>, at: int, bucket: int) -> spec_fn(MetricView) -> bool {
    |m: MetricView| node_of(m) == node && bucket_of(m, bucket) == at
}

fn fill_row<F: Fn(Op) -> Number>(
    metrics: &Vec<Metric>,
    node: &str,
    at: i64,
    bucket: u64,
    compute: &F,
) -> (r: BucketRow)
    requires
        is_arithmetic(*compute),
        1 <= bucket <= 3600,
        all_timed(metrics@),
    ensures
        bucket_row(
            arithmetic(*compute),
            value_views(metrics@).filter(is_of(node@, at as int, bucket as int)),
            r,
        ),
{
    let ghost f = arithmetic(*compute);
    let ghost all = value_views(metrics@);
    let ghost p = is_of(node@, at as int, bucket as int);
    let mut row: BucketRow = BucketRow {
        cpu_host_sampler: Vec::new(),
        cpu_sysstat: Vec::new(),
        cpu_other: Vec::new(),
        memory: Vec::new(),
        load: Vec::new(),
        disk_util: Vec::new(),
        disk_await: Vec::new(),
        http_requests: Number::zero(),
        http_p95: Vec::new(),
        http_errors: Number::zero(),
        db_calls: Number::zero(),
        db_time: Number::zero(),
    };
    let mut i: usize = 0;
    proof {
        reveal(Seq::filter);
        assert(all.take(0) == Seq::<MetricView>::empty());
        assert(all.take(0).filter(p) == Seq::<MetricView>::empty());
        assert(bucket_row(f, all.take(0).filter(p), row));
    }
    while i < metrics.len()
        invariant
            i <= metrics@.len(),
            is_arithmetic(*compute),
            1 <= bucket <= 3600,
            all_timed(metrics@),
            f == arithmetic(*compute),
            all == value_views(metrics@),
            p == is_of(node@, at as int, bucket as int),
            bucket_row(f, all.take(i as int).filter(p), row),
        decreases metrics.len() - i,
    {
        let metric = &metrics[i];
        proof {
            reveal(Seq::filter);
            assert(all[i as int] == metric@);
            assert(all.take(i + 1).drop_last() == all.take(i as int));
            assert(all.take(i + 1).last() == metric@);
        }
        if same(metric_node(metric).as_str(), node) && metric_bucket(metric, bucket) == at {
            row = add_to_row(row, metric, compute, Ghost(all.take(i as int).filter(p)));
        }
        i += 1;
    }
    assert(all.take(i as int) == all);
    row
}

/// The processor shares that count: those of the host sampler, or else of sysstat, or else others.
pub open spec fn preferred(row: BucketRow) -> Seq<Number> {
    if row.cpu_host_sampler@.len() > 0 {
        row.cpu_host_sampler@
    } else if row.cpu_sysstat@.len() > 0 {
        row.cpu_sysstat@
    } else {
        row.cpu_other@
    }
}

pub fn preferred_cpu(row: &BucketRow) -> (r: &[Number])
    ensures
        r@ == preferred(*row),
{
    if row.cpu_host_sampler.len() > 0 {
        row.cpu_host_sampler.as_slice()
    } else if row.cpu_sysstat.len() > 0 {
        row.cpu_sysstat.as_slice()
    } else {
        row.cpu_other.as_slice()
    }
}

pub open spec fn average_of(f: spec_fn(Op) -> Number, values: Seq<Number>) -> Option<Number> {
    if values.len() == 0 {
        None
    } else {
        Some(mean(f, values))
    }
}

pub open spec fn maximum_of(values: Seq<Number>) -> Option<Number> {
    if values.len() == 0 {
        None
    } else {
        Some(largest(values, values.len() as int))
    }
}

/// A sum of zero says something only where something related was observed.
pub open spec fn observed_of(value: Number, related: bool) -> Option<Number> {
    if !value.is_zero_spec() || related {
        Some(value)
    } else {
        None
    }
}

fn average_value<F: Fn(Op) -> Number>(values: &[Number], compute: &F) -> (r: Option<Number>)
    requires
        is_arithmetic(*compute),
    ensures
        r == average_of(arithmetic(*compute), values@),
{
    if values.len() == 0 {
        None
    } else {
        Some(average(values, compute))
    }
}

fn observed_sum(value: Number, related: bool) -> (r: Option<Number>)
    ensures
        r == observed_of(value, related),
{
    if !value.is_zero() || related {
        Some(value)
    } else {
        None
    }
}

/// What is shown of one node in one bucket.
#[derive(Clone, Debug)]
pub struct OverviewSeriesRow {
    pub node: String,
    pub from_seconds: i64,
    pub to_seconds: i64,
    pub cpu_percent_average: Option<Number>,
    pub cpu_percent_max: Option<Number>,
    pub memory_used_mib_average: Option<Number>,
    pub load1_max: Option<Number>,
    pub disk_util_percent_max: Option<Number>,
    pub disk_await_ms_max: Option<Number>,
    pub http_requests: Option<Number>,
    pub http_p95_ms_max_of_quantile: Option<Number>,
    pub http_errors: Option<Number>,
    pub db_calls: Option<Number>,
    pub db_total_duration_ms: Option<Number>,
}

/// The row of one node in the bucket that starts at `at`.
pub open spec fn overview_row(
    f: spec_fn(Op) -> Number,
    r: SeriesRange,
    bucket: int,
    chosen: Seq<MetricView>,
    node: Seq<char>,
    at: int,
    row: OverviewSeriesRow,
) -> bool {
    let own = chosen.filter(is_of(node, at, bucket));
    let duration = largest_int(seconds_between(r.start.nanos as int, r.end.nanos as int), 0);
    let host_sampler = picked(own, pick_cpu("host-sampler"@));
    let sysstat = picked(own, pick_cpu("sysstat"@));
    let cpu = if host_sampler.len() > 0 {
        host_sampler
    } else if sysstat.len() > 0 {
        sysstat
    } else {
        picked(own, pick_other_cpu())
    };
    let p95 = picked(own, pick_p95());
    let requests = named_sum(f, own, "http.requests"@);
    let errors = named_sum(f, own, "http.errors"@);
    let calls = named_sum(f, own, "db.query.calls"@);
    let time = named_sum(f, own, "db.query.total_duration"@);
    &&& row.node@ == node
    &&& row.from_seconds == row_from(r.start, at)
    &&& row.to_seconds == row_to(r.start, at, bucket, duration)
    &&& row.cpu_percent_average == average_of(f, cpu)
    &&& row.cpu_percent_max == maximum_of(cpu)
    &&& row.memory_used_mib_average == average_of(f, picked(own, pick_memory(f)))
    &&& row.load1_max == maximum_of(picked(own, pick_named("host.load1"@)))
    &&& row.disk_util_percent_max == maximum_of(
        picked(own, pick_named("host.disk_util_percent"@)),
    )
    &&& row.disk_await_ms_max == maximum_of(picked(own, pick_named("host.disk_await"@)))
    &&& row.http_requests == observed_of(requests, p95.len() > 0 || !errors.is_zero_spec())
    &&& row.http_p95_ms_max_of_quantile == maximum_of(p95)
    &&& row.http_errors == observed_of(errors, !requests.is_zero_spec())
    &&& row.db_calls == observed_of(calls, !time.is_zero_spec())
    &&& row.db_total_duration_ms == observed_of(time, !calls.is_zero_spec())
}

fn make_overview<F: Fn(Op) -> Number>(
    metrics: &Vec<Metric>,
    range: &SeriesRange,
    bucket: u64,
    node: &str,
    at: i64,
    compute: &F,
) -> (r: OverviewSeriesRow)
    requires
        is_arithmetic(*compute),
        1 <= bucket <= 3600,
        valid_range(*range),
        all_timed(metrics@),
        -1_000_000_000_100_000 <= at <= 1_000_000_000_000_000,
    ensures
        overview_row(
            arithmetic(*compute),
            *range,
            bucket as int,
            value_views(metrics@),
            node@,
            at as int,
            r,
        ),
{
    proof {
        seconds_are_few(range.start);
    }
    let row = fill_row(metrics, node, at, bucket, compute);
    let start = range.start.seconds();
    let whole = count_seconds(range.start, range.end);
    let duration: i64 = if whole >= 0 {
        whole
    } else {
        0
    };
    let cpu = preferred_cpu(&row);
    OverviewSeriesRow {
        node: node.to_owned(),
        from_seconds: edge(start, at),
        to_seconds: far_edge(start, at, bucket, duration),
        cpu_percent_average: average_value(cpu, compute),
        cpu_percent_max: maximum(cpu),
        memory_used_mib_average: average_value(row.memory.as_slice(), compute),
        load1_max: maximum(row.load.as_slice()),
        disk_util_percent_max: maximum(row.disk_util.as_slice()),
        disk_await_ms_max: maximum(row.disk_await.as_slice()),
        http_requests: observed_sum(
            row.http_requests,
            row.http_p95.len() > 0 || !row.http_errors.is_zero(),
        ),
        http_p95_ms_max_of_quantile: maximum(row.http_p95.as_slice()),
        http_errors: observed_sum(row.http_errors, !row.http_requests.is_zero()),
        db_calls: observed_sum(row.db_calls, !row.db_time.is_zero()),
        db_total_duration_ms: observed_sum(row.db_time, !row.db_calls.is_zero()),
    }
}

/// The starts of the buckets that are asked for.
pub open spec fn bucket_count(r: SeriesRange, bucket: int) -> nat {
    ((r.to.seconds_spec() - bucket_start(r.from.seconds_spec(), bucket)) / bucket + 1) as nat
}

pub open spec fn bucket_at(r: SeriesRange, bucket: int, i: int) -> int {
    bucket_start(r.from.seconds_spec(), bucket) + i * bucket
}

pub open spec fn metric_node_of() -> spec_fn(MetricView) -> Seq<char> {
    |m: MetricView| node_of(m)
}

/// A node that has a metric has a row for every bucket, and so the rows of all nodes are as many
/// as these numbers say. They go by node, then by time.
pub open spec fn overview_rows(
    f: spec_fn(Op) -> Number,
    r: SeriesRange,
    bucket: int,
    chosen: Seq<MetricView>,
    rows: Seq<OverviewSeriesRow>,
) -> bool {
    let nodes = distinct_sorted::<String>(chosen.map_values(metric_node_of()));
    let count = bucket_count(r, bucket);
    &&& rows.len() == nodes.len() * count
    &&& forall|i: int, j: int|
        0 <= i < nodes.len() && 0 <= j < count ==> overview_row(
            f,
            r,
            bucket,
            chosen,
            #[trigger] nodes[i],
            #[trigger] bucket_at(r, bucket, j),
            rows[i * count + j],
        )
}

fn nodes_of(metrics: &Vec<Metric>) -> (r: Vec<String>)
    ensures
        texts(r@) == distinct_sorted::<String>(
            value_views(metrics@).map_values(metric_node_of()),
        ),
{
    let mut list: Vec<String> = Vec::new();
    let ghost all = value_views(metrics@).map_values(metric_node_of());
    let mut i: usize = 0;
    assert(texts(list@) == all.take(0));
    while i < metrics.len()
        invariant
            i <= metrics@.len(),
            all == value_views(metrics@).map_values(metric_node_of()),
            texts(list@) == all.take(i as int),
        decreases metrics.len() - i,
    {
        let ghost was = list@;
        let node = metric_node(&metrics[i]);
        let ghost name = node@;
        assert(all[i as int] == name);
        list.push(node);
        assert(texts(list@) == texts(was).push(name));
        assert(all.take(i + 1) == all.take(i as int).push(all[i as int]));
        i += 1;
    }
    assert(all.take(i as int) == all);
    distinct_texts(&list)
}

/// The rows of one node.
spec fn node_rows(
    f: spec_fn(Op) -> Number,
    r: SeriesRange,
    bucket: int,
    chosen: Seq<MetricView>,
    node: Seq<char>,
    rows: Seq<OverviewSeriesRow>,
) -> bool {
    forall|j: int|
        0 <= j < rows.len() ==> overview_row(
            f,
            r,
            bucket,
            chosen,
            node,
            bucket_at(r, bucket, j),
            #[trigger] rows[j],
        )
}

fn rows_of_node<F: Fn(Op) -> Number>(
    metrics: &Vec<Metric>,
    range: &SeriesRange,
    bucket: u64,
    node: &str,
    compute: &F,
) -> (rows: Vec<OverviewSeriesRow>)
    requires
        is_arithmetic(*compute),
        1 <= bucket <= 3600,
        valid_range(*range),
        range.from.nanos <= range.to.nanos,
        all_timed(metrics@),
    ensures
        rows@.len() == bucket_count(*range, bucket as int),
        node_rows(
            arithmetic(*compute),
            *range,
            bucket as int,
            value_views(metrics@),
            node@,
            rows@,
        ),
{
    proof {
        seconds_are_few(range.from);
        seconds_are_few(range.to);
        assert(range.from.seconds_spec() <= range.to.seconds_spec());
    }
    let ghost f = arithmetic(*compute);
    let ghost b = bucket as int;
    let first = bucket_of_second(range.from.seconds(), bucket);
    let last = range.to.seconds();
    let mut rows: Vec<OverviewSeriesRow> = Vec::new();
    let mut at: i64 = first;
    assert(0 * b == 0);
    while at <= last
        invariant
            is_arithmetic(*compute),
            1 <= bucket <= 3600,
            b == bucket as int,
            f == arithmetic(*compute),
            valid_range(*range),
            all_timed(metrics@),
            first == bucket_start(range.from.seconds_spec(), b),
            last == range.to.seconds_spec(),
            -1_000_000_000_100_000 <= first <= at <= last + b,
            last <= 1_000_000_000_000_000,
            at == bucket_at(*range, b, rows@.len() as int),
            node_rows(f, *range, b, value_views(metrics@), node@, rows@),
        decreases last + b - at,
    {
        let row = make_overview(metrics, range, bucket, node, at, compute);
        let ghost n = rows@.len() as int;
        rows.push(row);
        assert((n + 1) * b == n * b + b) by (nonlinear_arith);
        at += bucket as i64;
    }
    proof {
        let n = rows@.len() as int;
        let span = last - first;
        assert(n * b > span);
        assert(n >= 1) by (nonlinear_arith)
            requires
                n * b > span,
                span >= 0,
                b >= 1,
                n >= 0,
        ;
        assert((n - 1) * b == n * b - b) by (nonlinear_arith);
        assert(span / b == n - 1) by (nonlinear_arith)
            requires
                n * b > span,
                (n - 1) * b == n * b - b,
                n * b - b <= span,
                b >= 1,
        ;
    }
    rows
}

/// Makes the rows of all nodes.
pub fn overview_data<F: Fn(Op) -> Number>(
    metrics: &Vec<Metric>,
    range: &SeriesRange,
    o: &SeriesOptions,
    compute: &F,
) -> (rows: Vec<OverviewSeriesRow>)
    requires
        is_arithmetic(*compute),
        1 <= o.bucket <= 3600,
        valid_range(*range),
        range.from.nanos <= range.to.nanos,
        all_timed(metrics@),
    ensures
        overview_rows(
            arithmetic(*compute),
            *range,
            o.bucket as int,
            value_views(metrics@),
            rows@,
        ),
{
    let ghost f = arithmetic(*compute);
    let ghost b = o.bucket as int;
    let ghost chosen = value_views(metrics@);
    let nodes = nodes_of(metrics);
    let ghost names = texts(nodes@);
    let ghost count = bucket_count(*range, b);
    let mut rows: Vec<OverviewSeriesRow> = Vec::new();
    let mut n: usize = 0;
    assert(0 * count == 0);
    while n < nodes.len()
        invariant
            n <= nodes@.len(),
            is_arithmetic(*compute),
            1 <= o.bucket <= 3600,
            valid_range(*range),
            range.from.nanos <= range.to.nanos,
            all_timed(metrics@),
            f == arithmetic(*compute),
            b == o.bucket as int,
            chosen == value_views(metrics@),
            names == texts(nodes@),
            count == bucket_count(*range, b),
            rows@.len() == n * count,
            forall|i: int, j: int|
                0 <= i < n && 0 <= j < count ==> overview_row(
                    f,
                    *range,
                    b,
                    chosen,
                    #[trigger] names[i],
                    #[trigger] bucket_at(*range, b, j),
                    rows@[i * count + j],
                ),
        decreases nodes.len() - n,
    {
        let ghost before = rows@;
        let mut own = rows_of_node(metrics, range, o.bucket, nodes[n].as_str(), compute);
        let ghost added = own@;
        rows.append(&mut own);
        proof {
            assert((n + 1) * count == n * count + count) by (nonlinear_arith);
            assert(rows@ == before + added);
            assert(names[n as int] == nodes@[n as int]@);
            assert forall|i: int, j: int| 0 <= i < n + 1 && 0 <= j < count implies overview_row(
                f,
                *range,
                b,
                chosen,
                #[trigger] names[i],
                #[trigger] bucket_at(*range, b, j),
                rows@[i * count + j],
            ) by {
                if i < n {
                    assert(i * count + j < n * count && 0 <= i * count) by (nonlinear_arith)
                        requires
                            0 <= i < n,
                            0 <= j < count,
                    ;
                    assert(rows@[i * count + j] == before[i * count + j]);
                } else {
                    assert(rows@[n * count + j] == added[j]);
                }
            }
        }
        n += 1;
    }
    rows
}

/// What is said of a collector whose metrics have times.
#[derive(Clone, Debug)]
pub struct SeriesCoverage {
    pub collector: String,
    pub node: String,
    pub phase: String,
    pub status: String,
    pub exit_code: Option<i32>,
    pub error: Option<String>,
}

#[verifier::ext_equal]
pub struct SeriesCoverageView {
    pub collector: Seq<char>,
    pub node: Seq<char>,
    pub phase: Seq<char>,
    pub status: Seq<char>,
    pub exit_code: Option<i32>,
    pub error: Option<Seq<char>>,
}

impl View for SeriesCoverage {
    type V = SeriesCoverageView;

    open spec fn view(&self) -> SeriesCoverageView {
        SeriesCoverageView {
            collector: self.collector@,
            node: self.node@,
            phase: self.phase@,
            status: self.status@,
            exit_code: self.exit_code,
            error: text_option(self.error),
        }
    }
}

pub open spec fn gives_series(name: Seq<char>) -> bool {
    name == "host-sampler"@ || name == "sysstat"@ || name == "nginx-log-delta"@ || name
        == "nginx-series"@ || name == "mysql-log-delta"@ || name == "perf-series"@
}

pub open spec fn pick_coverage() -> spec_fn(ResultView) -> Option<SeriesCoverageView> {
    |c: ResultView|
        if gives_series(c.name) {
            Some(
                SeriesCoverageView {
                    collector: c.name,
                    node: match c.node {
                        Some(node) => node,
                        None => "local"@,
                    },
                    phase: c.phase,
                    status: c.status,
                    exit_code: c.exit_code,
                    error: c.error,
                },
            )
        } else {
            None
        }
}

/// Tells how the collectors fared whose metrics have times.
pub fn series_coverage(collectors: &Vec<CollectorResult>) -> (r: Vec<SeriesCoverage>)
    ensures
        value_views(r@) == picked(value_views(collectors@), pick_coverage()),
{
    let ghost all = value_views(collectors@);
    let mut out: Vec<SeriesCoverage> = Vec::new();
    let mut i: usize = 0;
    assert(all.take(0) == Seq::<ResultView>::empty());
    assert(value_views(out@) == picked(all.take(0), pick_coverage()));
    while i < collectors.len()
        invariant
            i <= collectors@.len(),
            all == value_views(collectors@),
            value_views(out@) == picked(all.take(i as int), pick_coverage()),
        decreases collectors.len() - i,
    {
        let c = &collectors[i];
        assert(all[i as int] == c@);
        assert(all.take(i + 1).drop_last() == all.take(i as int));
        assert(all.take(i + 1).last() == c@);
        let name = c.name.as_str();
        if same(name, "host-sampler") || same(name, "sysstat") || same(name, "nginx-log-delta")
            || same(name, "nginx-series") || same(name, "mysql-log-delta") || same(
            name,
            "perf-series",
        ) {
            let ghost was = out@;
            let row = SeriesCoverage {
                collector: c.name.clone(),
                node: match &c.node {
                    Some(node) => node.clone(),
                    None => "local".to_owned(),
                },
                phase: c.phase.clone(),
                status: c.status.clone(),
                exit_code: c.exit_code,
                error: match &c.error {
                    Some(error) => Some(error.clone()),
                    None => None,
                },
            };
            let ghost added = row@;
            out.push(row);
            assert(value_views(out@) == value_views(was).push(added));
        }
        i += 1;
    }
    assert(all.take(i as int) == all);
    out
}

/// The rows of a series: by metric where metrics are named, and otherwise an overview.
#[derive(Debug)]
pub enum SeriesData {
    Overview(Vec<OverviewSeriesRow>),
    Metrics(MetricRows),
}

/// A series with what it was asked for.
#[derive(Debug)]
pub struct SeriesOutput {
    pub schema_version: u32,
    pub run_id: String,
    pub started_at: String,
    pub finished_at: String,
    pub window_started_at: String,
    pub window_finished_at: String,
    pub from_seconds: i64,
    pub to_seconds: i64,
    pub bucket_seconds: u64,
    pub coverage: Vec<SeriesCoverage>,
    pub data: SeriesData,
}

pub open spec fn series_of(
    f: spec_fn(Op) -> Number,
    m: RunManifest,
    metrics: Seq<MetricView>,
    o: SeriesOptions,
    out: SeriesOutput,
) -> bool {
    let r = range_of(m, o);
    let chosen = metrics.filter(is_asked(o, r));
    &&& out.schema_version == 1
    &&& out.run_id@ == m.id@
    &&& out.started_at@ == rfc3339(r.start.nanos as int)
    &&& out.finished_at@ == rfc3339(r.end.nanos as int)
    &&& out.window_started_at@ == rfc3339(r.from.nanos as int)
    &&& out.window_finished_at@ == rfc3339(r.to.nanos as int)
    &&& out.from_seconds == seconds_between(r.start.nanos as int, r.from.nanos as int)
    &&& out.to_seconds == seconds_between(r.start.nanos as int, r.to.nanos as int)
    &&& out.bucket_seconds == o.bucket
    &&& value_views(out.coverage@) == picked(value_views(m.collectors@), pick_coverage())
    &&& if o.metrics@.len() > 0 {
        out.data matches SeriesData::Metrics(rows) && shown_rows(
            metric_rows(f, r, o.bucket as int, chosen),
            o.limit as nat,
            rows,
        )
    } else {
        out.data matches SeriesData::Overview(rows) && overview_rows(
            f,
            r,
            o.bucket as int,
            chosen,
            rows@,
        )
    }
}

/// Makes the series of a run.
pub fn show_series<F: Fn(Op) -> Number>(
    m: &RunManifest,
    metrics: Vec<Metric>,
    o: &SeriesOptions,
    compute: &F,
) -> (r: SeriesOutput)
    requires
        is_arithmetic(*compute),
        dated(*m),
        countable(*m, *o),
        timed_well(metrics@),
    ensures
        series_of(arithmetic(*compute), *m, value_views(metrics@), *o, r),
{
    let range = series_range(m, o);
    let chosen = asked_metrics(metrics, o, &range);
    let data = if o.metrics.len() > 0 {
        SeriesData::Metrics(generic_series_data(&chosen, &range, o, compute))
    } else {
        SeriesData::Overview(overview_data(&chosen, &range, o, compute))
    };
    SeriesOutput {
        schema_version: 1,
        run_id: m.id.clone(),
        started_at: to_rfc3339(range.start),
        finished_at: to_rfc3339(range.end),
        window_started_at: to_rfc3339(range.from),
        window_finished_at: to_rfc3339(range.to),
        from_seconds: count_seconds(range.start, range.from),
        to_seconds: count_seconds(range.start, range.to),
        bucket_seconds: o.bucket,
        coverage: series_coverage(&m.collectors),
        data,
    }
}

/// Every metric that is asked for lies in one of the buckets that are shown.
pub proof fn no_asked_metric_is_lost(o: SeriesOptions, r: SeriesRange, m: MetricView)
    requires
        1 <= o.bucket <= 3600,
        is_asked(o, r)(m),
    ensures
        exists|i: int|
            0 <= i < bucket_count(r, o.bucket as int) && #[trigger] bucket_at(
                r,
                o.bucket as int,
                i,
            ) == bucket_of(m, o.bucket as int),
{
    let b = o.bucket as int;
    let at = m.timestamp->0.seconds_spec();
    let from = r.from.seconds_spec();
    let to = r.to.seconds_spec();
    let first = bucket_start(from, b);
    let own = bucket_start(at, b);
    assert(at <= to);
    assert(first <= at);
    let i = (own - first) / b;
    let q = from / b;
    let p = at / b;
    assert(first == b * q) by {
        vstd::arithmetic::div_mod::lemma_fundamental_div_mod(from, b);
    }
    assert(own == b * p) by {
        vstd::arithmetic::div_mod::lemma_fundamental_div_mod(at, b);
    }
    assert(own - first == b * (p - q)) by (nonlinear_arith)
        requires
            first == b * q,
            own == b * p,
    ;
    assert(p >= q) by (nonlinear_arith)
        requires
            b * q <= at,
            at < b * p + b,
            b >= 1,
    {
        assert(b * (p + 1) > b * q);
    }
    assert(i == p - q) by {
        vstd::arithmetic::div_mod::lemma_div_multiples_vanish(p - q, b);
    }
    assert(i * b == own - first) by (nonlinear_arith)
        requires
            i == p - q,
            own - first == b * (p - q),
    ;
    assert(bucket_at(r, b, i) == own);
    assert(i <= (to - first) / b) by {
        vstd::arithmetic::div_mod::lemma_div_is_ordered(own - first, to - first, b);
    }
}

} // verus!
