//! What the rows of a series tell of the metrics of a run.
use crate::brief_laws::the_largest_is_not_exceeded;
use crate::join::{value_views, with_key, with_key_contains, with_key_holds};
use crate::labels::{lookup, without_label, Pair};
use crate::model::{MetricView, RunManifest};
use crate::number::{largest, total, total_from, Number, Op};
use crate::order::{distinct_sorted, distinct_sorted_holds};
use crate::order_laws::{
    choosing_twice, keyed_items, sorted_groups_weigh_alike, weight, weights_agree,
};
use crate::protocol::picked;
use crate::series::{
    bucket_at, bucket_count, bucket_start, countable, dated, is_asked, is_of, maximum_of,
    metric_node_of, metric_row, metric_rows, overview_row, overview_rows, pick_cpu, pick_memory,
    pick_named, pick_other_cpu, pick_p95, range_of, series_key, series_of, shown_rows, values_of,
    MetricSeriesRow, MetricSeriesView, OverviewSeriesRow, SeriesAggregation, SeriesData, SeriesKey,
    SeriesKeyModel, SeriesOptions, SeriesOutput, SeriesRange,
};
use crate::text::texts;
use vstd::prelude::*;

verus! {

/// The first and the last nanosecond that a series is asked for, counted from the start of the
/// benchmark and cut at its end.
pub open spec fn asked_span(m: RunManifest, o: SeriesOptions) -> (int, int) {
    let start: int = match m.benchmark.started_at {
        Some(at) => at.nanos as int,
        None => m.started_at.nanos as int,
    };
    let end: int = if m.benchmark.finished_at is Some {
        m.benchmark.finished_at->0.nanos as int
    } else if m.finished_at is Some {
        m.finished_at->0.nanos as int
    } else {
        start
    };
    let last: int = match o.to {
        Some(seconds) => if start + seconds * 1_000_000_000 < end {
            start + seconds * 1_000_000_000
        } else {
            end
        },
        None => end,
    };
    let first: int = if start + o.from * 1_000_000_000 < last {
        start + o.from * 1_000_000_000
    } else {
        last
    };
    (first, last)
}

/// A series is asked for a metric: by its name, its node, its labels, and a time that lies in the
/// span or in the bucket that the span begins in.
pub open spec fn asked_for(m: RunManifest, o: SeriesOptions, x: MetricView) -> bool {
    let (first, last) = asked_span(m, o);
    &&& o.metrics@.len() == 0 || exists|i: int|
        0 <= i < o.metrics@.len() && (#[trigger] o.metrics@[i])@ == x.name
    &&& o.node matches Some(node) ==> lookup(x.labels, "node"@) == Some(node@)
    &&& forall|i: int|
        0 <= i < o.labels@.len() ==> lookup(x.labels, (#[trigger] o.labels@[i]).0@) == Some(
            o.labels@[i].1@,
        )
    &&& x.timestamp matches Some(at) && at.nanos <= last && at.nanos as int / 1_000_000_000
        - first / 1_000_000_000 >= -((first / 1_000_000_000) % (o.bucket as int))
}

proof fn asking_is_asking(m: RunManifest, o: SeriesOptions, x: MetricView)
    requires
        dated(m),
        countable(m, o),
    ensures
        is_asked(o, range_of(m, o))(x) == asked_for(m, o, x),
{
    if o.metrics@.len() > 0 {
        let names = texts(o.metrics@);
        if names.contains(x.name) {
            let i = choose|i: int| 0 <= i < names.len() && names[i] == x.name;
            assert(o.metrics@[i]@ == x.name);
        }
        if exists|i: int| 0 <= i < o.metrics@.len() && (#[trigger] o.metrics@[i])@ == x.name {
            let i = choose|i: int| 0 <= i < o.metrics@.len() && (#[trigger] o.metrics@[i])@ == x.name;
            assert(names[i] == x.name);
        }
    }
}

/// A metric belongs to a row whose bucket begins at the second `at`: it is asked for, its name, its
/// unit, its node and its other labels are those of the row, and its time lies in the bucket.
pub open spec fn in_row(
    m: RunManifest,
    o: SeriesOptions,
    row: MetricSeriesView,
    at: int,
) -> spec_fn(MetricView) -> bool {
    |x: MetricView|
        {
            &&& asked_for(m, o, x)
            &&& x.name == row.metric
            &&& x.unit == row.unit
            &&& row.node == match lookup(x.labels, "node"@) {
                Some(node) => node,
                None => "local"@,
            }
            &&& x.labels.filter(|p: Pair| p.0 != "node"@) == row.labels
            &&& at <= x.timestamp->0.nanos as int / 1_000_000_000 < at + o.bucket
        }
}

/// The names of the counters and the total times: their values add up.
pub open spec fn adds_up(name: Seq<char>) -> bool {
    ||| name == "http.requests"@
    ||| name == "http.errors"@
    ||| name == "http.response_bytes"@
    ||| name == "http.connection_reused_requests"@
    ||| name == "db.query.calls"@
    ||| name == "db.query.total_duration"@
    ||| name == "cpu.sample_count"@
}

/// The seconds of a bucket that begins at the second `at`, counted from the start of the benchmark: from
/// its beginning, though not before the start, to its end, though not after what is asked for, which
/// counts as one second at least.
pub open spec fn is_span(m: RunManifest, o: SeriesOptions, at: int, from: int, to: int) -> bool {
    let start: int = match m.benchmark.started_at {
        Some(moment) => moment.nanos as int,
        None => m.started_at.nanos as int,
    };
    let last = asked_span(m, o).1;
    let asked = if last >= start {
        (last - start) / 1_000_000_000
    } else {
        0
    };
    let first = at - start / 1_000_000_000;
    &&& from == if first > 0 {
        first
    } else {
        0
    }
    &&& to == if asked >= 1 {
        if first + o.bucket < asked {
            first + o.bucket
        } else {
            asked
        }
    } else {
        if first + o.bucket < 1 {
            first + o.bucket
        } else {
            1
        }
    }
}

/// What a row says of the values of its bucket. A quantile is the largest of them, a counter or a
/// total time their sum, and everything else their average.
pub open spec fn row_value(
    f: spec_fn(Op) -> Number,
    row: MetricSeriesView,
    values: Seq<Number>,
) -> bool {
    if lookup(row.labels, "quantile"@) is Some {
        &&& row.aggregation == SeriesAggregation::MaxOfQuantile
        &&& values.contains(row.value)
        &&& forall|i: int| 0 <= i < values.len() ==> !(#[trigger] values[i]).exceeds(row.value)
    } else if adds_up(row.metric) {
        &&& row.aggregation == SeriesAggregation::Sum
        &&& row.value == total(f, values)
    } else {
        &&& row.aggregation == SeriesAggregation::Average
        &&& row.value == f(Op::Divide(total(f, values), f(Op::Integer(values.len() as i64))))
    }
}

proof fn bucket_holds(second: int, bucket: int, at: int)
    requires
        bucket >= 1,
        at % bucket == 0,
    ensures
        (second - second % bucket == at) == (at <= second < at + bucket),
{
    vstd::arithmetic::div_mod::lemma_fundamental_div_mod(second, bucket);
    vstd::arithmetic::div_mod::lemma_fundamental_div_mod(at, bucket);
    let q = second / bucket;
    let a = at / bucket;
    assert(0 <= second % bucket < bucket) by (nonlinear_arith)
        requires
            bucket >= 1,
    ;
    if at <= second < at + bucket {
        assert(q == a) by (nonlinear_arith)
            requires
                bucket >= 1,
                bucket * a <= second < bucket * a + bucket,
                bucket * q <= second < bucket * q + bucket,
        ;
    }
}

proof fn bucket_is_whole(second: int, bucket: int)
    requires
        bucket >= 1,
    ensures
        (second - second % bucket) % bucket == 0,
{
    vstd::arithmetic::div_mod::lemma_fundamental_div_mod(second, bucket);
    vstd::arithmetic::div_mod::lemma_mod_multiples_basic(second / bucket, bucket);
    assert(bucket * (second / bucket) == (second / bucket) * bucket) by (nonlinear_arith);
}

/// The metrics of a row, however they are chosen.
proof fn row_metrics(
    f: spec_fn(Op) -> Number,
    m: RunManifest,
    metrics: Seq<MetricView>,
    o: SeriesOptions,
    i: int,
) -> (at: int)
    requires
        dated(m),
        countable(m, o),
        0 <= i < metric_rows(
            f,
            range_of(m, o),
            o.bucket as int,
            metrics.filter(is_asked(o, range_of(m, o))),
        ).len(),
    ensures
        ({
            let chosen = metrics.filter(is_asked(o, range_of(m, o)));
            let row = metric_rows(f, range_of(m, o), o.bucket as int, chosen)[i];
            let own = metrics.filter(in_row(m, o, row, at));
            &&& at % (o.bucket as int) == 0
            &&& own.len() > 0
            &&& row_value(f, row, own.map_values(|x: MetricView| x.value))
            &&& is_span(m, o, at, row.from_seconds, row.to_seconds)
        }),
{
    let r = range_of(m, o);
    let bucket = o.bucket as int;
    let chosen = metrics.filter(is_asked(o, r));
    let keys = chosen.map_values(series_key(bucket));
    let names = distinct_sorted::<SeriesKey>(keys);
    let k = names[i];
    let row = metric_rows(f, r, bucket, chosen)[i];
    assert(row == metric_row(f, r, bucket, chosen)(k));
    let at = k.0.0.1;
    distinct_sorted_holds::<SeriesKey>(keys);
    assert(names.contains(k));
    let n = choose|n: int| 0 <= n < keys.len() && keys[n] == k;
    with_key_contains(chosen, series_key(bucket), n);
    bucket_is_whole(chosen[n].timestamp->0.seconds_spec(), bucket);
    let key = series_key(bucket);
    let keyed = |x: MetricView| key(x) == k;
    let own = in_row(m, o, row, at);
    assert forall|j: int| 0 <= j < metrics.len() implies own(#[trigger] metrics[j]) == (is_asked(
        o,
        r,
    )(metrics[j]) && keyed(metrics[j])) by {
        let x = metrics[j];
        asking_is_asking(m, o, x);
        if asked_for(m, o, x) {
            bucket_holds(x.timestamp->0.seconds_spec(), bucket, at);
            assert(x.labels.filter(|p: Pair| p.0 != "node"@) == without_label(x.labels, "node"@));
        }
    }
    choosing_twice(metrics, is_asked(o, r), keyed, own);
    keyed_items(chosen, key, k, keyed);
    let members = metrics.filter(own);
    assert(with_key(chosen, key, k) == members);
    let values = members.map_values(|x: MetricView| x.value);
    assert(values == values_of(members));
    if lookup(row.labels, "quantile"@) is Some {
        the_largest_is_not_exceeded(values, values.len() as int);
    }
    at
}

/// Every row of a series of metrics is made of the metrics of one bucket: those of its name, unit,
/// node and labels whose time lies there and that are asked for, all of them and no others. Their
/// quantiles come to the largest, their counts and total times to the sum, and other values to the
/// average.
pub proof fn rows_tell_of_their_bucket(
    f: spec_fn(Op) -> Number,
    m: RunManifest,
    metrics: Seq<MetricView>,
    o: SeriesOptions,
    out: SeriesOutput,
    i: int,
)
    requires
        dated(m),
        countable(m, o),
        o.metrics@.len() > 0,
        series_of(f, m, metrics, o, out),
        out.data matches SeriesData::Metrics(rows) && 0 <= i < rows.rows@.len(),
    ensures
        out.data matches SeriesData::Metrics(rows) && {
            let row = rows.rows@[i]@;
            exists|at: int|
                {
                    let own = metrics.filter(#[trigger] in_row(m, o, row, at));
                    &&& at % (o.bucket as int) == 0
                    &&& is_span(m, o, at, row.from_seconds, row.to_seconds)
                    &&& own.len() > 0
                    &&& row_value(f, row, own.map_values(|x: MetricView| x.value))
                }
        },
{
    let rows = out.data->Metrics_0;
    let chosen = metrics.filter(is_asked(o, range_of(m, o)));
    let all = metric_rows(f, range_of(m, o), o.bucket as int, chosen);
    assert(shown_rows(all, o.limit as nat, rows));
    assert(value_views(rows.rows@)[i] == rows.rows@[i]@);
    assert(value_views(rows.rows@).len() == rows.rows@.len());
    assert(crate::enrichment::first_of(all, o.limit as nat)[i] == rows.rows@[i]@);
    assert(all[i] == rows.rows@[i]@);
    let at = row_metrics(f, m, metrics, o, i);
    let row = rows.rows@[i]@;
    let own = metrics.filter(in_row(m, o, row, at));
    assert(row_value(f, row, own.map_values(|x: MetricView| x.value)));
}

/// `f` adds exactly, where numbers mean what `v` says.
pub open spec fn adds_exactly(f: spec_fn(Op) -> Number, v: spec_fn(Number) -> int) -> bool {
    &&& forall|a: Number, b: Number| #[trigger] v(f(Op::Add(a, b))) == v(a) + v(b)
    &&& v(Number { bits: 0x8000_0000_0000_0000 }) == 0
    &&& v(Number { bits: 0 }) == 0
}

/// With exact addition the sum of some values means the sum of what they mean.
pub proof fn sums_are_sums(
    f: spec_fn(Op) -> Number,
    v: spec_fn(Number) -> int,
    start: Number,
    values: Seq<Number>,
)
    requires
        adds_exactly(f, v),
    ensures
        v(total_from(f, start, values)) == v(start) + weight(values, v),
    decreases values.len(),
{
    if values.len() > 0 {
        sums_are_sums(f, v, start, values.drop_last());
    }
}

proof fn values_weigh(metrics: Seq<MetricView>, v: spec_fn(Number) -> int)
    ensures
        weight(values_of(metrics), v) == weight(metrics, |x: MetricView| v(x.value)),
    decreases metrics.len(),
{
    if metrics.len() > 0 {
        values_weigh(metrics.drop_last(), v);
        assert(values_of(metrics).drop_last() == values_of(metrics.drop_last()));
        assert(values_of(metrics).last() == metrics.last().value);
    }
}

proof fn weights_of_chosen<T>(
    items: Seq<T>,
    p: spec_fn(T) -> bool,
    w: spec_fn(T) -> int,
    both: spec_fn(T) -> int,
)
    requires
        forall|i: int|
            0 <= i < items.len() ==> both(#[trigger] items[i]) == if p(items[i]) {
                w(items[i])
            } else {
                0
            },
    ensures
        weight(items.filter(p), w) == weight(items, both),
    decreases items.len(),
{
    reveal(Seq::filter);
    if items.len() > 0 {
        let rest = items.drop_last();
        assert forall|i: int| 0 <= i < rest.len() implies both(#[trigger] rest[i]) == if p(
            rest[i],
        ) {
            w(rest[i])
        } else {
            0
        } by {
            assert(rest[i] == items[i]);
        }
        weights_of_chosen(rest, p, w, both);
        assert(items[items.len() - 1] == items.last());
        if p(items.last()) {
            assert(items.filter(p) == rest.filter(p).push(items.last()));
            assert(rest.filter(p).push(items.last()).drop_last() == rest.filter(p));
        }
    }
}

/// No request is lost and none is counted twice: the rows of a counter, over all buckets, nodes and
/// labels, add up to all its asked samples.
pub proof fn counters_add_up(
    f: spec_fn(Op) -> Number,
    v: spec_fn(Number) -> int,
    m: RunManifest,
    metrics: Seq<MetricView>,
    o: SeriesOptions,
    out: SeriesOutput,
    name: Seq<char>,
)
    requires
        dated(m),
        countable(m, o),
        o.metrics@.len() > 0,
        series_of(f, m, metrics, o, out),
        adds_exactly(f, v),
        adds_up(name),
        forall|i: int|
            0 <= i < metrics.len() && (#[trigger] metrics[i]).name == name ==> lookup(
                metrics[i].labels.filter(|p: Pair| p.0 != "node"@),
                "quantile"@,
            ) is None,
        out.data matches SeriesData::Metrics(rows) && !rows.truncated,
    ensures
        out.data matches SeriesData::Metrics(rows) && weight(
            rows.rows@,
            |row: MetricSeriesRow|
                if row.metric@ == name {
                    v(row.value)
                } else {
                    0
                },
        ) == weight(
            metrics,
            |x: MetricView|
                if asked_for(m, o, x) && x.name == name {
                    v(x.value)
                } else {
                    0
                },
        ),
{
    let rows = out.data->Metrics_0;
    let r = range_of(m, o);
    let bucket = o.bucket as int;
    let key = series_key(bucket);
    let chosen = metrics.filter(is_asked(o, r));
    let names = distinct_sorted::<SeriesKey>(chosen.map_values(key));
    let all = metric_rows(f, r, bucket, chosen);
    assert(shown_rows(all, o.limit as nat, rows));
    let w = |x: MetricView|
        if x.name == name {
            v(x.value)
        } else {
            0
        };
    sorted_groups_weigh_alike::<MetricView, SeriesKey>(chosen, key, w);
    let by_group = |k: SeriesKeyModel| weight(with_key(chosen, key, k), w);
    let by_row = |row: MetricSeriesRow|
        if row.metric@ == name {
            v(row.value)
        } else {
            0
        };
    let by_name = |k: SeriesKeyModel|
        {
            let row = metric_row(f, r, bucket, chosen)(k);
            if row.metric == name {
                v(row.value)
            } else {
                0
            }
        };
    assert forall|i: int| 0 <= i < names.len() implies by_group(#[trigger] names[i]) == by_name(
        names[i],
    ) by {
        let k = names[i];
        let own = with_key(chosen, key, k);
        distinct_sorted_holds::<SeriesKey>(chosen.map_values(key));
        assert(names.contains(k));
        let keys = chosen.map_values(key);
        let n = choose|n: int| 0 <= n < keys.len() && keys[n] == k;
        metrics.lemma_filter_pred(is_asked(o, r), n);
        assert(chosen.contains(chosen[n]));
        metrics.lemma_filter_contains_rev(is_asked(o, r), chosen[n]);
        let q = choose|q: int| 0 <= q < metrics.len() && metrics[q] == chosen[n];
        assert(metrics[q].name == k.0.1.0);
        assert forall|j: int| 0 <= j < own.len() implies (#[trigger] own[j]).name == k.0.1.0 by {
            with_key_holds(chosen, key, k, j);
        }
        if k.0.1.0 == name {
            assert(k.1 == without_label(metrics[q].labels, "node"@));
            assert(metrics[q].labels.filter(|p: Pair| p.0 != "node"@) == k.1);
            weights_agree(own, w, |x: MetricView| v(x.value));
            values_weigh(own, v);
            sums_are_sums(f, v, Number { bits: 0x8000_0000_0000_0000 }, values_of(own));
        } else {
            weights_agree(own, w, |x: MetricView| 0);
            nothing_weighs_nothing(own);
        }
    }
    weights_agree(names, by_group, by_name);
    assert(value_views(rows.rows@) == all);
    assert forall|i: int| 0 <= i < names.len() implies by_name(#[trigger] names[i]) == by_row(
        rows.rows@[i],
    ) by {
        assert(value_views(rows.rows@)[i] == rows.rows@[i]@);
        assert(all[i] == metric_row(f, r, bucket, chosen)(names[i]));
    }
    weights_through(names, rows.rows@, by_name, by_row);
    let asked = |x: MetricView|
        if asked_for(m, o, x) && x.name == name {
            v(x.value)
        } else {
            0
        };
    assert forall|i: int| 0 <= i < metrics.len() implies asked(#[trigger] metrics[i]) == if is_asked(
        o,
        r,
    )(metrics[i]) {
        w(metrics[i])
    } else {
        0
    } by {
        asking_is_asking(m, o, metrics[i]);
    }
    weights_of_chosen(metrics, is_asked(o, r), w, asked);
}

proof fn nothing_weighs_nothing<T>(items: Seq<T>)
    ensures
        weight(items, |x: T| 0) == 0,
    decreases items.len(),
{
    if items.len() > 0 {
        nothing_weighs_nothing(items.drop_last());
    }
}

proof fn weights_through(
    names: Seq<SeriesKeyModel>,
    rows: Seq<MetricSeriesRow>,
    by_name: spec_fn(SeriesKeyModel) -> int,
    by_row: spec_fn(MetricSeriesRow) -> int,
)
    requires
        names.len() == rows.len(),
        forall|i: int| 0 <= i < names.len() ==> by_name(#[trigger] names[i]) == by_row(rows[i]),
    ensures
        weight(names, by_name) == weight(rows, by_row),
    decreases names.len(),
{
    if names.len() > 0 {
        assert forall|i: int| 0 <= i < names.drop_last().len() implies by_name(
            #[trigger] names.drop_last()[i],
        ) == by_row(rows.drop_last()[i]) by {
            assert(names.drop_last()[i] == names[i]);
        }
        weights_through(names.drop_last(), rows.drop_last(), by_name, by_row);
        assert(by_name(names[names.len() - 1]) == by_row(rows[rows.len() - 1]));
    }
}

/// The metrics of one node in the bucket that begins at the second `at`.
pub open spec fn on_node(m: RunManifest, o: SeriesOptions, node: Seq<char>, at: int) -> spec_fn(
    MetricView,
) -> bool {
    |x: MetricView|
        {
            &&& asked_for(m, o, x)
            &&& node == match lookup(x.labels, "node"@) {
                Some(name) => name,
                None => "local"@,
            }
            &&& at <= x.timestamp->0.nanos as int / 1_000_000_000 < at + o.bucket
        }
}

/// The values of one kind among some metrics.
pub open spec fn values_where(metrics: Seq<MetricView>, kind: spec_fn(MetricView) -> bool) -> Seq<
    Number,
> {
    metrics.filter(kind).map_values(|x: MetricView| x.value)
}

/// Metrics with this name.
pub open spec fn with_name(name: Seq<char>) -> spec_fn(MetricView) -> bool {
    |x: MetricView| x.name == name
}

proof fn picking_is_choosing(
    metrics: Seq<MetricView>,
    pick: spec_fn(MetricView) -> Option<Number>,
    kind: spec_fn(MetricView) -> bool,
)
    requires
        forall|x: MetricView| #[trigger]
            pick(x) == if kind(x) {
                Some(x.value)
            } else {
                None
            },
    ensures
        picked(metrics, pick) == values_where(metrics, kind),
    decreases metrics.len(),
{
    reveal(Seq::filter);
    let value = |x: MetricView| x.value;
    if metrics.len() > 0 {
        let rest = metrics.drop_last();
        picking_is_choosing(rest, pick, kind);
        if kind(metrics.last()) {
            assert(metrics.filter(kind) == rest.filter(kind).push(metrics.last()));
            assert(rest.filter(kind).push(metrics.last()).map_values(value) == rest.filter(
                kind,
            ).map_values(value).push(metrics.last().value));
        }
    } else {
        assert(metrics.filter(kind).map_values(value) == Seq::<Number>::empty());
    }
}

/// `shown` is the largest of some values, and missing exactly where there are none.
pub open spec fn is_maximum(values: Seq<Number>, shown: Option<Number>) -> bool {
    match shown {
        None => values.len() == 0,
        Some(n) => values.contains(n) && forall|i: int|
            0 <= i < values.len() ==> !(#[trigger] values[i]).exceeds(n),
    }
}

/// `shown` is the average of some values, and missing exactly where there are none.
pub open spec fn is_average(f: spec_fn(Op) -> Number, values: Seq<Number>, shown: Option<Number>) -> bool {
    shown == if values.len() == 0 {
        None
    } else {
        Some(f(Op::Divide(total(f, values), f(Op::Integer(values.len() as i64)))))
    }
}

/// `shown` is a sum of some values. It is missing only where it is zero and nothing beside it was
/// observed.
pub open spec fn is_sum(
    f: spec_fn(Op) -> Number,
    values: Seq<Number>,
    beside: bool,
    shown: Option<Number>,
) -> bool {
    let sum = total_from(f, Number { bits: 0 }, values);
    shown == if sum.magnitude() == 0 && !beside {
        None
    } else {
        Some(sum)
    }
}

proof fn maximum_is_maximum(values: Seq<Number>)
    ensures
        is_maximum(values, maximum_of(values)),
{
    if values.len() > 0 {
        the_largest_is_not_exceeded(values, values.len() as int);
    }
}

/// Bytes as mebibytes.
pub open spec fn in_mebibytes(f: spec_fn(Op) -> Number) -> spec_fn(MetricView) -> Number {
    |x: MetricView| f(Op::Divide(x.value, f(Op::Integer(1_048_576))))
}

proof fn memory_is_in_mebibytes(f: spec_fn(Op) -> Number, metrics: Seq<MetricView>)
    ensures
        picked(metrics, pick_memory(f)) == metrics.filter(
            with_name("host.memory_used_bytes"@),
        ).map_values(in_mebibytes(f)),
    decreases metrics.len(),
{
    reveal(Seq::filter);
    let kind = with_name("host.memory_used_bytes"@);
    let value = in_mebibytes(f);
    if metrics.len() > 0 {
        let rest = metrics.drop_last();
        memory_is_in_mebibytes(f, rest);
        if kind(metrics.last()) {
            assert(metrics.filter(kind) == rest.filter(kind).push(metrics.last()));
            assert(rest.filter(kind).push(metrics.last()).map_values(value) == rest.filter(
                kind,
            ).map_values(value).push(value(metrics.last())));
        }
    } else {
        assert(metrics.filter(kind).map_values(value) == Seq::<Number>::empty());
    }
}

/// What an overview shows of a node in a bucket: the requests, the errors and the statements are
/// sums, the memory is an average, the loads and the waits are the largest, the slowest quantile the
/// largest of the quantiles.
pub open spec fn overview_tells(
    f: spec_fn(Op) -> Number,
    own: Seq<MetricView>,
    row: OverviewSeriesRow,
) -> bool {
    let named = |name: Seq<char>| values_where(own, with_name(name));
    let total_of = |name: Seq<char>| total_from(f, Number { bits: 0 }, named(name)).magnitude();
    let quantiles = values_where(
        own,
        |x: MetricView|
            x.name == "http.request_duration"@ && lookup(x.labels, "quantile"@) == Some("0.95"@),
    );
    &&& is_sum(
        f,
        named("http.requests"@),
        quantiles.len() > 0 || total_of("http.errors"@) != 0,
        row.http_requests,
    )
    &&& is_sum(f, named("http.errors"@), total_of("http.requests"@) != 0, row.http_errors)
    &&& is_sum(
        f,
        named("db.query.calls"@),
        total_of("db.query.total_duration"@) != 0,
        row.db_calls,
    )
    &&& is_sum(
        f,
        named("db.query.total_duration"@),
        total_of("db.query.calls"@) != 0,
        row.db_total_duration_ms,
    )
    &&& is_maximum(quantiles, row.http_p95_ms_max_of_quantile)
    &&& is_average(
        f,
        own.filter(with_name("host.memory_used_bytes"@)).map_values(in_mebibytes(f)),
        row.memory_used_mib_average,
    )
    &&& is_maximum(named("host.load1"@), row.load1_max)
    &&& is_maximum(named("host.disk_util_percent"@), row.disk_util_percent_max)
    &&& is_maximum(named("host.disk_await"@), row.disk_await_ms_max)
}

/// The share of the processors that an overview shows: that of the host sampler where it measured
/// any, or else that of sysstat where it did, or else that of others.
pub open spec fn overview_tells_cpu(
    f: spec_fn(Op) -> Number,
    own: Seq<MetricView>,
    row: OverviewSeriesRow,
) -> bool {
    let by = |collector: Seq<char>|
        values_where(
            own,
            |x: MetricView|
                x.name == "host.cpu_percent"@ && lookup(x.labels, "collector"@) == Some(collector),
        );
    let others = values_where(
        own,
        |x: MetricView|
            x.name == "host.cpu_percent"@ && lookup(x.labels, "collector"@) != Some(
                "host-sampler"@,
            ) && lookup(x.labels, "collector"@) != Some("sysstat"@),
    );
    let shares = if by("host-sampler"@).len() > 0 {
        by("host-sampler"@)
    } else if by("sysstat"@).len() > 0 {
        by("sysstat"@)
    } else {
        others
    };
    &&& is_average(f, shares, row.cpu_percent_average)
    &&& is_maximum(shares, row.cpu_percent_max)
}

proof fn overview_row_tells(
    f: spec_fn(Op) -> Number,
    own: Seq<MetricView>,
    r: SeriesRange,
    bucket: int,
    chosen: Seq<MetricView>,
    node: Seq<char>,
    at: int,
    row: OverviewSeriesRow,
)
    requires
        own == chosen.filter(is_of(node, at, bucket)),
        overview_row(f, r, bucket, chosen, node, at, row),
    ensures
        overview_tells(f, own, row),
        overview_tells_cpu(f, own, row),
{
    picking_is_choosing(own, pick_named("http.requests"@), with_name("http.requests"@));
    picking_is_choosing(own, pick_named("http.errors"@), with_name("http.errors"@));
    picking_is_choosing(own, pick_named("db.query.calls"@), with_name("db.query.calls"@));
    picking_is_choosing(
        own,
        pick_named("db.query.total_duration"@),
        with_name("db.query.total_duration"@),
    );
    picking_is_choosing(own, pick_named("host.load1"@), with_name("host.load1"@));
    picking_is_choosing(
        own,
        pick_named("host.disk_util_percent"@),
        with_name("host.disk_util_percent"@),
    );
    picking_is_choosing(own, pick_named("host.disk_await"@), with_name("host.disk_await"@));
    picking_is_choosing(
        own,
        pick_p95(),
        |x: MetricView|
            x.name == "http.request_duration"@ && lookup(x.labels, "quantile"@) == Some("0.95"@),
    );
    let sampler = "host-sampler"@;
    let sysstat = "sysstat"@;
    picking_is_choosing(
        own,
        pick_cpu("host-sampler"@),
        |x: MetricView|
            x.name == "host.cpu_percent"@ && lookup(x.labels, "collector"@) == Some(sampler),
    );
    picking_is_choosing(
        own,
        pick_cpu("sysstat"@),
        |x: MetricView|
            x.name == "host.cpu_percent"@ && lookup(x.labels, "collector"@) == Some(sysstat),
    );
    picking_is_choosing(
        own,
        pick_other_cpu(),
        |x: MetricView|
            x.name == "host.cpu_percent"@ && lookup(x.labels, "collector"@) != Some(
                "host-sampler"@,
            ) && lookup(x.labels, "collector"@) != Some("sysstat"@),
    );
    memory_is_in_mebibytes(f, own);
    maximum_is_maximum(picked(own, pick_p95()));
    maximum_is_maximum(picked(own, pick_named("host.load1"@)));
    maximum_is_maximum(picked(own, pick_named("host.disk_util_percent"@)));
    maximum_is_maximum(picked(own, pick_named("host.disk_await"@)));
    maximum_is_maximum(picked(own, pick_cpu("host-sampler"@)));
    maximum_is_maximum(picked(own, pick_cpu("sysstat"@)));
    maximum_is_maximum(picked(own, pick_other_cpu()));
}

/// An overview has a row for each node and each bucket of the span, by node and then by time, and each
/// row tells of the metrics of its node in its bucket that are asked for.
pub proof fn overviews_tell_of_nodes_and_buckets(
    f: spec_fn(Op) -> Number,
    m: RunManifest,
    metrics: Seq<MetricView>,
    o: SeriesOptions,
    out: SeriesOutput,
    i: int,
    j: int,
)
    requires
        dated(m),
        countable(m, o),
        o.metrics@.len() == 0,
        series_of(f, m, metrics, o, out),
        0 <= i < distinct_sorted::<String>(
            metrics.filter(is_asked(o, range_of(m, o))).map_values(metric_node_of()),
        ).len(),
        0 <= j < bucket_count(range_of(m, o), o.bucket as int),
    ensures
        out.data matches SeriesData::Overview(rows) && {
            let nodes = distinct_sorted::<String>(
                metrics.filter(is_asked(o, range_of(m, o))).map_values(metric_node_of()),
            );
            let count = bucket_count(range_of(m, o), o.bucket as int);
            let at = bucket_at(range_of(m, o), o.bucket as int, j);
            let row = rows@[i * count + j];
            let own = metrics.filter(on_node(m, o, nodes[i], at));
            &&& row.node@ == nodes[i]
            &&& at % (o.bucket as int) == 0
            &&& overview_tells(f, own, row)
            &&& overview_tells_cpu(f, own, row)
        },
{
    let r = range_of(m, o);
    let bucket = o.bucket as int;
    let chosen = metrics.filter(is_asked(o, r));
    let nodes = distinct_sorted::<String>(chosen.map_values(metric_node_of()));
    let count = bucket_count(r, bucket);
    let at = bucket_at(r, bucket, j);
    let rows = out.data->Overview_0;
    assert(overview_rows(f, r, bucket, chosen, rows@));
    let row = rows@[i * count + j];
    assert(overview_row(f, r, bucket, chosen, nodes[i], at, row));
    bucket_is_whole(r.from.seconds_spec(), bucket);
    let first = bucket_start(r.from.seconds_spec(), bucket);
    assert(at % bucket == 0) by {
        vstd::arithmetic::div_mod::lemma_mod_multiples_vanish(j, first, bucket);
        assert(bucket * j + first == at) by (nonlinear_arith)
            requires
                at == first + j * bucket,
        ;
    }
    let p = is_of(nodes[i], at, bucket);
    let own = on_node(m, o, nodes[i], at);
    assert forall|n: int| 0 <= n < metrics.len() implies own(#[trigger] metrics[n]) == (is_asked(
        o,
        r,
    )(metrics[n]) && p(metrics[n])) by {
        asking_is_asking(m, o, metrics[n]);
        if asked_for(m, o, metrics[n]) {
            bucket_holds(metrics[n].timestamp->0.seconds_spec(), bucket, at);
        }
    }
    choosing_twice(metrics, is_asked(o, r), p, own);
    overview_row_tells(f, metrics.filter(own), r, bucket, chosen, nodes[i], at, row);
}

} // verus!
