//! What the answers to queries are made of.
use crate::alp_laws::the_smallest_exceeds_none;
use crate::brief_laws::the_largest_is_not_exceeded;
use crate::diff_laws::{figure, pair_is_of_rows};
use crate::join::{pairs_of, sorting_keeps_items, with_key, with_key_contains};
use crate::labels::{lookup, with_label_holds, Pair};
use crate::metric_semantics::combined;
use crate::model::Metric;
use crate::number::{total, Number, Op};
use crate::order::{distinct_sorted, distinct_sorted_holds, Key};
use crate::order_laws::{
    choices_agree, choosing_twice, keyed_items, sorting_ascends, sorting_counts_alike,
};
use crate::query::{
    by_change, by_metric_then_value, by_row, by_row_time, by_shape, database_changes,
    database_rows, diff_row, diff_rows, difference, http_changes, http_rows, is_selected,
    keeps_label, magnitude_of, metric_changes, metric_rows, noted, picks, plain_row, read,
    rounded_row, row_of, rule_of, selects, shape_row, shape_rows, ChangeKey, Changes,
    DatabaseQueryOptions, DatabaseRowView, DiffRowView, HttpQueryOptions, MetricQueryOptions,
    MetricRowView, MetricValueKey, QueryScope, RowKey, RowKeyModel, RowTimeKey, ShapeKey,
};
use crate::report::{metric_values, queries, routes, QueryView, RouteView};
use crate::sql_shape::shape_of;
use crate::text::{contains_text, ends, stands_at, texts};
use vstd::prelude::*;

verus! {

/// A text holds another one somewhere.
pub open spec fn holds(text: Seq<char>, part: Seq<char>) -> bool {
    exists|at: int|
        0 <= at <= text.len() - part.len() && #[trigger] text.subrange(at, at + part.len()) == part
}

proof fn holding_is_containing(text: Seq<char>, part: Seq<char>)
    ensures
        contains_text(text, part) == holds(text, part),
{
    if contains_text(text, part) {
        let at = choose|at: int| #[trigger] stands_at(text, part, at);
        assert(text.skip(at).take(part.len() as int) == text.subrange(at, at + part.len()));
        assert(text.subrange(at, at + part.len()) == part);
    }
    if holds(text, part) {
        let at = choose|at: int|
            0 <= at <= text.len() - part.len() && #[trigger] text.subrange(at, at + part.len())
                == part;
        assert(text.skip(at).take(part.len() as int) == text.subrange(at, at + part.len()));
        assert(stands_at(text, part, at));
    }
}

/// The labels of a metric are what is asked for: its node, every label that has to have a value, and
/// every label that has to hold a text.
pub open spec fn labels_fit(
    labels: Seq<Pair>,
    node: Option<String>,
    wanted: Seq<(String, String)>,
    parts: Seq<(String, String)>,
) -> bool {
    &&& node matches Some(name) ==> lookup(labels, "node"@) == Some(name@)
    &&& forall|i: int|
        0 <= i < wanted.len() ==> lookup(labels, (#[trigger] wanted[i]).0@) == Some(wanted[i].1@)
    &&& forall|i: int|
        0 <= i < parts.len() ==> lookup(labels, (#[trigger] parts[i]).0@) is Some && holds(
            lookup(labels, parts[i].0@)->0,
            parts[i].1@,
        )
}

/// A metric is one that a query over statements or routes is asked for.
pub open spec fn is_wanted(
    node: Option<String>,
    source: Option<String>,
    wanted: Seq<(String, String)>,
    parts: Seq<(String, String)>,
) -> spec_fn(Metric) -> bool {
    |m: Metric|
        {
            &&& labels_fit(m.labels@, node, wanted, parts)
            &&& source matches Some(name) ==> lookup(m.labels@, "collector"@) == Some(name@)
        }
}

proof fn wanting_is_picking(
    metrics: Seq<Metric>,
    node: Option<String>,
    source: Option<String>,
    wanted: Seq<(String, String)>,
    parts: Seq<(String, String)>,
    none: Seq<(String, String)>,
)
    requires
        none.len() == 0,
    ensures
        metrics.filter(picks(node, source, wanted, parts)) == metrics.filter(
            is_wanted(node, source, wanted, parts),
        ).filter(picks(None, None, none, none)),
{
    let p = is_wanted(node, source, wanted, parts);
    let q = picks(None, None, none, none);
    let both = picks(node, source, wanted, parts);
    assert forall|i: int| 0 <= i < metrics.len() implies both(#[trigger] metrics[i]) == (p(
        metrics[i],
    ) && q(metrics[i])) by {
        let m = metrics[i];
        assert forall|j: int| 0 <= j < parts.len() implies contains_text(
            lookup(m.labels@, (#[trigger] parts[j]).0@)->0,
            parts[j].1@,
        ) == holds(lookup(m.labels@, parts[j].0@)->0, parts[j].1@) by {
            holding_is_containing(lookup(m.labels@, parts[j].0@)->0, parts[j].1@);
        }
    }
    choosing_twice(metrics, p, q, both);
}

/// The answer to a query over statements is the answer of a run that has only the metrics which are
/// asked for: those on the node, from the collector, with the labels and with the texts in their
/// labels. Every other metric might as well be missing, and none of these is passed over.
pub proof fn statements_come_from_what_is_asked_for(
    f: spec_fn(Op) -> Number,
    metrics: Seq<Metric>,
    options: DatabaseQueryOptions,
    free: DatabaseQueryOptions,
)
    requires
        free.node is None,
        free.source is None,
        free.labels@.len() == 0,
        free.label_contains@.len() == 0,
        free.sql_shape == options.sql_shape,
    ensures
        database_rows(f, metrics, options) == database_rows(
            f,
            metrics.filter(
                is_wanted(options.node, options.source, options.labels@, options.label_contains@),
            ),
            free,
        ),
{
    assert(free.labels@ == free.label_contains@);
    wanting_is_picking(
        metrics,
        options.node,
        options.source,
        options.labels@,
        options.label_contains@,
        free.labels@,
    );
}

/// The answer to a query over routes is the answer of a run that has only the metrics which are asked
/// for.
pub proof fn routes_come_from_what_is_asked_for(
    f: spec_fn(Op) -> Number,
    metrics: Seq<Metric>,
    options: HttpQueryOptions,
    free: HttpQueryOptions,
)
    requires
        free.node is None,
        free.source is None,
        free.labels@.len() == 0,
        free.label_contains@.len() == 0,
    ensures
        http_rows(f, metrics, options) == http_rows(
            f,
            metrics.filter(
                is_wanted(options.node, options.source, options.labels@, options.label_contains@),
            ),
            free,
        ),
{
    assert(free.labels@ == free.label_contains@);
    wanting_is_picking(
        metrics,
        options.node,
        options.source,
        options.labels@,
        options.label_contains@,
        free.labels@,
    );
}

/// Samples in time play no part in the answers over statements and routes.
pub proof fn samples_are_not_aggregates(
    f: spec_fn(Op) -> Number,
    metrics: Seq<Metric>,
    statements: DatabaseQueryOptions,
    routes: HttpQueryOptions,
)
    ensures
        database_rows(f, metrics, statements) == database_rows(
            f,
            metrics.filter(|m: Metric| m.timestamp is None),
            statements,
        ),
        http_rows(f, metrics, routes) == http_rows(
            f,
            metrics.filter(|m: Metric| m.timestamp is None),
            routes,
        ),
{
    let undated = |m: Metric| m.timestamp is None;
    let p = picks(
        statements.node,
        statements.source,
        statements.labels@,
        statements.label_contains@,
    );
    let q = picks(routes.node, routes.source, routes.labels@, routes.label_contains@);
    choosing_twice(metrics, undated, p, p);
    choosing_twice(metrics, undated, q, q);
}

/// A metric is one that a query over metrics is asked for: by its name or the beginning of it, its
/// labels, and the collector or the parser that it comes from.
pub open spec fn is_wanted_metric(options: MetricQueryOptions) -> spec_fn(Metric) -> bool {
    |m: Metric|
        {
            &&& options.metrics@.len() == 0 || exists|i: int|
                0 <= i < options.metrics@.len() && (#[trigger] options.metrics@[i])@ == m.name@
            &&& options.metric_prefix matches Some(prefix) ==> m.name@.len() >= prefix@.len()
                && m.name@.subrange(0, prefix@.len() as int) == prefix@
            &&& labels_fit(m.labels@, options.node, options.labels@, options.label_contains@)
            &&& options.source matches Some(source) ==> lookup(m.labels@, "collector"@) == Some(
                source@,
            ) || lookup(m.labels@, "isuscope.parser"@) == Some(source@)
        }
}

/// The answer to a query over metrics is the answer of a run that has only the metrics which are asked
/// for. A query over aggregates takes those without a time, and one over a series those with a time.
pub proof fn metrics_come_from_what_is_asked_for(
    f: spec_fn(Op) -> Number,
    metrics: Seq<Metric>,
    options: MetricQueryOptions,
    free: MetricQueryOptions,
)
    requires
        free.metrics@.len() == 0,
        free.metric_prefix is None,
        free.node is None,
        free.source is None,
        free.labels@.len() == 0,
        free.label_contains@.len() == 0,
        free.scope == options.scope,
        free.group_by@ == options.group_by@,
    ensures
        metric_rows(f, metrics, options) == metric_rows(
            f,
            metrics.filter(is_wanted_metric(options)),
            free,
        ),
        metric_rows(f, metrics, options) == metric_rows(
            f,
            metrics.filter(
                |m: Metric| (m.timestamp is Some) == (options.scope is Series),
            ),
            options,
        ),
{
    let p = is_wanted_metric(options);
    let q = is_selected(free);
    let both = is_selected(options);
    assert forall|i: int| 0 <= i < metrics.len() implies both(#[trigger] metrics[i]) == (p(
        metrics[i],
    ) && q(metrics[i])) by {
        wanted_is_selected(options, metrics[i]);
        wanted_is_selected(free, metrics[i]);
    }
    choosing_twice(metrics, p, q, both);
    let timed = |m: Metric| (m.timestamp is Some) == (options.scope is Series);
    choosing_twice(metrics, timed, both, both);
}

/// `changes` tells how a figure changed: what it was and what it is, and where both are known the
/// second less the first, to six places, and that in percent of the first, to two.
pub open spec fn is_change(
    f: spec_fn(Op) -> Number,
    changes: Changes,
    name: Seq<char>,
    base: Option<Number>,
    candidate: Option<Number>,
) -> bool {
    &&& lookup(changes, name) matches Some(d) && {
        &&& d.base == base
        &&& d.candidate == candidate
        &&& match (base, candidate) {
            (Some(b), Some(c)) => {
                let change = f(Op::Subtract(c, b));
                &&& d.delta == Some(f(Op::Round(change, 6)))
                &&& d.delta_percent == if b.magnitude() == 0 {
                    None
                } else {
                    Some(
                        f(
                            Op::Round(
                                f(Op::Multiply(f(Op::Divide(change, b)), f(Op::Integer(100)))),
                                2,
                            ),
                        ),
                    )
                }
            },
            _ => d.delta is None && d.delta_percent is None,
        }
    }
}

/// The changes of a statement are those of its figures, each under its own name.
pub proof fn statement_changes_are_differences(f: spec_fn(Op) -> Number, b: Option<DatabaseRowView>, c: Option<DatabaseRowView>)
    ensures
        ({
            let changes = database_changes(f)(b, c);
            &&& is_change(f, changes, "calls"@, figure(b, |v: DatabaseRowView| Some(v.calls)), figure(c, |v: DatabaseRowView| Some(v.calls)))
            &&& is_change(f, changes, "total_ms"@, figure(b, |v: DatabaseRowView| Some(v.total_ms)), figure(c, |v: DatabaseRowView| Some(v.total_ms)))
            &&& is_change(f, changes, "avg_ms"@, figure(b, |v: DatabaseRowView| v.avg_ms), figure(c, |v: DatabaseRowView| v.avg_ms))
            &&& is_change(f, changes, "p95_ms"@, figure(b, |v: DatabaseRowView| v.p95_ms), figure(c, |v: DatabaseRowView| v.p95_ms))
            &&& is_change(f, changes, "lock_ms"@, figure(b, |v: DatabaseRowView| Some(v.lock_ms)), figure(c, |v: DatabaseRowView| Some(v.lock_ms)))
            &&& is_change(f, changes, "rows_sent"@, figure(b, |v: DatabaseRowView| Some(v.rows_sent)), figure(c, |v: DatabaseRowView| Some(v.rows_sent)))
            &&& is_change(f, changes, "rows_examined"@, figure(b, |v: DatabaseRowView| Some(v.rows_examined)), figure(c, |v: DatabaseRowView| Some(v.rows_examined)))
            &&& is_change(f, changes, "rows_examined_per_call"@, figure(b, |v: DatabaseRowView| v.rows_examined_per_call), figure(c, |v: DatabaseRowView| v.rows_examined_per_call))
        }),
{
    reveal_strlit("calls");
    reveal_strlit("total_ms");
    reveal_strlit("avg_ms");
    reveal_strlit("p95_ms");
    reveal_strlit("lock_ms");
    reveal_strlit("rows_sent");
    reveal_strlit("rows_examined");
    reveal_strlit("rows_examined_per_call");
    assert("calls"@.len() == 5 && "calls"@[1] == 'a' && "calls"@[0] == 'c');
    assert("total_ms"@.len() == 8 && "total_ms"@[1] == 'o' && "total_ms"@[0] == 't');
    assert("avg_ms"@.len() == 6 && "avg_ms"@[1] == 'v' && "avg_ms"@[0] == 'a');
    assert("p95_ms"@.len() == 6 && "p95_ms"@[1] == '9' && "p95_ms"@[0] == 'p');
    assert("lock_ms"@.len() == 7 && "lock_ms"@[1] == 'o' && "lock_ms"@[0] == 'l');
    assert("rows_sent"@.len() == 9 && "rows_sent"@[1] == 'o' && "rows_sent"@[0] == 'r');
    assert("rows_examined"@.len() == 13 && "rows_examined"@[1] == 'o' && "rows_examined"@[0] == 'r');
    assert("rows_examined_per_call"@.len() == 22 && "rows_examined_per_call"@[1] == 'o' && "rows_examined_per_call"@[0] == 'r');
    let c0: Changes = Seq::empty();
    let c1 = noted(f, c0, "calls"@, b, c, |v: DatabaseRowView| Some(v.calls));
    with_label_holds(c0, "calls"@, difference(f, read(b, |v: DatabaseRowView| Some(v.calls)), read(c, |v: DatabaseRowView| Some(v.calls))));
    let c2 = noted(f, c1, "total_ms"@, b, c, |v: DatabaseRowView| Some(v.total_ms));
    with_label_holds(c1, "total_ms"@, difference(f, read(b, |v: DatabaseRowView| Some(v.total_ms)), read(c, |v: DatabaseRowView| Some(v.total_ms))));
    let c3 = noted(f, c2, "avg_ms"@, b, c, |v: DatabaseRowView| v.avg_ms);
    with_label_holds(c2, "avg_ms"@, difference(f, read(b, |v: DatabaseRowView| v.avg_ms), read(c, |v: DatabaseRowView| v.avg_ms)));
    let c4 = noted(f, c3, "p95_ms"@, b, c, |v: DatabaseRowView| v.p95_ms);
    with_label_holds(c3, "p95_ms"@, difference(f, read(b, |v: DatabaseRowView| v.p95_ms), read(c, |v: DatabaseRowView| v.p95_ms)));
    let c5 = noted(f, c4, "lock_ms"@, b, c, |v: DatabaseRowView| Some(v.lock_ms));
    with_label_holds(c4, "lock_ms"@, difference(f, read(b, |v: DatabaseRowView| Some(v.lock_ms)), read(c, |v: DatabaseRowView| Some(v.lock_ms))));
    let c6 = noted(f, c5, "rows_sent"@, b, c, |v: DatabaseRowView| Some(v.rows_sent));
    with_label_holds(c5, "rows_sent"@, difference(f, read(b, |v: DatabaseRowView| Some(v.rows_sent)), read(c, |v: DatabaseRowView| Some(v.rows_sent))));
    let c7 = noted(f, c6, "rows_examined"@, b, c, |v: DatabaseRowView| Some(v.rows_examined));
    with_label_holds(c6, "rows_examined"@, difference(f, read(b, |v: DatabaseRowView| Some(v.rows_examined)), read(c, |v: DatabaseRowView| Some(v.rows_examined))));
    let c8 = noted(f, c7, "rows_examined_per_call"@, b, c, |v: DatabaseRowView| v.rows_examined_per_call);
    with_label_holds(c7, "rows_examined_per_call"@, difference(f, read(b, |v: DatabaseRowView| v.rows_examined_per_call), read(c, |v: DatabaseRowView| v.rows_examined_per_call)));
}

/// The changes of a route are those of its figures, each under its own name.
pub proof fn route_changes_are_differences(f: spec_fn(Op) -> Number, b: Option<RouteView>, c: Option<RouteView>)
    ensures
        ({
            let changes = http_changes(f)(b, c);
            &&& is_change(f, changes, "count"@, figure(b, |v: RouteView| Some(v.count)), figure(c, |v: RouteView| Some(v.count)))
            &&& is_change(f, changes, "total_ms"@, figure(b, |v: RouteView| v.total_ms), figure(c, |v: RouteView| v.total_ms))
            &&& is_change(f, changes, "avg_ms"@, figure(b, |v: RouteView| v.avg_ms), figure(c, |v: RouteView| v.avg_ms))
            &&& is_change(f, changes, "p50_ms"@, figure(b, |v: RouteView| v.p50_ms), figure(c, |v: RouteView| v.p50_ms))
            &&& is_change(f, changes, "p95_ms"@, figure(b, |v: RouteView| v.p95_ms), figure(c, |v: RouteView| v.p95_ms))
            &&& is_change(f, changes, "p99_ms"@, figure(b, |v: RouteView| v.p99_ms), figure(c, |v: RouteView| v.p99_ms))
            &&& is_change(f, changes, "errors"@, figure(b, |v: RouteView| Some(v.errors)), figure(c, |v: RouteView| Some(v.errors)))
            &&& is_change(f, changes, "error_rate"@, figure(b, |v: RouteView| v.error_rate), figure(c, |v: RouteView| v.error_rate))
        }),
{
    reveal_strlit("count");
    reveal_strlit("total_ms");
    reveal_strlit("avg_ms");
    reveal_strlit("p50_ms");
    reveal_strlit("p95_ms");
    reveal_strlit("p99_ms");
    reveal_strlit("errors");
    reveal_strlit("error_rate");
    assert("count"@.len() == 5 && "count"@[1] == 'o' && "count"@[0] == 'c');
    assert("total_ms"@.len() == 8 && "total_ms"@[1] == 'o' && "total_ms"@[0] == 't');
    assert("avg_ms"@.len() == 6 && "avg_ms"@[1] == 'v' && "avg_ms"@[0] == 'a');
    assert("p50_ms"@.len() == 6 && "p50_ms"@[1] == '5' && "p50_ms"@[0] == 'p');
    assert("p95_ms"@.len() == 6 && "p95_ms"@[1] == '9' && "p95_ms"@[0] == 'p');
    assert("p99_ms"@.len() == 6 && "p99_ms"@[1] == '9' && "p99_ms"@[0] == 'p');
    assert("errors"@.len() == 6 && "errors"@[1] == 'r' && "errors"@[0] == 'e');
    assert("error_rate"@.len() == 10 && "error_rate"@[1] == 'r' && "error_rate"@[0] == 'e');
    assert("p95_ms"@[2] == '5' && "p99_ms"@[2] == '9');
    let c0: Changes = Seq::empty();
    let c1 = noted(f, c0, "count"@, b, c, |v: RouteView| Some(v.count));
    with_label_holds(c0, "count"@, difference(f, read(b, |v: RouteView| Some(v.count)), read(c, |v: RouteView| Some(v.count))));
    let c2 = noted(f, c1, "total_ms"@, b, c, |v: RouteView| v.total_ms);
    with_label_holds(c1, "total_ms"@, difference(f, read(b, |v: RouteView| v.total_ms), read(c, |v: RouteView| v.total_ms)));
    let c3 = noted(f, c2, "avg_ms"@, b, c, |v: RouteView| v.avg_ms);
    with_label_holds(c2, "avg_ms"@, difference(f, read(b, |v: RouteView| v.avg_ms), read(c, |v: RouteView| v.avg_ms)));
    let c4 = noted(f, c3, "p50_ms"@, b, c, |v: RouteView| v.p50_ms);
    with_label_holds(c3, "p50_ms"@, difference(f, read(b, |v: RouteView| v.p50_ms), read(c, |v: RouteView| v.p50_ms)));
    let c5 = noted(f, c4, "p95_ms"@, b, c, |v: RouteView| v.p95_ms);
    with_label_holds(c4, "p95_ms"@, difference(f, read(b, |v: RouteView| v.p95_ms), read(c, |v: RouteView| v.p95_ms)));
    let c6 = noted(f, c5, "p99_ms"@, b, c, |v: RouteView| v.p99_ms);
    with_label_holds(c5, "p99_ms"@, difference(f, read(b, |v: RouteView| v.p99_ms), read(c, |v: RouteView| v.p99_ms)));
    let c7 = noted(f, c6, "errors"@, b, c, |v: RouteView| Some(v.errors));
    with_label_holds(c6, "errors"@, difference(f, read(b, |v: RouteView| Some(v.errors)), read(c, |v: RouteView| Some(v.errors))));
    let c8 = noted(f, c7, "error_rate"@, b, c, |v: RouteView| v.error_rate);
    with_label_holds(c7, "error_rate"@, difference(f, read(b, |v: RouteView| v.error_rate), read(c, |v: RouteView| v.error_rate)));
}

/// The change of a metric is that of its value.
pub proof fn metric_changes_are_differences(
    f: spec_fn(Op) -> Number,
    b: Option<MetricRowView>,
    c: Option<MetricRowView>,
)
    ensures
        is_change(
            f,
            metric_changes(f)(b, c),
            "value"@,
            figure(b, |v: MetricRowView| v.value),
            figure(c, |v: MetricRowView| v.value),
        ),
{
    let value = |r: MetricRowView| r.value;
    assert(metric_changes(f)(b, c).last() == (
        "value"@,
        difference(f, read(b, value), read(c, value)),
    ));
}

/// A metric belongs to a row of an answer: its name and its unit are those of the row, and so are its
/// labels, but for those that are not grouped by.
pub open spec fn in_metric_row(options: MetricQueryOptions, row: MetricRowView) -> spec_fn(
    Metric,
) -> bool {
    |m: Metric|
        {
            &&& is_wanted_metric(options)(m)
            &&& (m.timestamp is Some) == (options.scope is Series)
            &&& m.name@ == row.metric
            &&& m.unit@ == row.unit
            &&& m.labels@.filter(
                |p: Pair|
                    options.group_by@.len() == 0 || p.0 == "node"@ || p.0 == "collector"@ || p.0
                        == "engine"@ || p.0 == "isuscope.parser"@ || exists|i: int|
                        0 <= i < options.group_by@.len() && (#[trigger] options.group_by@[i])@
                            == p.0,
            ) == row.labels
        }
}

/// The values of some metrics.
pub open spec fn measured(metrics: Seq<Metric>) -> Seq<Number> {
    metrics.map_values(|m: Metric| m.value)
}

/// The names whose values add up, whatever else their metrics are labelled with.
pub open spec fn is_counter(name: Seq<char>) -> bool {
    ||| name == "http.requests"@
    ||| name == "http.errors"@
    ||| name == "http.response_bytes"@
    ||| name == "http.connection_reused_requests"@
    ||| name == "http.request_duration_sum"@
    ||| name == "http.upstream_duration_sum"@
    ||| name == "db.query.calls"@
    ||| name == "db.query.total_duration"@
    ||| name == "db.query.lock_duration"@
    ||| name == "db.query.rows_sent"@
    ||| name == "db.query.rows_examined"@
    ||| name == "cpu.sample_count"@
    ||| name == "benchmark.dns.failed"@
    ||| name == "benchmark.dns.resolved"@
    ||| name == "benchmark.scenario.failure"@
    ||| name == "benchmark.scenario.success"@
}

/// `value` is what some values come to, before it is rounded. Quantiles of samples come to the
/// largest, and quantiles of several label sets to nothing. Counters come to the sum, the least and
/// the greatest to the least and the greatest of all, and other samples to the average; what else
/// there is of several label sets comes to nothing.
pub open spec fn comes_to(
    f: spec_fn(Op) -> Number,
    series: bool,
    m: Metric,
    values: Seq<Number>,
    value: Option<Number>,
) -> bool {
    let largest = |n: Option<Number>|
        n is Some && values.contains(n->0) && forall|i: int|
            0 <= i < values.len() ==> !(#[trigger] values[i]).exceeds(n->0);
    let smallest = |n: Option<Number>|
        n is Some && values.contains(n->0) && forall|i: int|
            0 <= i < values.len() ==> !n->0.exceeds(#[trigger] values[i]);
    let alone = |n: Option<Number>| n == if values.len() == 1 {
        Some(values[0])
    } else {
        None
    };
    let quantile = lookup(m.labels@, "quantile"@) is Some || holds(m.name@, "p95"@);
    if quantile {
        if series {
            largest(value)
        } else {
            alone(value)
        }
    } else if !series && ends(m.name@, "_mean"@) {
        alone(value)
    } else if is_counter(m.name@) {
        value == Some(total(f, values))
    } else if ends(m.name@, "_min"@) {
        smallest(value)
    } else if ends(m.name@, "_max"@) {
        largest(value)
    } else if series {
        value == Some(f(Op::Divide(total(f, values), f(Op::Integer(values.len() as i64)))))
    } else {
        alone(value)
    }
}

proof fn p95_holds_p95()
    ensures
        holds("db.query.p95_duration"@, "p95"@),
{
    reveal_strlit("db.query.p95_duration");
    reveal_strlit("p95");
    let part = "p95"@;
    assert("db.query.p95_duration"@.subrange(9int, 9int + part.len()) == part);
}

/// What combining some values by the rule of their metric comes to.
pub proof fn combining_comes_to(
    f: spec_fn(Op) -> Number,
    scope: QueryScope,
    m: Metric,
    values: Seq<Number>,
)
    requires
        values.len() > 0,
    ensures
        comes_to(
            f,
            scope is Series,
            m,
            values,
            combined(f, values, rule_of(scope, m)),
        ),
{
    holding_is_containing(m.name@, "p95"@);
    p95_holds_p95();
    the_largest_is_not_exceeded(values, values.len() as int);
    the_smallest_exceeds_none(values, values.len() as int);
}

/// Every row of an answer is made of all metrics that belong to it and of no others: it says how many
/// they are, and its value is what their values come to, to the places that its unit is shown with.
/// Within one metric the larger values come first.
pub proof fn rows_tell_of_their_metrics(
    f: spec_fn(Op) -> Number,
    metrics: Seq<Metric>,
    options: MetricQueryOptions,
    i: int,
)
    requires
        0 <= i < metric_rows(f, metrics, options).len(),
    ensures
        ({
            let all = metric_rows(f, metrics, options);
            let row = all[i];
            let own = metrics.filter(in_metric_row(options, row));
            let places: u32 = if row.unit == "queries"@ || row.unit == "runs"@ || row.unit
                == "checks"@ || row.unit == "rows"@ || row.unit == "bytes"@ || row.unit
                == "samples"@ || row.unit == "requests"@ {
                0
            } else if row.unit == "ms"@ || row.unit == "percent"@ {
                3
            } else {
                6
            };
            &&& own.len() > 0
            &&& row.source_rows == own.len()
            &&& row.exact == (row.value is Some)
            &&& exists|value: Option<Number>|
                {
                    &&& #[trigger] comes_to(
                        f,
                        options.scope is Series,
                        own[0],
                        measured(own),
                        value,
                    )
                    &&& row.value == match value {
                        Some(n) => Some(f(Op::Round(n, places))),
                        None => None,
                    }
                }
            &&& forall|j: int|
                i < j < all.len() && (#[trigger] all[j]).metric == row.metric && row.value is Some
                    && all[j].value is Some ==> all[j].value->0.place() <= row.value->0.place()
        }),
{
    let chosen = metrics.filter(is_selected(options));
    let key = by_row(options.group_by@);
    let keys = chosen.map_values(key);
    let names = distinct_sorted::<RowKey>(keys);
    let make = |k: RowKeyModel| row_of(f, options.scope, k, with_key(chosen, key, k));
    let made = names.map_values(make);
    let all = metric_rows(f, metrics, options);
    let row = all[i];
    sorting_keeps_items::<MetricRowView, MetricRowView, MetricValueKey>(
        made,
        by_metric_then_value(),
        |r: MetricRowView| r,
    );
    sorting_ascends::<MetricRowView, MetricValueKey>(made, by_metric_then_value());
    assert(all.contains(row));
    let g = choose|g: int| 0 <= g < made.len() && made[g] == row;
    let k = names[g];
    let members = with_key(chosen, key, k);
    assert(row == row_of(f, options.scope, k, members));
    distinct_sorted_holds::<RowKey>(keys);
    assert(names.contains(k));
    let n = choose|n: int| 0 <= n < keys.len() && keys[n] == k;
    with_key_contains(chosen, key, n);
    let keyed = |m: Metric| key(m) == k;
    keyed_items(chosen, key, k, keyed);
    let own = in_metric_row(options, row);
    assert forall|j: int| 0 <= j < metrics.len() implies own(#[trigger] metrics[j]) == (is_selected(
        options,
    )(metrics[j]) && keyed(metrics[j])) by {
        let m = metrics[j];
        wanted_is_selected(options, m);
        choices_agree(
            m.labels@,
            |p: Pair|
                options.group_by@.len() == 0 || p.0 == "node"@ || p.0 == "collector"@ || p.0
                    == "engine"@ || p.0 == "isuscope.parser"@ || exists|i: int|
                    0 <= i < options.group_by@.len() && (#[trigger] options.group_by@[i])@ == p.0,
            keeps_label(options.group_by@),
        );
    }
    choosing_twice(metrics, is_selected(options), keyed, own);
    assert(members == metrics.filter(own));
    let values = measured(members);
    assert(values == metric_values(members));
    combining_comes_to(f, options.scope, members[0], values);
    let value = combined(f, values, rule_of(options.scope, members[0]));
    assert(comes_to(f, options.scope is Series, members[0], measured(members), value));
    assert forall|j: int|
        i < j < all.len() && (#[trigger] all[j]).metric == row.metric && row.value is Some
            && all[j].value is Some implies all[j].value->0.place() <= row.value->0.place() by {
        assert(!<MetricValueKey as Key>::precedes(
            by_metric_then_value()(all[j]),
            by_metric_then_value()(all[i]),
        ));
    }
}

proof fn wanted_is_selected(options: MetricQueryOptions, m: Metric)
    ensures
        selects(options, m) == (is_wanted_metric(options)(m) && (m.timestamp is Some) == (
        options.scope is Series)),
        forall|key: Seq<char>| #[trigger]
            texts(options.group_by@).contains(key) == (exists|i: int|
                0 <= i < options.group_by@.len() && (#[trigger] options.group_by@[i])@ == key),
{
    let parts = options.label_contains@;
    let names = texts(options.metrics@);
    assert forall|j: int| 0 <= j < parts.len() implies contains_text(
        lookup(m.labels@, (#[trigger] parts[j]).0@)->0,
        parts[j].1@,
    ) == holds(lookup(m.labels@, parts[j].0@)->0, parts[j].1@) by {
        holding_is_containing(lookup(m.labels@, parts[j].0@)->0, parts[j].1@);
    }
    listing_is_containing(options.metrics@, m.name@);
    assert forall|key: Seq<char>| #[trigger]
        texts(options.group_by@).contains(key) == (exists|i: int|
            0 <= i < options.group_by@.len() && (#[trigger] options.group_by@[i])@ == key) by {
        listing_is_containing(options.group_by@, key);
    }
    if options.metric_prefix is Some {
        let n = options.metric_prefix->0@.len() as int;
        if n <= m.name@.len() {
            assert(m.name@.take(n) == m.name@.subrange(0, n));
        }
    }
}

proof fn listing_is_containing(list: Seq<String>, name: Seq<char>)
    ensures
        texts(list).contains(name) == (exists|i: int|
            0 <= i < list.len() && (#[trigger] list[i])@ == name),
{
    let names = texts(list);
    if names.contains(name) {
        let j = choose|j: int| 0 <= j < names.len() && names[j] == name;
        assert(list[j]@ == name);
    }
    if exists|i: int| 0 <= i < list.len() && (#[trigger] list[i])@ == name {
        let j = choose|j: int| 0 <= j < list.len() && (#[trigger] list[j])@ == name;
        assert(names[j] == name);
    }
}

/// What a query over statements is asked for: aggregates with the labels.
pub open spec fn wanted_aggregates(metrics: Seq<Metric>, options: DatabaseQueryOptions) -> Seq<
    Metric,
> {
    let wanted = is_wanted(
        options.node,
        options.source,
        options.labels@,
        options.label_contains@,
    );
    metrics.filter(|m: Metric| m.timestamp is None && wanted(m))
}

proof fn aggregates_are_picked(metrics: Seq<Metric>, options: DatabaseQueryOptions)
    ensures
        metrics.filter(
            picks(options.node, options.source, options.labels@, options.label_contains@),
        ) == wanted_aggregates(metrics, options),
{
    let parts = options.label_contains@;
    let wanted = is_wanted(
        options.node,
        options.source,
        options.labels@,
        options.label_contains@,
    );
    let p = picks(options.node, options.source, options.labels@, options.label_contains@);
    assert forall|i: int| 0 <= i < metrics.len() implies p(#[trigger] metrics[i]) == (
    metrics[i].timestamp is None && wanted(metrics[i])) by {
        let m = metrics[i];
        assert forall|j: int| 0 <= j < parts.len() implies contains_text(
            lookup(m.labels@, (#[trigger] parts[j]).0@)->0,
            parts[j].1@,
        ) == holds(lookup(m.labels@, parts[j].0@)->0, parts[j].1@) by {
            holding_is_containing(lookup(m.labels@, parts[j].0@)->0, parts[j].1@);
        }
    }
    choices_agree(metrics, p, |m: Metric| m.timestamp is None && wanted(m));
}

/// A value to some places, where there is one.
pub open spec fn to_places(f: spec_fn(Op) -> Number, value: Option<Number>, places: u32) -> Option<
    Number,
> {
    match value {
        Some(n) => Some(f(Op::Round(n, places))),
        None => None,
    }
}

/// The rows of an answer over statements come by their total time, the largest first. A row of one
/// statement shows its figures, numbers of calls and rows as whole numbers and times to three places.
pub proof fn statements_are_shown_as_they_are(
    f: spec_fn(Op) -> Number,
    metrics: Seq<Metric>,
    options: DatabaseQueryOptions,
    i: int,
)
    requires
        0 <= i < database_rows(f, metrics, options).len(),
    ensures
        ({
            let all = database_rows(f, metrics, options);
            let r = all[i];
            let found = queries(f, wanted_aggregates(metrics, options));
            &&& forall|j: int|
                i < j < all.len() ==> (#[trigger] all[j]).total_ms.place() <= r.total_ms.place()
            &&& !options.sql_shape ==> all.len() == found.len() && exists|n: int|
                {
                    &&& 0 <= n < found.len() && (#[trigger] found[n]).digest == r.digest
                    &&& found[n].node == r.node && found[n].engine == r.engine && found[n].source
                        == r.source
                    &&& found[n].window == r.window && found[n].digest_id == r.digest_id
                    &&& r.calls == f(Op::Round(found[n].calls, 0))
                    &&& r.total_ms == f(Op::Round(found[n].total_ms, 3))
                    &&& r.avg_ms == to_places(f, found[n].avg_ms, 3)
                    &&& r.p95_ms == to_places(f, found[n].p95_ms, 3)
                    &&& r.lock_ms == f(Op::Round(found[n].lock_ms, 3))
                    &&& r.rows_sent == f(Op::Round(found[n].rows_sent, 0))
                    &&& r.rows_examined == f(Op::Round(found[n].rows_examined, 0))
                    &&& r.rows_examined_per_call == to_places(
                        f,
                        found[n].rows_examined_per_call,
                        3,
                    )
                }
        }),
{
    aggregates_are_picked(metrics, options);
    let found = queries(f, wanted_aggregates(metrics, options));
    let rows = if options.sql_shape {
        shape_rows(f, found)
    } else {
        found.map_values(plain_row())
    };
    let made = rows.map_values(rounded_row(f));
    let all = database_rows(f, metrics, options);
    let r = all[i];
    sorting_keeps_items::<DatabaseRowView, DatabaseRowView, RowTimeKey>(
        made,
        by_row_time(),
        |v: DatabaseRowView| v,
    );
    sorting_counts_alike::<DatabaseRowView, RowTimeKey>(
        made,
        by_row_time(),
        |v: DatabaseRowView| true,
    );
    sorting_ascends::<DatabaseRowView, RowTimeKey>(made, by_row_time());
    assert(all.contains(r));
    let n = choose|n: int| 0 <= n < made.len() && made[n] == r;
    assert(made[n] == rounded_row(f)(rows[n]));
    if !options.sql_shape {
        assert(rows[n] == plain_row()(found[n]));
        assert(found[n].digest == r.digest);
    }
    assert forall|j: int| i < j < all.len() implies (#[trigger] all[j]).total_ms.place()
        <= r.total_ms.place() by {
        assert(!<RowTimeKey as Key>::precedes(by_row_time()(all[j]), by_row_time()(all[i])));
    }
}

/// The statements of a shape on one node, from one collector.
pub open spec fn of_shape(r: DatabaseRowView) -> spec_fn(QueryView) -> bool {
    |q: QueryView|
        {
            &&& q.node == r.node
            &&& q.engine == r.engine
            &&& q.source == r.source
            &&& shape_of(q.digest) == r.digest
        }
}

/// A row of a shape adds up all its statements: the calls, the times and the rows are sums, the
/// averages follow from the sums, and a quantile is shown only where there is one statement.
pub proof fn shapes_add_up_their_statements(
    f: spec_fn(Op) -> Number,
    metrics: Seq<Metric>,
    options: DatabaseQueryOptions,
    i: int,
)
    requires
        options.sql_shape,
        0 <= i < database_rows(f, metrics, options).len(),
    ensures
        ({
            let r = database_rows(f, metrics, options)[i];
            let own = queries(f, wanted_aggregates(metrics, options)).filter(of_shape(r));
            let calls = total(f, own.map_values(|q: QueryView| q.calls));
            let time = total(f, own.map_values(|q: QueryView| q.total_ms));
            let examined = total(f, own.map_values(|q: QueryView| q.rows_examined));
            let per_call = |n: Number|
                if calls.magnitude() == 0 {
                    None
                } else {
                    Some(f(Op::Round(f(Op::Divide(n, calls)), 3)))
                };
            &&& own.len() > 0
            &&& r.sql_shape == Some(r.digest)
            &&& r.calls == f(Op::Round(calls, 0))
            &&& r.total_ms == f(Op::Round(time, 3))
            &&& r.avg_ms == per_call(time)
            &&& r.rows_examined == f(Op::Round(examined, 0))
            &&& r.rows_examined_per_call == per_call(examined)
            &&& r.lock_ms == f(Op::Round(total(f, own.map_values(|q: QueryView| q.lock_ms)), 3))
            &&& r.rows_sent == f(Op::Round(total(f, own.map_values(|q: QueryView| q.rows_sent)), 0))
            &&& r.p95_ms == if own.len() == 1 {
                to_places(f, own[0].p95_ms, 3)
            } else {
                None
            }
        }),
{
    aggregates_are_picked(metrics, options);
    let found = queries(f, wanted_aggregates(metrics, options));
    let rows = shape_rows(f, found);
    let made = rows.map_values(rounded_row(f));
    let all = database_rows(f, metrics, options);
    let r = all[i];
    sorting_keeps_items::<DatabaseRowView, DatabaseRowView, RowTimeKey>(
        made,
        by_row_time(),
        |v: DatabaseRowView| v,
    );
    assert(all.contains(r));
    let n = choose|n: int| 0 <= n < made.len() && made[n] == r;
    assert(made[n] == rounded_row(f)(rows[n]));
    let keys = found.map_values(by_shape());
    let names = distinct_sorted::<ShapeKey>(keys);
    let k = names[n];
    assert(rows[n] == shape_row(f, k, with_key(found, by_shape(), k)));
    keyed_items(found, by_shape(), k, of_shape(r));
    distinct_sorted_holds::<ShapeKey>(keys);
    assert(names.contains(k));
    let q = choose|q: int| 0 <= q < keys.len() && keys[q] == k;
    with_key_contains(found, by_shape(), q);
}

/// The rows of an answer over routes are the routes of what is asked for, in their order, with their
/// figures rounded: numbers of requests and bytes to whole numbers, times to three places and the
/// share of errors to six.
pub proof fn routes_are_shown_as_they_are(
    f: spec_fn(Op) -> Number,
    metrics: Seq<Metric>,
    options: HttpQueryOptions,
    i: int,
)
    requires
        0 <= i < http_rows(f, metrics, options).len(),
    ensures
        ({
            let r = http_rows(f, metrics, options)[i];
            let all = routes(
                f,
                metrics.filter(
                    picks(
                        options.node,
                        options.source,
                        options.labels@,
                        options.label_contains@,
                    ),
                ),
            );
            let v = all[i];
            &&& http_rows(f, metrics, options).len() == all.len()
            &&& r.node == v.node && r.method == v.method && r.route == v.route
            &&& r.count == f(Op::Round(v.count, 0))
            &&& r.errors == f(Op::Round(v.errors, 0))
            &&& r.error_rate == to_places(f, v.error_rate, 6)
            &&& r.total_ms == to_places(f, v.total_ms, 3)
            &&& r.avg_ms == to_places(f, v.avg_ms, 3)
            &&& r.min_ms == to_places(f, v.min_ms, 3)
            &&& r.max_ms == to_places(f, v.max_ms, 3)
            &&& r.p50_ms == to_places(f, v.p50_ms, 3)
            &&& r.p95_ms == to_places(f, v.p95_ms, 3)
            &&& r.p99_ms == to_places(f, v.p99_ms, 3)
            &&& r.response_bytes == to_places(f, v.response_bytes, 0)
        }),
{
}

/// How far a figure of a row changed, or how large it is where only one run has it, without its sign; zero
/// where the row has no such figure.
pub open spec fn extent_of(changes: Changes, name: Seq<char>) -> int {
    match lookup(changes, name) {
        None => 0,
        Some(d) => match (d.delta, d.candidate, d.base) {
            (Some(n), _, _) => n.magnitude(),
            (None, Some(n), _) => n.magnitude(),
            (None, None, Some(n)) => n.magnitude(),
            (None, None, None) => 0,
        },
    }
}

/// Every row of a comparison of two answers sets a row of one beside the row of the other with its key,
/// says which of them are there, and tells their changes. The figure that is asked about changed
/// most in the first row, and less in those that follow.
pub proof fn compared_rows_come_by_their_change<U, K: Key>(
    base: Seq<U>,
    candidate: Seq<U>,
    key: spec_fn(U) -> K::Model,
    key_of: spec_fn(U) -> Seq<Pair>,
    changes_of: spec_fn(Option<U>, Option<U>) -> Changes,
    preferred: Seq<char>,
    i: int,
)
    requires
        0 <= i < diff_rows::<U, K>(base, candidate, key, key_of, changes_of, preferred).len(),
    ensures
        ({
            let all = diff_rows::<U, K>(base, candidate, key, key_of, changes_of, preferred);
            let d = all[i];
            &&& d.base is Some ==> base.contains(d.base->0)
            &&& d.candidate is Some ==> candidate.contains(d.candidate->0)
            &&& d.base is Some && d.candidate is Some ==> key(d.base->0) == key(d.candidate->0)
            &&& d.presence is Both <==> d.base is Some && d.candidate is Some
            &&& d.presence is Added <==> d.base is None
            &&& d.presence is Removed <==> d.candidate is None
            &&& d.base is Some || d.candidate is Some
            &&& d.key == if d.base is Some {
                key_of(d.base->0)
            } else {
                key_of(d.candidate->0)
            }
            &&& d.changes == changes_of(d.base, d.candidate)
            &&& forall|j: int|
                i < j < all.len() ==> extent_of((#[trigger] all[j]).changes, preferred)
                    <= extent_of(d.changes, preferred)
        }),
{
    let pairs = pairs_of::<U, K>(base, candidate, key);
    let made = pairs.map_values(diff_row(key_of, changes_of));
    let all = diff_rows::<U, K>(base, candidate, key, key_of, changes_of, preferred);
    let d = all[i];
    sorting_keeps_items::<DiffRowView<U>, DiffRowView<U>, ChangeKey>(
        made,
        by_change(preferred),
        |v: DiffRowView<U>| v,
    );
    sorting_ascends::<DiffRowView<U>, ChangeKey>(made, by_change(preferred));
    assert(all.contains(d));
    let g = choose|g: int| 0 <= g < made.len() && made[g] == d;
    assert(made[g] == diff_row(key_of, changes_of)(pairs[g]));
    pair_is_of_rows::<U, K>(base, candidate, key, g);
    assert forall|j: int| i < j < all.len() implies extent_of(
        (#[trigger] all[j]).changes,
        preferred,
    ) <= extent_of(d.changes, preferred) by {
        assert(!<ChangeKey as Key>::precedes(
            by_change(preferred)(all[j]),
            by_change(preferred)(all[i]),
        ));
        size_is_extent(all[j].changes, preferred);
        size_is_extent(d.changes, preferred);
    }
}

proof fn size_is_extent(changes: Changes, name: Seq<char>)
    ensures
        magnitude_of(changes, name).place() == extent_of(changes, name),
{
}

} // verus!
