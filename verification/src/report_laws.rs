//! What the summaries of statements and routes tell of the metrics.
use crate::diff::{by_database, by_http};
use crate::join::{sorting_keeps_items, with_key, with_key_contains, with_key_holds};
use crate::labels::{ascending, lookup, with_label_holds};
use crate::model::Metric;
use crate::number::{Number, Op};
use crate::order::{distinct_sorted, distinct_sorted_holds, stable_sorted, Key};
use crate::order_laws::{choosing_twice, keyed_items, sorting_ascends, sorting_counts_alike};
use crate::report::{
    absorb_query, absorb_route, blank_query, blank_route, by_quality, by_query, by_query_time,
    by_route, by_route_time, by_source, candidates, counted, derived, filled, first_of,
    is_of_query, is_of_route, merged, queries, query_fold, query_of, route_of, routes,
    source_route, QualityKey, QueryKey, QueryKeyModel, QueryTimeKey, QueryView, RouteKey,
    RouteTimeKey, RouteView,
};
use vstd::prelude::*;

verus! {

/// The label of a metric, or a dash where it has none.
pub open spec fn label_of(m: Metric, name: Seq<char>) -> Seq<char> {
    match lookup(m.labels@, name) {
        Some(value) => value,
        None => "-"@,
    }
}

/// A metric is one of a statement, in its window, on its node and from its collector.
pub open spec fn is_of_statement(q: QueryView) -> spec_fn(Metric) -> bool {
    |m: Metric|
        {
            &&& lookup(m.labels@, "digest"@) == Some(q.digest)
            &&& lookup(m.labels@, "window"@) == q.window
            &&& lookup(m.labels@, "digest_id"@) == q.digest_id
            &&& label_of(m, "node"@) == q.node
            &&& label_of(m, "engine"@) == q.engine
            &&& label_of(m, "collector"@) == q.source
        }
}

/// A metric is one of those, and has this name.
pub open spec fn has_name(own: spec_fn(Metric) -> bool, name: Seq<char>) -> spec_fn(
    Metric,
) -> bool {
    |m: Metric| own(m) && m.name@ == name
}

/// The value that the last metric of a name gives, if there is one.
pub open spec fn last_value(
    metrics: Seq<Metric>,
    own: spec_fn(Metric) -> bool,
    name: Seq<char>,
) -> Option<Number> {
    let named = metrics.filter(has_name(own, name));
    if named.len() == 0 {
        None
    } else {
        Some(named.last().value)
    }
}

pub open spec fn or_none(value: Option<Number>) -> Number {
    match value {
        Some(n) => n,
        None => Number { bits: 0 },
    }
}

proof fn last_is_told(
    k: QueryKeyModel,
    metrics: Seq<Metric>,
    get: spec_fn(QueryView) -> Option<Number>,
    name: Seq<char>,
    first: Option<Number>,
)
    requires
        get(blank_query(k)) == first,
        forall|v: QueryView, m: Metric| #[trigger]
            get(absorb_query(v, m)) == if m.name@ == name {
                Some(m.value)
            } else {
                get(v)
            },
    ensures
        ({
            let named = metrics.filter(|m: Metric| m.name@ == name);
            get(query_fold(k, metrics)) == if named.len() == 0 {
                first
            } else {
                Some(named.last().value)
            }
        }),
    decreases metrics.len(),
{
    reveal(Seq::filter);
    if metrics.len() > 0 {
        last_is_told(k, metrics.drop_last(), get, name, first);
        let v = query_fold(k, metrics.drop_last());
        assert(get(absorb_query(v, metrics.last())) == if metrics.last().name@ == name {
            Some(metrics.last().value)
        } else {
            get(v)
        });
    }
}

proof fn query_names_differ()
    ensures
        "db.query.calls"@ != "db.query.total_duration"@,
        "db.query.calls"@ != "db.query.p95_duration"@,
        "db.query.calls"@ != "db.query.lock_duration"@,
        "db.query.calls"@ != "db.query.rows_sent"@,
        "db.query.calls"@ != "db.query.rows_examined"@,
        "db.query.total_duration"@ != "db.query.p95_duration"@,
        "db.query.total_duration"@ != "db.query.lock_duration"@,
        "db.query.total_duration"@ != "db.query.rows_sent"@,
        "db.query.total_duration"@ != "db.query.rows_examined"@,
        "db.query.p95_duration"@ != "db.query.lock_duration"@,
        "db.query.p95_duration"@ != "db.query.rows_sent"@,
        "db.query.p95_duration"@ != "db.query.rows_examined"@,
        "db.query.lock_duration"@ != "db.query.rows_sent"@,
        "db.query.lock_duration"@ != "db.query.rows_examined"@,
        "db.query.rows_sent"@ != "db.query.rows_examined"@,
{
    reveal_strlit("db.query.calls");
    reveal_strlit("db.query.total_duration");
    reveal_strlit("db.query.p95_duration");
    reveal_strlit("db.query.lock_duration");
    reveal_strlit("db.query.rows_sent");
    reveal_strlit("db.query.rows_examined");
    assert("db.query.calls"@[9] == 'c');
    assert("db.query.total_duration"@[9] == 't');
    assert("db.query.p95_duration"@[9] == 'p');
    assert("db.query.lock_duration"@[9] == 'l');
    assert("db.query.rows_sent"@[9] == 'r' && "db.query.rows_sent"@.len() == 18);
    assert("db.query.rows_examined"@[9] == 'r' && "db.query.rows_examined"@.len() == 22);
}

proof fn figure_is_told(
    metrics: Seq<Metric>,
    k: QueryKeyModel,
    q: QueryView,
    get: spec_fn(QueryView) -> Option<Number>,
    name: Seq<char>,
    first: Option<Number>,
)
    requires
        by_database()(q) == k,
        get(blank_query(k)) == first,
        forall|v: QueryView, m: Metric| #[trigger]
            get(absorb_query(v, m)) == if m.name@ == name {
                Some(m.value)
            } else {
                get(v)
            },
        exists|i: int|
            0 <= i < metrics.len() && is_of_query()(#[trigger] metrics[i]) && by_query()(metrics[i])
                == k,
    ensures
        get(query_fold(k, with_key(metrics.filter(is_of_query()), by_query(), k))) == match last_value(
            metrics,
            is_of_statement(q),
            name,
        ) {
            Some(n) => Some(n),
            None => first,
        },
{
    let chosen = metrics.filter(is_of_query());
    let key = by_query();
    let keyed = |m: Metric| key(m) == k;
    let own = is_of_statement(q);
    let members = with_key(chosen, key, k);
    keyed_items(chosen, key, k, keyed);
    let i = choose|i: int|
        0 <= i < metrics.len() && is_of_query()(#[trigger] metrics[i]) && by_query()(metrics[i])
            == k;
    assert forall|j: int| 0 <= j < metrics.len() implies own(#[trigger] metrics[j]) == (
    is_of_query()(metrics[j]) && keyed(metrics[j])) by {
        let m = metrics[j];
        if is_of_query()(m) && keyed(m) {
            assert(lookup(m.labels@, "digest"@) == Some(q.digest));
        }
    }
    choosing_twice(metrics, is_of_query(), keyed, own);
    assert(members == metrics.filter(own));
    let named = |m: Metric| m.name@ == name;
    let both = has_name(own, name);
    choosing_twice(metrics, own, named, both);
    last_is_told(k, members, get, name, first);
}

/// What is told of a statement is what its metrics say: each figure is the value of the metric that
/// it is named after, the averages follow from the sums, and a statement that took more time in all
/// comes first.
pub proof fn statements_tell_their_metrics(
    f: spec_fn(Op) -> Number,
    metrics: Seq<Metric>,
    i: int,
)
    requires
        0 <= i < queries(f, metrics).len(),
    ensures
        ({
            let q = queries(f, metrics)[i];
            let told = |name: Seq<char>| last_value(metrics, is_of_statement(q), name);
            &&& q.calls == or_none(told("db.query.calls"@))
            &&& q.total_ms == or_none(told("db.query.total_duration"@))
            &&& q.p95_ms == told("db.query.p95_duration"@)
            &&& q.lock_ms == or_none(told("db.query.lock_duration"@))
            &&& q.rows_sent == or_none(told("db.query.rows_sent"@))
            &&& q.rows_examined == or_none(told("db.query.rows_examined"@))
            &&& q.avg_ms == if q.calls.is_positive_spec() {
                Some(f(Op::Divide(q.total_ms, q.calls)))
            } else {
                None
            }
            &&& q.rows_examined_per_call == if q.calls.is_positive_spec() {
                Some(f(Op::Divide(q.rows_examined, q.calls)))
            } else {
                None
            }
            &&& forall|j: int|
                i < j < queries(f, metrics).len() ==> (#[trigger] queries(
                    f,
                    metrics,
                )[j]).total_ms.place() <= q.total_ms.place()
        }),
{
    let chosen = metrics.filter(is_of_query());
    let keys = chosen.map_values(by_query());
    let names = distinct_sorted::<QueryKey>(keys);
    let make = |k: QueryKeyModel| query_of(f, k, with_key(chosen, by_query(), k));
    let made = names.map_values(make);
    let all = queries(f, metrics);
    let q = all[i];
    sorting_keeps_items::<QueryView, QueryKeyModel, QueryTimeKey>(
        made,
        by_query_time(),
        by_database(),
    );
    sorting_ascends::<QueryView, QueryTimeKey>(made, by_query_time());
    assert(all.contains(q));
    let g = choose|g: int| 0 <= g < made.len() && made[g] == q;
    let k = names[g];
    assert(q == query_of(f, k, with_key(chosen, by_query(), k)));
    query_is_of(k, with_key(chosen, by_query(), k));
    assert(by_database()(q) == k);
    distinct_sorted_holds::<QueryKey>(keys);
    assert(names.contains(k));
    let n = choose|n: int| 0 <= n < keys.len() && keys[n] == k;
    assert(chosen.contains(chosen[n]));
    metrics.lemma_filter_pred(is_of_query(), n);
    metrics.lemma_filter_contains_rev(is_of_query(), chosen[n]);
    let p = choose|p: int| 0 <= p < metrics.len() && metrics[p] == chosen[n];
    assert(is_of_query()(metrics[p]) && by_query()(metrics[p]) == k);
    query_names_differ();
    let zero = Some(Number { bits: 0 });
    figure_is_told(metrics, k, q, |v: QueryView| Some(v.calls), "db.query.calls"@, zero);
    figure_is_told(
        metrics,
        k,
        q,
        |v: QueryView| Some(v.total_ms),
        "db.query.total_duration"@,
        zero,
    );
    figure_is_told(metrics, k, q, |v: QueryView| v.p95_ms, "db.query.p95_duration"@, None);
    figure_is_told(metrics, k, q, |v: QueryView| Some(v.lock_ms), "db.query.lock_duration"@, zero);
    figure_is_told(metrics, k, q, |v: QueryView| Some(v.rows_sent), "db.query.rows_sent"@, zero);
    figure_is_told(
        metrics,
        k,
        q,
        |v: QueryView| Some(v.rows_examined),
        "db.query.rows_examined"@,
        zero,
    );
    assert forall|j: int| i < j < all.len() implies (#[trigger] all[j]).total_ms.place()
        <= q.total_ms.place() by {
        assert(!<QueryTimeKey as Key>::precedes(by_query_time()(all[j]), by_query_time()(all[i])));
    }
}

proof fn query_is_of(k: QueryKeyModel, metrics: Seq<Metric>)
    ensures
        by_database()(query_fold(k, metrics)) == k,
    decreases metrics.len(),
{
    if metrics.len() > 0 {
        query_is_of(k, metrics.drop_last());
    }
}

/// Every metric of a statement stands for a row: no statement is passed over.
pub proof fn every_statement_has_a_row(f: spec_fn(Op) -> Number, metrics: Seq<Metric>, i: int)
    requires
        0 <= i < metrics.len(),
        lookup(metrics[i].labels@, "digest"@) is Some,
    ensures
        exists|g: int|
            0 <= g < queries(f, metrics).len() && is_of_statement(
                #[trigger] queries(f, metrics)[g],
            )(metrics[i]),
{
    let chosen = metrics.filter(is_of_query());
    let keys = chosen.map_values(by_query());
    let names = distinct_sorted::<QueryKey>(keys);
    let made = names.map_values(
        |k: QueryKeyModel| query_of(f, k, with_key(chosen, by_query(), k)),
    );
    let all = queries(f, metrics);
    metrics.lemma_filter_contains(is_of_query(), i);
    let n = choose|n: int| 0 <= n < chosen.len() && chosen[n] == metrics[i];
    let k = by_query()(metrics[i]);
    assert(keys[n] == k);
    assert(keys.contains(k));
    distinct_sorted_holds::<QueryKey>(keys);
    assert(names.contains(k));
    let g = choose|g: int| 0 <= g < names.len() && names[g] == k;
    let q = made[g];
    query_is_of(k, with_key(chosen, by_query(), k));
    sorting_keeps_items::<QueryView, QueryKeyModel, QueryTimeKey>(
        made,
        by_query_time(),
        by_database(),
    );
    assert(made.contains(q));
    assert(all.contains(q));
    let h = choose|h: int| 0 <= h < all.len() && all[h] == q;
    assert(by_database()(q) == k);
    assert(is_of_statement(all[h])(metrics[i]));
}

/// A metric is an aggregate of a route on its node.
pub open spec fn is_of_one_route(v: RouteView) -> spec_fn(Metric) -> bool {
    |m: Metric|
        {
            &&& m.timestamp is None
            &&& lookup(m.labels@, "method"@) == Some(v.method)
            &&& lookup(m.labels@, "route"@) == Some(v.route)
            &&& label_of(m, "node"@) == v.node
        }
}

/// The metrics of some kind that a list holds give what is shown: something is shown exactly where
/// there is one, and it is the value of one of them.
pub open spec fn is_told(
    metrics: Seq<Metric>,
    own: spec_fn(Metric) -> bool,
    kind: spec_fn(Metric) -> bool,
    shown: Option<Number>,
) -> bool {
    match shown {
        Some(n) => exists|i: int|
            0 <= i < metrics.len() && own(#[trigger] metrics[i]) && kind(metrics[i])
                && metrics[i].value == n,
        None => forall|i: int|
            0 <= i < metrics.len() && own(#[trigger] metrics[i]) ==> !kind(metrics[i]),
    }
}

/// A metric with this name.
pub open spec fn called(name: Seq<char>) -> spec_fn(Metric) -> bool {
    |m: Metric| m.name@ == name
}

/// A duration at this quantile.
pub open spec fn at_quantile(quantile: Seq<char>) -> spec_fn(Metric) -> bool {
    |m: Metric|
        m.name@ == "http.request_duration"@ && lookup(m.labels@, "quantile"@) == Some(quantile)
}

/// How a field of a summary is read: from metrics of one kind, and from the next summary where it is
/// missing.
spec fn is_field(get: spec_fn(RouteView) -> Option<Number>, kind: spec_fn(Metric) -> bool) -> bool {
    &&& forall|k: RouteKey| get(#[trigger] blank_route(k)) is None
    &&& forall|v: RouteView, m: Metric| #[trigger]
        get(absorb_route(v, m)) == if kind(m) {
            Some(m.value)
        } else {
            get(v)
        }
    &&& forall|f: spec_fn(Op) -> Number, v: RouteView| #[trigger] get(counted(f, v)) == get(v)
    &&& forall|v: RouteView, other: RouteView| #[trigger]
        get(filled(v, other)) == first_of(get(v), get(other))
}

proof fn source_tells(
    k: RouteKey,
    metrics: Seq<Metric>,
    get: spec_fn(RouteView) -> Option<Number>,
    kind: spec_fn(Metric) -> bool,
)
    requires
        is_field(get, kind),
    ensures
        is_told(metrics, |m: Metric| true, kind, get(source_route(k, metrics))),
    decreases metrics.len(),
{
    if metrics.len() > 0 {
        let rest = metrics.drop_last();
        let v = source_route(k, rest);
        source_tells(k, rest, get, kind);
        assert(get(absorb_route(v, metrics.last())) == if kind(metrics.last()) {
            Some(metrics.last().value)
        } else {
            get(v)
        });
        let last = metrics.len() - 1;
        if kind(metrics[last]) {
            assert(metrics[last].value == metrics.last().value);
        } else {
            match get(v) {
                Some(n) => {
                    let i = choose|i: int|
                        0 <= i < rest.len() && kind(#[trigger] rest[i]) && rest[i].value == n;
                    assert(metrics[i] == rest[i]);
                },
                None => {
                    assert forall|i: int| 0 <= i < metrics.len() implies !kind(
                        #[trigger] metrics[i],
                    ) by {
                        if i < last {
                            assert(rest[i] == metrics[i]);
                        }
                    }
                },
            }
        }
    } else {
        assert(get(blank_route(k)) is None);
    }
}

proof fn merging_tells(ranked: Seq<RouteView>, get: spec_fn(RouteView) -> Option<Number>)
    requires
        ranked.len() > 0,
        forall|v: RouteView, other: RouteView| #[trigger]
            get(filled(v, other)) == first_of(get(v), get(other)),
    ensures
        get(merged(ranked)) is None ==> forall|i: int|
            0 <= i < ranked.len() ==> get(#[trigger] ranked[i]) is None,
        get(merged(ranked)) is Some ==> exists|i: int|
            0 <= i < ranked.len() && get(#[trigger] ranked[i]) == get(merged(ranked)),
    decreases ranked.len(),
{
    if ranked.len() > 1 {
        let rest = ranked.drop_last();
        merging_tells(rest, get);
        assert(get(filled(merged(rest), ranked.last())) == first_of(
            get(merged(rest)),
            get(ranked.last()),
        ));
        let last = ranked.len() - 1;
        assert(ranked[last] == ranked.last());
        if get(merged(rest)) is Some {
            let i = choose|i: int| 0 <= i < rest.len() && get(#[trigger] rest[i]) == get(merged(rest));
            assert(ranked[i] == rest[i]);
        } else {
            assert forall|i: int|
                0 <= i < ranked.len() && get(merged(ranked)) is None implies get(
                #[trigger] ranked[i],
            ) is None by {
                if i < last {
                    assert(rest[i] == ranked[i]);
                }
            }
        }
    } else {
        assert(get(ranked[0]) == get(merged(ranked)));
    }
}

/// A figure of a route before the averages are worked out.
proof fn route_tells(
    f: spec_fn(Op) -> Number,
    k: RouteKey,
    metrics: Seq<Metric>,
    get: spec_fn(RouteView) -> Option<Number>,
    kind: spec_fn(Metric) -> bool,
)
    requires
        metrics.len() > 0,
        is_field(get, kind),
    ensures
        is_told(
            metrics,
            |m: Metric| true,
            kind,
            get(
                merged(
                    stable_sorted::<RouteView, QualityKey>(
                        candidates(f, k, metrics),
                        by_quality(),
                    ),
                ),
            ),
        ),
{
    let keys = metrics.map_values(by_source());
    let names = distinct_sorted::<String>(keys);
    let each = |s: Seq<char>| counted(f, source_route(k, with_key(metrics, by_source(), s)));
    let found = candidates(f, k, metrics);
    let ranked = stable_sorted::<RouteView, QualityKey>(found, by_quality());
    sorting_keeps_items::<RouteView, RouteKey, QualityKey>(found, by_quality(), by_http());
    sorting_counts_alike::<RouteView, QualityKey>(found, by_quality(), |v: RouteView| true);
    distinct_sorted_holds::<String>(keys);
    assert(keys.contains(keys[0]));
    assert(names.contains(keys[0]));
    assert(found.len() == names.len());
    merging_tells(ranked, get);
    let shown = get(merged(ranked));
    match shown {
        Some(n) => {
            let i = choose|i: int| 0 <= i < ranked.len() && get(#[trigger] ranked[i]) == shown;
            assert(ranked.contains(ranked[i]));
            let g = choose|g: int| 0 <= g < found.len() && found[g] == ranked[i];
            let own = with_key(metrics, by_source(), names[g]);
            assert(found[g] == counted(f, source_route(k, own)));
            source_tells(k, own, get, kind);
            let j = choose|j: int|
                0 <= j < own.len() && kind(#[trigger] own[j]) && own[j].value == n;
            with_key_holds(metrics, by_source(), names[g], j);
            let p = choose|p: int| 0 <= p < metrics.len() && metrics[p] == own[j];
            assert(kind(metrics[p]) && metrics[p].value == n);
        },
        None => {
            assert forall|j: int| 0 <= j < metrics.len() implies !kind(#[trigger] metrics[j]) by {
                with_key_contains(metrics, by_source(), j);
                let s = by_source()(metrics[j]);
                assert(keys[j] == s);
                assert(keys.contains(s));
                assert(names.contains(s));
                let g = choose|g: int| 0 <= g < names.len() && names[g] == s;
                let own = with_key(metrics, by_source(), s);
                assert(found[g] == counted(f, source_route(k, own)));
                assert(found.contains(found[g]));
                assert(ranked.contains(found[g]));
                let r = choose|r: int| 0 <= r < ranked.len() && ranked[r] == found[g];
                assert(get(ranked[r]) is None);
                source_tells(k, own, get, kind);
                let q = choose|q: int| 0 <= q < own.len() && own[q] == metrics[j];
                assert(!kind(own[q]));
            }
        },
    }
}

proof fn route_is_of(f: spec_fn(Op) -> Number, k: RouteKey, metrics: Seq<Metric>)
    requires
        metrics.len() > 0,
    ensures
        by_http()(
            merged(
                stable_sorted::<RouteView, QualityKey>(candidates(f, k, metrics), by_quality()),
            ),
        ) == k,
{
    let keys = metrics.map_values(by_source());
    let names = distinct_sorted::<String>(keys);
    let found = candidates(f, k, metrics);
    let ranked = stable_sorted::<RouteView, QualityKey>(found, by_quality());
    sorting_keeps_items::<RouteView, RouteKey, QualityKey>(found, by_quality(), by_http());
    sorting_counts_alike::<RouteView, QualityKey>(found, by_quality(), |v: RouteView| true);
    distinct_sorted_holds::<String>(keys);
    assert(keys.contains(keys[0]));
    assert(names.contains(keys[0]));
    assert forall|i: int| 0 <= i < ranked.len() implies by_http()(#[trigger] ranked[i]) == k by {
        assert(ranked.contains(ranked[i]));
        let g = choose|g: int| 0 <= g < found.len() && found[g] == ranked[i];
        source_is_of(k, with_key(metrics, by_source(), names[g]));
        assert(found[g] == counted(f, source_route(k, with_key(metrics, by_source(), names[g]))));
    }
    merging_is_of(ranked, k);
}

proof fn source_is_of(k: RouteKey, metrics: Seq<Metric>)
    ensures
        by_http()(source_route(k, metrics)) == k,
    decreases metrics.len(),
{
    if metrics.len() > 0 {
        source_is_of(k, metrics.drop_last());
    }
}

proof fn merging_is_of(ranked: Seq<RouteView>, k: RouteKey)
    requires
        ranked.len() > 0,
        forall|i: int| 0 <= i < ranked.len() ==> by_http()(#[trigger] ranked[i]) == k,
    ensures
        by_http()(merged(ranked)) == k,
    decreases ranked.len(),
{
    if ranked.len() > 1 {
        let rest = ranked.drop_last();
        assert forall|i: int| 0 <= i < rest.len() implies by_http()(#[trigger] rest[i]) == k by {
            assert(rest[i] == ranked[i]);
        }
        merging_is_of(rest, k);
    }
}

spec fn route_metric_names() -> Seq<Seq<char>> {
    seq![
        "http.requests"@,
        "http.errors"@,
        "http.response_bytes"@,
        "http.request_duration_sum"@,
        "http.request_duration_mean"@,
        "http.request_duration_min"@,
        "http.request_duration_max"@,
        "http.request_duration"@,
    ]
}

proof fn route_names_differ()
    ensures
        forall|i: int, j: int|
            0 <= i < j < 8 ==> #[trigger] route_metric_names()[i]
                != #[trigger] route_metric_names()[j],
        "0.50"@ != "0.95"@,
        "0.50"@ != "0.99"@,
        "0.95"@ != "0.99"@,
{
    reveal_strlit("http.requests");
    reveal_strlit("http.errors");
    reveal_strlit("http.response_bytes");
    reveal_strlit("http.request_duration_sum");
    reveal_strlit("http.request_duration_mean");
    reveal_strlit("http.request_duration_min");
    reveal_strlit("http.request_duration_max");
    reveal_strlit("http.request_duration");
    reveal_strlit("0.50");
    reveal_strlit("0.95");
    reveal_strlit("0.99");
    assert("http.requests"@.len() == 13 && "http.errors"@.len() == 11);
    assert("http.response_bytes"@.len() == 19 && "http.request_duration"@.len() == 21);
    assert("http.request_duration_sum"@.len() == 25 && "http.request_duration_mean"@.len() == 26);
    assert("http.request_duration_min"@.len() == 25 && "http.request_duration_max"@.len() == 25);
    assert("http.request_duration_sum"@[22] == 's');
    assert("http.request_duration_min"@[23] == 'i' && "http.request_duration_min"@[22] == 'm');
    assert("http.request_duration_max"@[23] == 'a' && "http.request_duration_max"@[22] == 'm');
    assert("0.50"@[2] == '5' && "0.95"@[2] == '9' && "0.95"@[3] == '5' && "0.99"@[3] == '9');
}

proof fn fields_of_routes()
    ensures
        is_field(|v: RouteView| v.p50_ms, at_quantile("0.50"@)),
        is_field(|v: RouteView| v.p95_ms, at_quantile("0.95"@)),
        is_field(|v: RouteView| v.p99_ms, at_quantile("0.99"@)),
        is_field(|v: RouteView| v.min_ms, called("http.request_duration_min"@)),
        is_field(|v: RouteView| v.max_ms, called("http.request_duration_max"@)),
        is_field(|v: RouteView| v.response_bytes, called("http.response_bytes"@)),
        is_field(|v: RouteView| v.total_ms, called("http.request_duration_sum"@)),
        is_field(|v: RouteView| v.avg_ms, called("http.request_duration_mean"@)),
{
    route_names_differ();
    let names = route_metric_names();
    assert(names[0] == "http.requests"@ && names[1] == "http.errors"@ && names[2]
        == "http.response_bytes"@ && names[3] == "http.request_duration_sum"@ && names[4]
        == "http.request_duration_mean"@ && names[5] == "http.request_duration_min"@ && names[6]
        == "http.request_duration_max"@ && names[7] == "http.request_duration"@);
}

/// What is told of a route is what its metrics say: each duration and the bytes are the value of a
/// metric of that kind, and are there exactly where the route has one. The total, the average and the
/// share of errors follow from the rest, and a route that took more time in all comes first.
pub proof fn routes_tell_their_metrics(f: spec_fn(Op) -> Number, metrics: Seq<Metric>, i: int)
    requires
        0 <= i < routes(f, metrics).len(),
    ensures
        ({
            let v = routes(f, metrics)[i];
            let own = is_of_one_route(v);
            let tells = |kind: spec_fn(Metric) -> bool, shown: Option<Number>|
                is_told(metrics, own, kind, shown);
            &&& tells(at_quantile("0.50"@), v.p50_ms)
            &&& tells(at_quantile("0.95"@), v.p95_ms)
            &&& tells(at_quantile("0.99"@), v.p99_ms)
            &&& tells(called("http.request_duration_min"@), v.min_ms)
            &&& tells(called("http.request_duration_max"@), v.max_ms)
            &&& tells(called("http.response_bytes"@), v.response_bytes)
            &&& tells(called("http.request_duration_sum"@), v.total_ms) || (tells(
                called("http.request_duration_sum"@),
                None,
            ) && v.avg_ms is Some && v.total_ms == Some(
                f(Op::Multiply(v.avg_ms->0, v.count)),
            ))
            &&& tells(called("http.request_duration_mean"@), v.avg_ms) || (tells(
                called("http.request_duration_mean"@),
                None,
            ) && v.total_ms is Some && v.avg_ms == Some(f(Op::Divide(v.total_ms->0, v.count))))
            &&& v.error_rate == if v.count.is_positive_spec() {
                Some(f(Op::Divide(v.errors, v.count)))
            } else {
                None
            }
            &&& forall|j: int|
                i < j < routes(f, metrics).len() ==> or_none(
                    (#[trigger] routes(f, metrics)[j]).total_ms,
                ).place() <= or_none(v.total_ms).place()
        }),
{
    let chosen = metrics.filter(is_of_route());
    let keys = chosen.map_values(by_route());
    let names = distinct_sorted::<(String, (String, String))>(keys);
    let make = |k: RouteKey| route_of(f, k, with_key(chosen, by_route(), k));
    let made = names.map_values(make);
    let all = routes(f, metrics);
    let v = all[i];
    sorting_keeps_items::<RouteView, RouteKey, RouteTimeKey>(made, by_route_time(), by_http());
    sorting_ascends::<RouteView, RouteTimeKey>(made, by_route_time());
    assert(all.contains(v));
    let g = choose|g: int| 0 <= g < made.len() && made[g] == v;
    let k = names[g];
    let members = with_key(chosen, by_route(), k);
    assert(v == route_of(f, k, members));
    distinct_sorted_holds::<(String, (String, String))>(keys);
    assert(names.contains(k));
    let n = choose|n: int| 0 <= n < keys.len() && keys[n] == k;
    with_key_contains(chosen, by_route(), n);
    route_is_of(f, k, members);
    let key = by_route();
    let keyed = |m: Metric| key(m) == k;
    keyed_items(chosen, key, k, keyed);
    let own = is_of_one_route(v);
    metrics.lemma_filter_pred(is_of_route(), n);
    assert forall|j: int| 0 <= j < metrics.len() implies own(#[trigger] metrics[j]) == (
    is_of_route()(metrics[j]) && keyed(metrics[j])) by {}
    choosing_twice(metrics, is_of_route(), keyed, own);
    assert(members == metrics.filter(own));
    let before = merged(
        stable_sorted::<RouteView, QualityKey>(candidates(f, k, members), by_quality()),
    );
    assert(v == derived(f, before));
    fields_of_routes();
    one_figure(f, k, metrics, own, |v: RouteView| v.p50_ms, at_quantile("0.50"@));
    one_figure(f, k, metrics, own, |v: RouteView| v.p95_ms, at_quantile("0.95"@));
    one_figure(f, k, metrics, own, |v: RouteView| v.p99_ms, at_quantile("0.99"@));
    one_figure(f, k, metrics, own, |v: RouteView| v.min_ms, called("http.request_duration_min"@));
    one_figure(f, k, metrics, own, |v: RouteView| v.max_ms, called("http.request_duration_max"@));
    one_figure(f, k, metrics, own, |v: RouteView| v.response_bytes, called("http.response_bytes"@));
    one_figure(f, k, metrics, own, |v: RouteView| v.total_ms, called("http.request_duration_sum"@));
    one_figure(f, k, metrics, own, |v: RouteView| v.avg_ms, called("http.request_duration_mean"@));
    assert forall|j: int| i < j < all.len() implies or_none(
        (#[trigger] all[j]).total_ms,
    ).place() <= or_none(v.total_ms).place() by {
        assert(!<RouteTimeKey as Key>::precedes(by_route_time()(all[j]), by_route_time()(all[i])));
    }
}

proof fn one_figure(
    f: spec_fn(Op) -> Number,
    k: RouteKey,
    metrics: Seq<Metric>,
    own: spec_fn(Metric) -> bool,
    get: spec_fn(RouteView) -> Option<Number>,
    kind: spec_fn(Metric) -> bool,
)
    requires
        metrics.filter(own).len() > 0,
        is_field(get, kind),
    ensures
        is_told(
            metrics,
            own,
            kind,
            get(
                merged(
                    stable_sorted::<RouteView, QualityKey>(
                        candidates(f, k, metrics.filter(own)),
                        by_quality(),
                    ),
                ),
            ),
        ),
{
    let members = metrics.filter(own);
    route_tells(f, k, members, get, kind);
    let shown = get(
        merged(stable_sorted::<RouteView, QualityKey>(candidates(f, k, members), by_quality())),
    );
    match shown {
        Some(n) => {
            let i = choose|i: int|
                0 <= i < members.len() && kind(#[trigger] members[i]) && members[i].value == n;
            metrics.lemma_filter_pred(own, i);
            assert(members.contains(members[i]));
            metrics.lemma_filter_contains_rev(own, members[i]);
            let j = choose|j: int| 0 <= j < metrics.len() && metrics[j] == members[i];
            assert(own(metrics[j]) && kind(metrics[j]) && metrics[j].value == n);
        },
        None => {
            assert forall|j: int| 0 <= j < metrics.len() && own(#[trigger] metrics[j]) implies !kind(
                metrics[j],
            ) by {
                metrics.lemma_filter_contains(own, j);
                let i = choose|i: int| 0 <= i < members.len() && members[i] == metrics[j];
                assert(!kind(members[i]));
            }
        },
    }
}

/// Requests that are not parted by status.
pub open spec fn all_requests() -> spec_fn(Metric) -> bool {
    |m: Metric| m.name@ == "http.requests"@ && lookup(m.labels@, "status_class"@) is None
}

/// Requests with a status of one class.
pub open spec fn requests_of_class(class: Seq<char>) -> spec_fn(Metric) -> bool {
    |m: Metric| m.name@ == "http.requests"@ && lookup(m.labels@, "status_class"@) == Some(class)
}

/// The last value of a kind in a list.
pub open spec fn last_of_kind(metrics: Seq<Metric>, kind: spec_fn(Metric) -> bool) -> Option<
    Number,
> {
    let found = metrics.filter(kind);
    if found.len() == 0 {
        None
    } else {
        Some(found.last().value)
    }
}

proof fn last_of_source(k: RouteKey, metrics: Seq<Metric>, class: Seq<char>)
    ensures
        source_route(k, metrics).errors == or_none(last_of_kind(metrics, called("http.errors"@))),
        source_route(k, metrics).count == or_none(last_of_kind(metrics, all_requests())),
        ascending(source_route(k, metrics).status_counts),
        lookup(source_route(k, metrics).status_counts, class) == last_of_kind(
            metrics,
            requests_of_class(class),
        ),
    decreases metrics.len(),
{
    reveal(Seq::filter);
    if metrics.len() > 0 {
        let rest = metrics.drop_last();
        let m = metrics.last();
        last_of_source(k, rest, class);
        route_names_differ();
        assert(route_metric_names()[0] == "http.requests"@);
        assert(route_metric_names()[1] == "http.errors"@);
        let v = source_route(k, rest);
        if m.name@ == "http.requests"@ && lookup(m.labels@, "status_class"@) is Some {
            with_label_holds(v.status_counts, lookup(m.labels@, "status_class"@)->0, m.value);
        }
    }
}

/// What one collector alone tells of a route: the requests and the errors are the last that it
/// counted, in all and for each class of statuses.
pub proof fn one_collector_is_believed(
    f: spec_fn(Op) -> Number,
    metrics: Seq<Metric>,
    i: int,
    collector: Seq<char>,
    class: Seq<char>,
)
    requires
        0 <= i < routes(f, metrics).len(),
        forall|j: int|
            0 <= j < metrics.len() && is_of_one_route(routes(f, metrics)[i])(#[trigger] metrics[j])
                ==> label_of(metrics[j], "collector"@) == collector,
    ensures
        ({
            let v = routes(f, metrics)[i];
            let own = metrics.filter(is_of_one_route(v));
            let requests = or_none(last_of_kind(own, all_requests()));
            &&& v.errors == or_none(last_of_kind(own, called("http.errors"@)))
            &&& !requests.is_zero_spec() || v.status_counts.len() == 0 ==> v.count == requests
            &&& lookup(v.status_counts, class) == last_of_kind(own, requests_of_class(class))
        }),
{
    let chosen = metrics.filter(is_of_route());
    let keys = chosen.map_values(by_route());
    let names = distinct_sorted::<(String, (String, String))>(keys);
    let make = |k: RouteKey| route_of(f, k, with_key(chosen, by_route(), k));
    let made = names.map_values(make);
    let all = routes(f, metrics);
    let v = all[i];
    sorting_keeps_items::<RouteView, RouteKey, RouteTimeKey>(made, by_route_time(), by_http());
    assert(all.contains(v));
    let g = choose|g: int| 0 <= g < made.len() && made[g] == v;
    let k = names[g];
    let members = with_key(chosen, by_route(), k);
    assert(v == route_of(f, k, members));
    distinct_sorted_holds::<(String, (String, String))>(keys);
    assert(names.contains(k));
    let n = choose|n: int| 0 <= n < keys.len() && keys[n] == k;
    with_key_contains(chosen, by_route(), n);
    route_is_of(f, k, members);
    let key = by_route();
    let keyed = |m: Metric| key(m) == k;
    keyed_items(chosen, key, k, keyed);
    let own = is_of_one_route(v);
    metrics.lemma_filter_pred(is_of_route(), n);
    assert forall|j: int| 0 <= j < metrics.len() implies own(#[trigger] metrics[j]) == (
    is_of_route()(metrics[j]) && keyed(metrics[j])) by {}
    choosing_twice(metrics, is_of_route(), keyed, own);
    assert(members == metrics.filter(own));
    assert forall|j: int| 0 <= j < members.len() implies by_source()(#[trigger] members[j])
        == collector by {
        metrics.lemma_filter_pred(own, j);
        assert(members.contains(members[j]));
        metrics.lemma_filter_contains_rev(own, members[j]);
        let p = choose|p: int| 0 <= p < metrics.len() && metrics[p] == members[j];
        assert(own(metrics[p]));
    }
    let sources = members.map_values(by_source());
    let said = distinct_sorted::<String>(sources);
    distinct_sorted_holds::<String>(sources);
    crate::join::sorted_keys_are_distinct::<String>(sources);
    assert(sources[0] == collector);
    assert(sources.contains(collector));
    assert forall|j: int| 0 <= j < said.len() implies #[trigger] said[j] == collector by {
        assert(said.contains(said[j]));
        let p = choose|p: int| 0 <= p < sources.len() && sources[p] == said[j];
        assert(by_source()(members[p]) == collector);
    }
    assert(said.contains(collector));
    if said.len() > 1 {
        assert(said[0] != said[1]);
    }
    assert(said.len() == 1);
    keyed_items(members, by_source(), collector, |m: Metric| true);
    everything_is_kept(members);
    let found = candidates(f, k, members);
    assert(found[0] == counted(f, source_route(k, members)));
    let ranked = stable_sorted::<RouteView, QualityKey>(found, by_quality());
    sorting_keeps_items::<RouteView, RouteKey, QualityKey>(found, by_quality(), by_http());
    sorting_counts_alike::<RouteView, QualityKey>(found, by_quality(), |v: RouteView| true);
    assert(ranked.contains(ranked[0]));
    assert(ranked[0] == found[0]);
    last_of_source(k, members, class);
}

proof fn everything_is_kept(metrics: Seq<Metric>)
    ensures
        metrics.filter(|m: Metric| true) == metrics,
    decreases metrics.len(),
{
    reveal(Seq::filter);
    if metrics.len() > 0 {
        everything_is_kept(metrics.drop_last());
        assert(metrics.drop_last().push(metrics.last()) == metrics);
    }
}

/// Every aggregate of a route stands for a row: no route is passed over.
pub proof fn every_route_has_a_row(f: spec_fn(Op) -> Number, metrics: Seq<Metric>, i: int)
    requires
        0 <= i < metrics.len(),
        metrics[i].timestamp is None,
        lookup(metrics[i].labels@, "method"@) is Some,
        lookup(metrics[i].labels@, "route"@) is Some,
    ensures
        exists|g: int|
            0 <= g < routes(f, metrics).len() && is_of_one_route(
                #[trigger] routes(f, metrics)[g],
            )(metrics[i]),
{
    let chosen = metrics.filter(is_of_route());
    let keys = chosen.map_values(by_route());
    let names = distinct_sorted::<(String, (String, String))>(keys);
    let made = names.map_values(|k: RouteKey| route_of(f, k, with_key(chosen, by_route(), k)));
    let all = routes(f, metrics);
    metrics.lemma_filter_contains(is_of_route(), i);
    let n = choose|n: int| 0 <= n < chosen.len() && chosen[n] == metrics[i];
    let k = by_route()(metrics[i]);
    assert(keys[n] == k);
    assert(keys.contains(k));
    distinct_sorted_holds::<(String, (String, String))>(keys);
    assert(names.contains(k));
    let g = choose|g: int| 0 <= g < names.len() && names[g] == k;
    let v = made[g];
    with_key_contains(chosen, by_route(), n);
    route_is_of(f, k, with_key(chosen, by_route(), k));
    sorting_keeps_items::<RouteView, RouteKey, RouteTimeKey>(made, by_route_time(), by_http());
    assert(made.contains(v));
    assert(all.contains(v));
    let h = choose|h: int| 0 <= h < all.len() && all[h] == v;
    assert(by_http()(v) == k);
    assert(is_of_one_route(all[h])(metrics[i]));
}

} // verus!
