//! What a comparison of two runs tells of their rows.
use crate::diff::{
    by_cpu, by_cpu_change, by_database, by_database_change, by_host, by_host_change, by_http,
    by_http_change, by_transition, by_transition_change, cpu_change, cpu_changes, database_change,
    database_changes, host_change, host_changes, http_change, http_changes, transition_change,
    transition_changes, HostChange, NumericDiff, Presence, RouteChange, StatementChange,
    SymbolChange, TransitionChange,
};
use crate::join::{last_with, last_with_holds, pairs_of, sorting_keeps_items, union_keys};
use crate::model::TransitionView;
use crate::number::{Number, Op};
use crate::order::{distinct_sorted_holds, Key, Reverse};
use crate::order_laws::sorting_ascends;
use crate::report::{HostView, QueryKey, QueryView, RouteView, SymbolView};
use vstd::prelude::*;

verus! {

/// `d` compares two figures: it holds both, and where both are there the second less the first. In
/// percent that is a hundred times its share of the first, where the first is not zero.
pub open spec fn compares(
    f: spec_fn(Op) -> Number,
    base: Option<Number>,
    candidate: Option<Number>,
    d: NumericDiff,
) -> bool {
    &&& d.base == base
    &&& d.candidate == candidate
    &&& match (base, candidate) {
        (Some(b), Some(c)) => {
            &&& d.delta == Some(f(Op::Subtract(c, b)))
            &&& d.delta_percent == if b.magnitude() == 0 {
                None
            } else {
                Some(
                    f(
                        Op::Multiply(
                            f(Op::Divide(f(Op::Subtract(c, b)), b)),
                            f(Op::Integer(100)),
                        ),
                    ),
                )
            }
        },
        _ => d.delta is None && d.delta_percent is None,
    }
}

/// How far a figure changed, or how large it is where only one run has it, without its sign.
pub open spec fn extent(d: NumericDiff) -> int {
    match (d.delta, d.candidate, d.base) {
        (Some(n), _, _) => n.magnitude(),
        (None, Some(n), _) => n.magnitude(),
        (None, None, Some(n)) => n.magnitude(),
        (None, None, None) => 0,
    }
}

proof fn extent_is_size(d: NumericDiff)
    ensures
        d.size().place() == extent(d),
{
}

/// A figure of a row, where there is a row.
pub open spec fn figure<U>(row: Option<U>, read: spec_fn(U) -> Option<Number>) -> Option<Number> {
    match row {
        Some(v) => read(v),
        None => None,
    }
}

/// The two rows are rows of the two runs, one of them at least is there, and the word for where a row
/// was found fits them.
pub open spec fn are_rows_of<U>(
    base: Seq<U>,
    candidate: Seq<U>,
    b: Option<U>,
    c: Option<U>,
    presence: Presence,
) -> bool {
    &&& b is Some ==> base.contains(b->0)
    &&& c is Some ==> candidate.contains(c->0)
    &&& match presence {
        Presence::Both => b is Some && c is Some,
        Presence::Added => b is None && c is Some,
        Presence::Removed => b is Some && c is None,
    }
}

/// A pair of a join: two rows of one key.
pub proof fn pair_is_of_rows<U, K: Key>(
    base: Seq<U>,
    candidate: Seq<U>,
    key: spec_fn(U) -> K::Model,
    i: int,
)
    requires
        0 <= i < pairs_of::<U, K>(base, candidate, key).len(),
    ensures
        ({
            let p = pairs_of::<U, K>(base, candidate, key)[i];
            &&& p.0 is Some ==> base.contains(p.0->0)
            &&& p.1 is Some ==> candidate.contains(p.1->0)
            &&& p.0 is Some && p.1 is Some ==> key(p.0->0) == key(p.1->0)
            &&& p.0 is Some || p.1 is Some
        }),
{
    let before = base.map_values(key);
    let after = candidate.map_values(key);
    let keys = union_keys::<K>(before, after);
    let k = keys[i];
    distinct_sorted_holds::<K>(before + after);
    assert(keys.contains(k));
    let n = choose|n: int| 0 <= n < (before + after).len() && (before + after)[n] == k;
    last_has_its_key(base, key, k);
    last_has_its_key(candidate, key, k);
    last_with_holds(base, key, k);
    last_with_holds(candidate, key, k);
    if n < before.len() {
        assert(key(base[n]) == k);
    } else {
        assert(key(candidate[n - before.len()]) == k);
    }
}

proof fn last_has_its_key<U, M>(items: Seq<U>, key: spec_fn(U) -> M, k: M)
    ensures
        last_with(items, key, k) matches Some(t) ==> key(t) == k,
        last_with(items, key, k) is None ==> forall|i: int|
            0 <= i < items.len() ==> key(#[trigger] items[i]) != k,
    decreases items.len(),
{
    if items.len() > 0 {
        let rest = items.drop_last();
        last_has_its_key(rest, key, k);
        assert forall|i: int|
            0 <= i < items.len() && last_with(items, key, k) is None implies key(
            #[trigger] items[i],
        ) != k by {
            if i < rest.len() {
                assert(rest[i] == items[i]);
            }
        }
    }
}

/// Routes are compared figure by figure: each row of a comparison sets a route of one run beside
/// the same route of the other, each figure beside itself, and the total time that changed most
/// comes first.
pub proof fn routes_are_compared(
    f: spec_fn(Op) -> Number,
    base: Seq<RouteView>,
    candidate: Seq<RouteView>,
    i: int,
)
    requires
        0 <= i < http_changes(f, base, candidate).len(),
    ensures
        ({
            let d = http_changes(f, base, candidate)[i];
            &&& exists|b: Option<RouteView>, c: Option<RouteView>|
                {
                    &&& #[trigger] are_rows_of(base, candidate, b, c, d.presence)
                    &&& b matches Some(v) ==> v.node == d.node
                    &&& c matches Some(v) ==> v.node == d.node
                    &&& b matches Some(v) ==> v.method == d.method
                    &&& c matches Some(v) ==> v.method == d.method
                    &&& b matches Some(v) ==> v.route == d.route
                    &&& c matches Some(v) ==> v.route == d.route
                    &&& compares(
                        f,
                        figure(b, |v: RouteView| Some(v.count)),
                        figure(c, |v: RouteView| Some(v.count)),
                        d.count,
                    )
                    &&& compares(
                        f,
                        figure(b, |v: RouteView| v.total_ms),
                        figure(c, |v: RouteView| v.total_ms),
                        d.total_ms,
                    )
                    &&& compares(
                        f,
                        figure(b, |v: RouteView| v.avg_ms),
                        figure(c, |v: RouteView| v.avg_ms),
                        d.avg_ms,
                    )
                    &&& compares(
                        f,
                        figure(b, |v: RouteView| v.p50_ms),
                        figure(c, |v: RouteView| v.p50_ms),
                        d.p50_ms,
                    )
                    &&& compares(
                        f,
                        figure(b, |v: RouteView| v.p95_ms),
                        figure(c, |v: RouteView| v.p95_ms),
                        d.p95_ms,
                    )
                    &&& compares(
                        f,
                        figure(b, |v: RouteView| v.p99_ms),
                        figure(c, |v: RouteView| v.p99_ms),
                        d.p99_ms,
                    )
                    &&& compares(
                        f,
                        figure(b, |v: RouteView| Some(v.errors)),
                        figure(c, |v: RouteView| Some(v.errors)),
                        d.errors,
                    )
                    &&& compares(
                        f,
                        figure(b, |v: RouteView| v.error_rate),
                        figure(c, |v: RouteView| v.error_rate),
                        d.error_rate,
                    )
                    &&& compares(
                        f,
                        figure(b, |v: RouteView| v.response_bytes),
                        figure(c, |v: RouteView| v.response_bytes),
                        d.response_bytes,
                    )
                }
            &&& forall|j: int|
                i < j < http_changes(f, base, candidate).len() ==> extent(
                    (#[trigger] http_changes(f, base, candidate)[j]).total_ms,
                ) <= extent(d.total_ms)
        }),
{
    let pairs = pairs_of::<RouteView, (String, (String, String))>(base, candidate, by_http());
    let made = pairs.map_values(http_change(f));
    let all = http_changes(f, base, candidate);
    let d = all[i];
    sorting_keeps_items::<RouteChange, RouteChange, (Reverse<Number>, (Reverse<Number>, String))>(
        made,
        by_http_change(),
        |d: RouteChange| d,
    );
    sorting_ascends::<RouteChange, (Reverse<Number>, (Reverse<Number>, String))>(made, by_http_change());
    assert(all.contains(d));
    let g = choose|g: int| 0 <= g < made.len() && made[g] == d;
    let p = pairs[g];
    assert(d == http_change(f)(p));
    pair_is_of_rows::<RouteView, (String, (String, String))>(base, candidate, by_http(), g);
    assert(are_rows_of(base, candidate, p.0, p.1, d.presence));
    assert forall|j: int| i < j < all.len() implies extent((#[trigger] all[j]).total_ms) <= extent(
        d.total_ms,
    ) by {
        assert(!<(Reverse<Number>, (Reverse<Number>, String)) as Key>::precedes(
            by_http_change()(all[j]),
            by_http_change()(all[i]),
        ));
        extent_is_size(all[j].total_ms);
        extent_is_size(d.total_ms);
    }
}

/// Statements are compared figure by figure, each in its window beside itself, and the total time
/// that changed most comes first.
pub proof fn statements_are_compared(
    f: spec_fn(Op) -> Number,
    base: Seq<QueryView>,
    candidate: Seq<QueryView>,
    i: int,
)
    requires
        0 <= i < database_changes(f, base, candidate).len(),
    ensures
        ({
            let d = database_changes(f, base, candidate)[i];
            &&& exists|b: Option<QueryView>, c: Option<QueryView>|
                {
                    &&& #[trigger] are_rows_of(base, candidate, b, c, d.presence)
                    &&& b matches Some(v) ==> v.node == d.node
                    &&& c matches Some(v) ==> v.node == d.node
                    &&& b matches Some(v) ==> v.engine == d.engine
                    &&& c matches Some(v) ==> v.engine == d.engine
                    &&& b matches Some(v) ==> v.digest == d.digest
                    &&& c matches Some(v) ==> v.digest == d.digest
                    &&& b matches Some(v) ==> v.source == d.source
                    &&& c matches Some(v) ==> v.source == d.source
                    &&& b matches Some(v) ==> v.window == d.window
                    &&& c matches Some(v) ==> v.window == d.window
                    &&& b matches Some(v) ==> v.digest_id == d.digest_id
                    &&& c matches Some(v) ==> v.digest_id == d.digest_id
                    &&& compares(
                        f,
                        figure(b, |v: QueryView| Some(v.calls)),
                        figure(c, |v: QueryView| Some(v.calls)),
                        d.calls,
                    )
                    &&& compares(
                        f,
                        figure(b, |v: QueryView| Some(v.total_ms)),
                        figure(c, |v: QueryView| Some(v.total_ms)),
                        d.total_ms,
                    )
                    &&& compares(
                        f,
                        figure(b, |v: QueryView| v.avg_ms),
                        figure(c, |v: QueryView| v.avg_ms),
                        d.avg_ms,
                    )
                    &&& compares(
                        f,
                        figure(b, |v: QueryView| v.p95_ms),
                        figure(c, |v: QueryView| v.p95_ms),
                        d.p95_ms,
                    )
                    &&& compares(
                        f,
                        figure(b, |v: QueryView| Some(v.lock_ms)),
                        figure(c, |v: QueryView| Some(v.lock_ms)),
                        d.lock_ms,
                    )
                    &&& compares(
                        f,
                        figure(b, |v: QueryView| Some(v.rows_sent)),
                        figure(c, |v: QueryView| Some(v.rows_sent)),
                        d.rows_sent,
                    )
                    &&& compares(
                        f,
                        figure(b, |v: QueryView| Some(v.rows_examined)),
                        figure(c, |v: QueryView| Some(v.rows_examined)),
                        d.rows_examined,
                    )
                    &&& compares(
                        f,
                        figure(b, |v: QueryView| v.rows_examined_per_call),
                        figure(c, |v: QueryView| v.rows_examined_per_call),
                        d.rows_examined_per_call,
                    )
                }
            &&& forall|j: int|
                i < j < database_changes(f, base, candidate).len() ==> extent(
                    (#[trigger] database_changes(f, base, candidate)[j]).total_ms,
                ) <= extent(d.total_ms)
        }),
{
    let pairs = pairs_of::<QueryView, QueryKey>(base, candidate, by_database());
    let made = pairs.map_values(database_change(f));
    let all = database_changes(f, base, candidate);
    let d = all[i];
    sorting_keeps_items::<StatementChange, StatementChange, (Reverse<Number>, String)>(
        made,
        by_database_change(),
        |d: StatementChange| d,
    );
    sorting_ascends::<StatementChange, (Reverse<Number>, String)>(made, by_database_change());
    assert(all.contains(d));
    let g = choose|g: int| 0 <= g < made.len() && made[g] == d;
    let p = pairs[g];
    assert(d == database_change(f)(p));
    pair_is_of_rows::<QueryView, QueryKey>(base, candidate, by_database(), g);
    assert(are_rows_of(base, candidate, p.0, p.1, d.presence));
    assert forall|j: int| i < j < all.len() implies extent((#[trigger] all[j]).total_ms) <= extent(
        d.total_ms,
    ) by {
        assert(!<(Reverse<Number>, String) as Key>::precedes(
            by_database_change()(all[j]),
            by_database_change()(all[i]),
        ));
        extent_is_size(all[j].total_ms);
        extent_is_size(d.total_ms);
    }
}

/// Symbols are compared by their share of the samples, and the share that changed most comes first.
pub proof fn symbols_are_compared(
    f: spec_fn(Op) -> Number,
    base: Seq<SymbolView>,
    candidate: Seq<SymbolView>,
    i: int,
)
    requires
        0 <= i < cpu_changes(f, base, candidate).len(),
    ensures
        ({
            let d = cpu_changes(f, base, candidate)[i];
            &&& exists|b: Option<SymbolView>, c: Option<SymbolView>|
                {
                    &&& #[trigger] are_rows_of(base, candidate, b, c, d.presence)
                    &&& b matches Some(v) ==> v.node == d.node
                    &&& c matches Some(v) ==> v.node == d.node
                    &&& b matches Some(v) ==> v.process == d.process
                    &&& c matches Some(v) ==> v.process == d.process
                    &&& b matches Some(v) ==> v.binary == d.binary
                    &&& c matches Some(v) ==> v.binary == d.binary
                    &&& b matches Some(v) ==> v.symbol == d.symbol
                    &&& c matches Some(v) ==> v.symbol == d.symbol
                    &&& b matches Some(v) ==> v.source == d.source
                    &&& c matches Some(v) ==> v.source == d.source
                    &&& compares(
                        f,
                        figure(b, |v: SymbolView| Some(v.sample_percent)),
                        figure(c, |v: SymbolView| Some(v.sample_percent)),
                        d.sample_percent,
                    )
                }
            &&& forall|j: int|
                i < j < cpu_changes(f, base, candidate).len() ==> extent(
                    (#[trigger] cpu_changes(f, base, candidate)[j]).sample_percent,
                ) <= extent(d.sample_percent)
        }),
{
    let pairs = pairs_of::<SymbolView, (String, (String, (String, (String, String))))>(base, candidate, by_cpu());
    let made = pairs.map_values(cpu_change(f));
    let all = cpu_changes(f, base, candidate);
    let d = all[i];
    sorting_keeps_items::<SymbolChange, SymbolChange, (Reverse<Number>, String)>(
        made,
        by_cpu_change(),
        |d: SymbolChange| d,
    );
    sorting_ascends::<SymbolChange, (Reverse<Number>, String)>(made, by_cpu_change());
    assert(all.contains(d));
    let g = choose|g: int| 0 <= g < made.len() && made[g] == d;
    let p = pairs[g];
    assert(d == cpu_change(f)(p));
    pair_is_of_rows::<SymbolView, (String, (String, (String, (String, String))))>(base, candidate, by_cpu(), g);
    assert(are_rows_of(base, candidate, p.0, p.1, d.presence));
    assert forall|j: int| i < j < all.len() implies extent((#[trigger] all[j]).sample_percent) <= extent(
        d.sample_percent,
    ) by {
        assert(!<(Reverse<Number>, String) as Key>::precedes(
            by_cpu_change()(all[j]),
            by_cpu_change()(all[i]),
        ));
        extent_is_size(all[j].sample_percent);
        extent_is_size(d.sample_percent);
    }
}

/// The samples of a host are compared by average and by peak, and the peak that changed most comes
/// first.
pub proof fn hosts_are_compared(
    f: spec_fn(Op) -> Number,
    base: Seq<HostView>,
    candidate: Seq<HostView>,
    i: int,
)
    requires
        0 <= i < host_changes(f, base, candidate).len(),
    ensures
        ({
            let d = host_changes(f, base, candidate)[i];
            &&& exists|b: Option<HostView>, c: Option<HostView>|
                {
                    &&& #[trigger] are_rows_of(base, candidate, b, c, d.presence)
                    &&& b matches Some(v) ==> v.node == d.node
                    &&& c matches Some(v) ==> v.node == d.node
                    &&& b matches Some(v) ==> v.metric == d.metric
                    &&& c matches Some(v) ==> v.metric == d.metric
                    &&& b matches Some(v) ==> v.target == d.target
                    &&& c matches Some(v) ==> v.target == d.target
                    &&& b matches Some(v) ==> v.source == d.source
                    &&& c matches Some(v) ==> v.source == d.source
                    &&& compares(
                        f,
                        figure(b, |v: HostView| Some(v.average)),
                        figure(c, |v: HostView| Some(v.average)),
                        d.average,
                    )
                    &&& compares(
                        f,
                        figure(b, |v: HostView| Some(v.peak)),
                        figure(c, |v: HostView| Some(v.peak)),
                        d.peak,
                    )
                }
            &&& forall|j: int|
                i < j < host_changes(f, base, candidate).len() ==> extent(
                    (#[trigger] host_changes(f, base, candidate)[j]).peak,
                ) <= extent(d.peak)
        }),
{
    let pairs = pairs_of::<HostView, (String, (String, (String, String)))>(base, candidate, by_host());
    let made = pairs.map_values(host_change(f));
    let all = host_changes(f, base, candidate);
    let d = all[i];
    sorting_keeps_items::<HostChange, HostChange, (Reverse<Number>, (Reverse<Number>, String))>(
        made,
        by_host_change(),
        |d: HostChange| d,
    );
    sorting_ascends::<HostChange, (Reverse<Number>, (Reverse<Number>, String))>(made, by_host_change());
    assert(all.contains(d));
    let g = choose|g: int| 0 <= g < made.len() && made[g] == d;
    let p = pairs[g];
    assert(d == host_change(f)(p));
    pair_is_of_rows::<HostView, (String, (String, (String, String)))>(base, candidate, by_host(), g);
    assert(are_rows_of(base, candidate, p.0, p.1, d.presence));
    assert forall|j: int| i < j < all.len() implies extent((#[trigger] all[j]).peak) <= extent(
        d.peak,
    ) by {
        assert(!<(Reverse<Number>, (Reverse<Number>, String)) as Key>::precedes(
            by_host_change()(all[j]),
            by_host_change()(all[i]),
        ));
        extent_is_size(all[j].peak);
        extent_is_size(d.peak);
    }
}

/// Moves between routes are compared by number and by times, and the number that changed most comes
/// first.
pub proof fn moves_are_compared(
    f: spec_fn(Op) -> Number,
    base: Seq<TransitionView>,
    candidate: Seq<TransitionView>,
    i: int,
)
    requires
        0 <= i < transition_changes(f, base, candidate).len(),
    ensures
        ({
            let d = transition_changes(f, base, candidate)[i];
            &&& exists|b: Option<TransitionView>, c: Option<TransitionView>|
                {
                    &&& #[trigger] are_rows_of(base, candidate, b, c, d.presence)
                    &&& b matches Some(v) ==> v.from_route == d.from_route
                    &&& c matches Some(v) ==> v.from_route == d.from_route
                    &&& b matches Some(v) ==> v.to_route == d.to_route
                    &&& c matches Some(v) ==> v.to_route == d.to_route
                    &&& compares(
                        f,
                        figure(b, |v: TransitionView| Some(f(Op::Integer(v.count)))),
                        figure(c, |v: TransitionView| Some(f(Op::Integer(v.count)))),
                        d.count,
                    )
                    &&& compares(
                        f,
                        figure(b, |v: TransitionView| v.p50_ms),
                        figure(c, |v: TransitionView| v.p50_ms),
                        d.p50_ms,
                    )
                    &&& compares(
                        f,
                        figure(b, |v: TransitionView| v.p95_ms),
                        figure(c, |v: TransitionView| v.p95_ms),
                        d.p95_ms,
                    )
                }
            &&& forall|j: int|
                i < j < transition_changes(f, base, candidate).len() ==> extent(
                    (#[trigger] transition_changes(f, base, candidate)[j]).count,
                ) <= extent(d.count)
        }),
{
    let pairs = pairs_of::<TransitionView, (String, String)>(base, candidate, by_transition());
    let made = pairs.map_values(transition_change(f));
    let all = transition_changes(f, base, candidate);
    let d = all[i];
    sorting_keeps_items::<TransitionChange, TransitionChange, (Reverse<Number>, (String, String))>(
        made,
        by_transition_change(),
        |d: TransitionChange| d,
    );
    sorting_ascends::<TransitionChange, (Reverse<Number>, (String, String))>(made, by_transition_change());
    assert(all.contains(d));
    let g = choose|g: int| 0 <= g < made.len() && made[g] == d;
    let p = pairs[g];
    assert(d == transition_change(f)(p));
    pair_is_of_rows::<TransitionView, (String, String)>(base, candidate, by_transition(), g);
    assert(are_rows_of(base, candidate, p.0, p.1, d.presence));
    assert forall|j: int| i < j < all.len() implies extent((#[trigger] all[j]).count) <= extent(
        d.count,
    ) by {
        assert(!<(Reverse<Number>, (String, String)) as Key>::precedes(
            by_transition_change()(all[j]),
            by_transition_change()(all[i]),
        ));
        extent_is_size(all[j].count);
        extent_is_size(d.count);
    }
}

/// A key of either side has its pair.
proof fn every_key_has_a_pair<U, K: Key>(
    base: Seq<U>,
    candidate: Seq<U>,
    key: spec_fn(U) -> K::Model,
    k: K::Model,
)
    requires
        base.map_values(key).contains(k) || candidate.map_values(key).contains(k),
    ensures
        exists|g: int|
            0 <= g < pairs_of::<U, K>(base, candidate, key).len() && #[trigger] pairs_of::<U, K>(
                base,
                candidate,
                key,
            )[g] == (last_with(base, key, k), last_with(candidate, key, k)),
{
    let before = base.map_values(key);
    let after = candidate.map_values(key);
    let keys = union_keys::<K>(before, after);
    distinct_sorted_holds::<K>(before + after);
    crate::alp_laws::either_part(before, after, k);
    assert(keys.contains(k));
    let g = choose|g: int| 0 <= g < keys.len() && keys[g] == k;
    assert(pairs_of::<U, K>(base, candidate, key)[g] == (
        last_with(base, key, k),
        last_with(candidate, key, k),
    ));
}

/// No route of either run is left out of a comparison.
pub proof fn every_route_is_compared(
    f: spec_fn(Op) -> Number,
    base: Seq<RouteView>,
    candidate: Seq<RouteView>,
    v: RouteView,
)
    requires
        base.contains(v) || candidate.contains(v),
    ensures
        exists|g: int|
            0 <= g < http_changes(f, base, candidate).len()
                && (#[trigger] http_changes(f, base, candidate)[g]).node == v.node
                && http_changes(f, base, candidate)[g].method == v.method
                && http_changes(f, base, candidate)[g].route == v.route,
{
    let key = by_http();
    let k = key(v);
    let pairs = pairs_of::<RouteView, (String, (String, String))>(base, candidate, key);
    let made = pairs.map_values(http_change(f));
    let all = http_changes(f, base, candidate);
    if base.contains(v) {
        let i = choose|i: int| 0 <= i < base.len() && base[i] == v;
        assert(base.map_values(key)[i] == k);
    } else {
        let i = choose|i: int| 0 <= i < candidate.len() && candidate[i] == v;
        assert(candidate.map_values(key)[i] == k);
    }
    every_key_has_a_pair::<RouteView, (String, (String, String))>(base, candidate, key, k);
    let g = choose|g: int|
        0 <= g < pairs.len() && #[trigger] pairs[g] == (
            last_with(base, key, k),
            last_with(candidate, key, k),
        );
    pair_is_of_rows::<RouteView, (String, (String, String))>(base, candidate, key, g);
    last_has_its_key(base, key, k);
    last_has_its_key(candidate, key, k);
    sorting_keeps_items::<RouteChange, RouteChange, (Reverse<Number>, (Reverse<Number>, String))>(
        made,
        by_http_change(),
        |d: RouteChange| d,
    );
    assert(made.contains(made[g]));
    assert(all.contains(made[g]));
    let h = choose|h: int| 0 <= h < all.len() && all[h] == made[g];
    assert(all[h].node == v.node);
}

/// No statement of either run is left out of a comparison.
pub proof fn every_statement_is_compared(
    f: spec_fn(Op) -> Number,
    base: Seq<QueryView>,
    candidate: Seq<QueryView>,
    v: QueryView,
)
    requires
        base.contains(v) || candidate.contains(v),
    ensures
        exists|g: int|
            0 <= g < database_changes(f, base, candidate).len()
                && (#[trigger] database_changes(f, base, candidate)[g]).node == v.node
                && database_changes(f, base, candidate)[g].engine == v.engine
                && database_changes(f, base, candidate)[g].digest == v.digest
                && database_changes(f, base, candidate)[g].source == v.source
                && database_changes(f, base, candidate)[g].window == v.window
                && database_changes(f, base, candidate)[g].digest_id == v.digest_id,
{
    let key = by_database();
    let k = key(v);
    let pairs = pairs_of::<QueryView, QueryKey>(base, candidate, key);
    let made = pairs.map_values(database_change(f));
    let all = database_changes(f, base, candidate);
    if base.contains(v) {
        let i = choose|i: int| 0 <= i < base.len() && base[i] == v;
        assert(base.map_values(key)[i] == k);
    } else {
        let i = choose|i: int| 0 <= i < candidate.len() && candidate[i] == v;
        assert(candidate.map_values(key)[i] == k);
    }
    every_key_has_a_pair::<QueryView, QueryKey>(base, candidate, key, k);
    let g = choose|g: int|
        0 <= g < pairs.len() && #[trigger] pairs[g] == (
            last_with(base, key, k),
            last_with(candidate, key, k),
        );
    pair_is_of_rows::<QueryView, QueryKey>(base, candidate, key, g);
    last_has_its_key(base, key, k);
    last_has_its_key(candidate, key, k);
    sorting_keeps_items::<StatementChange, StatementChange, (Reverse<Number>, String)>(
        made,
        by_database_change(),
        |d: StatementChange| d,
    );
    assert(made.contains(made[g]));
    assert(all.contains(made[g]));
    let h = choose|h: int| 0 <= h < all.len() && all[h] == made[g];
    assert(all[h].node == v.node);
}

/// No symbol of either run is left out of a comparison.
pub proof fn every_symbol_is_compared(
    f: spec_fn(Op) -> Number,
    base: Seq<SymbolView>,
    candidate: Seq<SymbolView>,
    v: SymbolView,
)
    requires
        base.contains(v) || candidate.contains(v),
    ensures
        exists|g: int|
            0 <= g < cpu_changes(f, base, candidate).len()
                && (#[trigger] cpu_changes(f, base, candidate)[g]).node == v.node
                && cpu_changes(f, base, candidate)[g].process == v.process
                && cpu_changes(f, base, candidate)[g].binary == v.binary
                && cpu_changes(f, base, candidate)[g].symbol == v.symbol
                && cpu_changes(f, base, candidate)[g].source == v.source,
{
    let key = by_cpu();
    let k = key(v);
    let pairs = pairs_of::<SymbolView, (String, (String, (String, (String, String))))>(base, candidate, key);
    let made = pairs.map_values(cpu_change(f));
    let all = cpu_changes(f, base, candidate);
    if base.contains(v) {
        let i = choose|i: int| 0 <= i < base.len() && base[i] == v;
        assert(base.map_values(key)[i] == k);
    } else {
        let i = choose|i: int| 0 <= i < candidate.len() && candidate[i] == v;
        assert(candidate.map_values(key)[i] == k);
    }
    every_key_has_a_pair::<SymbolView, (String, (String, (String, (String, String))))>(base, candidate, key, k);
    let g = choose|g: int|
        0 <= g < pairs.len() && #[trigger] pairs[g] == (
            last_with(base, key, k),
            last_with(candidate, key, k),
        );
    pair_is_of_rows::<SymbolView, (String, (String, (String, (String, String))))>(base, candidate, key, g);
    last_has_its_key(base, key, k);
    last_has_its_key(candidate, key, k);
    sorting_keeps_items::<SymbolChange, SymbolChange, (Reverse<Number>, String)>(
        made,
        by_cpu_change(),
        |d: SymbolChange| d,
    );
    assert(made.contains(made[g]));
    assert(all.contains(made[g]));
    let h = choose|h: int| 0 <= h < all.len() && all[h] == made[g];
    assert(all[h].node == v.node);
}

/// No host of either run is left out of a comparison.
pub proof fn every_host_is_compared(
    f: spec_fn(Op) -> Number,
    base: Seq<HostView>,
    candidate: Seq<HostView>,
    v: HostView,
)
    requires
        base.contains(v) || candidate.contains(v),
    ensures
        exists|g: int|
            0 <= g < host_changes(f, base, candidate).len()
                && (#[trigger] host_changes(f, base, candidate)[g]).node == v.node
                && host_changes(f, base, candidate)[g].metric == v.metric
                && host_changes(f, base, candidate)[g].target == v.target
                && host_changes(f, base, candidate)[g].source == v.source,
{
    let key = by_host();
    let k = key(v);
    let pairs = pairs_of::<HostView, (String, (String, (String, String)))>(base, candidate, key);
    let made = pairs.map_values(host_change(f));
    let all = host_changes(f, base, candidate);
    if base.contains(v) {
        let i = choose|i: int| 0 <= i < base.len() && base[i] == v;
        assert(base.map_values(key)[i] == k);
    } else {
        let i = choose|i: int| 0 <= i < candidate.len() && candidate[i] == v;
        assert(candidate.map_values(key)[i] == k);
    }
    every_key_has_a_pair::<HostView, (String, (String, (String, String)))>(base, candidate, key, k);
    let g = choose|g: int|
        0 <= g < pairs.len() && #[trigger] pairs[g] == (
            last_with(base, key, k),
            last_with(candidate, key, k),
        );
    pair_is_of_rows::<HostView, (String, (String, (String, String)))>(base, candidate, key, g);
    last_has_its_key(base, key, k);
    last_has_its_key(candidate, key, k);
    sorting_keeps_items::<HostChange, HostChange, (Reverse<Number>, (Reverse<Number>, String))>(
        made,
        by_host_change(),
        |d: HostChange| d,
    );
    assert(made.contains(made[g]));
    assert(all.contains(made[g]));
    let h = choose|h: int| 0 <= h < all.len() && all[h] == made[g];
    assert(all[h].node == v.node);
}

/// No move of either run is left out of a comparison.
pub proof fn every_move_is_compared(
    f: spec_fn(Op) -> Number,
    base: Seq<TransitionView>,
    candidate: Seq<TransitionView>,
    v: TransitionView,
)
    requires
        base.contains(v) || candidate.contains(v),
    ensures
        exists|g: int|
            0 <= g < transition_changes(f, base, candidate).len()
                && (#[trigger] transition_changes(f, base, candidate)[g]).from_route == v.from_route
                && transition_changes(f, base, candidate)[g].to_route == v.to_route,
{
    let key = by_transition();
    let k = key(v);
    let pairs = pairs_of::<TransitionView, (String, String)>(base, candidate, key);
    let made = pairs.map_values(transition_change(f));
    let all = transition_changes(f, base, candidate);
    if base.contains(v) {
        let i = choose|i: int| 0 <= i < base.len() && base[i] == v;
        assert(base.map_values(key)[i] == k);
    } else {
        let i = choose|i: int| 0 <= i < candidate.len() && candidate[i] == v;
        assert(candidate.map_values(key)[i] == k);
    }
    every_key_has_a_pair::<TransitionView, (String, String)>(base, candidate, key, k);
    let g = choose|g: int|
        0 <= g < pairs.len() && #[trigger] pairs[g] == (
            last_with(base, key, k),
            last_with(candidate, key, k),
        );
    pair_is_of_rows::<TransitionView, (String, String)>(base, candidate, key, g);
    last_has_its_key(base, key, k);
    last_has_its_key(candidate, key, k);
    sorting_keeps_items::<TransitionChange, TransitionChange, (Reverse<Number>, (String, String))>(
        made,
        by_transition_change(),
        |d: TransitionChange| d,
    );
    assert(made.contains(made[g]));
    assert(all.contains(made[g]));
    let h = choose|h: int| 0 <= h < all.len() && all[h] == made[g];
    assert(all[h].from_route == v.from_route);
}

} // verus!
