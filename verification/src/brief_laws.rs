//! What the rows of the nodes in a brief tell of the samples.
use crate::brief::{
    highest, host_node_of, host_nodes_of, is_named, is_pressure, is_valued, of_node, peak_of,
    top_peak, top_value, value_of,
};
use crate::join::{with_key, with_key_contains, with_key_holds};
use crate::number::{largest, Number, Op};
use crate::order::distinct_sorted;
use crate::order_laws::keyed_items;
use crate::samples::SampledView;
use crate::text::{ends, starts, strip_ends, strip_starts};
use vstd::prelude::*;

verus! {

/// The largest of some values is one of them, and none exceeds it.
pub proof fn the_largest_is_not_exceeded(values: Seq<Number>, n: int)
    requires
        1 <= n <= values.len(),
    ensures
        exists|i: int| 0 <= i < n && #[trigger] values[i] == largest(values, n),
        forall|i: int| 0 <= i < n ==> !(#[trigger] values[i]).exceeds(largest(values, n)),
        (exists|i: int| 0 <= i < n && !(#[trigger] values[i]).is_nan_spec()) ==> !largest(
            values,
            n,
        ).is_nan_spec(),
    decreases n,
{
    if n == 1 {
        assert(values[0] == largest(values, n));
    } else {
        the_largest_is_not_exceeded(values, n - 1);
        let before = largest(values, n - 1);
        let i = choose|i: int| 0 <= i < n - 1 && #[trigger] values[i] == before;
        if largest(values, n) == before {
            assert(values[i] == largest(values, n));
        } else {
            assert(values[n - 1] == largest(values, n));
        }
        assert forall|i: int| 0 <= i < n implies !(#[trigger] values[i]).exceeds(
            largest(values, n),
        ) by {
            if i < n - 1 {
                assert(!values[i].exceeds(before));
                if before.is_nan_spec() && !values[i].is_nan_spec() {
                    assert(false);
                }
            }
        }
        if exists|i: int| 0 <= i < n && !(#[trigger] values[i]).is_nan_spec() {
            let i = choose|i: int| 0 <= i < n && !(#[trigger] values[i]).is_nan_spec();
            if i < n - 1 {
                assert(!before.is_nan_spec());
            }
        }
    }
}

/// `shown` is the largest peak of a metric on a node, to two places: there is one where the node has
/// the metric, it is one of the peaks, and no peak exceeds it.
pub open spec fn shows_peak(
    f: spec_fn(Op) -> Number,
    rows: Seq<SampledView>,
    node: Seq<char>,
    name: Seq<char>,
    shown: Option<Number>,
) -> bool {
    match shown {
        None => forall|i: int|
            0 <= i < rows.len() && (#[trigger] rows[i]).node == node ==> rows[i].metric != name,
        Some(value) => exists|i: int|
            {
                &&& 0 <= i < rows.len() && (#[trigger] rows[i]).node == node && rows[i].metric
                    == name
                &&& value == f(Op::Round(rows[i].peak, 2))
                &&& forall|j: int|
                    0 <= j < rows.len() && (#[trigger] rows[j]).node == node && rows[j].metric
                        == name ==> !rows[j].peak.exceeds(rows[i].peak)
            },
    }
}

/// `shown` is the largest value of a metric on a node, to two places; rows without a value do not
/// count.
pub open spec fn shows_value(
    f: spec_fn(Op) -> Number,
    rows: Seq<SampledView>,
    node: Seq<char>,
    name: Seq<char>,
    shown: Option<Number>,
) -> bool {
    match shown {
        None => forall|i: int|
            0 <= i < rows.len() && (#[trigger] rows[i]).node == node && rows[i].metric == name
                ==> rows[i].value is None,
        Some(value) => exists|i: int|
            {
                &&& 0 <= i < rows.len() && (#[trigger] rows[i]).node == node && rows[i].metric
                    == name && rows[i].value is Some
                &&& value == f(Op::Round(rows[i].value->0, 2))
                &&& forall|j: int|
                    0 <= j < rows.len() && (#[trigger] rows[j]).node == node && rows[j].metric
                        == name && rows[j].value is Some ==> !rows[j].value->0.exceeds(
                        rows[i].value->0,
                    )
            },
    }
}

/// The rows of a node hold exactly the rows that name it.
proof fn own_rows(rows: Seq<SampledView>, node: Seq<char>)
    ensures
        forall|i: int|
            0 <= i < with_key(rows, of_node(), node).len() ==> (#[trigger] with_key(
                rows,
                of_node(),
                node,
            )[i]).node == node && rows.contains(with_key(rows, of_node(), node)[i]),
        forall|i: int|
            0 <= i < rows.len() && (#[trigger] rows[i]).node == node ==> with_key(
                rows,
                of_node(),
                node,
            ).contains(rows[i]),
{
    let own = with_key(rows, of_node(), node);
    assert forall|i: int| 0 <= i < own.len() implies (#[trigger] own[i]).node == node
        && rows.contains(own[i]) by {
        with_key_holds(rows, of_node(), node, i);
    }
    assert forall|i: int| 0 <= i < rows.len() && (#[trigger] rows[i]).node == node implies
        own.contains(rows[i]) by {
        with_key_contains(rows, of_node(), i);
    }
}

proof fn peak_is_shown(
    f: spec_fn(Op) -> Number,
    rows: Seq<SampledView>,
    node: Seq<char>,
    name: Seq<char>,
)
    ensures
        shows_peak(f, rows, node, name, top_peak(f, with_key(rows, of_node(), node), name)),
{
    let own = with_key(rows, of_node(), node);
    let found = own.filter(is_named(name));
    let peaks = found.map_values(peak_of());
    own_rows(rows, node);
    assert forall|i: int|
        0 <= i < rows.len() && (#[trigger] rows[i]).node == node && rows[i].metric
            == name implies found.contains(rows[i]) by {
        own.lemma_filter_contains(is_named(name), own.index_of(rows[i]));
    }
    if found.len() > 0 {
        the_largest_is_not_exceeded(peaks, peaks.len() as int);
        let top = largest(peaks, peaks.len() as int);
        let k = choose|k: int| 0 <= k < peaks.len() && #[trigger] peaks[k] == top;
        own.lemma_filter_pred(is_named(name), k);
        assert(found.contains(found[k]));
        own.lemma_filter_contains_rev(is_named(name), found[k]);
        let p = choose|p: int| 0 <= p < own.len() && own[p] == found[k];
        assert(rows.contains(own[p]));
        let i = choose|i: int| 0 <= i < rows.len() && rows[i] == found[k];
        assert forall|j: int|
            0 <= j < rows.len() && (#[trigger] rows[j]).node == node && rows[j].metric
                == name implies !rows[j].peak.exceeds(rows[i].peak) by {
            assert(found.contains(rows[j]));
            let q = choose|q: int| 0 <= q < found.len() && found[q] == rows[j];
            assert(peaks[q] == rows[j].peak);
        }
        assert(rows[i].node == node && rows[i].metric == name);
    }
}

proof fn value_is_shown(
    f: spec_fn(Op) -> Number,
    rows: Seq<SampledView>,
    node: Seq<char>,
    name: Seq<char>,
)
    ensures
        shows_value(f, rows, node, name, top_value(f, with_key(rows, of_node(), node), name)),
{
    let own = with_key(rows, of_node(), node);
    let found = own.filter(is_valued(name));
    let values = found.map_values(value_of());
    own_rows(rows, node);
    assert forall|i: int|
        0 <= i < rows.len() && (#[trigger] rows[i]).node == node && rows[i].metric == name
            && rows[i].value is Some implies found.contains(rows[i]) by {
        own.lemma_filter_contains(is_valued(name), own.index_of(rows[i]));
    }
    if found.len() > 0 {
        the_largest_is_not_exceeded(values, values.len() as int);
        let top = largest(values, values.len() as int);
        let k = choose|k: int| 0 <= k < values.len() && #[trigger] values[k] == top;
        own.lemma_filter_pred(is_valued(name), k);
        assert(found.contains(found[k]));
        own.lemma_filter_contains_rev(is_valued(name), found[k]);
        let p = choose|p: int| 0 <= p < own.len() && own[p] == found[k];
        assert(rows.contains(own[p]));
        let i = choose|i: int| 0 <= i < rows.len() && rows[i] == found[k];
        assert forall|j: int|
            0 <= j < rows.len() && (#[trigger] rows[j]).node == node && rows[j].metric == name
                && rows[j].value is Some implies !rows[j].value->0.exceeds(rows[i].value->0) by {
            assert(found.contains(rows[j]));
            let q = choose|q: int| 0 <= q < found.len() && found[q] == rows[j];
            assert(values[q] == rows[j].value->0);
        }
        assert(rows[i].node == node && rows[i].metric == name && rows[i].value is Some);
    }
}

/// What a node shows of a metric with an older name: that of the new name, where there is any.
pub open spec fn shows_peak_of_either(
    f: spec_fn(Op) -> Number,
    rows: Seq<SampledView>,
    node: Seq<char>,
    name: Seq<char>,
    older: Seq<char>,
    shown: Option<Number>,
) -> bool {
    if exists|i: int|
        0 <= i < rows.len() && (#[trigger] rows[i]).node == node && rows[i].metric == name {
        shows_peak(f, rows, node, name, shown)
    } else {
        shows_peak(f, rows, node, older, shown)
    }
}

/// The figures of a node are those of its busiest moments and its busiest parts: each is the
/// largest that was sampled there, of the metric that it is named after.
pub proof fn nodes_show_their_largest_figures(
    f: spec_fn(Op) -> Number,
    rows: Seq<SampledView>,
    g: int,
)
    requires
        0 <= g < host_nodes_of(f, rows).len(),
    ensures
        ({
            let h = host_nodes_of(f, rows)[g];
            &&& shows_peak_of_either(
                f,
                rows,
                h.node,
                "host.cpu_busy_percent"@,
                "host.cpu_percent"@,
                h.cpu_busy_peak_percent,
            )
            &&& shows_peak_of_either(
                f,
                rows,
                h.node,
                "host.core_busy_max_percent"@,
                "host.core_busy_percent"@,
                h.busiest_core_peak_percent,
            )
            &&& shows_value(f, rows, h.node, "host.cpu_busy_percent"@, h.cpu_busy_percent)
                || shows_value(f, rows, h.node, "host.cpu_percent"@, h.cpu_busy_percent)
                && shows_value(f, rows, h.node, "host.cpu_busy_percent"@, None)
            &&& shows_value(f, rows, h.node, "host.cpu_iowait_percent"@, h.iowait_percent)
            &&& shows_value(f, rows, h.node, "host.cpu_steal_percent"@, h.steal_percent)
            &&& shows_peak(f, rows, h.node, "host.load1"@, h.load1_peak)
            &&& shows_peak(f, rows, h.node, "host.memory_used_bytes"@, h.memory_used_peak_bytes)
            &&& shows_peak(f, rows, h.node, "host.disk_util_percent"@, h.disk_util_peak_percent)
            &&& h.detail_rows == rows.filter(|r: SampledView| r.node == h.node).len()
        }),
{
    let names = distinct_sorted::<String>(rows.map_values(of_node()));
    let node = names[g];
    let h = host_nodes_of(f, rows)[g];
    assert(h == host_node_of(f, node, with_key(rows, of_node(), node)));
    peak_is_shown(f, rows, node, "host.cpu_busy_percent"@);
    peak_is_shown(f, rows, node, "host.cpu_percent"@);
    peak_is_shown(f, rows, node, "host.core_busy_max_percent"@);
    peak_is_shown(f, rows, node, "host.core_busy_percent"@);
    peak_is_shown(f, rows, node, "host.load1"@);
    peak_is_shown(f, rows, node, "host.memory_used_bytes"@);
    peak_is_shown(f, rows, node, "host.disk_util_percent"@);
    value_is_shown(f, rows, node, "host.cpu_busy_percent"@);
    value_is_shown(f, rows, node, "host.cpu_percent"@);
    value_is_shown(f, rows, node, "host.cpu_iowait_percent"@);
    value_is_shown(f, rows, node, "host.cpu_steal_percent"@);
    let own = |r: SampledView| r.node == h.node;
    keyed_items(rows, of_node(), node, own);
    assert(rows.filter(own).len() == h.detail_rows);
}

/// A metric that tells how long tasks waited for a resource.
pub open spec fn tells_waiting(metric: Seq<char>) -> bool {
    &&& metric.len() >= "host.psi_"@.len() && metric.take("host.psi_"@.len() as int)
        == "host.psi_"@
    &&& metric.len() >= "_some_percent"@.len() && metric.skip(
        metric.len() - "_some_percent"@.len(),
    ) == "_some_percent"@
}

proof fn highest_is_high(rows: Seq<SampledView>)
    requires
        rows.len() > 0,
    ensures
        rows.contains(highest(rows)),
        forall|i: int|
            0 <= i < rows.len() ==> (#[trigger] rows[i]).peak.place() <= highest(rows).peak.place(),
    decreases rows.len(),
{
    if rows.len() > 1 {
        let rest = rows.drop_last();
        highest_is_high(rest);
        let k = choose|k: int| 0 <= k < rest.len() && rest[k] == highest(rest);
        assert(rows[k] == highest(rest));
        assert(rows[rows.len() - 1] == rows.last());
        assert forall|i: int| 0 <= i < rows.len() implies (#[trigger] rows[i]).peak.place()
            <= highest(rows).peak.place() by {
            if i < rest.len() {
                assert(rest[i] == rows[i]);
            }
        }
    } else {
        assert(rows[0] == highest(rows));
    }
}

proof fn resource_is_named(resource: Seq<char>)
    requires
        !resource.contains('.'),
        !resource.contains('_'),
    ensures
        strip_ends(
            strip_starts("host.psi_"@ + resource + "_some_percent"@, "host.psi_"@),
            "_some_percent"@,
        ) == resource,
{
    let p = "host.psi_"@;
    let e = "_some_percent"@;
    reveal_strlit("host.psi_");
    reveal_strlit("_some_percent");
    let s = p + resource + e;
    let rest = resource + e;
    assert(s.take(p.len() as int) == p);
    assert(s.skip(p.len() as int) == rest);
    if starts(rest, p) {
        assert(rest.take(p.len() as int)[4] == '.');
        if 4 < resource.len() {
            assert(resource[4] == '.');
            assert(resource.contains('.'));
        } else {
            assert(rest[4] == e[4 - resource.len()]);
        }
    }
    assert(strip_starts(rest, p) == rest);
    assert(strip_starts(s, p) == rest) by {
        reveal_with_fuel(strip_starts, 2);
    }
    assert(rest.skip(rest.len() - e.len()) == e);
    assert(rest.take(rest.len() - e.len()) == resource);
    if ends(resource, e) {
        assert(resource.skip(resource.len() - e.len())[0] == '_');
        assert(resource[resource.len() - e.len()] == '_');
        assert(resource.contains('_'));
    }
    assert(strip_ends(resource, e) == resource);
    assert(strip_ends(rest, e) == resource) by {
        reveal_with_fuel(strip_ends, 2);
    }
}

/// The pressure of a node is that of the resource which tasks waited for most: its peak, to two
/// places, is at least every other peak of waiting on the node, and it is named after the resource.
/// There is one exactly where the node has told of any.
pub proof fn pressure_is_the_highest(f: spec_fn(Op) -> Number, rows: Seq<SampledView>, g: int)
    requires
        0 <= g < host_nodes_of(f, rows).len(),
    ensures
        ({
            let h = host_nodes_of(f, rows)[g];
            match h.pressure {
                None => forall|i: int|
                    0 <= i < rows.len() && (#[trigger] rows[i]).node == h.node ==> !tells_waiting(
                        rows[i].metric,
                    ),
                Some((resource, peak)) => exists|i: int|
                    {
                        &&& 0 <= i < rows.len() && (#[trigger] rows[i]).node == h.node
                            && tells_waiting(rows[i].metric)
                        &&& peak == f(Op::Round(rows[i].peak, 2))
                        &&& forall|j: int|
                            0 <= j < rows.len() && (#[trigger] rows[j]).node == h.node
                                && tells_waiting(rows[j].metric) ==> rows[j].peak.place()
                                <= rows[i].peak.place()
                        &&& forall|name: Seq<char>|
                            !name.contains('.') && !name.contains('_') && rows[i].metric
                                == #[trigger] ("host.psi_"@ + name + "_some_percent"@) ==> resource
                                == name
                    },
            }
        }),
{
    let names = distinct_sorted::<String>(rows.map_values(of_node()));
    let node = names[g];
    let h = host_nodes_of(f, rows)[g];
    let own = with_key(rows, of_node(), node);
    assert(h == host_node_of(f, node, own));
    let found = own.filter(is_pressure());
    own_rows(rows, node);
    assert forall|i: int|
        0 <= i < rows.len() && (#[trigger] rows[i]).node == node && tells_waiting(
            rows[i].metric,
        ) implies found.contains(rows[i]) by {
        own.lemma_filter_contains(is_pressure(), own.index_of(rows[i]));
    }
    if found.len() > 0 {
        highest_is_high(found);
        let top = highest(found);
        own.lemma_filter_contains_rev(is_pressure(), top);
        let k = choose|k: int| 0 <= k < found.len() && found[k] == top;
        own.lemma_filter_pred(is_pressure(), k);
        let p = choose|p: int| 0 <= p < own.len() && own[p] == top;
        assert(rows.contains(own[p]));
        let i = choose|i: int| 0 <= i < rows.len() && rows[i] == top;
        assert(rows[i].node == h.node && tells_waiting(rows[i].metric));
        assert forall|j: int|
            0 <= j < rows.len() && (#[trigger] rows[j]).node == node && tells_waiting(
                rows[j].metric,
            ) implies rows[j].peak.place() <= rows[i].peak.place() by {
            assert(found.contains(rows[j]));
        }
        assert forall|name: Seq<char>|
            !name.contains('.') && !name.contains('_') && rows[i].metric == #[trigger] (
            "host.psi_"@ + name + "_some_percent"@) implies (h.pressure->Some_0).0 == name by {
            resource_is_named(name);
        }
    } else {
        assert forall|i: int| 0 <= i < rows.len() && (#[trigger] rows[i]).node == node implies
            !tells_waiting(rows[i].metric) by {
            if tells_waiting(rows[i].metric) {
                assert(found.contains(rows[i]));
            }
        }
    }
}

} // verus!
