//! What is told of the records of a run: its statements by window, its metrics by name, its means,
//! its backends and its connections, and the changes that it tried.
use crate::alp::{in_series, maybe, window_metrics, window_start};
use crate::alp_laws::{either_part, something_is_picked, thousandfold};
use crate::brief::{briefed, client_of, clients, first_named, of_node, shown_queries, BriefSection};
use crate::changes::{change_key, is_listed, listed, ChangeHistory, DecisionStatus, LatestFirst};
use crate::doctor::{clock_finding, space_finding, told_time, Reply};
use crate::enrichment::first_of;
use crate::inventory::{earliest, inventory_of, inventory_row, latest, name_of, pick_time};
use crate::join::{sorting_keeps_items, with_key, with_key_contains};
use crate::labels::{lookup, Pair};
use crate::model::{Metric, MetricView, RunManifest};
use crate::number::{total_from, Number, Op};
use crate::order::{distinct_sorted, distinct_sorted_holds, stable_sorted, Key};
use crate::order_laws::{choosing_twice, keyed_items, sorting_ascends, sorting_counts_alike};
use crate::protocol::picked;
use crate::report::{by_share, is_of_symbol, symbol_of, symbols, QueryView, ShareKey, SymbolView};
use crate::report_laws::label_of;
use crate::sampled::{subject_of, summaries, summary_of};
use crate::samples::{
    by_upstream, first_value, is_of_upstream, upstream_of, upstreams_of, SampledView, UpstreamKey,
    UpstreamView,
};
use crate::slp::{
    column_rows, four_fields, shown_statement, statement_labels, tsv_line, window_labels, Columns,
};
use crate::text::{is_blank, starts, trim};
use vstd::prelude::*;

verus! {

/// A metric of a statement, where there is a value.
pub open spec fn tells_column(
    rows: Seq<MetricView>,
    name: Seq<char>,
    value: Option<Number>,
    unit: Seq<char>,
    labels: Seq<Pair>,
) -> bool {
    value matches Some(n) ==> rows.contains(
        (MetricView { name, value: n, unit, timestamp: None, labels }),
    )
}

proof fn column_is_told(
    rows: Seq<MetricView>,
    part: Seq<MetricView>,
    name: Seq<char>,
    value: Option<Number>,
    unit: Seq<char>,
    labels: Seq<Pair>,
)
    requires
        part == maybe(name, value, unit, labels),
        forall|m: MetricView| #[trigger] part.contains(m) ==> rows.contains(m),
    ensures
        tells_column(rows, name, value, unit, labels),
{
    if value is Some {
        assert(part[0] == (MetricView { name, value: value->0, unit, timestamp: None, labels }));
        assert(part.contains(part[0]));
    }
}

/// A line of statistics gives each column to the figure that it is named after, for its statement and
/// in its window; seconds become milliseconds. A line without a count or without a sum gives nothing.
pub proof fn columns_are_read_by_name(
    f: spec_fn(Op) -> Number,
    number: spec_fn(Seq<char>) -> Option<Number>,
    c: Columns,
)
    ensures
        ({
            let rows = column_rows(f, number, c);
            let labels = window_labels(c.window, shown_statement(c.query));
            let read = |text: Seq<char>| number(trim(text));
            let ms = |value: Option<Number>|
                match value {
                    Some(n) => Some(thousandfold(f, n)),
                    None => None,
                };
            if read(c.count) is Some && read(c.sum) is Some {
                &&& tells_column(rows, "db.query.calls"@, read(c.count), "queries"@, labels)
                &&& tells_column(rows, "db.query.total_duration"@, ms(read(c.sum)), "ms"@, labels)
                &&& tells_column(rows, "db.query.duration_max"@, ms(read(c.largest)), "ms"@, labels)
                &&& tells_column(rows, "db.query.p95_duration"@, ms(read(c.p95)), "ms"@, labels)
                &&& tells_column(rows, "db.query.p99_duration"@, ms(read(c.p99)), "ms"@, labels)
                &&& tells_column(rows, "db.query.lock_duration"@, ms(read(c.lock)), "ms"@, labels)
                &&& tells_column(rows, "db.query.rows_sent"@, read(c.sent), "rows"@, labels)
                &&& tells_column(rows, "db.query.rows_examined"@, read(c.examined), "rows"@, labels)
            } else {
                rows.len() == 0
            }
        }),
{
    let rows = column_rows(f, number, c);
    let labels = window_labels(c.window, shown_statement(c.query));
    let read = |text: Seq<char>| number(trim(text));
    if read(c.count) is Some && read(c.sum) is Some {
        let v0 = read(c.count);
        let s0 = maybe("db.query.calls"@, v0, "queries"@, labels);
        let v1 = crate::alp::ms_option(f, read(c.sum));
        let s1 = maybe("db.query.total_duration"@, v1, "ms"@, labels);
        let v2 = crate::alp::ms_option(f, read(c.largest));
        let s2 = maybe("db.query.duration_max"@, v2, "ms"@, labels);
        let v3 = crate::alp::ms_option(f, read(c.p95));
        let s3 = maybe("db.query.p95_duration"@, v3, "ms"@, labels);
        let v4 = crate::alp::ms_option(f, read(c.p99));
        let s4 = maybe("db.query.p99_duration"@, v4, "ms"@, labels);
        let v5 = crate::alp::ms_option(f, read(c.lock));
        let s5 = maybe("db.query.lock_duration"@, v5, "ms"@, labels);
        let v6 = read(c.sent);
        let s6 = maybe("db.query.rows_sent"@, v6, "rows"@, labels);
        let v7 = read(c.examined);
        let s7 = maybe("db.query.rows_examined"@, v7, "rows"@, labels);
        let most = s0 + s1 + s2 + s3;
        assert(rows == most + s4 + s5 + s6 + s7);
        assert forall|m: MetricView|
            #![trigger s0.contains(m)]
            #![trigger s1.contains(m)]
            #![trigger s2.contains(m)]
            #![trigger s3.contains(m)]
            #![trigger s4.contains(m)]
            #![trigger s5.contains(m)]
            #![trigger s6.contains(m)]
            #![trigger s7.contains(m)]
            s0.contains(m) || s1.contains(m) || s2.contains(m) || s3.contains(m) || s4.contains(m)
                || s5.contains(m) || s6.contains(m) || s7.contains(m) implies rows.contains(m) by {
            either_part(s0, s1, m);
            either_part(s0 + s1, s2, m);
            either_part(s0 + s1 + s2, s3, m);
            either_part(most, s4, m);
            either_part(most + s4, s5, m);
            either_part(most + s4 + s5, s6, m);
            either_part(most + s4 + s5 + s6, s7, m);
        }
        column_is_told(rows, s0, "db.query.calls"@, v0, "queries"@, labels);
        column_is_told(rows, s1, "db.query.total_duration"@, v1, "ms"@, labels);
        column_is_told(rows, s2, "db.query.duration_max"@, v2, "ms"@, labels);
        column_is_told(rows, s3, "db.query.p95_duration"@, v3, "ms"@, labels);
        column_is_told(rows, s4, "db.query.p99_duration"@, v4, "ms"@, labels);
        column_is_told(rows, s5, "db.query.lock_duration"@, v5, "ms"@, labels);
        column_is_told(rows, s6, "db.query.rows_sent"@, v6, "rows"@, labels);
        column_is_told(rows, s7, "db.query.rows_examined"@, v7, "rows"@, labels);
    }
}

proof fn ends_of_times(times: Seq<int>)
    ensures
        match (earliest(times), latest(times)) {
            (Some(a), Some(b)) => {
                &&& times.contains(a) && times.contains(b)
                &&& forall|i: int| 0 <= i < times.len() ==> a <= #[trigger] times[i] <= b
            },
            (None, None) => times.len() == 0,
            _ => false,
        },
    decreases times.len(),
{
    if times.len() > 0 {
        let rest = times.drop_last();
        ends_of_times(rest);
        let last = times.len() - 1;
        assert(times[last] == times.last());
        if rest.len() > 0 {
            let a = earliest(rest)->0;
            let b = latest(rest)->0;
            let i = choose|i: int| 0 <= i < rest.len() && rest[i] == a;
            let j = choose|j: int| 0 <= j < rest.len() && rest[j] == b;
            assert(times[i] == a && times[j] == b);
            assert forall|i: int| 0 <= i < times.len() implies earliest(times)->0
                <= #[trigger] times[i] <= latest(times)->0 by {
                if i < last {
                    assert(rest[i] == times[i]);
                }
            }
        }
    }
}

proof fn times_are_of_metrics(metrics: Seq<MetricView>)
    ensures
        picked(metrics, pick_time()).len() == metrics.filter(
            |m: MetricView| m.timestamp is Some,
        ).len(),
        forall|t: int| #[trigger]
            picked(metrics, pick_time()).contains(t) <==> exists|i: int|
                0 <= i < metrics.len() && (#[trigger] metrics[i]).timestamp is Some
                    && metrics[i].timestamp->0.nanos == t,
    decreases metrics.len(),
{
    reveal(Seq::filter);
    let all = picked(metrics, pick_time());
    if metrics.len() > 0 {
        let rest = metrics.drop_last();
        let before = picked(rest, pick_time());
        times_are_of_metrics(rest);
        assert forall|t: int| #[trigger] all.contains(t) <==> exists|i: int|
            0 <= i < metrics.len() && (#[trigger] metrics[i]).timestamp is Some
                && metrics[i].timestamp->0.nanos == t by {
            if all.contains(t) {
                let j = choose|j: int| 0 <= j < all.len() && all[j] == t;
                if j < before.len() {
                    assert(before[j] == t);
                    assert(before.contains(t));
                    let i = choose|i: int|
                        0 <= i < rest.len() && (#[trigger] rest[i]).timestamp is Some
                            && rest[i].timestamp->0.nanos == t;
                    assert(metrics[i] == rest[i]);
                } else {
                    assert(metrics[metrics.len() - 1].timestamp is Some);
                }
            }
            if exists|i: int|
                0 <= i < metrics.len() && (#[trigger] metrics[i]).timestamp is Some
                    && metrics[i].timestamp->0.nanos == t {
                let i = choose|i: int|
                    0 <= i < metrics.len() && (#[trigger] metrics[i]).timestamp is Some
                        && metrics[i].timestamp->0.nanos == t;
                something_is_picked(metrics, pick_time(), i);
            }
        }
    }
}

/// An entry of an inventory tells of all metrics of its name how many there are, how many of them have
/// a time, and when the first and the last of these were.
pub proof fn inventories_tell_of_their_metrics(metrics: Seq<MetricView>, g: int)
    requires
        0 <= g < inventory_of(metrics).len(),
    ensures
        ({
            let row = inventory_of(metrics)[g];
            let own = metrics.filter(|m: MetricView| m.name == row.name);
            &&& row.rows == own.len() && own.len() > 0
            &&& row.timestamped_rows == own.filter(|m: MetricView| m.timestamp is Some).len()
            &&& row.first_observed_at is None <==> row.timestamped_rows == 0
            &&& row.timestamped_rows > 0 ==> exists|a: int, b: int|
                {
                    &&& #[trigger] first_and_last(own, a, b)
                    &&& row.first_observed_at == Some(crate::clock::rfc3339(a))
                    &&& row.last_observed_at == Some(crate::clock::rfc3339(b))
                }
        }),
{
    let keys = metrics.map_values(name_of());
    let names = distinct_sorted::<String>(keys);
    let row = inventory_of(metrics)[g];
    let k = names[g];
    let members = with_key(metrics, name_of(), k);
    assert(row == inventory_row(k, members));
    keyed_items(metrics, name_of(), k, |m: MetricView| m.name == row.name);
    distinct_sorted_holds::<String>(keys);
    assert(names.contains(k));
    let n = choose|n: int| 0 <= n < keys.len() && keys[n] == k;
    with_key_contains(metrics, name_of(), n);
    let times = picked(members, pick_time());
    times_are_of_metrics(members);
    ends_of_times(times);
    if times.len() > 0 {
        let a = earliest(times)->0;
        let b = latest(times)->0;
        assert forall|i: int|
            0 <= i < members.len() && (#[trigger] members[i]).timestamp is Some implies a
            <= members[i].timestamp->0.nanos <= b by {
            let t = members[i].timestamp->0.nanos as int;
            assert(times.contains(t));
            let j = choose|j: int| 0 <= j < times.len() && times[j] == t;
            assert(a <= times[j] <= b);
        }
        assert(times.contains(a) && times.contains(b));
        assert(first_and_last(members, a, b));
    }
}

/// The times of the first and of the last of some metrics, among those that have one.
pub open spec fn first_and_last(metrics: Seq<MetricView>, a: int, b: int) -> bool {
    &&& exists|i: int|
        0 <= i < metrics.len() && (#[trigger] metrics[i]).timestamp is Some
            && metrics[i].timestamp->0.nanos == a
    &&& exists|i: int|
        0 <= i < metrics.len() && (#[trigger] metrics[i]).timestamp is Some
            && metrics[i].timestamp->0.nanos == b
    &&& forall|i: int|
        0 <= i < metrics.len() && (#[trigger] metrics[i]).timestamp is Some ==> a
            <= metrics[i].timestamp->0.nanos <= b
}

/// After the samples of a subject comes their mean: the sum of all samples with its name, unit and
/// labels, divided by how many they are.
pub proof fn means_are_of_all_samples(f: spec_fn(Op) -> Number, samples: Seq<MetricView>, i: int)
    requires
        0 <= i < samples.len(),
    ensures
        ({
            let s = samples[i];
            let own = samples.filter(
                |m: MetricView| m.name == s.name && m.unit == s.unit && m.labels == s.labels,
            );
            summaries(f, samples).contains(
                (MetricView {
                    name: s.name,
                    value: f(
                        Op::Divide(
                            total_from(
                                f,
                                Number { bits: 0 },
                                own.map_values(|m: MetricView| m.value),
                            ),
                            f(Op::Integer(own.len() as i64)),
                        ),
                    ),
                    unit: s.unit,
                    timestamp: None,
                    labels: s.labels,
                }),
            )
        }),
{
    let s = samples[i];
    let k = subject_of()(s);
    let keys = samples.map_values(subject_of());
    let names = distinct_sorted::<(String, (String, crate::labels::Labels))>(keys);
    let all = summaries(f, samples);
    assert(keys[i] == k);
    assert(keys.contains(k));
    distinct_sorted_holds::<(String, (String, crate::labels::Labels))>(keys);
    assert(names.contains(k));
    let g = choose|g: int| 0 <= g < names.len() && names[g] == k;
    keyed_items(
        samples,
        subject_of(),
        k,
        |m: MetricView| m.name == s.name && m.unit == s.unit && m.labels == s.labels,
    );
    let own = with_key(samples, subject_of(), k);
    assert(own.map_values(|m: MetricView| m.value) == own.map_values(
        crate::sampled::sample_value(),
    ));
    assert(all[g] == summary_of(f, samples)(k));
    assert(all.contains(all[g]));
}

/// Changes are listed the latest first: those whose last decision is what is asked for, and that rest
/// on the run that is asked for. None of these is passed over for an earlier one.
pub proof fn the_latest_changes_are_listed(
    histories: Seq<ChangeHistory>,
    status: Option<DecisionStatus>,
    run: Option<Seq<char>>,
    limit: nat,
)
    ensures
        ({
            let shown = listed(histories, status, run, limit);
            let asked = |h: ChangeHistory|
                {
                    &&& status matches Some(wanted) ==> h.decisions@.len() > 0
                        && h.decisions@.last().status == wanted
                    &&& run matches Some(id) ==> exists|d: int, e: int|
                        0 <= d < h.decisions@.len() && 0 <= e < h.decisions@[d].evidence@.len()
                            && (#[trigger] h.decisions@[d].evidence@[e]).run_id@ == id
                };
            let all = histories.filter(asked);
            &&& shown.len() == if all.len() > limit {
                limit
            } else {
                all.len()
            }
            &&& forall|i: int| 0 <= i < shown.len() ==> all.contains(#[trigger] shown[i])
            &&& forall|i: int, j: int|
                0 <= i < j < shown.len() ==> (#[trigger] shown[j]).change.created_at.nanos <= (
                #[trigger] shown[i]).change.created_at.nanos
            &&& forall|i: int, n: int|
                0 <= i < shown.len() && 0 <= n < all.len() ==> shown.contains(#[trigger] all[n])
                    || all[n].change.created_at.nanos <= (
                #[trigger] shown[i]).change.created_at.nanos
        }),
{
    let asked = |h: ChangeHistory|
        {
            &&& status matches Some(wanted) ==> h.decisions@.len() > 0
                && h.decisions@.last().status == wanted
            &&& run matches Some(id) ==> exists|d: int, e: int|
                0 <= d < h.decisions@.len() && 0 <= e < h.decisions@[d].evidence@.len() && (
                #[trigger] h.decisions@[d].evidence@[e]).run_id@ == id
        };
    assert forall|n: int| 0 <= n < histories.len() implies asked(#[trigger] histories[n])
        == is_listed(status, run)(histories[n]) by {
        let h = histories[n];
        if run is Some {
            citing_is_resting(h, run->0);
        }
    }
    crate::order_laws::choices_agree(histories, asked, is_listed(status, run));
    let all = histories.filter(asked);
    let sorted = stable_sorted::<ChangeHistory, LatestFirst>(all, change_key());
    sorting_keeps_items::<ChangeHistory, ChangeHistory, LatestFirst>(
        all,
        change_key(),
        |h: ChangeHistory| h,
    );
    sorting_counts_alike::<ChangeHistory, LatestFirst>(all, change_key(), |h: ChangeHistory| true);
    sorting_ascends::<ChangeHistory, LatestFirst>(all, change_key());
    let shown = listed(histories, status, run, limit);
    assert(shown == first_of(sorted, limit));
    assert forall|i: int| 0 <= i < shown.len() implies all.contains(#[trigger] shown[i]) by {
        assert(sorted.contains(sorted[i]));
        assert(shown[i] == sorted[i]);
    }
    assert forall|i: int, j: int| 0 <= i < j < shown.len() implies (
    #[trigger] shown[j]).change.created_at.nanos <= (#[trigger] shown[i]).change.created_at.nanos by {
        assert(shown[i] == sorted[i] && shown[j] == sorted[j]);
        assert(!<LatestFirst as Key>::precedes(change_key()(sorted[j]), change_key()(sorted[i])));
    }
    assert forall|i: int, n: int| 0 <= i < shown.len() && 0 <= n < all.len() implies shown.contains(
        #[trigger] all[n],
    ) || all[n].change.created_at.nanos <= (#[trigger] shown[i]).change.created_at.nanos by {
        assert(all.contains(all[n]));
        assert(sorted.contains(all[n]));
        let p = choose|p: int| 0 <= p < sorted.len() && sorted[p] == all[n];
        assert(shown[i] == sorted[i]);
        if p < shown.len() {
            assert(shown[p] == all[n]);
        } else {
            assert(!<LatestFirst as Key>::precedes(
                change_key()(sorted[p]),
                change_key()(sorted[i]),
            ));
        }
    }
}

proof fn citing_is_resting(h: ChangeHistory, id: Seq<char>)
    ensures
        crate::changes::history_cites(h, id) == exists|d: int, e: int|
            0 <= d < h.decisions@.len() && 0 <= e < h.decisions@[d].evidence@.len() && (
            #[trigger] h.decisions@[d].evidence@[e]).run_id@ == id,
{
    if crate::changes::history_cites(h, id) {
        let d = choose|d: int|
            0 <= d < h.decisions@.len() && crate::changes::cites(
                (#[trigger] h.decisions@[d]).evidence@,
                id,
            );
        let e = choose|e: int|
            0 <= e < h.decisions@[d].evidence@.len() && (
            #[trigger] h.decisions@[d].evidence@[e]).run_id@ == id;
        assert(h.decisions@[d].evidence@[e].run_id@ == id);
    }
    if exists|d: int, e: int|
        0 <= d < h.decisions@.len() && 0 <= e < h.decisions@[d].evidence@.len() && (
        #[trigger] h.decisions@[d].evidence@[e]).run_id@ == id {
        let (d, e) = choose|d: int, e: int|
            0 <= d < h.decisions@.len() && 0 <= e < h.decisions@[d].evidence@.len() && (
            #[trigger] h.decisions@[d].evidence@[e]).run_id@ == id;
        assert(crate::changes::cites(h.decisions@[d].evidence@, id));
    }
}

/// A run whose initialization is told apart shows the statements of its load and no others; one whose
/// statements are not told apart shows those that it has, and where its own log was read, not those
/// of the summary beside it.
pub proof fn statements_of_the_load_are_shown(rows: Seq<QueryView>, run: RunManifest)
    ensures
        (exists|i: int| 0 <= i < rows.len() && (#[trigger] rows[i]).window is Some)
            && run.benchmark.initialize_finished_at is Some ==> shown_queries(rows, run)
            == rows.filter(|q: QueryView| q.window == Some("load"@)),
        (exists|i: int| 0 <= i < rows.len() && (#[trigger] rows[i]).window is Some) && (forall|
            i: int,
        |
            0 <= i < rows.len() ==> (#[trigger] rows[i]).window != Some("load"@) && rows[i].window
                != Some("initialize"@)) && run.benchmark.initialize_finished_at is None
            ==> shown_queries(rows, run) == rows.filter(
            |q: QueryView| q.window == Some("whole"@),
        ),
        rows.len() > 0 && (forall|i: int| 0 <= i < rows.len() ==> (#[trigger] rows[i]).window is None)
            ==> shown_queries(rows, run) == if exists|i: int|
            0 <= i < rows.len() && (#[trigger] rows[i]).source == "mysql-log-delta"@ {
            rows.filter(|q: QueryView| q.source != "slp"@)
        } else {
            rows
        },
{
    crate::order_laws::choices_agree(
        rows,
        crate::brief::in_window("load"@),
        |q: QueryView| q.window == Some("load"@),
    );
    crate::order_laws::choices_agree(
        rows,
        crate::brief::in_window("whole"@),
        |q: QueryView| q.window == Some("whole"@),
    );
    crate::order_laws::choices_agree(
        rows,
        crate::brief::not_from_slp(),
        |q: QueryView| q.source != "slp"@,
    );
}

/// The value of the first row of a node and a metric.
pub open spec fn first_row(rows: Seq<SampledView>, node: Seq<char>, metric: Seq<char>) -> Option<
    SampledView,
> {
    let own = rows.filter(|r: SampledView| r.node == node && r.metric == metric);
    if own.len() == 0 {
        None
    } else {
        Some(own[0])
    }
}

proof fn first_named_is_first(rows: Seq<SampledView>, name: Seq<char>)
    ensures
        first_named(rows, name) == ({
            let own = rows.filter(|r: SampledView| r.metric == name);
            if own.len() == 0 {
                None
            } else {
                Some(own[0])
            }
        }),
    decreases rows.len(),
{
    let p = |r: SampledView| r.metric == name;
    if rows.len() > 0 {
        first_named_is_first(rows.skip(1), name);
        filter_from_the_front(rows, p);
    } else {
        reveal(Seq::filter);
    }
}

proof fn filter_from_the_front<T>(items: Seq<T>, p: spec_fn(T) -> bool)
    requires
        items.len() > 0,
    ensures
        items.filter(p) == (if p(items[0]) {
            seq![items[0]]
        } else {
            Seq::empty()
        }) + items.skip(1).filter(p),
    decreases items.len(),
{
    reveal(Seq::filter);
    if items.len() == 1 {
        assert(items.drop_last() == Seq::<T>::empty());
        assert(items.skip(1) == Seq::<T>::empty());
        assert(items.drop_last().filter(p) == Seq::<T>::empty());
    } else {
        let rest = items.drop_last();
        filter_from_the_front(rest, p);
        assert(rest.skip(1) == items.skip(1).drop_last());
        assert(items.skip(1).last() == items.last());
    }
}

/// What a brief shows of the connections of a node: how many were in use, on average and at most; how
/// many were opened in each second of the part that is summed up; how many requests each carried.
pub proof fn connections_are_shown_by_name(
    f: spec_fn(Op) -> Number,
    seconds: Option<Number>,
    rows: Seq<SampledView>,
    g: int,
)
    requires
        0 <= g < clients(f, seconds, rows).len(),
    ensures
        ({
            let c = clients(f, seconds, rows)[g];
            let value = |metric: Seq<char>|
                match first_row(rows, c.node, metric) {
                    Some(row) => row.value,
                    None => None,
                };
            let to = |n: Option<Number>, places: u32|
                match n {
                    Some(n) => Some(f(Op::Round(n, places))),
                    None => None,
                };
            &&& c.connections_in_use == to(value("client.connections_in_use"@), 1)
            &&& c.connections_in_use_peak == match first_row(
                rows,
                c.node,
                "client.connections_in_use"@,
            ) {
                Some(row) => Some(f(Op::Round(row.peak, 1))),
                None => None,
            }
            &&& c.connections_opened_per_second == match (
                value("client.connections_opened"@),
                seconds,
            ) {
                (Some(opened), Some(time)) => Some(f(Op::Round(f(Op::Divide(opened, time)), 1))),
                _ => None,
            }
            &&& c.requests_per_connection == to(value("client.connection_requests_mean"@), 2)
        }),
{
    let names = distinct_sorted::<String>(rows.map_values(of_node()));
    let node = names[g];
    let c = clients(f, seconds, rows)[g];
    let members = with_key(rows, of_node(), node);
    assert(c == client_of(f, seconds, node, members));
    first_of_node(rows, node, "client.connections_in_use"@);
    first_of_node(rows, node, "client.connections_opened"@);
    first_of_node(rows, node, "client.connection_requests_mean"@);
}

proof fn first_of_node(rows: Seq<SampledView>, node: Seq<char>, metric: Seq<char>)
    ensures
        first_named(with_key(rows, of_node(), node), metric) == first_row(rows, node, metric),
{
    let members = with_key(rows, of_node(), node);
    let on = |r: SampledView| r.node == node;
    let named = |r: SampledView| r.metric == metric;
    let both = |r: SampledView| r.node == node && r.metric == metric;
    keyed_items(rows, of_node(), node, on);
    choosing_twice(rows, on, named, both);
    first_named_is_first(members, metric);
}

/// The metrics of a backend, as one collector on one node saw it.
pub open spec fn of_backend(u: UpstreamView) -> spec_fn(Metric) -> bool {
    |m: Metric|
        {
            &&& m.timestamp is None
            &&& starts(m.name@, "http.upstream_"@)
            &&& lookup(m.labels@, "upstream"@) == Some(u.upstream)
            &&& label_of(m, "node"@) == u.node
            &&& label_of(m, "collector"@) == u.source
        }
}

/// A metric of a name and a quantile.
pub open spec fn is_told_by(name: Seq<char>, quantile: Option<Seq<char>>) -> spec_fn(
    Metric,
) -> bool {
    |m: Metric| m.name@ == name && lookup(m.labels@, "quantile"@) == quantile
}

/// The first value of a name and a quantile among some metrics.
pub open spec fn first_told(
    metrics: Seq<Metric>,
    name: Seq<char>,
    quantile: Option<Seq<char>>,
) -> Option<Number> {
    let found = metrics.filter(is_told_by(name, quantile));
    if found.len() == 0 {
        None
    } else {
        Some(found[0].value)
    }
}

proof fn first_value_is_told(metrics: Seq<Metric>, name: Seq<char>, quantile: Option<Seq<char>>)
    ensures
        first_value(metrics, name, quantile) == first_told(metrics, name, quantile),
    decreases metrics.len(),
{
    let p = is_told_by(name, quantile);
    if metrics.len() > 0 {
        first_value_is_told(metrics.skip(1), name, quantile);
        filter_from_the_front(metrics, p);
    } else {
        reveal(Seq::filter);
    }
}

/// A row of a backend tells what its metrics say: the requests, those that were tried again, and the
/// ninety-fifth percentiles of connecting, of the header and of the response.
pub proof fn backends_tell_their_metrics(all: Seq<Metric>, g: int)
    requires
        0 <= g < upstreams_of(all).len(),
    ensures
        ({
            let u = upstreams_of(all)[g];
            let own = all.filter(of_backend(u));
            &&& own.len() > 0
            &&& u.requests == first_told(own, "http.upstream_requests"@, None)
            &&& u.retried_requests == first_told(own, "http.upstream_retried_requests"@, None)
            &&& u.connect_p95 == first_told(own, "http.upstream_connect_duration"@, Some("0.95"@))
            &&& u.header_p95 == first_told(own, "http.upstream_header_duration"@, Some("0.95"@))
            &&& u.response_p95 == first_told(own, "http.upstream_response_duration"@, Some("0.95"@))
        }),
{
    let chosen = all.filter(is_of_upstream());
    let key = by_upstream();
    let keys = chosen.map_values(key);
    let names = distinct_sorted::<UpstreamKey>(keys);
    let u = upstreams_of(all)[g];
    let k = names[g];
    let members = with_key(chosen, key, k);
    assert(u == upstream_of(k, members));
    distinct_sorted_holds::<UpstreamKey>(keys);
    assert(names.contains(k));
    let n = choose|n: int| 0 <= n < keys.len() && keys[n] == k;
    with_key_contains(chosen, key, n);
    let keyed = |m: Metric| key(m) == k;
    keyed_items(chosen, key, k, keyed);
    assert forall|j: int| 0 <= j < all.len() implies of_backend(u)(#[trigger] all[j]) == (
    is_of_upstream()(all[j]) && keyed(all[j])) by {
        if is_of_upstream()(all[j]) && keyed(all[j]) {
            assert(lookup(all[j].labels@, "upstream"@) == Some(u.upstream));
        }
        if of_backend(u)(all[j]) {
            assert(label_of(all[j], "upstream"@) == u.upstream);
        }
    }
    choosing_twice(all, is_of_upstream(), keyed, of_backend(u));
    assert(members == all.filter(of_backend(u)));
    first_value_is_told(members, "http.upstream_requests"@, None);
    first_value_is_told(members, "http.upstream_retried_requests"@, None);
    first_value_is_told(members, "http.upstream_connect_duration"@, Some("0.95"@));
    first_value_is_told(members, "http.upstream_header_duration"@, Some("0.95"@));
    first_value_is_told(members, "http.upstream_response_duration"@, Some("0.95"@));
}

/// A report lists the symbols of a run by their share of the samples, the largest first: one for each
/// share that was measured.
pub proof fn symbols_are_listed_by_their_share(metrics: Seq<Metric>, i: int)
    requires
        0 <= i < symbols(metrics).len(),
    ensures
        ({
            let all = symbols(metrics);
            let s = all[i];
            &&& all.len() == metrics.filter(is_of_symbol()).len()
            &&& exists|n: int|
                {
                    &&& 0 <= n < metrics.len() && (#[trigger] metrics[n]).name@
                        == "cpu.sample_percent"@
                    &&& metrics[n].value == s.sample_percent
                    &&& label_of(metrics[n], "node"@) == s.node
                    &&& label_of(metrics[n], "process"@) == s.process
                    &&& label_of(metrics[n], "binary"@) == s.binary
                    &&& label_of(metrics[n], "symbol"@) == s.symbol
                    &&& label_of(metrics[n], "collector"@) == s.source
                }
            &&& forall|j: int|
                i < j < all.len() ==> (#[trigger] all[j]).sample_percent.place()
                    <= s.sample_percent.place()
        }),
{
    let chosen = metrics.filter(is_of_symbol());
    let made = chosen.map_values(symbol_of());
    let all = symbols(metrics);
    let s = all[i];
    sorting_keeps_items::<SymbolView, SymbolView, ShareKey>(made, by_share(), |v: SymbolView| v);
    sorting_counts_alike::<SymbolView, ShareKey>(made, by_share(), |v: SymbolView| true);
    sorting_ascends::<SymbolView, ShareKey>(made, by_share());
    assert(all.contains(s));
    let g = choose|g: int| 0 <= g < made.len() && made[g] == s;
    metrics.lemma_filter_pred(is_of_symbol(), g);
    assert(chosen.contains(chosen[g]));
    metrics.lemma_filter_contains_rev(is_of_symbol(), chosen[g]);
    let n = choose|n: int| 0 <= n < metrics.len() && metrics[n] == chosen[g];
    assert(metrics[n].name@ == "cpu.sample_percent"@);
    assert forall|j: int| i < j < all.len() implies (#[trigger] all[j]).sample_percent.place()
        <= s.sample_percent.place() by {
        assert(!<ShareKey as Key>::precedes(by_share()(all[j]), by_share()(all[i])));
    }
}

/// A clock that a node told is warned of exactly where it differs by more than two seconds, either way,
/// and what was not told is a failure.
pub proof fn clocks_may_differ_by_two_seconds(target: Seq<char>, reply: Reply, now: int)
    ensures
        match told_time(reply) {
            Some(remote) => {
                &&& clock_finding(target, reply, now) is Pass <==> -2 <= remote - now <= 2
                &&& clock_finding(target, reply, now) is Warn <==> remote - now > 2 || now - remote
                    > 2
            },
            None => clock_finding(target, reply, now) is Fail,
        },
{
}

/// The room for data is warned of exactly where less than a gibibyte is left, or where it is not known.
pub proof fn a_gibibyte_is_enough(
    f: spec_fn(Op) -> Number,
    g: spec_fn(Number, u32) -> Seq<char>,
    free: Result<u64, Seq<char>>,
)
    ensures
        space_finding(f, g, free) is Warn <==> !(free matches Ok(bytes) && bytes >= 1024 * 1024
            * 1024),
        space_finding(f, g, free) is Warn || space_finding(f, g, free) is Pass,
{
}

/// A line of statistics in four columns gives the calls, the total time and the ninety-fifth percentile
/// of its statement; seconds become milliseconds.
pub proof fn four_columns_are_read_in_their_order(
    f: spec_fn(Op) -> Number,
    number: spec_fn(Seq<char>) -> Option<Number>,
    line: Seq<char>,
    n: usize,
)
    requires
        !is_blank(line),
        tsv_line(f, number, line, n) is Ok,
    ensures
        four_fields(line) matches Some((count, digest, sum, quantile)) && {
            let rows = tsv_line(f, number, line, n)->Ok_0;
            let labels = statement_labels(digest);
            let ms = |value: Option<Number>|
                match value {
                    Some(n) => Some(thousandfold(f, n)),
                    None => None,
                };
            &&& rows.len() == 3
            &&& number(count) is Some && number(sum) is Some && number(quantile) is Some
            &&& tells_column(rows, "db.query.calls"@, number(count), "queries"@, labels)
            &&& tells_column(rows, "db.query.total_duration"@, ms(number(sum)), "ms"@, labels)
            &&& tells_column(rows, "db.query.p95_duration"@, ms(number(quantile)), "ms"@, labels)
        },
{
    let fields = four_fields(line)->0;
    let rows = tsv_line(f, number, line, n)->Ok_0;
    assert(rows.len() == 3);
    assert(rows.contains(rows[0]) && rows.contains(rows[1]) && rows.contains(rows[2]));
}

/// The statistics of the whole log stay as they are. Those of a window become samples at its start: all
/// requests that are not parted by status, all errors and all quantiles, in their order.
pub proof fn windows_keep_their_counts(
    f: spec_fn(Op) -> Number,
    number: spec_fn(Seq<char>) -> Option<Number>,
    window: Seq<char>,
    metrics: Seq<MetricView>,
    i: int,
)
    requires
        0 <= i < metrics.len(),
        window_metrics(f, number, window, Ok(metrics)) is Ok,
    ensures
        ({
            let m = metrics[i];
            let all = window_metrics(f, number, window, Ok(metrics))->Ok_0;
            &&& window == "whole"@ ==> all == metrics
            &&& window != "whole"@ && (m.name == "http.requests"@ && lookup(
                m.labels,
                "status_class"@,
            ) is None || m.name == "http.errors"@ || m.name == "http.request_duration"@)
                ==> all.contains(
                (MetricView { timestamp: window_start(f, number, window), ..m }),
            )
        }),
{
    reveal_strlit("http.requests");
    reveal_strlit("http.errors");
    reveal_strlit("http.request_duration");
    assert("http.requests"@.len() == 13 && "http.errors"@.len() == 11
        && "http.request_duration"@.len() == 21);
    let m = metrics[i];
    if window != "whole"@ && in_series()(m) {
        let chosen = metrics.filter(in_series());
        metrics.lemma_filter_contains(in_series(), i);
        let j = choose|j: int| 0 <= j < chosen.len() && chosen[j] == m;
        let all = window_metrics(f, number, window, Ok(metrics))->Ok_0;
        assert(all[j] == (MetricView { timestamp: window_start(f, number, window), ..m }));
    }
}

/// A section of a brief shows the first rows, as many as are asked for, and says how many there are.
pub proof fn briefs_tell_what_they_leave_out<T>(all: Seq<T>, limit: usize, s: BriefSection<T>)
    requires
        briefed(all, limit, s),
    ensures
        s.total_count == all.len(),
        s.truncated <==> s.items@.len() < all.len(),
        s.items@.len() == all.len() || s.items@.len() == limit,
        s.items@.len() <= limit,
        forall|i: int| 0 <= i < s.items@.len() ==> #[trigger] s.items@[i] == all[i],
{
}

} // verus!
