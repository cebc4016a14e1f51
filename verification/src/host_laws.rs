//! What the samples of hosts and services tell, and what is made of them.
use crate::alp_laws::{either_part, something_is_picked};
use crate::cgroup::{counter, prior_of, reading_of, service_rows, service_samples, ReadingView};
use crate::clock::rfc3339_nanos;
use crate::join::{with_key, with_key_contains};
use crate::labels::{with_label, Pair};
use crate::model::{Metric, MetricView, RunManifest};
use crate::moment::Moment;
use crate::node_disk::{body_lines, df_mounts, first_rows, has_mount, pick_mount, MountView};
use crate::number::{total, total_from, Number, Op};
use crate::order::{distinct_sorted, distinct_sorted_holds};
use crate::order_laws::{choosing_twice, keyed_items};
use crate::protocol::picked;
use crate::query::{QueryScope, RowKey};
use crate::query_laws::{combining_comes_to, comes_to, measured};
use crate::report::{by_host, host_inputs, host_of, hosts, metric_values, peak_of, HostKey};
use crate::report_laws::label_of;
use crate::run_laws::picked_comes_from_one;
use crate::samples::{by_series, is_summarized, subject, summaries, summary_of, Family, SampledView};
use crate::slow_log::{outside, Interval};
use crate::sysstat::{column, cpu_rows, disk_rows, position, sample};
use crate::text::{join, parsed_number, replace, split, starts, words};
use crate::windows::{covers, Window};
use vstd::prelude::*;

verus! {

/// `rows` hold a sample of this name exactly where there is a value, and it is the value.
pub open spec fn holds_sample(
    rows: Seq<MetricView>,
    name: Seq<char>,
    value: Option<Number>,
    unit: Seq<char>,
    at: Moment,
    labels: Seq<Pair>,
) -> bool {
    value matches Some(n) ==> rows.contains(
        (MetricView { name, value: n, unit, timestamp: Some(at), labels }),
    )
}

proof fn sample_is_held(
    rows: Seq<MetricView>,
    part: Seq<MetricView>,
    name: Seq<char>,
    value: Option<Number>,
    unit: Seq<char>,
    at: Moment,
    labels: Seq<Pair>,
)
    requires
        part == sample(name, value, unit, at, labels),
        forall|m: MetricView| #[trigger] part.contains(m) ==> rows.contains(m),
    ensures
        holds_sample(rows, name, value, unit, at, labels),
{
    if value is Some {
        assert(part[0] == (MetricView {
            name,
            value: value->0,
            unit,
            timestamp: Some(at),
            labels,
        }));
        assert(part.contains(part[0]));
    }
}

proof fn six_parts<T>(a: Seq<T>, b: Seq<T>, c: Seq<T>, d: Seq<T>, e: Seq<T>, g: Seq<T>, x: T)
    ensures
        (a + b + c + d + e + g).contains(x) <==> a.contains(x) || b.contains(x) || c.contains(x)
            || d.contains(x) || e.contains(x) || g.contains(x),
{
    either_part(a, b, x);
    either_part(a + b, c, x);
    either_part(a + b + c, d, x);
    either_part(a + b + c + d, e, x);
    either_part(a + b + c + d + e, g, x);
}

/// A line of `sar` for all processors gives each column to the share that it is named after. Busy is
/// what is left of a hundred without the idle time and the time of waiting for input and output,
/// from zero to a hundred.
pub proof fn processor_shares_are_read_by_name(
    f: spec_fn(Op) -> Number,
    number: spec_fn(Seq<char>) -> Option<Number>,
    header: Seq<Seq<char>>,
    fields: Seq<Seq<char>>,
    at: Moment,
)
    ensures
        ({
            let rows = cpu_rows(f, number, header, fields, at);
            let read = |name: Seq<char>| column(number, header, fields, name);
            let told = |name: Seq<char>, value: Option<Number>|
                holds_sample(rows, name, value, "percent"@, at, Seq::<Pair>::empty());
            let hundred = f(Op::Integer(100));
            let zero = Number { bits: 0 };
            &&& told("host.cpu_user_percent"@, read("%user"@))
            &&& told("host.cpu_nice_percent"@, read("%nice"@))
            &&& told("host.cpu_system_percent"@, read("%system"@))
            &&& told("host.cpu_iowait_percent"@, read("%iowait"@))
            &&& told("host.cpu_steal_percent"@, read("%steal"@))
            &&& told("host.cpu_idle_percent"@, read("%idle"@))
            &&& read("%idle"@) matches Some(idle) ==> {
                let waiting = match read("%iowait"@) {
                    Some(share) => share,
                    None => zero,
                };
                let left = f(Op::Subtract(f(Op::Subtract(hundred, idle)), waiting));
                exists|busy: Number|
                    {
                        &&& #[trigger] holds_sample(
                            rows,
                            "host.cpu_busy_percent"@,
                            Some(busy),
                            "percent"@,
                            at,
                            Seq::<Pair>::empty(),
                        )
                        &&& told("host.cpu_percent"@, Some(busy))
                        &&& !zero.exceeds(left) && !left.exceeds(hundred) ==> busy == left
                        &&& zero.exceeds(left) ==> busy == zero
                        &&& !zero.exceeds(left) && left.exceeds(hundred) ==> busy == hundred
                    }
            }
        }),
{
    let none = Seq::<Pair>::empty();
    let read = |name: Seq<char>| column(number, header, fields, name);
    let rows = cpu_rows(f, number, header, fields, at);
    let idle = read("%idle"@);
    let busy = crate::sysstat::busy_of(f, idle, read("%iowait"@));
    let s0 = sample("host.cpu_user_percent"@, read("%user"@), "percent"@, at, none);
    let s1 = sample("host.cpu_nice_percent"@, read("%nice"@), "percent"@, at, none);
    let s2 = sample("host.cpu_system_percent"@, read("%system"@), "percent"@, at, none);
    let s3 = sample("host.cpu_iowait_percent"@, read("%iowait"@), "percent"@, at, none);
    let s4 = sample("host.cpu_steal_percent"@, read("%steal"@), "percent"@, at, none);
    let s5 = sample("host.cpu_idle_percent"@, read("%idle"@), "percent"@, at, none);
    let s6 = sample("host.cpu_busy_percent"@, busy, "percent"@, at, none);
    let s7 = sample("host.cpu_percent"@, busy, "percent"@, at, none);
    let most = s0 + s1 + s2 + s3 + s4 + s5;
    assert(rows == most + s6 + s7);
    assert forall|m: MetricView|
        #![trigger s0.contains(m)]
        #![trigger s1.contains(m)]
        #![trigger s2.contains(m)]
        #![trigger s3.contains(m)]
        #![trigger s4.contains(m)]
        #![trigger s5.contains(m)]
        #![trigger s6.contains(m)]
        #![trigger s7.contains(m)]
        s0.contains(m) || s1.contains(m) || s2.contains(m) || s3.contains(m) || s4.contains(m)
            || s5.contains(m) || s6.contains(m) || s7.contains(m) implies rows.contains(m) by {
        six_parts(s0, s1, s2, s3, s4, s5, m);
        either_part(most, s6, m);
        either_part(most + s6, s7, m);
    }
    sample_is_held(rows, s0, "host.cpu_user_percent"@, read("%user"@), "percent"@, at, none);
    sample_is_held(rows, s1, "host.cpu_nice_percent"@, read("%nice"@), "percent"@, at, none);
    sample_is_held(rows, s2, "host.cpu_system_percent"@, read("%system"@), "percent"@, at, none);
    sample_is_held(rows, s3, "host.cpu_iowait_percent"@, read("%iowait"@), "percent"@, at, none);
    sample_is_held(rows, s4, "host.cpu_steal_percent"@, read("%steal"@), "percent"@, at, none);
    sample_is_held(rows, s5, "host.cpu_idle_percent"@, read("%idle"@), "percent"@, at, none);
    sample_is_held(rows, s6, "host.cpu_busy_percent"@, busy, "percent"@, at, none);
    sample_is_held(rows, s7, "host.cpu_percent"@, busy, "percent"@, at, none);
    if idle is Some {
        assert(holds_sample(rows, "host.cpu_busy_percent"@, Some(busy->0), "percent"@, at, none));
        assert(holds_sample(rows, "host.cpu_percent"@, Some(busy->0), "percent"@, at, none));
    }
}

/// A line of `sar` for one disk gives each column to the figure that it is named after; kilobytes
/// become bytes.
pub proof fn disk_figures_are_read_by_name(
    f: spec_fn(Op) -> Number,
    number: spec_fn(Seq<char>) -> Option<Number>,
    header: Seq<Seq<char>>,
    fields: Seq<Seq<char>>,
    at: Moment,
    labels: Seq<Pair>,
)
    ensures
        ({
            let rows = disk_rows(f, number, header, fields, at, labels);
            let read = |name: Seq<char>| column(number, header, fields, name);
            let times = |value: Option<Number>, factor: i64|
                match value {
                    Some(n) => Some(f(Op::Multiply(n, f(Op::Integer(factor))))),
                    None => None,
                };
            &&& holds_sample(rows, "host.disk_iops"@, times(read("tps"@), 1), "operations_per_second"@, at, labels)
            &&& holds_sample(rows, "host.disk_read_bytes_per_second"@, times(read("rkB/s"@), 1024), "bytes_per_second"@, at, labels)
            &&& holds_sample(rows, "host.disk_write_bytes_per_second"@, times(read("wkB/s"@), 1024), "bytes_per_second"@, at, labels)
            &&& holds_sample(rows, "host.disk_queue_depth"@, times(if read("aqu-sz"@) is Some {
                    read("aqu-sz"@)
                } else {
                    read("avgqu-sz"@)
                }, 1), "requests"@, at, labels)
            &&& holds_sample(rows, "host.disk_await"@, times(read("await"@), 1), "ms"@, at, labels)
            &&& holds_sample(rows, "host.disk_util_percent"@, times(read("%util"@), 1), "percent"@, at, labels)
        }),
{
    let read = |name: Seq<char>| column(number, header, fields, name);
    let times = |value: Option<Number>, factor: i64| crate::sysstat::times(f, value, factor);
    let rows = disk_rows(f, number, header, fields, at, labels);
    let v0 = times(read("tps"@), 1);
    let s0 = sample("host.disk_iops"@, v0, "operations_per_second"@, at, labels);
    let v1 = times(read("rkB/s"@), 1024);
    let s1 = sample("host.disk_read_bytes_per_second"@, v1, "bytes_per_second"@, at, labels);
    let v2 = times(read("wkB/s"@), 1024);
    let s2 = sample("host.disk_write_bytes_per_second"@, v2, "bytes_per_second"@, at, labels);
    let v3 = times(if read("aqu-sz"@) is Some {
                    read("aqu-sz"@)
                } else {
                    read("avgqu-sz"@)
                }, 1);
    let s3 = sample("host.disk_queue_depth"@, v3, "requests"@, at, labels);
    let v4 = times(read("await"@), 1);
    let s4 = sample("host.disk_await"@, v4, "ms"@, at, labels);
    let v5 = times(read("%util"@), 1);
    let s5 = sample("host.disk_util_percent"@, v5, "percent"@, at, labels);
    assert(rows == s0 + s1 + s2 + s3 + s4 + s5);
    assert forall|m: MetricView|
        #![trigger s0.contains(m)]
        #![trigger s1.contains(m)]
        #![trigger s2.contains(m)]
        #![trigger s3.contains(m)]
        #![trigger s4.contains(m)]
        #![trigger s5.contains(m)]
        s0.contains(m) || s1.contains(m) || s2.contains(m) || s3.contains(m) || s4.contains(m)
            || s5.contains(m) implies rows.contains(m) by {
        six_parts(s0, s1, s2, s3, s4, s5, m);
    }
    sample_is_held(rows, s0, "host.disk_iops"@, v0, "operations_per_second"@, at, labels);
    sample_is_held(rows, s1, "host.disk_read_bytes_per_second"@, v1, "bytes_per_second"@, at, labels);
    sample_is_held(rows, s2, "host.disk_write_bytes_per_second"@, v2, "bytes_per_second"@, at, labels);
    sample_is_held(rows, s3, "host.disk_queue_depth"@, v3, "requests"@, at, labels);
    sample_is_held(rows, s4, "host.disk_await"@, v4, "ms"@, at, labels);
    sample_is_held(rows, s5, "host.disk_util_percent"@, v5, "percent"@, at, labels);
}

/// `metrics` hold a sample of a service.
pub open spec fn tells_service(
    metrics: Seq<MetricView>,
    name: Seq<char>,
    value: Number,
    unit: Seq<char>,
    reading: ReadingView,
) -> bool {
    metrics.contains(
        (MetricView {
            name,
            value,
            unit,
            timestamp: Some(Moment { nanos: reading.at as i128 }),
            labels: with_label(Seq::<Pair>::empty(), "service"@, reading.service),
        }),
    )
}

/// Every reading of a service in the interval gives its memory and its processes. It gives rates too
/// where an earlier reading of the service is there whose counters it continues: the time of
/// processors in each unit of time, and the bytes in each second, since the latest of them.
pub proof fn readings_give_levels_and_rates(
    f: spec_fn(Op) -> Number,
    interval: Interval,
    readings: Seq<ReadingView>,
    i: int,
    p: int,
)
    requires
        0 <= p < i < readings.len(),
        !outside(readings[i].at, interval),
        readings[p].service == readings[i].service,
        forall|j: int| p < j < i ==> (#[trigger] readings[j]).service != readings[i].service,
    ensures
        ({
            let metrics = service_samples(f, interval, readings);
            let a = readings[p];
            let b = readings[i];
            let micros = (b.at - a.at) / 1000;
            let natural = |n: int| f(Op::Natural(n as u64));
            let time = f(Op::Integer(micros as i64));
            let each_second = |n: int|
                f(Op::Divide(f(Op::Multiply(natural(n), f(Op::Integer(1_000_000)))), time));
            &&& tells_service(metrics, "service.memory_bytes"@, natural(b.memory as int), "bytes"@, b)
            &&& tells_service(metrics, "service.pids"@, natural(b.pids as int), "processes"@, b)
            &&& b.at >= a.at && 0 < micros <= i64::MAX && a.cpu_usec <= b.cpu_usec && a.read_bytes
                <= b.read_bytes && a.write_bytes <= b.write_bytes ==> {
                &&& tells_service(
                    metrics,
                    "service.cpu_cores"@,
                    f(Op::Divide(natural(b.cpu_usec - a.cpu_usec), time)),
                    "cores"@,
                    b,
                )
                &&& tells_service(
                    metrics,
                    "service.io_read_bytes_per_second"@,
                    each_second(b.read_bytes - a.read_bytes),
                    "bytes_per_second"@,
                    b,
                )
                &&& tells_service(
                    metrics,
                    "service.io_write_bytes_per_second"@,
                    each_second(b.write_bytes - a.write_bytes),
                    "bytes_per_second"@,
                    b,
                )
            }
        }),
    decreases readings.len(),
{
    let metrics = service_samples(f, interval, readings);
    let rest = readings.drop_last();
    let last = readings.last();
    if i < rest.len() {
        readings_give_levels_and_rates(f, interval, rest, i, p);
        let before = service_samples(f, interval, rest);
        assert forall|m: MetricView| #[trigger] before.contains(m) implies metrics.contains(m) by {
            either_part(before, service_rows(f, prior_of(rest, last.service), last), m);
        }
    } else {
        latest_is_prior(rest, last.service, p);
        let rows = service_rows(f, prior_of(rest, last.service), last);
        assert forall|m: MetricView| #[trigger] rows.contains(m) implies metrics.contains(m) by {
            either_part(service_samples(f, interval, rest), rows, m);
        }
        assert(rows.contains(rows[0]) && rows.contains(rows[1]));
        if rows.len() > 2 {
            assert(rows.contains(rows[2]) && rows.contains(rows[3]) && rows.contains(rows[4]));
        }
    }
}

proof fn latest_is_prior(readings: Seq<ReadingView>, service: Seq<char>, p: int)
    requires
        0 <= p < readings.len(),
        readings[p].service == service,
        forall|j: int| p < j < readings.len() ==> (#[trigger] readings[j]).service != service,
    ensures
        prior_of(readings, service) == Some(readings[p]),
    decreases readings.len(),
{
    if p < readings.len() - 1 {
        assert(readings[readings.len() - 1].service != service);
        latest_is_prior(readings.drop_last(), service, p);
    }
}

/// The peak of some metrics is one of them, the first of those that no other exceeds.
pub proof fn peaks_are_not_exceeded(metrics: Seq<Metric>)
    requires
        metrics.len() > 0,
        forall|i: int| 0 <= i < metrics.len() ==> !(#[trigger] metrics[i]).value.is_nan_spec(),
    ensures
        exists|i: int| 0 <= i < metrics.len() && #[trigger] metrics[i] == peak_of(metrics),
        forall|i: int|
            0 <= i < metrics.len() ==> !(#[trigger] metrics[i]).value.exceeds(
                peak_of(metrics).value,
            ),
    decreases metrics.len(),
{
    if metrics.len() > 1 {
        let rest = metrics.drop_last();
        assert forall|i: int| 0 <= i < rest.len() implies !(#[trigger] rest[i]).value.is_nan_spec() by {
            assert(rest[i] == metrics[i]);
        }
        peaks_are_not_exceeded(rest);
        let k = choose|k: int| 0 <= k < rest.len() && #[trigger] rest[k] == peak_of(rest);
        let last = metrics.len() - 1;
        assert(metrics[last] == metrics.last());
        assert(metrics[k] == rest[k]);
        assert forall|i: int| 0 <= i < metrics.len() implies !(#[trigger] metrics[i]).value.exceeds(
            peak_of(metrics).value,
        ) by {
            if i < last {
                assert(rest[i] == metrics[i]);
            }
        }
    } else {
        assert(metrics[0] == peak_of(metrics));
    }
}

/// A metric goes into the summary of a series over a window: it is of the family, it is a sample of
/// the window or an aggregate of what was not sampled, and its node, its name and its labels are
/// those of the series.
pub open spec fn goes_into(
    all: Seq<Metric>,
    run: RunManifest,
    window: Window,
    family: Family,
    row: SampledView,
) -> spec_fn(Metric) -> bool {
    |m: Metric|
        {
            &&& match family {
                Family::Hosts => starts(m.name@, "host."@) || starts(m.name@, "service."@),
                Family::Clients => starts(m.name@, "client."@),
            }
            &&& match m.timestamp {
                Some(at) => covers(window, run, at),
                None => forall|i: int|
                    0 <= i < all.len() && (#[trigger] all[i]).timestamp is Some ==> subject(all[i])
                        != subject(m),
            }
            &&& label_of(m, "node"@) == row.node
            &&& m.name@ == row.metric
            &&& m.labels@ == row.labels
        }
}

/// A summary of a series is made of all metrics that go into it and of no others. It tells how many
/// there are, what they come to, the largest of them and when that was.
pub proof fn summaries_tell_of_their_samples(
    f: spec_fn(Op) -> Number,
    all: Seq<Metric>,
    run: RunManifest,
    window: Window,
    family: Family,
    g: int,
)
    requires
        0 <= g < summaries(f, all, run, window, family).len(),
        forall|i: int| 0 <= i < all.len() ==> !(#[trigger] all[i]).value.is_nan_spec(),
    ensures
        ({
            let row = summaries(f, all, run, window, family)[g];
            let own = all.filter(goes_into(all, run, window, family, row));
            &&& own.len() > 0
            &&& row.samples == own.len()
            &&& exists|i: int|
                {
                    &&& 0 <= i < own.len() && (#[trigger] own[i]).value == row.peak
                    &&& own[i].timestamp == row.peak_at
                }
            &&& forall|i: int|
                0 <= i < own.len() ==> !(#[trigger] own[i]).value.exceeds(row.peak)
            &&& if row.metric == "client.connections_opened"@ {
                row.value == Some(total(f, measured(own)))
            } else {
                comes_to(f, true, own[0], measured(own), row.value)
            }
        }),
{
    let chosen = all.filter(is_summarized(all, run, window, family));
    let key = by_series();
    let keys = chosen.map_values(key);
    let names = distinct_sorted::<RowKey>(keys);
    let row = summaries(f, all, run, window, family)[g];
    let k = names[g];
    let members = with_key(chosen, key, k);
    assert(row == summary_of(f, k, members));
    distinct_sorted_holds::<RowKey>(keys);
    assert(names.contains(k));
    let n = choose|n: int| 0 <= n < keys.len() && keys[n] == k;
    with_key_contains(chosen, key, n);
    let keyed = |m: Metric| key(m) == k;
    keyed_items(chosen, key, k, keyed);
    let own = goes_into(all, run, window, family, row);
    choosing_twice(all, is_summarized(all, run, window, family), keyed, own);
    assert(members == all.filter(own));
    assert forall|i: int| 0 <= i < members.len() implies !(
    #[trigger] members[i]).value.is_nan_spec() by {
        assert(members.contains(members[i]));
        all.lemma_filter_contains_rev(own, members[i]);
        let j = choose|j: int| 0 <= j < all.len() && all[j] == members[i];
        assert(!all[j].value.is_nan_spec());
    }
    peaks_are_not_exceeded(members);
    let p = choose|p: int| 0 <= p < members.len() && #[trigger] members[p] == peak_of(members);
    assert(members[p].value == row.peak);
    assert(measured(members) == metric_values(members));
    combining_comes_to(f, QueryScope::Series, members[0], measured(members));
    all.lemma_filter_pred(own, 0);
}

/// A host in a report tells of its metrics their average, their largest and when that was.
pub proof fn hosts_tell_of_their_metrics(
    f: spec_fn(Op) -> Number,
    summary: Seq<Metric>,
    series: Seq<Metric>,
    g: int,
)
    requires
        0 <= g < hosts(f, summary, series).len(),
        forall|i: int|
            0 <= i < host_inputs(summary, series).len() ==> !(#[trigger] host_inputs(
                summary,
                series,
            )[i]).value.is_nan_spec(),
    ensures
        ({
            let row = hosts(f, summary, series)[g];
            let own = host_inputs(summary, series).filter(
                |m: Metric| by_host()(m) == (row.node, (row.metric, (row.target, row.source))),
            );
            &&& own.len() > 0
            &&& row.average == f(
                Op::Divide(
                    total_from(f, Number { bits: 0 }, measured(own)),
                    f(Op::Integer(own.len() as i64)),
                ),
            )
            &&& exists|i: int|
                {
                    &&& 0 <= i < own.len() && (#[trigger] own[i]).value == row.peak
                    &&& own[i].timestamp == row.peak_at
                }
            &&& forall|i: int|
                0 <= i < own.len() ==> !(#[trigger] own[i]).value.exceeds(row.peak)
        }),
{
    let chosen = host_inputs(summary, series);
    let key = by_host();
    let keys = chosen.map_values(key);
    let names = distinct_sorted::<HostKey>(keys);
    let row = hosts(f, summary, series)[g];
    let k = names[g];
    let members = with_key(chosen, key, k);
    assert(row == host_of(f, k, members));
    distinct_sorted_holds::<HostKey>(keys);
    assert(names.contains(k));
    let n = choose|n: int| 0 <= n < keys.len() && keys[n] == k;
    with_key_contains(chosen, key, n);
    let own = |m: Metric| by_host()(m) == (row.node, (row.metric, (row.target, row.source)));
    keyed_items(chosen, key, k, own);
    assert forall|i: int| 0 <= i < members.len() implies !(
    #[trigger] members[i]).value.is_nan_spec() by {
        assert(members.contains(members[i]));
        chosen.lemma_filter_contains_rev(own, members[i]);
        let j = choose|j: int| 0 <= j < chosen.len() && chosen[j] == members[i];
        assert(!chosen[j].value.is_nan_spec());
    }
    peaks_are_not_exceeded(members);
    let p = choose|p: int| 0 <= p < members.len() && #[trigger] members[p] == peak_of(members);
    assert(members[p].value == row.peak);
    assert(measured(members) == metric_values(members));
}

/// A line of readings gives its columns in their order: the time, the service, the time of processors,
/// the memory, the bytes read, the bytes written and the processes.
pub proof fn readings_are_read_by_their_columns(line: Seq<char>)
    ensures
        reading_of(line) matches Some(r) ==> {
            let fields = split(line, '\t');
            &&& fields.len() == 7
            &&& rfc3339_nanos(fields[0]) == Some(r.at)
            &&& fields[1] == r.service
            &&& counter(fields[2]) == Some(r.cpu_usec)
            &&& counter(fields[3]) == Some(r.memory)
            &&& counter(fields[4]) == Some(r.read_bytes)
            &&& counter(fields[5]) == Some(r.write_bytes)
            &&& counter(fields[6]) == Some(r.pids)
        },
{
}

/// A column of a table is read from the field below its name, a comma for the decimal point.
pub proof fn columns_are_found_below_their_name(
    number: spec_fn(Seq<char>) -> Option<Number>,
    header: Seq<Seq<char>>,
    fields: Seq<Seq<char>>,
    i: int,
)
    requires
        0 <= i < header.len(),
        header.no_duplicates(),
    ensures
        column(number, header, fields, header[i]) == number(replace(fields[i], ","@, "."@)),
{
    position_is_found(header, i);
}

proof fn position_is_found(header: Seq<Seq<char>>, i: int)
    requires
        0 <= i < header.len(),
        header.no_duplicates(),
    ensures
        position(header, header[i]) == Some(i),
    decreases header.len(),
{
    let tail = header.skip(1);
    if i > 0 {
        assert(header[0] != header[i]);
        assert(tail[i - 1] == header[i]);
        assert forall|a: int, b: int|
            0 <= a < tail.len() && 0 <= b < tail.len() && a != b implies tail[a] != tail[b] by {
            assert(header[a + 1] != header[b + 1]);
        }
        position_is_found(tail, i - 1);
    }
}

proof fn first_rows_are_rows(rows: Seq<(Seq<char>, nat)>)
    ensures
        forall|row: (Seq<char>, nat)| #[trigger]
            first_rows(rows).contains(row) ==> rows.contains(row),
        forall|i: int|
            0 <= i < rows.len() ==> exists|g: int|
                0 <= g < first_rows(rows).len() && (#[trigger] first_rows(rows)[g]).0 == (
                #[trigger] rows[i]).0,
    decreases rows.len(),
{
    if rows.len() > 0 {
        let rest = rows.drop_last();
        let last = rows.len() - 1;
        first_rows_are_rows(rest);
        let before = first_rows(rest);
        let all = first_rows(rows);
        assert forall|row: (Seq<char>, nat)| #[trigger] all.contains(row) implies rows.contains(
            row,
        ) by {
            let j = choose|j: int| 0 <= j < all.len() && all[j] == row;
            if j < before.len() {
                assert(before[j] == row);
                assert(before.contains(row));
                let n = choose|n: int| 0 <= n < rest.len() && rest[n] == row;
                assert(rows[n] == row);
            } else {
                assert(rows[last] == row);
            }
        }
        assert forall|i: int| 0 <= i < rows.len() implies exists|g: int|
            0 <= g < all.len() && (#[trigger] all[g]).0 == (#[trigger] rows[i]).0 by {
            let n = if i < last {
                i
            } else if has_mount(rest, rows.last().0) {
                choose|n: int| 0 <= n < rest.len() && (#[trigger] rest[n]).0 == rows.last().0
            } else {
                i
            };
            if n < last {
                assert(rest[n].0 == rows[i].0);
                let g = choose|g: int| 0 <= g < before.len() && (#[trigger] before[g]).0 == rest[n].0;
                assert(all[g] == before[g]);
            } else {
                assert(all[before.len() as int].0 == rows[i].0);
            }
        }
    }
}

/// A line of `df` gives its mount the free space of its fourth column, in kibibytes, where no other
/// line names the mount.
pub proof fn free_space_is_the_fourth_column(output: Seq<char>, i: int, kib: nat)
    requires
        0 <= i < body_lines(output).len(),
        words(body_lines(output)[i]).len() >= 6,
        parsed_number(words(body_lines(output)[i])[3], 0xffff_ffff_ffff_ffff) == Some(kib),
        kib * 1024 <= u64::MAX,
        forall|j: int|
            0 <= j < body_lines(output).len() && j != i ==> join(
                words(#[trigger] body_lines(output)[j]).skip(5),
                " "@,
            ) != join(words(body_lines(output)[i]).skip(5), " "@),
    ensures
        df_mounts(output).contains(
            (MountView {
                mount: join(words(body_lines(output)[i]).skip(5), " "@),
                free_bytes: (kib * 1024) as u64,
            }),
        ),
{
    let body = body_lines(output);
    let rows = picked(body, pick_mount());
    let mount = join(words(body[i]).skip(5), " "@);
    let row = (mount, kib);
    assert(pick_mount()(body[i]) == Some(row));
    something_is_picked(body, pick_mount(), i);
    first_rows_are_rows(rows);
    let n = choose|n: int| 0 <= n < rows.len() && rows[n] == row;
    let firsts = first_rows(rows);
    let g = choose|g: int| 0 <= g < firsts.len() && (#[trigger] firsts[g]).0 == rows[n].0;
    assert(firsts.contains(firsts[g]));
    picked_comes_from_one(body, pick_mount(), firsts[g]);
    let j = choose|j: int| 0 <= j < body.len() && pick_mount()(#[trigger] body[j]) == Some(firsts[g]);
    assert(j == i);
    let all = df_mounts(output);
    assert(all[g] == (MountView { mount, free_bytes: (kib * 1024) as u64 }));
}

} // verus!
