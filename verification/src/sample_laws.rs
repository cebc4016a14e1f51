//! What the metrics of statements and of samples of the processor tell.
use crate::alp_laws::either_part;
use crate::join::{chain, with_key_contains};
use crate::labels::{with_label, Pair};
use crate::model::MetricView;
use crate::moment::Moment;
use crate::number::{total_from, Number, Op};
use crate::order::{distinct_sorted, distinct_sorted_holds, stable_sorted};
use crate::order_laws::{keyed_items, parts_are_chained, sorting_counts_alike};
use crate::perf::{
    bucket_key, process_key, sample_metrics, spot_of, timed_process_key, timed_process_rows,
    timed_spot_of, timed_spot_rows, whole_process_rows, whole_spot_rows, SampleView,
};
use crate::slow_log::{
    digest_key, measured, ms_of, query_rows, slow_metrics, take_fields, timed_digest_key,
    timed_query_rows, whole_query_rows, whole_rows, EntryView, SlowView,
};
use crate::transition::own_place;
use crate::transition_laws::{rank_is_reached, takes_shares};
use vstd::prelude::*;

verus! {

/// The calls of a statement, in one bucket of time or in the whole log.
pub open spec fn calls_of(queries: Seq<SlowView>, digest: Seq<char>, at: Option<int>) -> Seq<
    SlowView,
> {
    queries.filter(
        |q: SlowView| q.digest == digest && (at matches Some(bucket) ==> q.bucket == bucket),
    )
}

/// The metrics tell of some calls of a statement: how many there were, and their times and rows, added
/// up.
pub open spec fn tells_calls(
    f: spec_fn(Op) -> Number,
    metrics: Seq<MetricView>,
    digest: Seq<char>,
    at: Option<Moment>,
    calls: Seq<SlowView>,
) -> bool {
    let labels = with_label(
        with_label(Seq::<Pair>::empty(), "engine"@, "mysql"@),
        "digest"@,
        digest,
    );
    let told = |name: Seq<char>, value: Number, unit: Seq<char>|
        metrics.contains(MetricView { name, value, unit, timestamp: at, labels });
    let sum = |value: spec_fn(SlowView) -> Number|
        total_from(f, Number { bits: 0 }, calls.map_values(value));
    &&& told("db.query.calls"@, f(Op::Integer(calls.len() as i64)), "queries"@)
    &&& told("db.query.total_duration"@, sum(|q: SlowView| q.ms), "ms"@)
    &&& told("db.query.lock_duration"@, sum(|q: SlowView| q.lock), "ms"@)
    &&& told("db.query.rows_sent"@, sum(|q: SlowView| q.sent), "rows"@)
    &&& told("db.query.rows_examined"@, sum(|q: SlowView| q.examined), "rows"@)
}

proof fn rows_tell_calls(
    f: spec_fn(Op) -> Number,
    metrics: Seq<MetricView>,
    digest: Seq<char>,
    at: Option<Moment>,
    calls: Seq<SlowView>,
)
    requires
        forall|i: int|
            0 <= i < query_rows(f, at, digest, calls).len() ==> metrics.contains(
                #[trigger] query_rows(f, at, digest, calls)[i],
            ),
    ensures
        tells_calls(f, metrics, digest, at, calls),
{
    let rows = query_rows(f, at, digest, calls);
    assert(rows.len() == 5);
    assert(metrics.contains(rows[0]) && metrics.contains(rows[1]) && metrics.contains(rows[2])
        && metrics.contains(rows[3]) && metrics.contains(rows[4]));
    assert(calls.map_values(|q: SlowView| q.ms) == calls.map_values(crate::slow_log::ms_of()));
    assert(calls.map_values(|q: SlowView| q.lock) == calls.map_values(crate::slow_log::lock_of()));
    assert(calls.map_values(|q: SlowView| q.sent) == calls.map_values(crate::slow_log::sent_of()));
    assert(calls.map_values(|q: SlowView| q.examined) == calls.map_values(
        crate::slow_log::examined_of(),
    ));
}

/// Every call in the log is counted with the calls of its statement: among those of the same bucket
/// of time, and among those of the whole log. Of the whole log there is a duration, too, that was
/// measured, that ninety-five of a hundred calls did not exceed, and that fewer fell below.
pub proof fn calls_are_counted_with_their_statement(
    f: spec_fn(Op) -> Number,
    queries: Seq<SlowView>,
    i: int,
)
    requires
        0 <= i < queries.len(),
        takes_shares(f, calls_of(queries, queries[i].digest, None).len()),
    ensures
        ({
            let q = queries[i];
            let all = calls_of(queries, q.digest, None);
            let metrics = slow_metrics(f, queries);
            &&& tells_calls(f, metrics, q.digest, None, all)
            &&& tells_calls(
                f,
                metrics,
                q.digest,
                Some(Moment { nanos: q.bucket as i128 }),
                calls_of(queries, q.digest, Some(q.bucket)),
            )
            &&& exists|ms: Number|
                {
                    &&& #[trigger] metrics.contains(
                        (MetricView {
                            name: "db.query.p95_duration"@,
                            value: ms,
                            unit: "ms"@,
                            timestamp: None,
                            labels: with_label(
                                with_label(Seq::<Pair>::empty(), "engine"@, "mysql"@),
                                "digest"@,
                                q.digest,
                            ),
                        }),
                    )
                    &&& is_share(all.map_values(|q: SlowView| q.ms), ms)
                }
        }),
{
    let q = queries[i];
    let timed = distinct_sorted::<(Moment, String)>(queries.map_values(timed_digest_key()));
    let whole = distinct_sorted::<String>(queries.map_values(digest_key()));
    let parts = timed.map_values(timed_query_rows(f, queries));
    let rest = whole.map_values(whole_query_rows(f, queries));
    let metrics = slow_metrics(f, queries);
    let k = (q.bucket, q.digest);
    distinct_sorted_holds::<(Moment, String)>(queries.map_values(timed_digest_key()));
    distinct_sorted_holds::<String>(queries.map_values(digest_key()));
    assert(queries.map_values(timed_digest_key())[i] == k);
    assert(queries.map_values(digest_key())[i] == q.digest);
    assert(queries.map_values(timed_digest_key()).contains(k));
    assert(queries.map_values(digest_key()).contains(q.digest));
    assert(timed.contains(k));
    assert(whole.contains(q.digest));
    let g = choose|g: int| 0 <= g < timed.len() && timed[g] == k;
    let h = choose|h: int| 0 <= h < whole.len() && whole[h] == q.digest;
    let all = calls_of(queries, q.digest, None);
    let some = calls_of(queries, q.digest, Some(q.bucket));
    let in_all = |x: SlowView|
        x.digest == q.digest && (None::<int> matches Some(bucket) ==> x.bucket == bucket);
    let in_some = |x: SlowView|
        x.digest == q.digest && (Some(q.bucket) matches Some(bucket) ==> x.bucket == bucket);
    keyed_items(queries, digest_key(), q.digest, in_all);
    keyed_items(queries, timed_digest_key(), k, in_some);
    crate::order_laws::choices_agree(
        queries,
        in_all,
        called_of(q.digest, None),
    );
    crate::order_laws::choices_agree(
        queries,
        in_some,
        called_of(q.digest, Some(q.bucket)),
    );
    assert(parts[g] == query_rows(f, Some(Moment { nanos: q.bucket as i128 }), q.digest, some));
    assert(rest[h] == whole_rows(f, q.digest, all));
    assert forall|j: int| 0 <= j < parts[g].len() implies metrics.contains(
        #[trigger] parts[g][j],
    ) by {
        parts_are_chained(parts, g, j);
        either_part(chain(parts), chain(rest), parts[g][j]);
    }
    assert forall|j: int| 0 <= j < rest[h].len() implies metrics.contains(#[trigger] rest[h][j]) by {
        parts_are_chained(rest, h, j);
        either_part(chain(parts), chain(rest), rest[h][j]);
    }
    assert forall|j: int| 0 <= j < query_rows(f, None, q.digest, all).len() implies metrics.contains(
        #[trigger] query_rows(f, None, q.digest, all)[j],
    ) by {
        assert(rest[h][j] == query_rows(f, None, q.digest, all)[j]);
    }
    rows_tell_calls(f, metrics, q.digest, Some(Moment { nanos: q.bucket as i128 }), some);
    rows_tell_calls(f, metrics, q.digest, None, all);
    with_key_contains(queries, digest_key(), i);
    let n = all.len();
    assert(n > 0);
    let times = all.map_values(ms_of());
    let rank = (95 * n + 99) / 100;
    let sorted = stable_sorted::<Number, Number>(times, own_place());
    sorting_counts_alike::<Number, Number>(times, own_place(), |x: Number| true);
    rank_is_reached(times, rank as int);
    let ms = sorted[rank - 1];
    assert(times == all.map_values(|q: SlowView| q.ms));
    assert(is_share(times, ms));
    assert(rest[h][5] == rest[h].last());
    assert(metrics.contains(rest[h][5]));
}

spec fn called_of(digest: Seq<char>, at: Option<int>) -> spec_fn(SlowView) -> bool {
    |q: SlowView| q.digest == digest && (at matches Some(bucket) ==> q.bucket == bucket)
}

/// A value that was measured, that ninety-five of a hundred values did not exceed, and that fewer fell
/// below.
pub open spec fn is_share(values: Seq<Number>, value: Number) -> bool {
    &&& values.contains(value)
    &&& 100 * values.filter(|n: Number| n.place() <= value.place()).len() >= 95 * values.len()
    &&& 100 * values.filter(|n: Number| n.place() < value.place()).len() < 95 * values.len()
}

/// A line of measurements in its usual layout gives each of its values to the figure that it is named
/// after. Seconds become milliseconds.
pub proof fn measurements_are_read_by_name(
    f: spec_fn(Op) -> Number,
    number: spec_fn(Seq<char>) -> Option<Number>,
    entry: EntryView,
    seconds: Seq<char>,
    lock: Seq<char>,
    sent: Seq<char>,
    examined: Seq<char>,
)
    requires
        number(seconds) is Some && number(lock) is Some,
        number(sent) is Some && number(examined) is Some,
        forall|text: Seq<char>| #[trigger]
            number(text) is Some ==> text != "Lock_time:"@ && text != "Rows_sent:"@ && text
                != "Rows_examined:"@,
    ensures
        ({
            let fields = seq![
                seconds,
                "Lock_time:"@,
                lock,
                "Rows_sent:"@,
                sent,
                "Rows_examined:"@,
                examined,
            ];
            let read = measured(f, number, entry, fields);
            let ms = |n: Number| f(Op::Multiply(n, f(Op::Integer(1000))));
            &&& read.duration == Some(ms(number(seconds)->0))
            &&& read.lock == ms(number(lock)->0)
            &&& read.sent == number(sent)->0
            &&& read.examined == number(examined)->0
            &&& read.at == entry.at
        }),
{
    reveal_strlit("Lock_time:");
    reveal_strlit("Rows_sent:");
    reveal_strlit("Rows_examined:");
    assert("Lock_time:"@[0] == 'L' && "Rows_sent:"@[5] == 's' && "Rows_examined:"@[5] == 'e'
        && "Rows_sent:"@[0] == 'R' && "Rows_examined:"@[0] == 'R');
    let a = seq![seconds];
    let b = a.push("Lock_time:"@);
    let c = b.push(lock);
    let d = c.push("Rows_sent:"@);
    let e = d.push(sent);
    let g = e.push("Rows_examined:"@);
    let h = g.push(examined);
    assert(b.drop_last() == a && c.drop_last() == b && d.drop_last() == c && e.drop_last() == d
        && g.drop_last() == e && h.drop_last() == g);
    assert(h == seq![
        seconds,
        "Lock_time:"@,
        lock,
        "Rows_sent:"@,
        sent,
        "Rows_examined:"@,
        examined,
    ]);
    reveal_with_fuel(take_fields, 8);
}

/// `value` is the share of `count` in `all`, in percent.
pub open spec fn percent_of(f: spec_fn(Op) -> Number, count: nat, all: nat) -> Number {
    f(
        Op::Multiply(
            f(Op::Divide(f(Op::Integer(count as i64)), f(Op::Integer(all as i64)))),
            f(Op::Integer(100)),
        ),
    )
}

/// Two samples are at the same symbol of the same binary of the same process; a sample without a frame
/// is at an unknown one.
pub open spec fn same_spot(a: SampleView, b: SampleView) -> bool {
    let leaf = |s: SampleView|
        match s.leaf {
            Some(leaf) => leaf,
            None => ("[unknown]"@, "[unknown]"@),
        };
    a.process == b.process && leaf(a) == leaf(b)
}

/// Every sample of the processor is counted at its symbol and for its process: there is the number of
/// samples at the symbol, their share of all samples, and the share of the process, over the whole
/// capture and in the bucket of the sample.
pub proof fn samples_are_counted_where_they_were_taken(
    f: spec_fn(Op) -> Number,
    samples: Seq<SampleView>,
    i: int,
)
    requires
        0 <= i < samples.len(),
    ensures
        ({
            let s = samples[i];
            let metrics = sample_metrics(f, samples);
            let leaf = match s.leaf {
                Some(leaf) => leaf,
                None => ("[unknown]"@, "[unknown]"@),
            };
            let process = with_label(Seq::<Pair>::empty(), "process"@, s.process);
            let spot = with_label(with_label(process, "binary"@, leaf.0), "symbol"@, leaf.1);
            let at = Some(Moment { nanos: s.bucket as i128 });
            let here = samples.filter(|x: SampleView| same_spot(x, s)).len();
            let here_now = samples.filter(
                |x: SampleView| x.bucket == s.bucket && same_spot(x, s),
            ).len();
            let now = samples.filter(|x: SampleView| x.bucket == s.bucket).len();
            let own = samples.filter(|x: SampleView| x.process == s.process).len();
            let own_now = samples.filter(
                |x: SampleView| x.bucket == s.bucket && x.process == s.process,
            ).len();
            let told = |name: Seq<char>, value: Number, unit: Seq<char>, at: Option<Moment>, labels: Seq<Pair>|
                metrics.contains(MetricView { name, value, unit, timestamp: at, labels });
            &&& told("cpu.sample_count"@, f(Op::Integer(here as i64)), "samples"@, None, spot)
            &&& told(
                "cpu.sample_percent"@,
                percent_of(f, here, samples.len()),
                "percent"@,
                None,
                spot,
            )
            &&& told("cpu.sample_count"@, f(Op::Integer(here_now as i64)), "samples"@, at, spot)
            &&& told("cpu.sample_percent"@, percent_of(f, here_now, now), "percent"@, at, spot)
            &&& told(
                "cpu.process_percent"@,
                percent_of(f, own, samples.len()),
                "percent"@,
                None,
                process,
            )
            &&& told("cpu.process_percent"@, percent_of(f, own_now, now), "percent"@, at, process)
        }),
{
    let s = samples[i];
    let metrics = sample_metrics(f, samples);
    let timed_spots = distinct_sorted::<(Moment, (String, (String, String)))>(
        samples.map_values(timed_spot_of()),
    );
    let spots = distinct_sorted::<(String, (String, String))>(samples.map_values(spot_of()));
    let timed_processes = distinct_sorted::<(Moment, String)>(
        samples.map_values(timed_process_key()),
    );
    let processes = distinct_sorted::<String>(samples.map_values(process_key()));
    let a = timed_spots.map_values(timed_spot_rows(f, samples));
    let b = spots.map_values(whole_spot_rows(f, samples));
    let c = timed_processes.map_values(timed_process_rows(f, samples));
    let d = processes.map_values(whole_process_rows(f, samples));
    assert(metrics == chain(a) + chain(b) + c + d);
    let ka = timed_spot_of()(s);
    let kb = spot_of()(s);
    let kc = timed_process_key()(s);
    let kd = process_key()(s);
    distinct_sorted_holds::<(Moment, (String, (String, String)))>(
        samples.map_values(timed_spot_of()),
    );
    distinct_sorted_holds::<(String, (String, String))>(samples.map_values(spot_of()));
    distinct_sorted_holds::<(Moment, String)>(samples.map_values(timed_process_key()));
    distinct_sorted_holds::<String>(samples.map_values(process_key()));
    assert(samples.map_values(timed_spot_of())[i] == ka);
    assert(samples.map_values(spot_of())[i] == kb);
    assert(samples.map_values(timed_process_key())[i] == kc);
    assert(samples.map_values(process_key())[i] == kd);
    assert(samples.map_values(timed_spot_of()).contains(ka));
    assert(samples.map_values(spot_of()).contains(kb));
    assert(samples.map_values(timed_process_key()).contains(kc));
    assert(samples.map_values(process_key()).contains(kd));
    assert(timed_spots.contains(ka) && spots.contains(kb) && timed_processes.contains(kc)
        && processes.contains(kd));
    let ga = choose|g: int| 0 <= g < timed_spots.len() && timed_spots[g] == ka;
    let gb = choose|g: int| 0 <= g < spots.len() && spots[g] == kb;
    let gc = choose|g: int| 0 <= g < timed_processes.len() && timed_processes[g] == kc;
    let gd = choose|g: int| 0 <= g < processes.len() && processes[g] == kd;
    assert(a[ga] == timed_spot_rows(f, samples)(ka));
    assert(b[gb] == whole_spot_rows(f, samples)(kb));
    assert(c[gc] == timed_process_rows(f, samples)(kc));
    assert(d[gd] == whole_process_rows(f, samples)(kd));
    assert(a[ga].len() == 2 && b[gb].len() == 2);
    parts_are_chained(a, ga, 0);
    parts_are_chained(a, ga, 1);
    parts_are_chained(b, gb, 0);
    parts_are_chained(b, gb, 1);
    four_parts(chain(a), chain(b), c, d, a[ga][0]);
    four_parts(chain(a), chain(b), c, d, a[ga][1]);
    four_parts(chain(a), chain(b), c, d, b[gb][0]);
    four_parts(chain(a), chain(b), c, d, b[gb][1]);
    four_parts(chain(a), chain(b), c, d, c[gc]);
    four_parts(chain(a), chain(b), c, d, d[gd]);
    keyed_items(samples, spot_of(), kb, |x: SampleView| same_spot(x, s));
    keyed_items(
        samples,
        timed_spot_of(),
        ka,
        |x: SampleView| x.bucket == s.bucket && same_spot(x, s),
    );
    keyed_items(samples, bucket_key(), s.bucket, |x: SampleView| x.bucket == s.bucket);
    keyed_items(samples, process_key(), kd, |x: SampleView| x.process == s.process);
    keyed_items(
        samples,
        timed_process_key(),
        kc,
        |x: SampleView| x.bucket == s.bucket && x.process == s.process,
    );
}

proof fn four_parts<T>(a: Seq<T>, b: Seq<T>, c: Seq<T>, d: Seq<T>, x: T)
    ensures
        (a + b + c + d).contains(x) <==> a.contains(x) || b.contains(x) || c.contains(x)
            || d.contains(x),
{
    either_part(a, b, x);
    either_part(a + b, c, x);
    either_part(a + b + c, d, x);
}

} // verus!
