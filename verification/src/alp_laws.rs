//! What the metrics that are read from alp tell of its records.
use crate::alp::{
    alp_metrics_of, alp_records, by_method_and_route, class_row, counted_requests, duration_rows,
    failed_requests, larger, maybe, mean_seconds, ms_option, no_stats, pick_row, plus,
    quantile_row, readings_of, request_rows, route_labels, route_rows, row_of, rows_metrics,
    rows_of_route, stats_of, with_record, zero_or, AlpRowView, Readings, RecordView, RouteStats,
};
use crate::join::with_key;
use crate::json::JsonView;
use crate::labels::{lookup, no_labels, with_label, with_label_holds, Pair};
use crate::model::MetricView;
use crate::number::{largest, smallest, total_from, Number, Op};
use crate::order::{distinct_sorted, distinct_sorted_holds};
use crate::order_laws::{chained_item, parts_are_chained};
use crate::protocol::picked;
use crate::text::before_char;
use crate::transition::{canonical, Rule};
use vstd::prelude::*;

verus! {

/// The first number that a record gives under some names.
pub open spec fn first_number(
    r: RecordView,
    number: spec_fn(Seq<char>) -> Option<Number>,
    names: Seq<Seq<char>>,
) -> Option<Number>
    decreases names.len(),
{
    if names.len() == 0 {
        None
    } else if r.number(number, names[0]) is Some {
        r.number(number, names[0])
    } else {
        first_number(r, number, names.skip(1))
    }
}

/// A record is one of the requests with a method to a route.
pub open spec fn is_of_route(
    rules: Seq<Rule>,
    r: RecordView,
    method: Seq<char>,
    route: Seq<char>,
) -> bool {
    let uri = if r.text("uri"@) is Some {
        r.text("uri"@)
    } else if r.text("route"@) is Some {
        r.text("route"@)
    } else {
        r.text("path"@)
    };
    &&& r.has_fields()
    &&& uri matches Some(path) && canonical(rules, before_char(path, '?')) == route
    &&& method == match r.text("method"@) {
        Some(text) => text,
        None => "-"@,
    }
}

/// What the records of a route give under some names, one number for each record that gives any.
pub open spec fn given(
    rules: Seq<Rule>,
    number: spec_fn(Seq<char>) -> Option<Number>,
    records: Seq<RecordView>,
    method: Seq<char>,
    route: Seq<char>,
    names: Seq<Seq<char>>,
) -> Seq<Number> {
    picked(
        records,
        |r: RecordView|
            if is_of_route(rules, r, method, route) {
                first_number(r, number, names)
            } else {
                None
            },
    )
}

/// The numbers of requests of the records of a route; a record without one counts as none.
pub open spec fn counts_given(
    rules: Seq<Rule>,
    number: spec_fn(Seq<char>) -> Option<Number>,
    records: Seq<RecordView>,
    method: Seq<char>,
    route: Seq<char>,
) -> Seq<Number> {
    picked(
        records,
        |r: RecordView|
            if is_of_route(rules, r, method, route) {
                match first_number(r, number, seq!["count"@, "requests"@]) {
                    Some(n) => Some(n),
                    None => Some(Number { bits: 0 }),
                }
            } else {
                None
            },
    )
}

/// What some readings give.
spec fn heard(rows: Seq<AlpRowView>, get: spec_fn(Readings) -> Option<Number>) -> Seq<Number> {
    picked(rows, |r: AlpRowView| get(r.readings))
}

/// The readings of a route are those of its records.
proof fn heard_is_given(
    rules: Seq<Rule>,
    number: spec_fn(Seq<char>) -> Option<Number>,
    records: Seq<RecordView>,
    k: (Seq<char>, Seq<char>),
    get: spec_fn(Readings) -> Option<Number>,
    pick: spec_fn(RecordView) -> Option<Number>,
)
    requires
        forall|i: int|
            0 <= i < records.len() ==> pick(#[trigger] records[i]) == if is_of_route(
                rules,
                records[i],
                k.0,
                k.1,
            ) {
                get(readings_of(records[i], number))
            } else {
                None
            },
    ensures
        heard(
            with_key(picked(records, pick_row(rules, number)), by_method_and_route(), k),
            get,
        ) == picked(records, pick),
    decreases records.len(),
{
    reveal(Seq::filter);
    if records.len() > 0 {
        let rest = records.drop_last();
        assert forall|i: int| 0 <= i < rest.len() implies pick(#[trigger] rest[i]) == if is_of_route(
            rules,
            rest[i],
            k.0,
            k.1,
        ) {
            get(readings_of(rest[i], number))
        } else {
            None
        } by {
            assert(rest[i] == records[i]);
        }
        heard_is_given(rules, number, rest, k, get, pick);
        let last = records.last();
        assert(records[records.len() - 1] == last);
        let rows = picked(rest, pick_row(rules, number));
        let key = by_method_and_route();
        match row_of(rules, number, last) {
            Some(row) => {
                assert(rows.push(row).drop_last() == rows);
                assert(is_of_route(rules, last, row.method, row.route));
                if key(row) == k {
                    assert(with_key(rows.push(row), key, k) == with_key(rows, key, k).push(row));
                    assert(with_key(rows, key, k).push(row).drop_last() == with_key(rows, key, k));
                } else {
                    assert(with_key(rows.push(row), key, k) == with_key(rows, key, k));
                }
            },
            None => {
                assert(!is_of_route(rules, last, k.0, k.1));
            },
        }
    }
}

proof fn added_readings(
    f: spec_fn(Op) -> Number,
    rows: Seq<AlpRowView>,
    get: spec_fn(Readings) -> Option<Number>,
    held: spec_fn(RouteStats) -> Option<Number>,
)
    requires
        held(no_stats()) is None,
        forall|s: RouteStats, r: Readings| #[trigger]
            held(with_record(f, s, r)) == plus(f, held(s), get(r)),
    ensures
        held(stats_of(f, rows)) == if heard(rows, get).len() == 0 {
            None
        } else {
            Some(total_from(f, Number { bits: 0 }, heard(rows, get)))
        },
    decreases rows.len(),
{
    if rows.len() > 0 {
        let rest = rows.drop_last();
        added_readings(f, rest, get, held);
        let r = rows.last().readings;
        assert(held(with_record(f, stats_of(f, rest), r)) == plus(f, held(stats_of(f, rest)), get(r)));
        match get(r) {
            Some(n) => {
                assert(heard(rows, get) == heard(rest, get).push(n));
                assert(heard(rest, get).push(n).drop_last() == heard(rest, get));
            },
            None => {},
        }
    }
}

proof fn counted_readings(f: spec_fn(Op) -> Number, rows: Seq<AlpRowView>)
    ensures
        stats_of(f, rows).count == total_from(
            f,
            Number { bits: 0 },
            heard(rows, |r: Readings| Some(zero_or(r.count))),
        ),
    decreases rows.len(),
{
    let get = |r: Readings| Some(zero_or(r.count));
    if rows.len() > 0 {
        let rest = rows.drop_last();
        counted_readings(f, rest);
        let n = zero_or(rows.last().readings.count);
        assert(heard(rows, get) == heard(rest, get).push(n));
        assert(heard(rest, get).push(n).drop_last() == heard(rest, get));
    }
}

proof fn largest_goes_on(values: Seq<Number>, x: Number, n: int)
    requires
        1 <= n <= values.len(),
    ensures
        largest(values.push(x), n) == largest(values, n),
        smallest(values.push(x), n) == smallest(values, n),
    decreases n,
{
    if n > 1 {
        largest_goes_on(values, x, n - 1);
    }
}

proof fn largest_readings(
    f: spec_fn(Op) -> Number,
    rows: Seq<AlpRowView>,
    get: spec_fn(Readings) -> Option<Number>,
    held: spec_fn(RouteStats) -> Option<Number>,
)
    requires
        held(no_stats()) is None,
        forall|s: RouteStats, r: Readings| #[trigger]
            held(with_record(f, s, r)) == larger(held(s), get(r)),
    ensures
        held(stats_of(f, rows)) == if heard(rows, get).len() == 0 {
            None
        } else {
            Some(largest(heard(rows, get), heard(rows, get).len() as int))
        },
    decreases rows.len(),
{
    if rows.len() > 0 {
        let rest = rows.drop_last();
        largest_readings(f, rest, get, held);
        let r = rows.last().readings;
        assert(held(with_record(f, stats_of(f, rest), r)) == larger(
            held(stats_of(f, rest)),
            get(r),
        ));
        match get(r) {
            Some(n) => {
                let before = heard(rest, get);
                assert(heard(rows, get) == before.push(n));
                if before.len() > 0 {
                    largest_goes_on(before, n, before.len() as int);
                }
            },
            None => {},
        }
    }
}

proof fn smallest_readings(f: spec_fn(Op) -> Number, rows: Seq<AlpRowView>)
    ensures
        ({
            let values = heard(rows, |r: Readings| r.smallest);
            stats_of(f, rows).smallest == if values.len() == 0 {
                None
            } else {
                Some(smallest(values, values.len() as int))
            }
        }),
    decreases rows.len(),
{
    let get = |r: Readings| r.smallest;
    if rows.len() > 0 {
        let rest = rows.drop_last();
        smallest_readings(f, rest);
        match get(rows.last().readings) {
            Some(n) => {
                let before = heard(rest, get);
                assert(heard(rows, get) == before.push(n));
                if before.len() > 0 {
                    largest_goes_on(before, n, before.len() as int);
                }
            },
            None => {},
        }
    }
}

proof fn last_average(f: spec_fn(Op) -> Number, rows: Seq<AlpRowView>)
    ensures
        ({
            let values = heard(rows, |r: Readings| r.average);
            stats_of(f, rows).average == if values.len() == 0 {
                None
            } else {
                Some(values.last())
            }
        }),
    decreases rows.len(),
{
    if rows.len() > 0 {
        last_average(f, rows.drop_last());
    }
}

/// The smallest of some values is one of them, and exceeds none.
pub proof fn the_smallest_exceeds_none(values: Seq<Number>, n: int)
    requires
        1 <= n <= values.len(),
    ensures
        exists|i: int| 0 <= i < n && #[trigger] values[i] == smallest(values, n),
        forall|i: int| 0 <= i < n ==> !smallest(values, n).exceeds(#[trigger] values[i]),
        (exists|i: int| 0 <= i < n && !(#[trigger] values[i]).is_nan_spec()) ==> !smallest(
            values,
            n,
        ).is_nan_spec(),
    decreases n,
{
    if n == 1 {
        assert(values[0] == smallest(values, n));
    } else {
        the_smallest_exceeds_none(values, n - 1);
        let before = smallest(values, n - 1);
        let i = choose|i: int| 0 <= i < n - 1 && #[trigger] values[i] == before;
        if smallest(values, n) == before {
            assert(values[i] == smallest(values, n));
        } else {
            assert(values[n - 1] == smallest(values, n));
        }
        assert forall|i: int| 0 <= i < n implies !smallest(values, n).exceeds(
            #[trigger] values[i],
        ) by {
            if i < n - 1 {
                assert(!before.exceeds(values[i]));
            }
        }
        if exists|i: int| 0 <= i < n && !(#[trigger] values[i]).is_nan_spec() {
            let i = choose|i: int| 0 <= i < n && !(#[trigger] values[i]).is_nan_spec();
            if i < n - 1 {
                assert(!before.is_nan_spec());
            }
        }
    }
}

/// Seconds as milliseconds.
pub open spec fn thousandfold(f: spec_fn(Op) -> Number, seconds: Number) -> Number {
    f(Op::Multiply(seconds, f(Op::Integer(1000))))
}

/// `value` is the largest of some seconds, in milliseconds.
pub open spec fn is_longest(f: spec_fn(Op) -> Number, values: Seq<Number>, value: Number) -> bool {
    exists|i: int|
        {
            &&& 0 <= i < values.len() && value == thousandfold(f, #[trigger] values[i])
            &&& forall|j: int| 0 <= j < values.len() ==> !(#[trigger] values[j]).exceeds(values[i])
        }
}

/// `value` is the smallest of some seconds, in milliseconds.
pub open spec fn is_shortest(f: spec_fn(Op) -> Number, values: Seq<Number>, value: Number) -> bool {
    exists|i: int|
        {
            &&& 0 <= i < values.len() && value == thousandfold(f, #[trigger] values[i])
            &&& forall|j: int| 0 <= j < values.len() ==> !values[i].exceeds(#[trigger] values[j])
        }
}

/// The status classes of responses.
pub open spec fn is_status_class(class: Seq<char>) -> bool {
    class == "1xx"@ || class == "2xx"@ || class == "3xx"@ || class == "4xx"@ || class == "5xx"@
}

/// `m` counts requests of a route: all of them, those of one status class, or those that failed,
/// which are those with a status of the fourth or the fifth class.
pub open spec fn counts_requests(
    f: spec_fn(Op) -> Number,
    number: spec_fn(Seq<char>) -> Option<Number>,
    rules: Seq<Rule>,
    records: Seq<RecordView>,
    method: Seq<char>,
    route: Seq<char>,
    m: MetricView,
) -> bool {
    let zero = Number { bits: 0 };
    let class = lookup(m.labels, "status_class"@);
    let all = |names: Seq<Seq<char>>| given(rules, number, records, method, route, names);
    &&& m.unit == "requests"@
    &&& {
        ||| {
            &&& m.name == "http.requests"@
            &&& class is None
            &&& m.value == total_from(
                f,
                zero,
                counts_given(rules, number, records, method, route),
            )
            &&& m.value.is_positive_spec()
        }
        ||| {
            &&& m.name == "http.requests"@
            &&& class is Some && is_status_class(class->0)
            &&& all(seq![class->0]).len() > 0
            &&& m.value == total_from(f, zero, all(seq![class->0]))
        }
        ||| {
            &&& m.name == "http.errors"@
            &&& class is None
            &&& m.value == f(
                Op::Add(
                    total_from(f, zero, all(seq!["4xx"@])),
                    total_from(f, zero, all(seq!["5xx"@])),
                ),
            )
        }
    }
}

/// `m` tells how long the requests of a route took, in milliseconds: all together, on average, at
/// least, at most, or a quantile.
pub open spec fn tells_durations(
    f: spec_fn(Op) -> Number,
    number: spec_fn(Seq<char>) -> Option<Number>,
    rules: Seq<Rule>,
    records: Seq<RecordView>,
    method: Seq<char>,
    route: Seq<char>,
    m: MetricView,
) -> bool {
    let zero = Number { bits: 0 };
    let all = |names: Seq<Seq<char>>| given(rules, number, records, method, route, names);
    let sums = all(seq!["sum"@, "sum_time"@, "request_time_sum"@]);
    let averages = all(seq!["avg"@, "average"@, "request_time_avg"@]);
    let count = total_from(f, zero, counts_given(rules, number, records, method, route));
    let quantile = lookup(m.labels, "quantile"@);
    &&& m.unit == "ms"@
    &&& {
        ||| {
            &&& m.name == "http.request_duration_sum"@ && quantile is None
            &&& sums.len() > 0
            &&& m.value == thousandfold(f, total_from(f, zero, sums))
        }
        ||| {
            &&& m.name == "http.request_duration_mean"@ && quantile is None
            &&& if sums.len() > 0 && count.is_positive_spec() {
                m.value == thousandfold(f, f(Op::Divide(total_from(f, zero, sums), count)))
            } else {
                averages.len() > 0 && m.value == thousandfold(f, averages.last())
            }
        }
        ||| {
            &&& m.name == "http.request_duration_min"@ && quantile is None
            &&& is_shortest(f, all(seq!["min"@, "min_time"@, "request_time_min"@]), m.value)
        }
        ||| {
            &&& m.name == "http.request_duration_max"@ && quantile is None
            &&& is_longest(f, all(seq!["max"@, "max_time"@, "request_time_max"@]), m.value)
        }
        ||| {
            &&& m.name == "http.request_duration"@ && quantile == Some("0.50"@)
            &&& is_longest(f, all(seq!["p50"@, "p50_time"@, "request_time_p50"@]), m.value)
        }
        ||| {
            &&& m.name == "http.request_duration"@ && quantile == Some("0.95"@)
            &&& is_longest(f, all(seq!["p95"@, "p95_time"@, "request_time_p95"@]), m.value)
        }
        ||| {
            &&& m.name == "http.request_duration"@ && quantile == Some("0.99"@)
            &&& is_longest(f, all(seq!["p99"@, "p99_time"@, "request_time_p99"@]), m.value)
        }
    }
}

/// `m` tells how many bytes the responses of a route had.
pub open spec fn tells_bytes(
    f: spec_fn(Op) -> Number,
    number: spec_fn(Seq<char>) -> Option<Number>,
    rules: Seq<Rule>,
    records: Seq<RecordView>,
    method: Seq<char>,
    route: Seq<char>,
    m: MetricView,
) -> bool {
    let names = seq!["response_bytes"@, "body_bytes_sent"@, "sum_body_bytes_sent"@, "sum_body"@];
    let bytes = given(rules, number, records, method, route, names);
    &&& m.name == "http.response_bytes"@
    &&& m.unit == "bytes"@
    &&& bytes.len() > 0
    &&& m.value == total_from(f, Number { bits: 0 }, bytes)
}

/// What is held of a route, where its readings are what its records give.
spec fn is_held(
    f: spec_fn(Op) -> Number,
    number: spec_fn(Seq<char>) -> Option<Number>,
    rules: Seq<Rule>,
    records: Seq<RecordView>,
    k: (Seq<char>, Seq<char>),
    s: RouteStats,
) -> bool {
    let zero = Number { bits: 0 };
    let all = |names: Seq<Seq<char>>| given(rules, number, records, k.0, k.1, names);
    let added = |values: Seq<Number>|
        if values.len() == 0 {
            None
        } else {
            Some(total_from(f, zero, values))
        };
    let top = |values: Seq<Number>|
        if values.len() == 0 {
            None
        } else {
            Some(largest(values, values.len() as int))
        };
    let shortest = all(seq!["min"@, "min_time"@, "request_time_min"@]);
    let averages = all(seq!["avg"@, "average"@, "request_time_avg"@]);
    &&& s.count == total_from(f, zero, counts_given(rules, number, records, k.0, k.1))
    &&& s.class1 == added(all(seq!["1xx"@]))
    &&& s.class2 == added(all(seq!["2xx"@]))
    &&& s.class3 == added(all(seq!["3xx"@]))
    &&& s.class4 == added(all(seq!["4xx"@]))
    &&& s.class5 == added(all(seq!["5xx"@]))
    &&& s.sum == added(all(seq!["sum"@, "sum_time"@, "request_time_sum"@]))
    &&& s.bytes == added(
        all(seq!["response_bytes"@, "body_bytes_sent"@, "sum_body_bytes_sent"@, "sum_body"@]),
    )
    &&& s.largest == top(all(seq!["max"@, "max_time"@, "request_time_max"@]))
    &&& s.p50 == top(all(seq!["p50"@, "p50_time"@, "request_time_p50"@]))
    &&& s.p95 == top(all(seq!["p95"@, "p95_time"@, "request_time_p95"@]))
    &&& s.p99 == top(all(seq!["p99"@, "p99_time"@, "request_time_p99"@]))
    &&& s.smallest == if shortest.len() == 0 {
        None
    } else {
        Some(smallest(shortest, shortest.len() as int))
    }
    &&& s.average == if averages.len() == 0 {
        None
    } else {
        Some(averages.last())
    }
}

proof fn first_of_one(r: RecordView, number: spec_fn(Seq<char>) -> Option<Number>, a: Seq<char>)
    ensures
        first_number(r, number, seq![a]) == r.number(number, a),
{
    reveal_with_fuel(first_number, 2);
    assert(seq![a].skip(1) == Seq::<Seq<char>>::empty());
}

proof fn first_of_more(
    r: RecordView,
    number: spec_fn(Seq<char>) -> Option<Number>,
    a: Seq<char>,
    rest: Seq<Seq<char>>,
)
    ensures
        first_number(r, number, seq![a] + rest) == if r.number(number, a) is Some {
            r.number(number, a)
        } else {
            first_number(r, number, rest)
        },
{
    assert((seq![a] + rest).skip(1) == rest);
}

/// The names that each reading goes by.
proof fn readings_have_names(r: RecordView, number: spec_fn(Seq<char>) -> Option<Number>)
    ensures
        ({
            let s = readings_of(r, number);
            let under = |names: Seq<Seq<char>>| first_number(r, number, names);
            &&& s.count == under(seq!["count"@, "requests"@])
            &&& s.class1 == under(seq!["1xx"@])
            &&& s.class2 == under(seq!["2xx"@])
            &&& s.class3 == under(seq!["3xx"@])
            &&& s.class4 == under(seq!["4xx"@])
            &&& s.class5 == under(seq!["5xx"@])
            &&& s.sum == under(seq!["sum"@, "sum_time"@, "request_time_sum"@])
            &&& s.average == under(seq!["avg"@, "average"@, "request_time_avg"@])
            &&& s.smallest == under(seq!["min"@, "min_time"@, "request_time_min"@])
            &&& s.largest == under(seq!["max"@, "max_time"@, "request_time_max"@])
            &&& s.p50 == under(seq!["p50"@, "p50_time"@, "request_time_p50"@])
            &&& s.p95 == under(seq!["p95"@, "p95_time"@, "request_time_p95"@])
            &&& s.p99 == under(seq!["p99"@, "p99_time"@, "request_time_p99"@])
            &&& s.bytes == under(
                seq!["response_bytes"@, "body_bytes_sent"@, "sum_body_bytes_sent"@, "sum_body"@],
            )
        }),
{
    two_names(r, number, "count"@, "requests"@);
    first_of_one(r, number, "1xx"@);
    first_of_one(r, number, "2xx"@);
    first_of_one(r, number, "3xx"@);
    first_of_one(r, number, "4xx"@);
    first_of_one(r, number, "5xx"@);
    three_names(r, number, "sum"@, "sum_time"@, "request_time_sum"@);
    three_names(r, number, "avg"@, "average"@, "request_time_avg"@);
    three_names(r, number, "min"@, "min_time"@, "request_time_min"@);
    three_names(r, number, "max"@, "max_time"@, "request_time_max"@);
    three_names(r, number, "p50"@, "p50_time"@, "request_time_p50"@);
    three_names(r, number, "p95"@, "p95_time"@, "request_time_p95"@);
    three_names(r, number, "p99"@, "p99_time"@, "request_time_p99"@);
    three_names(r, number, "body_bytes_sent"@, "sum_body_bytes_sent"@, "sum_body"@);
    let rest = seq!["body_bytes_sent"@, "sum_body_bytes_sent"@, "sum_body"@];
    first_of_more(r, number, "response_bytes"@, rest);
    assert(seq!["response_bytes"@] + rest == seq![
        "response_bytes"@,
        "body_bytes_sent"@,
        "sum_body_bytes_sent"@,
        "sum_body"@,
    ]);
}

proof fn two_names(
    r: RecordView,
    number: spec_fn(Seq<char>) -> Option<Number>,
    a: Seq<char>,
    b: Seq<char>,
)
    ensures
        first_number(r, number, seq![a, b]) == crate::report::first_of(
            r.number(number, a),
            r.number(number, b),
        ),
{
    first_of_one(r, number, b);
    first_of_more(r, number, a, seq![b]);
    assert(seq![a] + seq![b] == seq![a, b]);
}

proof fn three_names(
    r: RecordView,
    number: spec_fn(Seq<char>) -> Option<Number>,
    a: Seq<char>,
    b: Seq<char>,
    c: Seq<char>,
)
    ensures
        first_number(r, number, seq![a, b, c]) == crate::report::first_of(
            crate::report::first_of(r.number(number, a), r.number(number, b)),
            r.number(number, c),
        ),
{
    two_names(r, number, b, c);
    first_of_more(r, number, a, seq![b, c]);
    assert(seq![a] + seq![b, c] == seq![a, b, c]);
}

proof fn reading_is_given(
    rules: Seq<Rule>,
    number: spec_fn(Seq<char>) -> Option<Number>,
    records: Seq<RecordView>,
    k: (Seq<char>, Seq<char>),
    get: spec_fn(Readings) -> Option<Number>,
    names: Seq<Seq<char>>,
)
    requires
        forall|r: RecordView| get(#[trigger] readings_of(r, number)) == first_number(
            r,
            number,
            names,
        ),
    ensures
        heard(
            with_key(picked(records, pick_row(rules, number)), by_method_and_route(), k),
            get,
        ) == given(rules, number, records, k.0, k.1, names),
{
    heard_is_given(
        rules,
        number,
        records,
        k,
        get,
        |r: RecordView|
            if is_of_route(rules, r, k.0, k.1) {
                first_number(r, number, names)
            } else {
                None
            },
    );
}

#[verifier::rlimit(60)]
proof fn routes_hold_what_is_given(
    f: spec_fn(Op) -> Number,
    number: spec_fn(Seq<char>) -> Option<Number>,
    rules: Seq<Rule>,
    records: Seq<RecordView>,
    k: (Seq<char>, Seq<char>),
)
    ensures
        is_held(
            f,
            number,
            rules,
            records,
            k,
            stats_of(
                f,
                with_key(picked(records, pick_row(rules, number)), by_method_and_route(), k),
            ),
        ),
{
    let rows = with_key(picked(records, pick_row(rules, number)), by_method_and_route(), k);
    assert forall|r: RecordView| #![trigger readings_of(r, number)] true implies ({
        let s = readings_of(r, number);
        let under = |names: Seq<Seq<char>>| first_number(r, number, names);
        &&& s.count == under(seq!["count"@, "requests"@])
        &&& s.class1 == under(seq!["1xx"@])
        &&& s.class2 == under(seq!["2xx"@])
        &&& s.class3 == under(seq!["3xx"@])
        &&& s.class4 == under(seq!["4xx"@])
        &&& s.class5 == under(seq!["5xx"@])
        &&& s.sum == under(seq!["sum"@, "sum_time"@, "request_time_sum"@])
        &&& s.average == under(seq!["avg"@, "average"@, "request_time_avg"@])
        &&& s.smallest == under(seq!["min"@, "min_time"@, "request_time_min"@])
        &&& s.largest == under(seq!["max"@, "max_time"@, "request_time_max"@])
        &&& s.p50 == under(seq!["p50"@, "p50_time"@, "request_time_p50"@])
        &&& s.p95 == under(seq!["p95"@, "p95_time"@, "request_time_p95"@])
        &&& s.p99 == under(seq!["p99"@, "p99_time"@, "request_time_p99"@])
        &&& s.bytes == under(
            seq!["response_bytes"@, "body_bytes_sent"@, "sum_body_bytes_sent"@, "sum_body"@],
        )
    }) by {
        readings_have_names(r, number);
    }
    counted_readings(f, rows);
    let count = |r: Readings| Some(zero_or(r.count));
    heard_is_given(
        rules,
        number,
        records,
        k,
        count,
        |r: RecordView|
            if is_of_route(rules, r, k.0, k.1) {
                match first_number(r, number, seq!["count"@, "requests"@]) {
                    Some(n) => Some(n),
                    None => Some(Number { bits: 0 }),
                }
            } else {
                None
            },
    );
    let get = |r: Readings| r.class1;
    added_readings(f, rows, get, |s: RouteStats| s.class1);
    reading_is_given(rules, number, records, k, get, seq!["1xx"@]);
    let get = |r: Readings| r.class2;
    added_readings(f, rows, get, |s: RouteStats| s.class2);
    reading_is_given(rules, number, records, k, get, seq!["2xx"@]);
    let get = |r: Readings| r.class3;
    added_readings(f, rows, get, |s: RouteStats| s.class3);
    reading_is_given(rules, number, records, k, get, seq!["3xx"@]);
    let get = |r: Readings| r.class4;
    added_readings(f, rows, get, |s: RouteStats| s.class4);
    reading_is_given(rules, number, records, k, get, seq!["4xx"@]);
    let get = |r: Readings| r.class5;
    added_readings(f, rows, get, |s: RouteStats| s.class5);
    reading_is_given(rules, number, records, k, get, seq!["5xx"@]);
    let get = |r: Readings| r.sum;
    added_readings(f, rows, get, |s: RouteStats| s.sum);
    reading_is_given(
        rules,
        number,
        records,
        k,
        get,
        seq!["sum"@, "sum_time"@, "request_time_sum"@],
    );
    let get = |r: Readings| r.bytes;
    added_readings(f, rows, get, |s: RouteStats| s.bytes);
    reading_is_given(
        rules,
        number,
        records,
        k,
        get,
        seq!["response_bytes"@, "body_bytes_sent"@, "sum_body_bytes_sent"@, "sum_body"@],
    );
    let get = |r: Readings| r.largest;
    largest_readings(f, rows, get, |s: RouteStats| s.largest);
    reading_is_given(
        rules,
        number,
        records,
        k,
        get,
        seq!["max"@, "max_time"@, "request_time_max"@],
    );
    let get = |r: Readings| r.p50;
    largest_readings(f, rows, get, |s: RouteStats| s.p50);
    reading_is_given(
        rules,
        number,
        records,
        k,
        get,
        seq!["p50"@, "p50_time"@, "request_time_p50"@],
    );
    let get = |r: Readings| r.p95;
    largest_readings(f, rows, get, |s: RouteStats| s.p95);
    reading_is_given(
        rules,
        number,
        records,
        k,
        get,
        seq!["p95"@, "p95_time"@, "request_time_p95"@],
    );
    let get = |r: Readings| r.p99;
    largest_readings(f, rows, get, |s: RouteStats| s.p99);
    reading_is_given(
        rules,
        number,
        records,
        k,
        get,
        seq!["p99"@, "p99_time"@, "request_time_p99"@],
    );
    smallest_readings(f, rows);
    reading_is_given(
        rules,
        number,
        records,
        k,
        |r: Readings| r.smallest,
        seq!["min"@, "min_time"@, "request_time_min"@],
    );
    last_average(f, rows);
    reading_is_given(
        rules,
        number,
        records,
        k,
        |r: Readings| r.average,
        seq!["avg"@, "average"@, "request_time_avg"@],
    );
}

/// What two lists hold together, one of them holds.
pub proof fn either_part<T>(a: Seq<T>, b: Seq<T>, x: T)
    ensures
        (a + b).contains(x) <==> a.contains(x) || b.contains(x),
{
    if (a + b).contains(x) {
        let i = choose|i: int| 0 <= i < (a + b).len() && (a + b)[i] == x;
        if i < a.len() {
            assert(a[i] == x);
        } else {
            assert(b[i - a.len()] == x);
        }
    }
    if a.contains(x) {
        let i = choose|i: int| 0 <= i < a.len() && a[i] == x;
        assert((a + b)[i] == x);
    }
    if b.contains(x) {
        let i = choose|i: int| 0 <= i < b.len() && b[i] == x;
        assert((a + b)[a.len() + i] == x);
    }
}

/// The metric that a value makes, where there is one.
spec fn is_made(
    m: MetricView,
    name: Seq<char>,
    value: Option<Number>,
    unit: Seq<char>,
    labels: Seq<Pair>,
) -> bool {
    value is Some && m == (MetricView { name, value: value->0, unit, timestamp: None, labels })
}

proof fn made_or_not(
    m: MetricView,
    name: Seq<char>,
    value: Option<Number>,
    unit: Seq<char>,
    labels: Seq<Pair>,
)
    ensures
        maybe(name, value, unit, labels).contains(m) <==> is_made(m, name, value, unit, labels),
{
    if value is Some {
        assert(maybe(name, value, unit, labels)[0] == (MetricView {
            name,
            value: value->0,
            unit,
            timestamp: None,
            labels,
        }));
    }
}

proof fn request_rows_are(
    f: spec_fn(Op) -> Number,
    labels: Seq<Pair>,
    s: RouteStats,
    m: MetricView,
)
    ensures
        request_rows(f, labels, s).contains(m) <==> {
            let class = |name: Seq<char>| with_label(labels, "status_class"@, name);
            ||| is_made(m, "http.requests"@, counted_requests(s), "requests"@, labels)
            ||| is_made(m, "http.requests"@, s.class1, "requests"@, class("1xx"@))
            ||| is_made(m, "http.requests"@, s.class2, "requests"@, class("2xx"@))
            ||| is_made(m, "http.requests"@, s.class3, "requests"@, class("3xx"@))
            ||| is_made(m, "http.requests"@, s.class4, "requests"@, class("4xx"@))
            ||| is_made(m, "http.requests"@, s.class5, "requests"@, class("5xx"@))
            ||| is_made(m, "http.errors"@, failed_requests(f, s), "requests"@, labels)
        },
{
    reveal(request_rows);
    let class = |name: Seq<char>| with_label(labels, "status_class"@, name);
    let a = maybe("http.requests"@, counted_requests(s), "requests"@, labels);
    let b = a + class_row(labels, "1xx"@, s.class1);
    let c = b + class_row(labels, "2xx"@, s.class2);
    let d = c + class_row(labels, "3xx"@, s.class3);
    let e = d + class_row(labels, "4xx"@, s.class4);
    let g = e + class_row(labels, "5xx"@, s.class5);
    let last = maybe("http.errors"@, failed_requests(f, s), "requests"@, labels);
    either_part(a, class_row(labels, "1xx"@, s.class1), m);
    either_part(b, class_row(labels, "2xx"@, s.class2), m);
    either_part(c, class_row(labels, "3xx"@, s.class3), m);
    either_part(d, class_row(labels, "4xx"@, s.class4), m);
    either_part(e, class_row(labels, "5xx"@, s.class5), m);
    either_part(g, last, m);
    made_or_not(m, "http.requests"@, counted_requests(s), "requests"@, labels);
    made_or_not(m, "http.requests"@, s.class1, "requests"@, class("1xx"@));
    made_or_not(m, "http.requests"@, s.class2, "requests"@, class("2xx"@));
    made_or_not(m, "http.requests"@, s.class3, "requests"@, class("3xx"@));
    made_or_not(m, "http.requests"@, s.class4, "requests"@, class("4xx"@));
    made_or_not(m, "http.requests"@, s.class5, "requests"@, class("5xx"@));
    made_or_not(m, "http.errors"@, failed_requests(f, s), "requests"@, labels);
    assert(request_rows(f, labels, s) == g + last);
}

proof fn duration_rows_are(
    f: spec_fn(Op) -> Number,
    labels: Seq<Pair>,
    s: RouteStats,
    m: MetricView,
)
    ensures
        duration_rows(f, labels, s).contains(m) <==> {
            let ms = |v: Option<Number>| ms_option(f, v);
            let at = |q: Seq<char>| with_label(labels, "quantile"@, q);
            ||| is_made(m, "http.request_duration_sum"@, ms(s.sum), "ms"@, labels)
            ||| is_made(m, "http.request_duration_mean"@, ms(mean_seconds(f, s)), "ms"@, labels)
            ||| is_made(m, "http.request_duration_min"@, ms(s.smallest), "ms"@, labels)
            ||| is_made(m, "http.request_duration_max"@, ms(s.largest), "ms"@, labels)
            ||| is_made(m, "http.request_duration"@, ms(s.p50), "ms"@, at("0.50"@))
            ||| is_made(m, "http.request_duration"@, ms(s.p95), "ms"@, at("0.95"@))
            ||| is_made(m, "http.request_duration"@, ms(s.p99), "ms"@, at("0.99"@))
        },
{
    reveal(duration_rows);
    let at = |q: Seq<char>| with_label(labels, "quantile"@, q);
    let mean = ms_option(f, mean_seconds(f, s));
    let a = maybe("http.request_duration_sum"@, ms_option(f, s.sum), "ms"@, labels);
    let b = a + maybe("http.request_duration_mean"@, mean, "ms"@, labels);
    let c = b + maybe("http.request_duration_min"@, ms_option(f, s.smallest), "ms"@, labels);
    let d = c + maybe("http.request_duration_max"@, ms_option(f, s.largest), "ms"@, labels);
    let e = d + quantile_row(f, labels, "0.50"@, s.p50);
    let g = e + quantile_row(f, labels, "0.95"@, s.p95);
    let last = quantile_row(f, labels, "0.99"@, s.p99);
    either_part(a, maybe("http.request_duration_mean"@, mean, "ms"@, labels), m);
    either_part(
        b,
        maybe("http.request_duration_min"@, ms_option(f, s.smallest), "ms"@, labels),
        m,
    );
    either_part(
        c,
        maybe("http.request_duration_max"@, ms_option(f, s.largest), "ms"@, labels),
        m,
    );
    either_part(d, quantile_row(f, labels, "0.50"@, s.p50), m);
    either_part(e, quantile_row(f, labels, "0.95"@, s.p95), m);
    either_part(g, last, m);
    made_or_not(m, "http.request_duration_sum"@, ms_option(f, s.sum), "ms"@, labels);
    made_or_not(m, "http.request_duration_mean"@, mean, "ms"@, labels);
    made_or_not(m, "http.request_duration_min"@, ms_option(f, s.smallest), "ms"@, labels);
    made_or_not(m, "http.request_duration_max"@, ms_option(f, s.largest), "ms"@, labels);
    made_or_not(m, "http.request_duration"@, ms_option(f, s.p50), "ms"@, at("0.50"@));
    made_or_not(m, "http.request_duration"@, ms_option(f, s.p95), "ms"@, at("0.95"@));
    made_or_not(m, "http.request_duration"@, ms_option(f, s.p99), "ms"@, at("0.99"@));
    assert(duration_rows(f, labels, s) == g + last);
}

/// What the labels of a route and of its classes and quantiles are.
proof fn labels_of_a_route(method: Seq<char>, route: Seq<char>)
    ensures
        ({
            let labels = route_labels(method, route);
            &&& lookup(labels, "method"@) == Some(method)
            &&& lookup(labels, "route"@) == Some(route)
            &&& lookup(labels, "status_class"@) is None
            &&& lookup(labels, "quantile"@) is None
            &&& forall|value: Seq<char>|
                {
                    let more = #[trigger] with_label(labels, "status_class"@, value);
                    &&& lookup(more, "method"@) == Some(method)
                    &&& lookup(more, "route"@) == Some(route)
                    &&& lookup(more, "status_class"@) == Some(value)
                    &&& lookup(more, "quantile"@) is None
                }
            &&& forall|value: Seq<char>|
                {
                    let more = #[trigger] with_label(labels, "quantile"@, value);
                    &&& lookup(more, "method"@) == Some(method)
                    &&& lookup(more, "route"@) == Some(route)
                    &&& lookup(more, "quantile"@) == Some(value)
                    &&& lookup(more, "status_class"@) is None
                }
        }),
{
    reveal_strlit("method");
    reveal_strlit("route");
    reveal_strlit("status_class");
    reveal_strlit("quantile");
    assert("method"@[0] == 'm' && "route"@[0] == 'r' && "status_class"@[0] == 's'
        && "quantile"@[0] == 'q');
    with_label_holds(no_labels(), "method"@, method);
    let one = with_label(no_labels(), "method"@, method);
    with_label_holds(one, "route"@, route);
    let labels = route_labels(method, route);
    assert(lookup(no_labels(), "status_class"@) is None);
    assert(lookup(no_labels(), "quantile"@) is None);
    assert(lookup(one, "status_class"@) is None && lookup(one, "quantile"@) is None);
    assert forall|value: Seq<char>|
        {
            let more = #[trigger] with_label(labels, "status_class"@, value);
            &&& lookup(more, "method"@) == Some(method)
            &&& lookup(more, "route"@) == Some(route)
            &&& lookup(more, "status_class"@) == Some(value)
            &&& lookup(more, "quantile"@) is None
        } by {
        with_label_holds(labels, "status_class"@, value);
    }
    assert forall|value: Seq<char>|
        {
            let more = #[trigger] with_label(labels, "quantile"@, value);
            &&& lookup(more, "method"@) == Some(method)
            &&& lookup(more, "route"@) == Some(route)
            &&& lookup(more, "quantile"@) == Some(value)
            &&& lookup(more, "status_class"@) is None
        } by {
        with_label_holds(labels, "quantile"@, value);
    }
}

proof fn longest_is_longest(f: spec_fn(Op) -> Number, values: Seq<Number>)
    requires
        values.len() > 0,
    ensures
        is_longest(f, values, thousandfold(f, largest(values, values.len() as int))),
        is_shortest(f, values, thousandfold(f, smallest(values, values.len() as int))),
{
    let n = values.len() as int;
    crate::brief_laws::the_largest_is_not_exceeded(values, n);
    the_smallest_exceeds_none(values, n);
    let i = choose|i: int| 0 <= i < n && #[trigger] values[i] == largest(values, n);
    let j = choose|j: int| 0 <= j < n && #[trigger] values[j] == smallest(values, n);
    assert(thousandfold(f, values[i]) == thousandfold(f, largest(values, n)));
    assert(thousandfold(f, values[j]) == thousandfold(f, smallest(values, n)));
}

proof fn request_row_is_right(
    f: spec_fn(Op) -> Number,
    number: spec_fn(Seq<char>) -> Option<Number>,
    rules: Seq<Rule>,
    records: Seq<RecordView>,
    k: (Seq<char>, Seq<char>),
    s: RouteStats,
    m: MetricView,
)
    requires
        is_held(f, number, rules, records, k, s),
        request_rows(f, route_labels(k.0, k.1), s).contains(m),
    ensures
        lookup(m.labels, "method"@) == Some(k.0),
        lookup(m.labels, "route"@) == Some(k.1),
        m.timestamp is None,
        counts_requests(f, number, rules, records, k.0, k.1, m),
{
    labels_of_a_route(k.0, k.1);
    request_rows_are(f, route_labels(k.0, k.1), s, m);
}

proof fn duration_row_is_right(
    f: spec_fn(Op) -> Number,
    number: spec_fn(Seq<char>) -> Option<Number>,
    rules: Seq<Rule>,
    records: Seq<RecordView>,
    k: (Seq<char>, Seq<char>),
    s: RouteStats,
    m: MetricView,
)
    requires
        is_held(f, number, rules, records, k, s),
        duration_rows(f, route_labels(k.0, k.1), s).contains(m),
    ensures
        lookup(m.labels, "method"@) == Some(k.0),
        lookup(m.labels, "route"@) == Some(k.1),
        m.timestamp is None,
        tells_durations(f, number, rules, records, k.0, k.1, m),
{
    labels_of_a_route(k.0, k.1);
    duration_rows_are(f, route_labels(k.0, k.1), s, m);
    let all = |names: Seq<Seq<char>>| given(rules, number, records, k.0, k.1, names);
    let a = all(seq!["min"@, "min_time"@, "request_time_min"@]);
    let b = all(seq!["max"@, "max_time"@, "request_time_max"@]);
    let c = all(seq!["p50"@, "p50_time"@, "request_time_p50"@]);
    let d = all(seq!["p95"@, "p95_time"@, "request_time_p95"@]);
    let e = all(seq!["p99"@, "p99_time"@, "request_time_p99"@]);
    if a.len() > 0 {
        longest_is_longest(f, a);
    }
    if b.len() > 0 {
        longest_is_longest(f, b);
    }
    if c.len() > 0 {
        longest_is_longest(f, c);
    }
    if d.len() > 0 {
        longest_is_longest(f, d);
    }
    if e.len() > 0 {
        longest_is_longest(f, e);
    }
}

/// Every metric that is read from alp tells of the records of one route what it is named after: how
/// many requests there were, of each status class and with an error; how long they took; how many
/// bytes they sent. The errors are the requests of the fourth and of the fifth class, whatever the
/// other classes hold.
pub proof fn metrics_tell_of_their_route(
    f: spec_fn(Op) -> Number,
    number: spec_fn(Seq<char>) -> Option<Number>,
    rules: Seq<Rule>,
    value: JsonView,
    i: int,
)
    requires
        alp_records(value) is Ok,
        alp_metrics_of(f, number, rules, Some(value)) is Ok,
        0 <= i < alp_metrics_of(f, number, rules, Some(value))->Ok_0.len(),
    ensures
        ({
            let records = alp_records(value)->Ok_0;
            let m = alp_metrics_of(f, number, rules, Some(value))->Ok_0[i];
            &&& m.timestamp is None
            &&& lookup(m.labels, "method"@) matches Some(method) && lookup(
                m.labels,
                "route"@,
            ) matches Some(route) && {
                ||| counts_requests(f, number, rules, records, method, route, m)
                ||| tells_durations(f, number, rules, records, method, route, m)
                ||| tells_bytes(f, number, rules, records, method, route, m)
            }
        }),
{
    let records = alp_records(value)->Ok_0;
    let rows = picked(records, pick_row(rules, number));
    let names = distinct_sorted::<(String, String)>(rows.map_values(by_method_and_route()));
    let parts = names.map_values(rows_of_route(f, rows));
    let (g, j) = chained_item(parts, i);
    let k = names[g];
    let s = stats_of(f, with_key(rows, by_method_and_route(), k));
    let labels = route_labels(k.0, k.1);
    let m = rows_metrics(f, rows)[i];
    assert(parts[g] == route_rows(f, labels, s));
    assert(m == parts[g][j]);
    routes_hold_what_is_given(f, number, rules, records, k);
    let bytes = maybe("http.response_bytes"@, s.bytes, "bytes"@, labels);
    assert(parts[g].contains(m));
    either_part(request_rows(f, labels, s) + duration_rows(f, labels, s), bytes, m);
    either_part(request_rows(f, labels, s), duration_rows(f, labels, s), m);
    made_or_not(m, "http.response_bytes"@, s.bytes, "bytes"@, labels);
    if request_rows(f, labels, s).contains(m) {
        request_row_is_right(f, number, rules, records, k, s, m);
    } else if duration_rows(f, labels, s).contains(m) {
        duration_row_is_right(f, number, rules, records, k, s, m);
    } else {
        labels_of_a_route(k.0, k.1);
    }
}

/// Something is found where an item gives it.
pub proof fn something_is_picked<T, U>(items: Seq<T>, pick: spec_fn(T) -> Option<U>, i: int)
    requires
        0 <= i < items.len(),
        pick(items[i]) is Some,
    ensures
        picked(items, pick).contains(pick(items[i])->0),
    decreases items.len(),
{
    let rest = picked(items.drop_last(), pick);
    let all = picked(items, pick);
    if i < items.len() - 1 {
        something_is_picked(items.drop_last(), pick, i);
        let j = choose|j: int| 0 <= j < rest.len() && rest[j] == pick(items[i])->0;
        assert(all[j] == rest[j]);
    } else {
        assert(all[rest.len() as int] == pick(items[i])->0);
    }
}

/// There is a metric of a route with this name, status class and quantile.
pub open spec fn stands(
    metrics: Seq<MetricView>,
    name: Seq<char>,
    method: Seq<char>,
    route: Seq<char>,
    class: Option<Seq<char>>,
    quantile: Option<Seq<char>>,
) -> bool {
    exists|i: int|
        {
            &&& 0 <= i < metrics.len() && (#[trigger] metrics[i]).name == name
            &&& lookup(metrics[i].labels, "method"@) == Some(method)
            &&& lookup(metrics[i].labels, "route"@) == Some(route)
            &&& lookup(metrics[i].labels, "status_class"@) == class
            &&& lookup(metrics[i].labels, "quantile"@) == quantile
        }
}

proof fn made_metrics_stand(
    metrics: Seq<MetricView>,
    name: Seq<char>,
    value: Option<Number>,
    unit: Seq<char>,
    labels: Seq<Pair>,
    k: (Seq<char>, Seq<char>),
)
    requires
        value is Some,
        metrics.contains(
            (MetricView { name, value: value->0, unit, timestamp: None, labels }),
        ),
        lookup(labels, "method"@) == Some(k.0),
        lookup(labels, "route"@) == Some(k.1),
    ensures
        stands(
            metrics,
            name,
            k.0,
            k.1,
            lookup(labels, "status_class"@),
            lookup(labels, "quantile"@),
        ),
{
    let m = MetricView { name, value: value->0, unit, timestamp: None, labels };
    let i = choose|i: int| 0 <= i < metrics.len() && metrics[i] == m;
    assert(metrics[i].name == name);
}

/// What is made of a value stands among the metrics of its route.
proof fn values_are_made(
    f: spec_fn(Op) -> Number,
    metrics: Seq<MetricView>,
    k: (Seq<char>, Seq<char>),
    s: RouteStats,
)
    requires
        forall|m: MetricView| #[trigger]
            route_rows(f, route_labels(k.0, k.1), s).contains(m) ==> metrics.contains(m),
    ensures
        s.count.is_positive_spec() ==> stands(metrics, "http.requests"@, k.0, k.1, None, None),
        s.class1 is Some ==> stands(metrics, "http.requests"@, k.0, k.1, Some("1xx"@), None),
        s.class2 is Some ==> stands(metrics, "http.requests"@, k.0, k.1, Some("2xx"@), None),
        s.class3 is Some ==> stands(metrics, "http.requests"@, k.0, k.1, Some("3xx"@), None),
        s.class4 is Some ==> stands(metrics, "http.requests"@, k.0, k.1, Some("4xx"@), None),
        s.class5 is Some ==> stands(metrics, "http.requests"@, k.0, k.1, Some("5xx"@), None),
        failed_requests(f, s) is Some ==> stands(metrics, "http.errors"@, k.0, k.1, None, None),
        s.sum is Some ==> stands(metrics, "http.request_duration_sum"@, k.0, k.1, None, None),
        mean_seconds(f, s) is Some ==> stands(
            metrics,
            "http.request_duration_mean"@,
            k.0,
            k.1,
            None,
            None,
        ),
        s.smallest is Some ==> stands(metrics, "http.request_duration_min"@, k.0, k.1, None, None),
        s.largest is Some ==> stands(metrics, "http.request_duration_max"@, k.0, k.1, None, None),
        s.p50 is Some ==> stands(metrics, "http.request_duration"@, k.0, k.1, None, Some("0.50"@)),
        s.p95 is Some ==> stands(metrics, "http.request_duration"@, k.0, k.1, None, Some("0.95"@)),
        s.p99 is Some ==> stands(metrics, "http.request_duration"@, k.0, k.1, None, Some("0.99"@)),
        s.bytes is Some ==> stands(metrics, "http.response_bytes"@, k.0, k.1, None, None),
{
    let labels = route_labels(k.0, k.1);
    let bytes = maybe("http.response_bytes"@, s.bytes, "bytes"@, labels);
    labels_of_a_route(k.0, k.1);
    assert forall|m: MetricView|
        #![trigger request_rows(f, labels, s).contains(m)]
        #![trigger duration_rows(f, labels, s).contains(m)]
        #![trigger bytes.contains(m)]
        request_rows(f, labels, s).contains(m) || duration_rows(f, labels, s).contains(m)
            || bytes.contains(m) implies metrics.contains(m) by {
        either_part(request_rows(f, labels, s) + duration_rows(f, labels, s), bytes, m);
        either_part(request_rows(f, labels, s), duration_rows(f, labels, s), m);
        assert(route_rows(f, labels, s).contains(m));
    }
    let count = counted_requests(s);
    if count is Some {
        let m = MetricView {
            name: "http.requests"@,
            value: count->0,
            unit: "requests"@,
            timestamp: None,
            labels,
        };
        request_rows_are(f, labels, s, m);
        made_metrics_stand(metrics, "http.requests"@, count, "requests"@, labels, k);
    }
    class_is_made(f, metrics, k, s, "1xx"@, s.class1);
    class_is_made(f, metrics, k, s, "2xx"@, s.class2);
    class_is_made(f, metrics, k, s, "3xx"@, s.class3);
    class_is_made(f, metrics, k, s, "4xx"@, s.class4);
    class_is_made(f, metrics, k, s, "5xx"@, s.class5);
    let failed = failed_requests(f, s);
    if failed is Some {
        let m = MetricView {
            name: "http.errors"@,
            value: failed->0,
            unit: "requests"@,
            timestamp: None,
            labels,
        };
        request_rows_are(f, labels, s, m);
        made_metrics_stand(metrics, "http.errors"@, failed, "requests"@, labels, k);
    }
    duration_is_made(f, metrics, k, s, "http.request_duration_sum"@, s.sum);
    duration_is_made(f, metrics, k, s, "http.request_duration_mean"@, mean_seconds(f, s));
    duration_is_made(f, metrics, k, s, "http.request_duration_min"@, s.smallest);
    duration_is_made(f, metrics, k, s, "http.request_duration_max"@, s.largest);
    quantile_is_made(f, metrics, k, s, "0.50"@, s.p50);
    quantile_is_made(f, metrics, k, s, "0.95"@, s.p95);
    quantile_is_made(f, metrics, k, s, "0.99"@, s.p99);
    if s.bytes is Some {
        let m = MetricView {
            name: "http.response_bytes"@,
            value: s.bytes->0,
            unit: "bytes"@,
            timestamp: None,
            labels,
        };
        made_or_not(m, "http.response_bytes"@, s.bytes, "bytes"@, labels);
        assert(bytes.contains(m));
        made_metrics_stand(metrics, "http.response_bytes"@, s.bytes, "bytes"@, labels, k);
    }
}

proof fn class_is_made(
    f: spec_fn(Op) -> Number,
    metrics: Seq<MetricView>,
    k: (Seq<char>, Seq<char>),
    s: RouteStats,
    class: Seq<char>,
    value: Option<Number>,
)
    requires
        forall|m: MetricView| #[trigger]
            request_rows(f, route_labels(k.0, k.1), s).contains(m) ==> metrics.contains(m),
        class == "1xx"@ && value == s.class1 || class == "2xx"@ && value == s.class2 || class
            == "3xx"@ && value == s.class3 || class == "4xx"@ && value == s.class4 || class
            == "5xx"@ && value == s.class5,
    ensures
        value is Some ==> stands(metrics, "http.requests"@, k.0, k.1, Some(class), None),
{
    if value is Some {
        let labels = with_label(route_labels(k.0, k.1), "status_class"@, class);
        let m = MetricView {
            name: "http.requests"@,
            value: value->0,
            unit: "requests"@,
            timestamp: None,
            labels,
        };
        labels_of_a_route(k.0, k.1);
        request_rows_are(f, route_labels(k.0, k.1), s, m);
        made_metrics_stand(metrics, "http.requests"@, value, "requests"@, labels, k);
    }
}

proof fn duration_is_made(
    f: spec_fn(Op) -> Number,
    metrics: Seq<MetricView>,
    k: (Seq<char>, Seq<char>),
    s: RouteStats,
    name: Seq<char>,
    value: Option<Number>,
)
    requires
        forall|m: MetricView| #[trigger]
            duration_rows(f, route_labels(k.0, k.1), s).contains(m) ==> metrics.contains(m),
        name == "http.request_duration_sum"@ && value == s.sum || name
            == "http.request_duration_mean"@ && value == mean_seconds(f, s) || name
            == "http.request_duration_min"@ && value == s.smallest || name
            == "http.request_duration_max"@ && value == s.largest,
    ensures
        value is Some ==> stands(metrics, name, k.0, k.1, None, None),
{
    if value is Some {
        let labels = route_labels(k.0, k.1);
        let ms = ms_option(f, value);
        let m = MetricView { name, value: ms->0, unit: "ms"@, timestamp: None, labels };
        labels_of_a_route(k.0, k.1);
        duration_rows_are(f, labels, s, m);
        made_metrics_stand(metrics, name, ms, "ms"@, labels, k);
    }
}

proof fn quantile_is_made(
    f: spec_fn(Op) -> Number,
    metrics: Seq<MetricView>,
    k: (Seq<char>, Seq<char>),
    s: RouteStats,
    quantile: Seq<char>,
    value: Option<Number>,
)
    requires
        forall|m: MetricView| #[trigger]
            duration_rows(f, route_labels(k.0, k.1), s).contains(m) ==> metrics.contains(m),
        quantile == "0.50"@ && value == s.p50 || quantile == "0.95"@ && value == s.p95 || quantile
            == "0.99"@ && value == s.p99,
    ensures
        value is Some ==> stands(
            metrics,
            "http.request_duration"@,
            k.0,
            k.1,
            None,
            Some(quantile),
        ),
{
    if value is Some {
        let labels = with_label(route_labels(k.0, k.1), "quantile"@, quantile);
        let ms = ms_option(f, value);
        let m = MetricView {
            name: "http.request_duration"@,
            value: ms->0,
            unit: "ms"@,
            timestamp: None,
            labels,
        };
        labels_of_a_route(k.0, k.1);
        duration_rows_are(f, route_labels(k.0, k.1), s, m);
        made_metrics_stand(metrics, "http.request_duration"@, ms, "ms"@, labels, k);
    }
}

/// What a record gives is not lost: its route has a metric of every kind that the record has a number
/// for, and one of errors where it has one of any status class.
pub proof fn no_number_is_lost(
    f: spec_fn(Op) -> Number,
    number: spec_fn(Seq<char>) -> Option<Number>,
    rules: Seq<Rule>,
    value: JsonView,
    i: int,
    method: Seq<char>,
    route: Seq<char>,
)
    requires
        alp_records(value) is Ok,
        alp_metrics_of(f, number, rules, Some(value)) is Ok,
        0 <= i < alp_records(value)->Ok_0.len(),
        is_of_route(rules, alp_records(value)->Ok_0[i], method, route),
    ensures
        ({
            let records = alp_records(value)->Ok_0;
            let r = records[i];
            let metrics = alp_metrics_of(f, number, rules, Some(value))->Ok_0;
            let gives = |names: Seq<Seq<char>>| first_number(r, number, names) is Some;
            let has = |name: Seq<char>| stands(metrics, name, method, route, None, None);
            let quantile = |q: Seq<char>|
                stands(metrics, "http.request_duration"@, method, route, None, Some(q));
            &&& forall|class: Seq<char>| #[trigger]
                is_status_class(class) && gives(seq![class]) ==> stands(
                    metrics,
                    "http.requests"@,
                    method,
                    route,
                    Some(class),
                    None,
                ) && has("http.errors"@)
            &&& total_from(
                f,
                Number { bits: 0 },
                counts_given(rules, number, records, method, route),
            ).is_positive_spec() ==> has("http.requests"@)
            &&& gives(seq!["sum"@, "sum_time"@, "request_time_sum"@]) ==> has(
                "http.request_duration_sum"@,
            )
            &&& gives(seq!["avg"@, "average"@, "request_time_avg"@]) ==> has(
                "http.request_duration_mean"@,
            )
            &&& gives(seq!["min"@, "min_time"@, "request_time_min"@]) ==> has(
                "http.request_duration_min"@,
            )
            &&& gives(seq!["max"@, "max_time"@, "request_time_max"@]) ==> has(
                "http.request_duration_max"@,
            )
            &&& gives(seq!["p50"@, "p50_time"@, "request_time_p50"@]) ==> quantile("0.50"@)
            &&& gives(seq!["p95"@, "p95_time"@, "request_time_p95"@]) ==> quantile("0.95"@)
            &&& gives(seq!["p99"@, "p99_time"@, "request_time_p99"@]) ==> quantile("0.99"@)
            &&& gives(
                seq!["response_bytes"@, "body_bytes_sent"@, "sum_body_bytes_sent"@, "sum_body"@],
            ) ==> has("http.response_bytes"@)
        }),
{
    let records = alp_records(value)->Ok_0;
    let r = records[i];
    let rows = picked(records, pick_row(rules, number));
    let metrics = rows_metrics(f, rows);
    let k = (method, route);
    let keys = rows.map_values(by_method_and_route());
    let names = distinct_sorted::<(String, String)>(keys);
    something_is_picked(records, pick_row(rules, number), i);
    let row = row_of(rules, number, r)->0;
    let n = choose|n: int| 0 <= n < rows.len() && rows[n] == row;
    assert(keys[n] == k);
    assert(keys.contains(k));
    distinct_sorted_holds::<(String, String)>(keys);
    assert(names.contains(k));
    let g = choose|g: int| 0 <= g < names.len() && names[g] == k;
    let parts = names.map_values(rows_of_route(f, rows));
    let s = stats_of(f, with_key(rows, by_method_and_route(), k));
    assert(parts[g] == route_rows(f, route_labels(method, route), s));
    assert forall|m: MetricView| #[trigger]
        route_rows(f, route_labels(method, route), s).contains(m) implies metrics.contains(m) by {
        let j = choose|j: int| 0 <= j < parts[g].len() && parts[g][j] == m;
        parts_are_chained(parts, g, j);
    }
    values_are_made(f, metrics, k, s);
    routes_hold_what_is_given(f, number, rules, records, k);
    assert forall|list: Seq<Seq<char>>|
        #![trigger given(rules, number, records, method, route, list)]
        first_number(r, number, list) is Some implies given(
        rules,
        number,
        records,
        method,
        route,
        list,
    ).len() > 0 by {
        something_is_picked(
            records,
            |r: RecordView|
                if is_of_route(rules, r, method, route) {
                    first_number(r, number, list)
                } else {
                    None
                },
            i,
        );
    }
}

} // verus!
