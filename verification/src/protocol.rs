//! Records that collectors write as lines of JSON.
use crate::bytes::{byte_lines, byte_lines_of, byte_views};
use crate::clock::{parse_rfc3339, rfc3339_nanos};
use crate::compression::{decompress_lines, sound_output};
use crate::join::value_views;
use crate::json::{json_of_bytes, json_option, member_views, parse_bytes, Json, JsonView};
use crate::labels::{no_labels, with_label, Labels, Pair};
use crate::model::{Fingerprint, Metric, MetricView, Transition, TransitionView};
use crate::moment::{epoch_point, epoch_seconds, Moment};
use crate::number::{apply, arithmetic, is_arithmetic, Number, Op};
use crate::rounding::{floor, floor_of};
use vstd::prelude::*;

verus! {

/// What a fingerprint says.
#[verifier::ext_equal]
pub struct FingerprintView {
    pub name: Seq<char>,
    pub value: Seq<char>,
    pub labels: Seq<Pair>,
}

impl View for Fingerprint {
    type V = FingerprintView;

    open spec fn view(&self) -> FingerprintView {
        FingerprintView { name: self.name@, value: self.value@, labels: self.labels@ }
    }
}

/// The value of a number as thirty-two bits without a sign: the nearest one for numbers out of
/// range, rounded down.
pub open spec fn small_of(n: Number) -> u32 {
    let whole = floor_of(n);
    if whole < 0 {
        0
    } else if whole > u32::MAX {
        u32::MAX
    } else {
        whole as u32
    }
}

pub fn small(n: Number) -> (r: u32)
    ensures
        r == small_of(n),
{
    let whole: i64 = floor(n);
    if whole < 0 {
        0
    } else if whole > 0xffff_ffff {
        u32::MAX
    } else {
        whole as u32
    }
}

/// The nanoseconds by which a number of seconds exceeds the whole number of seconds below it.
pub open spec fn rest_nanos(f: spec_fn(Op) -> Number, seconds: Number) -> u32 {
    small_of(
        f(
            Op::Round(
                f(
                    Op::Multiply(
                        f(Op::Subtract(seconds, f(Op::Integer(floor_of(seconds))))),
                        f(Op::Integer(1_000_000_000)),
                    ),
                ),
                0,
            ),
        ),
    )
}

pub fn nanos_after<F: Fn(Op) -> Number>(seconds: Number, compute: &F) -> (r: u32)
    requires
        is_arithmetic(*compute),
    ensures
        r == rest_nanos(arithmetic(*compute), seconds),
{
    let whole = apply(compute, Op::Integer(floor(seconds)));
    let rest = apply(compute, Op::Subtract(seconds, whole));
    let scale = apply(compute, Op::Integer(1_000_000_000));
    let nanos = apply(compute, Op::Multiply(rest, scale));
    small(apply(compute, Op::Round(nanos, 0)))
}

/// The point in time of a record: an RFC 3339 text, or seconds since the epoch in whole microseconds.
pub open spec fn record_time(f: spec_fn(Op) -> Number, value: Option<JsonView>) -> Option<Moment> {
    match value {
        Some(JsonView::Text(text)) => match rfc3339_nanos(text) {
            Some(nanos) => Some(Moment { nanos: nanos as i128 }),
            None => None,
        },
        Some(JsonView::Number(n)) => epoch_point(f, n.value),
        _ => None,
    }
}

pub fn parse_metric_timestamp<F: Fn(Op) -> Number>(value: Option<&Json>, compute: &F) -> (r: Option<
    Moment,
>)
    requires
        is_arithmetic(*compute),
    ensures
        r == record_time(
            arithmetic(*compute),
            match value {
                Some(v) => Some(v@),
                None => None,
            },
        ),
        r matches Some(at) ==> at.valid(),
{
    match value {
        Some(Json::Text(text)) => parse_rfc3339(text.as_str()),
        Some(Json::Number(n)) => epoch_seconds(n.value, compute),
        _ => None,
    }
}

/// The labels that the text members of an object make.
pub open spec fn text_labels(members: Seq<(Seq<char>, JsonView)>) -> Seq<Pair>
    decreases members.len(),
{
    if members.len() == 0 {
        no_labels()
    } else {
        let rest = text_labels(members.drop_last());
        match members.last().1 {
            JsonView::Text(value) => with_label(rest, members.last().0, value),
            _ => rest,
        }
    }
}

/// The labels of a record; what is not a text is dropped.
pub open spec fn record_labels(value: JsonView) -> Seq<Pair> {
    match value.member("labels"@) {
        Some(JsonView::Object(members)) => text_labels(members),
        _ => no_labels(),
    }
}

fn labels_from(value: &Json) -> (r: Labels)
    ensures
        r@ == record_labels(value@),
{
    let mut labels = Labels::new();
    match value.get("labels") {
        Some(found) => {
            proof {
                found.parts();
            }
            match found {
                Json::Object(members) => {
                    let ghost all = member_views(members@);
                    let mut i: usize = 0;
                    assert(all.take(0) == Seq::<(Seq<char>, JsonView)>::empty());
                    while i < members.len()
                        invariant
                            i <= members@.len(),
                            all == member_views(members@),
                            labels@ == text_labels(all.take(i as int)),
                        decreases members.len() - i,
                    {
                        proof {
                            assert(all.take(i + 1).drop_last() == all.take(i as int));
                            assert(all.take(i + 1).last() == (
                                members@[i as int].0@,
                                members@[i as int].1@,
                            ));
                        }
                        match &members[i].1 {
                            Json::Text(text) => {
                                labels.insert(members[i].0.clone(), text.clone());
                            },
                            _ => {},
                        }
                        i += 1;
                    }
                    assert(all.take(i as int) == all);
                },
                _ => {},
            }
        },
        None => {},
    }
    labels
}

pub open spec fn or_empty(text: Option<Seq<char>>) -> Seq<char> {
    match text {
        Some(s) => s,
        None => Seq::empty(),
    }
}

pub open spec fn is_record(value: Option<JsonView>, kind: Seq<char>) -> bool {
    value matches Some(v) && v.member_text("type"@) == Some(kind)
}

/// The metric that a line writes.
pub open spec fn metric_in(f: spec_fn(Op) -> Number, value: Option<JsonView>) -> Option<
    MetricView,
> {
    if !is_record(value, "metric"@) {
        None
    } else {
        let v = value->0;
        match (v.member_text("name"@), v.member_number("value"@)) {
            (Some(name), Some(number)) => Some(
                MetricView {
                    name,
                    value: number,
                    unit: or_empty(v.member_text("unit"@)),
                    timestamp: record_time(f, v.member("timestamp"@)),
                    labels: record_labels(v),
                },
            ),
            _ => None,
        }
    }
}

/// The transition that a line writes: one move where it gives no count.
pub open spec fn transition_in(value: Option<JsonView>) -> Option<TransitionView> {
    if !is_record(value, "transition"@) {
        None
    } else {
        let v = value->0;
        match (v.member_text("from"@), v.member_text("to"@)) {
            (Some(from_route), Some(to_route)) => Some(
                TransitionView {
                    from_route,
                    to_route,
                    count: match v.member_integer("count"@) {
                        Some(n) => n,
                        None => 1,
                    },
                    p50_ms: v.member_number("p50_ms"@),
                    p95_ms: v.member_number("p95_ms"@),
                },
            ),
            _ => None,
        }
    }
}

/// The fingerprint that a line writes.
pub open spec fn fingerprint_in(value: Option<JsonView>) -> Option<FingerprintView> {
    if !is_record(value, "fingerprint"@) {
        None
    } else {
        let v = value->0;
        match (v.member_text("name"@), v.member_text("value"@)) {
            (Some(name), Some(text)) => Some(
                FingerprintView { name, value: text, labels: record_labels(v) },
            ),
            _ => None,
        }
    }
}

/// What `pick` finds in the items, in their order.
pub open spec fn picked<T, U>(items: Seq<T>, pick: spec_fn(T) -> Option<U>) -> Seq<U>
    decreases items.len(),
{
    if items.len() == 0 {
        Seq::empty()
    } else {
        match pick(items.last()) {
            Some(u) => picked(items.drop_last(), pick).push(u),
            None => picked(items.drop_last(), pick),
        }
    }
}

/// What `pick` finds first in the items.
pub open spec fn first_picked<T, U>(items: Seq<T>, pick: spec_fn(T) -> Option<U>) -> Option<U>
    decreases items.len(),
{
    if items.len() == 0 {
        None
    } else {
        match pick(items[0]) {
            Some(u) => Some(u),
            None => first_picked(items.skip(1), pick),
        }
    }
}

/// What `pick` finds last in the items.
pub open spec fn last_picked<T, U>(items: Seq<T>, pick: spec_fn(T) -> Option<U>) -> Option<U>
    decreases items.len(),
{
    if items.len() == 0 {
        None
    } else {
        match pick(items.last()) {
            Some(u) => Some(u),
            None => last_picked(items.drop_last(), pick),
        }
    }
}

pub open spec fn pick_metric(f: spec_fn(Op) -> Number) -> spec_fn(Option<JsonView>) -> Option<
    MetricView,
> {
    |v: Option<JsonView>| metric_in(f, v)
}

pub open spec fn pick_transition() -> spec_fn(Option<JsonView>) -> Option<TransitionView> {
    |v: Option<JsonView>| transition_in(v)
}

pub open spec fn pick_fingerprint() -> spec_fn(Option<JsonView>) -> Option<FingerprintView> {
    |v: Option<JsonView>| fingerprint_in(v)
}

/// The records of a collector.
#[derive(Debug)]
pub struct Records {
    pub metrics: Vec<Metric>,
    pub fingerprints: Vec<Fingerprint>,
    pub transitions: Vec<Transition>,
}

/// What some lines write.
pub open spec fn records_of(
    f: spec_fn(Op) -> Number,
    values: Seq<Option<JsonView>>,
    records: Records,
) -> bool {
    &&& value_views(records.metrics@) == picked(values, pick_metric(f))
    &&& value_views(records.fingerprints@) == picked(values, pick_fingerprint())
    &&& value_views(records.transitions@) == picked(values, pick_transition())
}

fn metric_from<F: Fn(Op) -> Number>(value: &Json, compute: &F) -> (r: Option<Metric>)
    requires
        is_arithmetic(*compute),
        value@.member_text("type"@) == Some("metric"@),
    ensures
        match r {
            Some(m) => metric_in(arithmetic(*compute), Some(value@)) == Some(m@),
            None => metric_in(arithmetic(*compute), Some(value@)) is None,
        },
{
    let name = match value.get_str("name") {
        Some(s) => s,
        None => {
            return None;
        },
    };
    let number = match value.get_number("value") {
        Some(n) => n,
        None => {
            return None;
        },
    };
    let unit = match value.get_str("unit") {
        Some(s) => s.to_owned(),
        None => String::new(),
    };
    assert(unit@ == or_empty(value@.member_text("unit"@)));
    Some(
        Metric {
            name: name.to_owned(),
            value: number,
            unit,
            timestamp: parse_metric_timestamp(value.get("timestamp"), compute),
            labels: labels_from(value),
        },
    )
}

fn transition_from(value: &Json) -> (r: Option<Transition>)
    requires
        value@.member_text("type"@) == Some("transition"@),
    ensures
        match r {
            Some(t) => transition_in(Some(value@)) == Some(t@),
            None => transition_in(Some(value@)) is None,
        },
{
    match (value.get_str("from"), value.get_str("to")) {
        (Some(from), Some(to)) => Some(
            Transition {
                from_route: from.to_owned(),
                to_route: to.to_owned(),
                count: match value.get_integer("count") {
                    Some(n) => n,
                    None => 1,
                },
                p50_ms: value.get_number("p50_ms"),
                p95_ms: value.get_number("p95_ms"),
            },
        ),
        _ => None,
    }
}

fn fingerprint_from(value: &Json) -> (r: Option<Fingerprint>)
    requires
        value@.member_text("type"@) == Some("fingerprint"@),
    ensures
        match r {
            Some(p) => fingerprint_in(Some(value@)) == Some(p@),
            None => fingerprint_in(Some(value@)) is None,
        },
{
    match (value.get_str("name"), value.get_str("value")) {
        (Some(name), Some(text)) => Some(
            Fingerprint {
                name: name.to_owned(),
                value: text.to_owned(),
                labels: labels_from(value),
            },
        ),
        _ => None,
    }
}

pub open spec fn line_values(values: Seq<Option<Json>>) -> Seq<Option<JsonView>> {
    values.map_values(|v: Option<Json>| json_option(v))
}

/// Adds the record of one line.
fn add_record<F: Fn(Op) -> Number>(records: &mut Records, value: &Option<Json>, compute: &F)
    requires
        is_arithmetic(*compute),
    ensures
        forall|seen: Seq<Option<JsonView>>|
            records_of(arithmetic(*compute), seen, *old(records)) ==> records_of(
                arithmetic(*compute),
                #[trigger] seen.push(json_option(*value)),
                *final(records),
            ),
{
    let ghost f = arithmetic(*compute);
    let ghost v = json_option(*value);
    let ghost before = *records;
    proof {
        reveal_strlit("metric");
        reveal_strlit("transition");
        reveal_strlit("fingerprint");
        assert("metric"@.len() == 6 && "transition"@.len() == 10 && "fingerprint"@.len() == 11);
    }
    match value {
        Some(found) => match found.get_str("type") {
            Some(kind) => {
                if crate::text::same(kind, "metric") {
                    match metric_from(found, compute) {
                        Some(metric) => {
                            records.metrics.push(metric);
                            assert(value_views(records.metrics@) == value_views(
                                before.metrics@,
                            ).push(metric@));
                        },
                        None => {},
                    }
                } else if crate::text::same(kind, "transition") {
                    match transition_from(found) {
                        Some(transition) => {
                            records.transitions.push(transition);
                            assert(value_views(records.transitions@) == value_views(
                                before.transitions@,
                            ).push(transition@));
                        },
                        None => {},
                    }
                } else if crate::text::same(kind, "fingerprint") {
                    match fingerprint_from(found) {
                        Some(print) => {
                            records.fingerprints.push(print);
                            assert(value_views(records.fingerprints@) == value_views(
                                before.fingerprints@,
                            ).push(print@));
                        },
                        None => {},
                    }
                }
            },
            None => {},
        },
        None => {},
    }
    proof {
        assert forall|seen: Seq<Option<JsonView>>| records_of(f, seen, before) implies records_of(
            f,
            #[trigger] seen.push(v),
            *records,
        ) by {
            assert(seen.push(v).drop_last() == seen);
            assert(seen.push(v).last() == v);
        }
    }
}

/// Reads the records of lines, each given as the JSON value that it writes, if it writes one.
pub fn read_records<F: Fn(Op) -> Number>(values: &Vec<Option<Json>>, compute: &F) -> (r: Records)
    requires
        is_arithmetic(*compute),
    ensures
        records_of(arithmetic(*compute), line_values(values@), r),
{
    let ghost f = arithmetic(*compute);
    let ghost all = line_values(values@);
    let mut records = Records {
        metrics: Vec::new(),
        fingerprints: Vec::new(),
        transitions: Vec::new(),
    };
    let mut i: usize = 0;
    proof {
        assert(all.take(0) == Seq::<Option<JsonView>>::empty());
        assert(value_views(records.metrics@) == Seq::<MetricView>::empty());
        assert(value_views(records.fingerprints@) == Seq::<FingerprintView>::empty());
        assert(value_views(records.transitions@) == Seq::<TransitionView>::empty());
    }
    while i < values.len()
        invariant
            is_arithmetic(*compute),
            f == arithmetic(*compute),
            i <= values@.len(),
            all == line_values(values@),
            records_of(f, all.take(i as int), records),
        decreases values.len() - i,
    {
        add_record(&mut records, &values[i], compute);
        assert(all.take(i + 1) == all.take(i as int).push(json_option(values@[i as int])));
        i += 1;
    }
    assert(all.take(i as int) == all);
    records
}

/// The JSON values of some lines.
pub open spec fn json_lines(lines: Seq<Seq<u8>>) -> Seq<Option<JsonView>> {
    lines.map_values(|l: Seq<u8>| json_of_bytes(l))
}

/// Reads the records among the lines of an output. A line that is not JSON, for whatever reason,
/// is passed over.
pub fn parse_records<F: Fn(Op) -> Number>(output: &[u8], compute: &F) -> (r: Records)
    requires
        is_arithmetic(*compute),
    ensures
        records_of(arithmetic(*compute), json_lines(byte_lines(output@)), r),
{
    let lines = byte_lines_of(output);
    let ghost all = byte_lines(output@);
    let mut values: Vec<Option<Json>> = Vec::new();
    let mut i: usize = 0;
    while i < lines.len()
        invariant
            i <= lines@.len(),
            all == byte_views(lines@),
            line_values(values@) == json_lines(all.take(i as int)),
        decreases lines.len() - i,
    {
        let value = parse_bytes(lines[i].as_slice());
        let ghost was = values@;
        values.push(value);
        assert(all[i as int] == lines@[i as int]@);
        assert(line_values(values@) == line_values(was).push(json_option(value)));
        assert(json_lines(all.take(i + 1)) == json_lines(all.take(i as int)).push(
            json_of_bytes(all[i as int]),
        ));
        i += 1;
    }
    assert(all.take(i as int) == all);
    read_records(&values, compute)
}

/// Reads the records of a compressed output, up to the last line that ended before it is damaged.
pub fn parse_protocol<F: Fn(Op) -> Number>(log: &[u8], compute: &F) -> (r: Records)
    requires
        is_arithmetic(*compute),
    ensures
        records_of(arithmetic(*compute), json_lines(byte_lines(sound_output(log@))), r),
{
    let output = decompress_lines(log);
    parse_records(output.as_slice(), compute)
}

/// A line that is not JSON takes nothing away from the records of the others.
pub proof fn damaged_lines_are_passed_over(
    f: spec_fn(Op) -> Number,
    before: Seq<Option<JsonView>>,
    after: Seq<Option<JsonView>>,
)
    ensures
        picked(before.push(None) + after, pick_metric(f)) == picked(
            before + after,
            pick_metric(f),
        ),
        picked(before.push(None) + after, pick_transition()) == picked(
            before + after,
            pick_transition(),
        ),
        picked(before.push(None) + after, pick_fingerprint()) == picked(
            before + after,
            pick_fingerprint(),
        ),
    decreases after.len(),
{
    let with = before.push(None) + after;
    let without = before + after;
    if after.len() == 0 {
        assert(with.drop_last() == without);
        assert(with.last() is None);
    } else {
        damaged_lines_are_passed_over(f, before, after.drop_last());
        assert(with.drop_last() == before.push(None) + after.drop_last());
        assert(without.drop_last() == before + after.drop_last());
        assert(with.last() == without.last());
    }
}

} // verus!
