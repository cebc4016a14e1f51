//! Samples of processors and disks that sar printed.
use crate::clock::{formatted_clock, formatted_day, parse_clock, parse_day};
use crate::join::value_views;
use crate::labels::{labels1, no_labels, with_label, Labels, Pair};
use crate::model::{add_metric, Metric, MetricView};
use crate::moment::{Moment, LATEST};
use crate::number::{apply, arithmetic, is_arithmetic, Number, Op};
use crate::numeral::{is_reader, read_number, reading};
use crate::pattern::{captures, group_text, matched_groups};
use crate::report::first_of;
use crate::sampled::{append_metric_summaries, summaries};
use crate::slow_log::{outside, Interval};
use crate::text::{
    append, chars_of, lines, lines_of, replace, replaced, same_chars, slice_of, string_of, views,
    words, words_of,
};
use vstd::prelude::*;

verus! {

/// The first position of a field.
pub open spec fn position(fields: Seq<Seq<char>>, name: Seq<char>) -> Option<int>
    decreases fields.len(),
{
    if fields.len() == 0 {
        None
    } else if fields[0] == name {
        Some(0)
    } else {
        match position(fields.skip(1), name) {
            Some(i) => Some(i + 1),
            None => None,
        }
    }
}

proof fn position_holds(fields: Seq<Seq<char>>, name: Seq<char>, i: int)
    requires
        0 <= i <= fields.len(),
        forall|j: int| 0 <= j < i ==> fields[j] != name,
    ensures
        i < fields.len() && fields[i] == name ==> position(fields, name) == Some(i),
        i == fields.len() ==> position(fields, name) is None,
    decreases i,
{
    if i > 0 {
        let rest = fields.skip(1);
        assert(fields[0] != name);
        assert forall|j: int| 0 <= j < i - 1 implies rest[j] != name by {
            assert(fields[j + 1] != name);
        }
        position_holds(rest, name, i - 1);
    }
}

fn find_field(fields: &Vec<Vec<char>>, name: &str) -> (r: Option<usize>)
    ensures
        match r {
            Some(i) => i < fields@.len() && position(views(fields@), name@) == Some(i as int),
            None => position(views(fields@), name@) is None,
        },
{
    let wanted = chars_of(name);
    let ghost all = views(fields@);
    let mut i: usize = 0;
    while i < fields.len()
        invariant
            i <= fields@.len(),
            wanted@ == name@,
            all == views(fields@),
            forall|j: int| 0 <= j < i ==> all[j] != name@,
        decreases fields.len() - i,
    {
        assert(all[i as int] == fields@[i as int]@);
        if same_chars(fields[i].as_slice(), wanted.as_slice()) {
            proof {
                position_holds(all, name@, i as int);
            }
            return Some(i);
        }
        i += 1;
    }
    proof {
        position_holds(all, name@, i as int);
    }
    None
}

/// The number in the column with this name; a comma stands for the decimal point.
pub open spec fn column(
    number: spec_fn(Seq<char>) -> Option<Number>,
    header: Seq<Seq<char>>,
    fields: Seq<Seq<char>>,
    name: Seq<char>,
) -> Option<Number> {
    match position(header, name) {
        Some(i) => number(replace(fields[i], ","@, "."@)),
        None => None,
    }
}

fn read_column<R: Fn(&str) -> Option<Number>>(
    header: &Vec<Vec<char>>,
    fields: &Vec<Vec<char>>,
    name: &str,
    read: &R,
) -> (r: Option<Number>)
    requires
        is_reader(*read),
        header@.len() == fields@.len(),
    ensures
        r == column(reading(*read), views(header@), views(fields@), name@),
{
    match find_field(header, name) {
        Some(i) => {
            assert(views(fields@)[i as int] == fields@[i as int]@);
            let text = replaced(
                fields[i].as_slice(),
                chars_of(",").as_slice(),
                chars_of(".").as_slice(),
            );
            read_number(read, text.as_slice())
        },
        None => None,
    }
}

/// The clock of an output: sar writes the date once, and each line has the time of day alone.
#[derive(Clone, Copy, Debug, PartialEq, Eq, Structural)]
pub struct SysstatClock {
    /// The day, counted from the epoch.
    pub date: Option<i64>,
    /// The last point in time that was read, in nanoseconds since the epoch.
    pub last: Option<i128>,
}

/// The text of the time of day: the first field, with the half of the day after it where the
/// second field names it.
pub open spec fn time_text(fields: Seq<Seq<char>>) -> Option<Seq<char>> {
    if fields.len() == 0 {
        None
    } else if fields.len() > 1 && (fields[1] == "AM"@ || fields[1] == "PM"@) {
        Some(fields[0] + " "@ + fields[1])
    } else {
        Some(fields[0])
    }
}

/// The nanoseconds since midnight that the fields name.
pub open spec fn time_of_day(fields: Seq<Seq<char>>) -> Option<int> {
    match time_text(fields) {
        Some(text) => match formatted_clock(text, "%H:%M:%S"@) {
            Some(nanos) => Some(nanos),
            None => formatted_clock(text, "%I:%M:%S %p"@),
        },
        None => None,
    }
}

pub open spec fn day_nanos(day: int, nanos: int) -> int {
    day * 86_400_000_000_000 + nanos
}

impl SysstatClock {
    /// The day is one of the calendar.
    pub open spec fn bounded(self) -> bool {
        &&& self.date matches Some(day) ==> -100_000_000 < day < 100_000_000
        &&& self.last matches Some(at) ==> -10_000_000_000_000_000_000_000 < at
            < 10_000_000_000_000_000_000_000
    }

    /// The point in time at a time of day, and the clock after it: a time that lies more than
    /// twelve hours before the last one belongs to the next day.
    pub open spec fn at(self, nanos: Option<int>) -> (Option<int>, SysstatClock) {
        match (nanos, self.date) {
            (Some(time), Some(day)) => {
                let today = day_nanos(day as int, time);
                if self.last matches Some(last) && today + 43_200_000_000_000 < last {
                    if day + 1 < 100_000_000 && day_nanos(day + 1, 0) <= LATEST {
                        let next = day_nanos(day + 1, time);
                        (
                            Some(next),
                            SysstatClock {
                                date: Some((day + 1) as i64),
                                last: Some(next as i128),
                            },
                        )
                    } else {
                        (None, self)
                    }
                } else {
                    (Some(today), SysstatClock { last: Some(today as i128), ..self })
                }
            },
            _ => (None, self),
        }
    }

    fn timestamp(&mut self, fields: &Vec<Vec<char>>) -> (r: Option<Moment>)
        requires
            old(self).bounded(),
        ensures
            final(self).bounded(),
            (crate::clock::nanos_option(r), *final(self)) == old(self).at(
                time_of_day(views(fields@)),
            ),
    {
        let ghost all = views(fields@);
        if fields.len() == 0 {
            return None;
        }
        assert(all[0] == fields@[0]@);
        let mut text = slice_of(fields[0].as_slice(), 0, fields[0].len());
        assert(text@ == fields@[0]@);
        if fields.len() > 1 {
            assert(all[1] == fields@[1]@);
            if same_chars(fields[1].as_slice(), chars_of("AM").as_slice()) || same_chars(
                fields[1].as_slice(),
                chars_of("PM").as_slice(),
            ) {
                crate::text::append_str(&mut text, " ");
                append(&mut text, fields[1].as_slice());
            }
        }
        assert(Some(text@) == time_text(all));
        let text = string_of(text.as_slice());
        let nanos: i64 = match parse_clock(text.as_str(), "%H:%M:%S") {
            Some(n) => n,
            None => match parse_clock(text.as_str(), "%I:%M:%S %p") {
                Some(n) => n,
                None => {
                    return None;
                },
            },
        };
        let day: i64 = match self.date {
            Some(day) => day,
            None => {
                return None;
            },
        };
        let today: i128 = day as i128 * 86_400_000_000_000 + nanos as i128;
        let back = match self.last {
            Some(last) => today + 43_200_000_000_000 < last,
            None => false,
        };
        if back {
            let next: i64 = day + 1;
            if next >= 100_000_000 || next as i128 * 86_400_000_000_000 > LATEST {
                return None;
            }
            let at: i128 = next as i128 * 86_400_000_000_000 + nanos as i128;
            self.date = Some(next);
            self.last = Some(at);
            return Some(Moment { nanos: at });
        }
        self.last = Some(today);
        Some(Moment { nanos: today })
    }
}

/// A point in time that is kept.
pub open spec fn kept(at: Option<int>, interval: Interval) -> bool {
    at matches Some(t) && !outside(t, interval)
}

fn is_kept(at: Option<Moment>, interval: Interval) -> (r: bool)
    ensures
        r == kept(crate::clock::nanos_option(at), interval),
{
    match at {
        Some(t) => match interval {
            Some((start, end)) => !(t.nanos < start.nanos || t.nanos > end.nanos),
            None => true,
        },
        None => false,
    }
}

pub open spec fn sample(
    name: Seq<char>,
    value: Option<Number>,
    unit: Seq<char>,
    at: Moment,
    labels: Seq<Pair>,
) -> Seq<MetricView> {
    match value {
        Some(n) => seq![MetricView { name, value: n, unit, timestamp: Some(at), labels }],
        None => Seq::empty(),
    }
}

fn add_sample(
    out: &mut Vec<Metric>,
    name: &str,
    value: Option<Number>,
    unit: &str,
    at: Moment,
    labels: &Labels,
)
    ensures
        value_views(final(out)@) == value_views(old(out)@) + sample(
            name@,
            value,
            unit@,
            at,
            labels@,
        ),
{
    let ghost before = value_views(out@);
    match value {
        Some(n) => {
            add_metric(out, name, n, unit, Some(at), labels);
        },
        None => {},
    }
    assert(value_views(out@) == before + sample(name@, value, unit@, at, labels@));
}

/// A number moved into the range from zero to a hundred.
pub open spec fn clamped(f: spec_fn(Op) -> Number, n: Number) -> Number {
    if Number::zero_spec().exceeds(n) {
        Number::zero_spec()
    } else if n.exceeds(f(Op::Integer(100))) {
        f(Op::Integer(100))
    } else {
        n
    }
}

/// How busy the processors are: what is neither idle nor waiting for input and output.
pub open spec fn busy_of(
    f: spec_fn(Op) -> Number,
    idle: Option<Number>,
    iowait: Option<Number>,
) -> Option<Number> {
    match idle {
        Some(i) => {
            let waiting = match iowait {
                Some(w) => w,
                None => Number::zero_spec(),
            };
            Some(clamped(f, f(Op::Subtract(f(Op::Subtract(f(Op::Integer(100)), i)), waiting))))
        },
        None => None,
    }
}

/// The samples of a line for all processors.
pub open spec fn cpu_rows(
    f: spec_fn(Op) -> Number,
    number: spec_fn(Seq<char>) -> Option<Number>,
    header: Seq<Seq<char>>,
    fields: Seq<Seq<char>>,
    at: Moment,
) -> Seq<MetricView> {
    let idle = column(number, header, fields, "%idle"@);
    let iowait = column(number, header, fields, "%iowait"@);
    let busy = busy_of(f, idle, iowait);
    sample(
        "host.cpu_user_percent"@,
        column(number, header, fields, "%user"@),
        "percent"@,
        at,
        no_labels(),
    ) + sample(
        "host.cpu_nice_percent"@,
        column(number, header, fields, "%nice"@),
        "percent"@,
        at,
        no_labels(),
    ) + sample(
        "host.cpu_system_percent"@,
        column(number, header, fields, "%system"@),
        "percent"@,
        at,
        no_labels(),
    ) + sample("host.cpu_iowait_percent"@, iowait, "percent"@, at, no_labels()) + sample(
        "host.cpu_steal_percent"@,
        column(number, header, fields, "%steal"@),
        "percent"@,
        at,
        no_labels(),
    ) + sample("host.cpu_idle_percent"@, idle, "percent"@, at, no_labels()) + sample(
        "host.cpu_busy_percent"@,
        busy,
        "percent"@,
        at,
        no_labels(),
    ) + sample("host.cpu_percent"@, busy, "percent"@, at, no_labels())
}

/// A number times a factor.
pub open spec fn times(f: spec_fn(Op) -> Number, n: Option<Number>, factor: i64) -> Option<Number> {
    match n {
        Some(v) => Some(f(Op::Multiply(v, f(Op::Integer(factor))))),
        None => None,
    }
}

/// The samples of a line for one disk.
pub open spec fn disk_rows(
    f: spec_fn(Op) -> Number,
    number: spec_fn(Seq<char>) -> Option<Number>,
    header: Seq<Seq<char>>,
    fields: Seq<Seq<char>>,
    at: Moment,
    labels: Seq<Pair>,
) -> Seq<MetricView> {
    sample(
        "host.disk_iops"@,
        times(f, column(number, header, fields, "tps"@), 1),
        "operations_per_second"@,
        at,
        labels,
    ) + sample(
        "host.disk_read_bytes_per_second"@,
        times(f, column(number, header, fields, "rkB/s"@), 1024),
        "bytes_per_second"@,
        at,
        labels,
    ) + sample(
        "host.disk_write_bytes_per_second"@,
        times(f, column(number, header, fields, "wkB/s"@), 1024),
        "bytes_per_second"@,
        at,
        labels,
    ) + sample(
        "host.disk_queue_depth"@,
        times(
            f,
            first_of(
                column(number, header, fields, "aqu-sz"@),
                column(number, header, fields, "avgqu-sz"@),
            ),
            1,
        ),
        "requests"@,
        at,
        labels,
    ) + sample(
        "host.disk_await"@,
        times(f, column(number, header, fields, "await"@), 1),
        "ms"@,
        at,
        labels,
    ) + sample(
        "host.disk_util_percent"@,
        times(f, column(number, header, fields, "%util"@), 1),
        "percent"@,
        at,
        labels,
    )
}

proof fn eight<T>(
    x: Seq<T>,
    a: Seq<T>,
    b: Seq<T>,
    c: Seq<T>,
    d: Seq<T>,
    e: Seq<T>,
    g: Seq<T>,
    h: Seq<T>,
    i: Seq<T>,
)
    ensures
        x + a + b + c + d + e + g + h + i == x + (a + b + c + d + e + g + h + i),
        x + a + b + c + d + e + g == x + (a + b + c + d + e + g),
{
}

fn busy_from<F: Fn(Op) -> Number>(idle: Option<Number>, iowait: Option<Number>, compute: &F) -> (r:
    Option<Number>)
    requires
        is_arithmetic(*compute),
    ensures
        r == busy_of(arithmetic(*compute), idle, iowait),
{
    match idle {
        Some(i) => {
            let waiting = match iowait {
                Some(w) => w,
                None => Number::zero(),
            };
            let hundred = apply(compute, Op::Integer(100));
            let rest = apply(compute, Op::Subtract(hundred, i));
            let busy = apply(compute, Op::Subtract(rest, waiting));
            if Number::zero().greater(busy) {
                Some(Number::zero())
            } else if busy.greater(hundred) {
                Some(hundred)
            } else {
                Some(busy)
            }
        },
        None => None,
    }
}

fn add_cpu<F: Fn(Op) -> Number, R: Fn(&str) -> Option<Number>>(
    out: &mut Vec<Metric>,
    header: &Vec<Vec<char>>,
    fields: &Vec<Vec<char>>,
    at: Moment,
    compute: &F,
    read: &R,
)
    requires
        is_arithmetic(*compute),
        is_reader(*read),
        header@.len() == fields@.len(),
    ensures
        value_views(final(out)@) == value_views(old(out)@) + cpu_rows(
            arithmetic(*compute),
            reading(*read),
            views(header@),
            views(fields@),
            at,
        ),
{
    let ghost before = value_views(out@);
    let none = Labels::new();
    let user = read_column(header, fields, "%user", read);
    let nice = read_column(header, fields, "%nice", read);
    let system = read_column(header, fields, "%system", read);
    let iowait = read_column(header, fields, "%iowait", read);
    let steal = read_column(header, fields, "%steal", read);
    let idle = read_column(header, fields, "%idle", read);
    let busy = busy_from(idle, iowait, compute);
    add_sample(out, "host.cpu_user_percent", user, "percent", at, &none);
    add_sample(out, "host.cpu_nice_percent", nice, "percent", at, &none);
    add_sample(out, "host.cpu_system_percent", system, "percent", at, &none);
    add_sample(out, "host.cpu_iowait_percent", iowait, "percent", at, &none);
    add_sample(out, "host.cpu_steal_percent", steal, "percent", at, &none);
    add_sample(out, "host.cpu_idle_percent", idle, "percent", at, &none);
    add_sample(out, "host.cpu_busy_percent", busy, "percent", at, &none);
    add_sample(out, "host.cpu_percent", busy, "percent", at, &none);
    proof {
        assert(none@ == no_labels());
        eight(
            before,
            sample("host.cpu_user_percent"@, user, "percent"@, at, none@),
            sample("host.cpu_nice_percent"@, nice, "percent"@, at, none@),
            sample("host.cpu_system_percent"@, system, "percent"@, at, none@),
            sample("host.cpu_iowait_percent"@, iowait, "percent"@, at, none@),
            sample("host.cpu_steal_percent"@, steal, "percent"@, at, none@),
            sample("host.cpu_idle_percent"@, idle, "percent"@, at, none@),
            sample("host.cpu_busy_percent"@, busy, "percent"@, at, none@),
            sample("host.cpu_percent"@, busy, "percent"@, at, none@),
        );
    }
}

fn scaled<F: Fn(Op) -> Number>(n: Option<Number>, factor: i64, compute: &F) -> (r: Option<Number>)
    requires
        is_arithmetic(*compute),
    ensures
        r == times(arithmetic(*compute), n, factor),
{
    match n {
        Some(v) => {
            let by = apply(compute, Op::Integer(factor));
            Some(apply(compute, Op::Multiply(v, by)))
        },
        None => None,
    }
}

fn add_disk<F: Fn(Op) -> Number, R: Fn(&str) -> Option<Number>>(
    out: &mut Vec<Metric>,
    header: &Vec<Vec<char>>,
    fields: &Vec<Vec<char>>,
    at: Moment,
    labels: &Labels,
    compute: &F,
    read: &R,
)
    requires
        is_arithmetic(*compute),
        is_reader(*read),
        header@.len() == fields@.len(),
    ensures
        value_views(final(out)@) == value_views(old(out)@) + disk_rows(
            arithmetic(*compute),
            reading(*read),
            views(header@),
            views(fields@),
            at,
            labels@,
        ),
{
    let ghost before = value_views(out@);
    let iops = scaled(read_column(header, fields, "tps", read), 1, compute);
    let reads = scaled(read_column(header, fields, "rkB/s", read), 1024, compute);
    let writes = scaled(read_column(header, fields, "wkB/s", read), 1024, compute);
    let queue = match read_column(header, fields, "aqu-sz", read) {
        Some(n) => Some(n),
        None => read_column(header, fields, "avgqu-sz", read),
    };
    let queue = scaled(queue, 1, compute);
    let wait = scaled(read_column(header, fields, "await", read), 1, compute);
    let util = scaled(read_column(header, fields, "%util", read), 1, compute);
    add_sample(out, "host.disk_iops", iops, "operations_per_second", at, labels);
    add_sample(out, "host.disk_read_bytes_per_second", reads, "bytes_per_second", at, labels);
    add_sample(out, "host.disk_write_bytes_per_second", writes, "bytes_per_second", at, labels);
    add_sample(out, "host.disk_queue_depth", queue, "requests", at, labels);
    add_sample(out, "host.disk_await", wait, "ms", at, labels);
    add_sample(out, "host.disk_util_percent", util, "percent", at, labels);
    proof {
        eight(
            before,
            sample("host.disk_iops"@, iops, "operations_per_second"@, at, labels@),
            sample(
                "host.disk_read_bytes_per_second"@,
                reads,
                "bytes_per_second"@,
                at,
                labels@,
            ),
            sample(
                "host.disk_write_bytes_per_second"@,
                writes,
                "bytes_per_second"@,
                at,
                labels@,
            ),
            sample("host.disk_queue_depth"@, queue, "requests"@, at, labels@),
            sample("host.disk_await"@, wait, "ms"@, at, labels@),
            sample("host.disk_util_percent"@, util, "percent"@, at, labels@),
            Seq::empty(),
            Seq::empty(),
        );
    }
}

/// What was read so far.
#[verifier::ext_equal]
pub struct SarView {
    pub cpu: Option<Seq<Seq<char>>>,
    pub disk: Option<Seq<Seq<char>>>,
    pub clock: SysstatClock,
    pub samples: Seq<MetricView>,
}

#[derive(Debug)]
pub struct Sar {
    pub cpu: Option<Vec<Vec<char>>>,
    pub disk: Option<Vec<Vec<char>>>,
    pub clock: SysstatClock,
    pub samples: Vec<Metric>,
}

pub open spec fn header_view(header: Option<Vec<Vec<char>>>) -> Option<Seq<Seq<char>>> {
    match header {
        Some(h) => Some(views(h@)),
        None => None,
    }
}

impl View for Sar {
    type V = SarView;

    open spec fn view(&self) -> SarView {
        SarView {
            cpu: header_view(self.cpu),
            disk: header_view(self.disk),
            clock: self.clock,
            samples: value_views(self.samples@),
        }
    }
}

pub open spec fn names_both(fields: Seq<Seq<char>>, a: Seq<char>, b: Seq<char>) -> bool {
    position(fields, a) is Some && position(fields, b) is Some
}

/// The line is for all processors together.
pub open spec fn for_all_processors(header: Option<Seq<Seq<char>>>, fields: Seq<Seq<char>>) -> bool {
    header matches Some(h) && fields.len() == h.len() && (position(h, "CPU"@) matches Some(i)
        && fields[i] == "all"@)
}

/// Reads the line as one for all processors: the state after it, and whether that is all that the
/// line says.
pub open spec fn cpu_step(
    f: spec_fn(Op) -> Number,
    number: spec_fn(Seq<char>) -> Option<Number>,
    interval: Interval,
    s: SarView,
    fields: Seq<Seq<char>>,
) -> (SarView, bool) {
    if !for_all_processors(s.cpu, fields) {
        (s, false)
    } else {
        let (at, clock) = s.clock.at(time_of_day(fields));
        if kept(at, interval) {
            (
                SarView {
                    clock,
                    samples: s.samples + cpu_rows(
                        f,
                        number,
                        s.cpu->0,
                        fields,
                        Moment { nanos: at->0 as i128 },
                    ),
                    ..s
                },
                false,
            )
        } else {
            (SarView { clock, ..s }, true)
        }
    }
}

/// Reads the line as one for a disk.
pub open spec fn disk_step(
    f: spec_fn(Op) -> Number,
    number: spec_fn(Seq<char>) -> Option<Number>,
    interval: Interval,
    s: SarView,
    fields: Seq<Seq<char>>,
) -> SarView {
    if names_both(fields, "DEV"@, "await"@) {
        SarView { disk: Some(fields), ..s }
    } else {
        match s.disk {
            None => s,
            Some(header) => match position(header, "DEV"@) {
                None => s,
                Some(device) => if fields.len() != header.len() {
                    s
                } else {
                    let (at, clock) = s.clock.at(time_of_day(fields));
                    if kept(at, interval) {
                        SarView {
                            clock,
                            samples: s.samples + disk_rows(
                                f,
                                number,
                                header,
                                fields,
                                Moment { nanos: at->0 as i128 },
                                with_label(no_labels(), "device"@, fields[device]),
                            ),
                            ..s
                        }
                    } else {
                        SarView { clock, ..s }
                    }
                },
            },
        }
    }
}

/// Reads one more line.
pub open spec fn sar_step(
    f: spec_fn(Op) -> Number,
    number: spec_fn(Seq<char>) -> Option<Number>,
    interval: Interval,
    s: SarView,
    fields: Seq<Seq<char>>,
) -> SarView {
    if names_both(fields, "CPU"@, "%idle"@) {
        SarView { cpu: Some(fields), ..s }
    } else {
        let (after, done) = cpu_step(f, number, interval, s, fields);
        if done {
            after
        } else {
            disk_step(f, number, interval, after, fields)
        }
    }
}

/// What the lines come to, from a date on.
pub open spec fn sar_scan(
    f: spec_fn(Op) -> Number,
    number: spec_fn(Seq<char>) -> Option<Number>,
    interval: Interval,
    date: Option<i64>,
    log: Seq<Seq<char>>,
) -> SarView
    decreases log.len(),
{
    if log.len() == 0 {
        SarView {
            cpu: None,
            disk: None,
            clock: SysstatClock { date, last: None },
            samples: Seq::empty(),
        }
    } else {
        sar_step(
            f,
            number,
            interval,
            sar_scan(f, number, interval, date, log.drop_last()),
            words(log.last()),
        )
    }
}

fn copied(fields: &Vec<Vec<char>>) -> (r: Vec<Vec<char>>)
    ensures
        views(r@) == views(fields@),
{
    let mut out: Vec<Vec<char>> = Vec::new();
    let mut i: usize = 0;
    while i < fields.len()
        invariant
            i <= fields@.len(),
            views(out@) == views(fields@).take(i as int),
        decreases fields.len() - i,
    {
        let ghost was = out@;
        let field = slice_of(fields[i].as_slice(), 0, fields[i].len());
        assert(field@ == fields@[i as int]@);
        out.push(field);
        assert(views(out@) == views(was).push(field@));
        assert(views(fields@).take(i + 1) == views(fields@).take(i as int).push(
            views(fields@)[i as int],
        ));
        i += 1;
    }
    assert(views(fields@).take(i as int) == views(fields@));
    out
}

fn read_cpu<F: Fn(Op) -> Number, R: Fn(&str) -> Option<Number>>(
    s: &mut Sar,
    fields: &Vec<Vec<char>>,
    interval: Interval,
    compute: &F,
    read: &R,
) -> (r: bool)
    requires
        is_arithmetic(*compute),
        is_reader(*read),
        old(s).clock.bounded(),
    ensures
        final(s).clock.bounded(),
        (final(s)@, r) == cpu_step(
            arithmetic(*compute),
            reading(*read),
            interval,
            old(s)@,
            views(fields@),
        ),
{
    let ghost all = views(fields@);
    let ghost before = s@;
    let wanted = match &s.cpu {
        Some(header) => if fields.len() == header.len() {
            assert(views(header@).len() == header@.len());
            assert(all.len() == fields@.len());
            match find_field(header, "CPU") {
                Some(i) => {
                    assert(all[i as int] == fields@[i as int]@);
                    same_chars(fields[i].as_slice(), chars_of("all").as_slice())
                },
                None => false,
            }
        } else {
            assert(views(header@).len() == header@.len());
            assert(all.len() == fields@.len());
            false
        },
        None => false,
    };
    assert(wanted == for_all_processors(before.cpu, all));
    if !wanted {
        return false;
    }
    let at = s.clock.timestamp(fields);
    if !is_kept(at, interval) {
        return true;
    }
    match (&s.cpu, at) {
        (Some(header), Some(at)) => {
            assert(views(header@).len() == header@.len());
            add_cpu(&mut s.samples, header, fields, at, compute, read);
        },
        _ => {},
    }
    false
}

fn read_disk<F: Fn(Op) -> Number, R: Fn(&str) -> Option<Number>>(
    s: &mut Sar,
    fields: &Vec<Vec<char>>,
    interval: Interval,
    compute: &F,
    read: &R,
)
    requires
        is_arithmetic(*compute),
        is_reader(*read),
        old(s).clock.bounded(),
    ensures
        final(s).clock.bounded(),
        final(s)@ == disk_step(
            arithmetic(*compute),
            reading(*read),
            interval,
            old(s)@,
            views(fields@),
        ),
{
    let ghost all = views(fields@);
    assert(all.len() == fields@.len());
    if find_field(fields, "DEV").is_some() && find_field(fields, "await").is_some() {
        s.disk = Some(copied(fields));
        return;
    }
    let device: usize = match &s.disk {
        Some(header) => {
            assert(views(header@).len() == header@.len());
            match find_field(header, "DEV") {
                Some(i) => if fields.len() == header.len() {
                    i
                } else {
                    return;
                },
                None => {
                    return;
                },
            }
        },
        None => {
            return;
        },
    };
    let at = s.clock.timestamp(fields);
    if !is_kept(at, interval) {
        return;
    }
    match (&s.disk, at) {
        (Some(header), Some(at)) => {
            assert(all[device as int] == fields@[device as int]@);
            let name = string_of(fields[device].as_slice());
            let labels = labels1("device", name.as_str());
            add_disk(&mut s.samples, header, fields, at, &labels, compute, read);
        },
        _ => {},
    }
}

fn read_line<F: Fn(Op) -> Number, R: Fn(&str) -> Option<Number>>(
    s: &mut Sar,
    fields: &Vec<Vec<char>>,
    interval: Interval,
    compute: &F,
    read: &R,
)
    requires
        is_arithmetic(*compute),
        is_reader(*read),
        old(s).clock.bounded(),
    ensures
        final(s).clock.bounded(),
        final(s)@ == sar_step(
            arithmetic(*compute),
            reading(*read),
            interval,
            old(s)@,
            views(fields@),
        ),
{
    if find_field(fields, "CPU").is_some() && find_field(fields, "%idle").is_some() {
        s.cpu = Some(copied(fields));
        return;
    }
    let done = read_cpu(s, fields, interval, compute, read);
    if !done {
        read_disk(s, fields, interval, compute, read);
    }
}

/// The metrics of an output whose date is known.
pub open spec fn dated_metrics(
    f: spec_fn(Op) -> Number,
    number: spec_fn(Seq<char>) -> Option<Number>,
    interval: Interval,
    date: Option<i64>,
    raw: Seq<char>,
) -> Seq<MetricView> {
    let samples = sar_scan(f, number, interval, date, lines(raw)).samples;
    samples + summaries(f, samples)
}

/// Reads the output of sar, whose date is the given day, counted from the epoch.
pub fn parse_dated<F: Fn(Op) -> Number, R: Fn(&str) -> Option<Number>>(
    raw: &str,
    date: Option<i64>,
    interval: Interval,
    compute: &F,
    read: &R,
) -> (r: Vec<Metric>)
    requires
        is_arithmetic(*compute),
        is_reader(*read),
        date matches Some(day) ==> -100_000_000 < day < 100_000_000,
    ensures
        value_views(r@) == dated_metrics(
            arithmetic(*compute),
            reading(*read),
            interval,
            date,
            raw@,
        ),
{
    let ghost f = arithmetic(*compute);
    let ghost number = reading(*read);
    let log = lines_of(chars_of(raw).as_slice());
    let ghost all = lines(raw@);
    let mut s = Sar {
        cpu: None,
        disk: None,
        clock: SysstatClock { date, last: None },
        samples: Vec::new(),
    };
    let mut i: usize = 0;
    assert(all.take(0) == Seq::<Seq<char>>::empty());
    assert(value_views(s.samples@) == Seq::<MetricView>::empty());
    while i < log.len()
        invariant
            is_arithmetic(*compute),
            is_reader(*read),
            f == arithmetic(*compute),
            number == reading(*read),
            i <= log@.len(),
            all == views(log@),
            s.clock.bounded(),
            s@ == sar_scan(f, number, interval, date, all.take(i as int)),
        decreases log.len() - i,
    {
        proof {
            assert(all.take(i + 1).drop_last() == all.take(i as int));
            assert(all.take(i + 1).last() == log@[i as int]@);
        }
        let fields = words_of(log[i].as_slice());
        read_line(&mut s, &fields, interval, compute, read);
        i += 1;
    }
    assert(all.take(i as int) == all);
    let mut out = s.samples;
    append_metric_summaries(&mut out, compute);
    out
}

/// The day of an output: the first date in it.
pub open spec fn output_day(raw: Seq<char>) -> Option<int> {
    match matched_groups("\\b(\\d{2}/\\d{2}/\\d{2})\\b"@, raw) {
        Some(groups) => formatted_day(group_text(groups, 1), "%m/%d/%y"@),
        None => None,
    }
}

pub open spec fn narrow(day: Option<int>) -> Option<i64> {
    match day {
        Some(d) => Some(d as i64),
        None => None,
    }
}

/// Reads the output of sar into metrics: the samples, and their means.
pub fn parse_sysstat<F: Fn(Op) -> Number, R: Fn(&str) -> Option<Number>>(
    raw: &str,
    interval: Interval,
    compute: &F,
    read: &R,
) -> (r: Vec<Metric>)
    requires
        is_arithmetic(*compute),
        is_reader(*read),
    ensures
        value_views(r@) == dated_metrics(
            arithmetic(*compute),
            reading(*read),
            interval,
            narrow(output_day(raw@)),
            raw@,
        ),
{
    let date: Option<i64> = match captures("\\b(\\d{2}/\\d{2}/\\d{2})\\b", raw) {
        Some(groups) => {
            let text = match crate::pattern::group(&groups, 1) {
                Some(s) => s.clone(),
                None => String::new(),
            };
            assert(text@ == group_text(
                groups@.map_values(|s: Option<String>| crate::report::text_option(s)),
                1,
            ));
            parse_day(text.as_str(), "%m/%d/%y")
        },
        None => None,
    };
    assert(date == narrow(output_day(raw@)));
    parse_dated(raw, date, interval, compute, read)
}

/// The clock never runs back by more than twelve hours: a time of day that would, is read as one of
/// the next day.
pub proof fn midnight_moves_to_the_next_day(clock: SysstatClock, nanos: int)
    requires
        clock.bounded(),
        clock.last is Some,
        0 <= nanos < 86_400_000_000_000,
        clock.at(Some(nanos)).0 is Some,
        clock.date matches Some(day) && clock.last->0 - day_nanos(day as int, 0)
            <= 86_400_000_000_000,
    ensures
        clock.at(Some(nanos)).0->0 + 43_200_000_000_000 >= clock.last->0,
{
}

/// No sample outside the interval is kept.
pub proof fn samples_lie_in_the_interval(
    f: spec_fn(Op) -> Number,
    number: spec_fn(Seq<char>) -> Option<Number>,
    interval: Interval,
    s: SarView,
    fields: Seq<Seq<char>>,
    i: int,
)
    requires
        s.samples.len() <= i < cpu_step(f, number, interval, s, fields).0.samples.len(),
        s.clock.bounded(),
        time_of_day(fields) matches Some(nanos) ==> 0 <= nanos < 86_400_000_000_000,
    ensures
        ({
            let m = cpu_step(f, number, interval, s, fields).0.samples[i];
            m.timestamp matches Some(at) && !outside(at.nanos as int, interval)
        }),
{
}

} // verus!
