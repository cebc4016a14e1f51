//! Counters of services, as their control groups give them.
use crate::clock::{parse_rfc3339, rfc3339_nanos};
use crate::join::value_views;
use crate::labels::{labels1, no_labels, with_label};
use crate::model::{add_metric, Metric, MetricView};
use crate::moment::Moment;
use crate::number::{apply, arithmetic, is_arithmetic, Number, Op};
use crate::protocol::picked;
use crate::sampled::{append_metric_summaries, summaries};
use crate::slow_log::{outside, Interval};
use crate::text::{
    chars_of, lines, lines_of, number_of, parsed_number, same, split, split_at_each, string_of,
    views,
};
use crate::transition::{elapsed, elapsed_micros};
use vstd::prelude::*;

verus! {

/// The counters of one service at one time.
#[derive(Debug)]
pub struct Reading {
    pub at: Moment,
    pub service: String,
    pub cpu_usec: u64,
    pub memory: u64,
    pub read_bytes: u64,
    pub write_bytes: u64,
    pub pids: u64,
}

#[verifier::ext_equal]
pub struct ReadingView {
    pub at: int,
    pub service: Seq<char>,
    pub cpu_usec: nat,
    pub memory: nat,
    pub read_bytes: nat,
    pub write_bytes: nat,
    pub pids: nat,
}

impl View for Reading {
    type V = ReadingView;

    open spec fn view(&self) -> ReadingView {
        ReadingView {
            at: self.at.nanos as int,
            service: self.service@,
            cpu_usec: self.cpu_usec as nat,
            memory: self.memory as nat,
            read_bytes: self.read_bytes as nat,
            write_bytes: self.write_bytes as nat,
            pids: self.pids as nat,
        }
    }
}

pub open spec fn counter(text: Seq<char>) -> Option<nat> {
    parsed_number(text, 0xffff_ffff_ffff_ffff)
}

/// What the seven fields of a line say: a time, the service and five counters.
pub open spec fn reading_of(line: Seq<char>) -> Option<ReadingView> {
    let fields = split(line, '\t');
    if fields.len() != 7 {
        None
    } else {
        match (
            rfc3339_nanos(fields[0]),
            counter(fields[2]),
            counter(fields[3]),
            counter(fields[4]),
            counter(fields[5]),
            counter(fields[6]),
        ) {
            (
                Some(at),
                Some(cpu_usec),
                Some(memory),
                Some(read_bytes),
                Some(write_bytes),
                Some(pids),
            ) => Some(
                ReadingView {
                    at,
                    service: fields[1],
                    cpu_usec,
                    memory,
                    read_bytes,
                    write_bytes,
                    pids,
                },
            ),
            _ => None,
        }
    }
}

pub open spec fn pick_reading() -> spec_fn(Seq<char>) -> Option<ReadingView> {
    |line: Seq<char>| reading_of(line)
}

fn reading_from(line: &Vec<char>) -> (r: Option<Reading>)
    ensures
        match r {
            Some(reading) => reading_of(line@) == Some(reading@) && reading.at.valid(),
            None => reading_of(line@) is None,
        },
{
    let fields = split_at_each(line.as_slice(), '\t');
    let ghost all = split(line@, '\t');
    assert(all.len() == fields@.len());
    if fields.len() != 7 {
        return None;
    }
    assert forall|i: int| 0 <= i < 7 implies #[trigger] all[i] == fields@[i]@ by {}
    let time = string_of(fields[0].as_slice());
    let at = match parse_rfc3339(time.as_str()) {
        Some(at) => at,
        None => {
            return None;
        },
    };
    let cpu = number_of(fields[2].as_slice(), u64::MAX);
    let memory = number_of(fields[3].as_slice(), u64::MAX);
    let read = number_of(fields[4].as_slice(), u64::MAX);
    let write = number_of(fields[5].as_slice(), u64::MAX);
    let pids = number_of(fields[6].as_slice(), u64::MAX);
    match (cpu, memory, read, write, pids) {
        (Some(cpu_usec), Some(memory), Some(read_bytes), Some(write_bytes), Some(pids)) => Some(
            Reading {
                at,
                service: string_of(fields[1].as_slice()),
                cpu_usec,
                memory,
                read_bytes,
                write_bytes,
                pids,
            },
        ),
        _ => None,
    }
}

/// The last reading of a service among some readings.
pub open spec fn prior_of(readings: Seq<ReadingView>, service: Seq<char>) -> Option<ReadingView>
    decreases readings.len(),
{
    if readings.len() == 0 {
        None
    } else if readings.last().service == service {
        Some(readings.last())
    } else {
        prior_of(readings.drop_last(), service)
    }
}

/// Time passed from the reading `a` to the reading `b`, and no counter went back.
pub open spec fn follows(a: ReadingView, b: ReadingView) -> bool {
    &&& elapsed_micros(a.at, b.at) > 0
    &&& a.cpu_usec <= b.cpu_usec
    &&& a.read_bytes <= b.read_bytes
    &&& a.write_bytes <= b.write_bytes
}

pub open spec fn value_of(f: spec_fn(Op) -> Number, n: int) -> Number {
    f(Op::Natural(n as u64))
}

/// How much of a counter of microseconds passed in each microsecond.
pub open spec fn ratio(f: spec_fn(Op) -> Number, n: int, micros: i64) -> Number {
    f(Op::Divide(value_of(f, n), f(Op::Integer(micros))))
}

/// How much of a counter passed in each second.
pub open spec fn per_second(f: spec_fn(Op) -> Number, n: int, micros: i64) -> Number {
    f(
        Op::Divide(
            f(Op::Multiply(value_of(f, n), f(Op::Integer(1_000_000)))),
            f(Op::Integer(micros)),
        ),
    )
}

pub open spec fn service_metric(
    name: Seq<char>,
    value: Number,
    unit: Seq<char>,
    reading: ReadingView,
) -> MetricView {
    MetricView {
        name,
        value,
        unit,
        timestamp: Some(Moment { nanos: reading.at as i128 }),
        labels: with_label(no_labels(), "service"@, reading.service),
    }
}

/// The samples of one reading, given the one before it of the same service.
pub open spec fn service_rows(
    f: spec_fn(Op) -> Number,
    prior: Option<ReadingView>,
    b: ReadingView,
) -> Seq<MetricView> {
    let levels = seq![
        service_metric("service.memory_bytes"@, value_of(f, b.memory as int), "bytes"@, b),
        service_metric("service.pids"@, value_of(f, b.pids as int), "processes"@, b),
    ];
    match prior {
        None => levels,
        Some(a) => if follows(a, b) {
            let micros = elapsed_micros(a.at, b.at);
            levels + seq![
                service_metric(
                    "service.cpu_cores"@,
                    ratio(f, b.cpu_usec - a.cpu_usec, micros),
                    "cores"@,
                    b,
                ),
                service_metric(
                    "service.io_read_bytes_per_second"@,
                    per_second(f, b.read_bytes - a.read_bytes, micros),
                    "bytes_per_second"@,
                    b,
                ),
                service_metric(
                    "service.io_write_bytes_per_second"@,
                    per_second(f, b.write_bytes - a.write_bytes, micros),
                    "bytes_per_second"@,
                    b,
                ),
            ]
        } else {
            levels
        },
    }
}

/// The samples of all readings that lie in the interval. The reading before one counts wherever it
/// lies.
pub open spec fn service_samples(
    f: spec_fn(Op) -> Number,
    interval: Interval,
    readings: Seq<ReadingView>,
) -> Seq<MetricView>
    decreases readings.len(),
{
    if readings.len() == 0 {
        Seq::empty()
    } else {
        let rest = readings.drop_last();
        let b = readings.last();
        if outside(b.at, interval) {
            service_samples(f, interval, rest)
        } else {
            service_samples(f, interval, rest) + service_rows(f, prior_of(rest, b.service), b)
        }
    }
}

fn find_prior<'a>(readings: &'a Vec<Reading>, before: usize, service: &str) -> (r: Option<&'a Reading>)
    requires
        before <= readings@.len(),
        forall|i: int| 0 <= i < readings@.len() ==> (#[trigger] readings@[i]).at.valid(),
    ensures
        match r {
            Some(a) => prior_of(value_views(readings@).take(before as int), service@) == Some(a@)
                && a.at.valid(),
            None => prior_of(value_views(readings@).take(before as int), service@) is None,
        },
{
    let ghost all = value_views(readings@);
    let mut n: usize = before;
    while n > 0
        invariant
            n <= before <= readings@.len(),
            all == value_views(readings@),
            forall|i: int| 0 <= i < readings@.len() ==> (#[trigger] readings@[i]).at.valid(),
            prior_of(all.take(before as int), service@) == prior_of(all.take(n as int), service@),
        decreases n,
    {
        assert(all.take(n as int).last() == readings@[n - 1]@);
        assert(all.take(n as int).drop_last() == all.take(n - 1));
        if same(readings[n - 1].service.as_str(), service) {
            return Some(&readings[n - 1]);
        }
        n -= 1;
    }
    None
}

fn add_reading<F: Fn(Op) -> Number>(
    out: &mut Vec<Metric>,
    prior: Option<&Reading>,
    b: &Reading,
    compute: &F,
)
    requires
        is_arithmetic(*compute),
        b.at.valid(),
        prior matches Some(a) ==> a.at.valid(),
    ensures
        value_views(final(out)@) == value_views(old(out)@) + service_rows(
            arithmetic(*compute),
            match prior {
                Some(a) => Some(a@),
                None => None,
            },
            b@,
        ),
{
    let ghost before = value_views(out@);
    let ghost f = arithmetic(*compute);
    let labels = labels1("service", b.service.as_str());
    let at = Some(b.at);
    let memory = apply(compute, Op::Natural(b.memory));
    let pids = apply(compute, Op::Natural(b.pids));
    add_metric(out, "service.memory_bytes", memory, "bytes", at, &labels);
    add_metric(out, "service.pids", pids, "processes", at, &labels);
    assert(Moment { nanos: b@.at as i128 } == b.at);
    match prior {
        None => {
            assert(value_views(out@) == before + service_rows(f, None, b@));
        },
        Some(a) => {
            let micros: i64 = elapsed(a.at, b.at);
            if micros <= 0 || b.cpu_usec < a.cpu_usec || b.read_bytes < a.read_bytes
                || b.write_bytes < a.write_bytes {
                assert(value_views(out@) == before + service_rows(f, Some(a@), b@));
                return;
            }
            let time = apply(compute, Op::Integer(micros));
            let million = apply(compute, Op::Integer(1_000_000));
            let cpu = apply(compute, Op::Natural(b.cpu_usec - a.cpu_usec));
            let cores = apply(compute, Op::Divide(cpu, time));
            add_metric(out, "service.cpu_cores", cores, "cores", at, &labels);
            let read = apply(compute, Op::Natural(b.read_bytes - a.read_bytes));
            let read = apply(compute, Op::Multiply(read, million));
            let read = apply(compute, Op::Divide(read, time));
            add_metric(
                out,
                "service.io_read_bytes_per_second",
                read,
                "bytes_per_second",
                at,
                &labels,
            );
            let write = apply(compute, Op::Natural(b.write_bytes - a.write_bytes));
            let write = apply(compute, Op::Multiply(write, million));
            let write = apply(compute, Op::Divide(write, time));
            add_metric(
                out,
                "service.io_write_bytes_per_second",
                write,
                "bytes_per_second",
                at,
                &labels,
            );
            assert(value_views(out@) == before + service_rows(f, Some(a@), b@));
        },
    }
}

/// The readings of an output.
pub open spec fn readings_in(raw: Seq<char>) -> Seq<ReadingView> {
    picked(lines(raw), pick_reading())
}

/// Reads the lines with counters; a line of another form is passed over.
pub fn read_counters(raw: &str) -> (r: Vec<Reading>)
    ensures
        value_views(r@) == readings_in(raw@),
        forall|i: int| 0 <= i < r@.len() ==> (#[trigger] r@[i]).at.valid(),
{
    let log = lines_of(chars_of(raw).as_slice());
    let ghost all = lines(raw@);
    let ghost pick = pick_reading();
    let mut out: Vec<Reading> = Vec::new();
    let mut i: usize = 0;
    assert(all.take(0) == Seq::<Seq<char>>::empty());
    assert(value_views(out@) == Seq::<ReadingView>::empty());
    while i < log.len()
        invariant
            i <= log@.len(),
            all == views(log@),
            pick == pick_reading(),
            value_views(out@) == picked(all.take(i as int), pick),
            forall|j: int| 0 <= j < out@.len() ==> (#[trigger] out@[j]).at.valid(),
        decreases log.len() - i,
    {
        proof {
            assert(all.take(i + 1).drop_last() == all.take(i as int));
            assert(all.take(i + 1).last() == log@[i as int]@);
        }
        match reading_from(&log[i]) {
            Some(reading) => {
                let ghost was = out@;
                out.push(reading);
                assert(value_views(out@) == value_views(was).push(reading@));
                assert(pick(log@[i as int]@) == Some(reading@));
            },
            None => {
                assert(pick(log@[i as int]@) is None);
            },
        }
        i += 1;
    }
    assert(all.take(i as int) == all);
    out
}

/// Turns readings into metrics: the samples, and their means.
pub fn count_services<F: Fn(Op) -> Number>(
    readings: &Vec<Reading>,
    interval: Interval,
    compute: &F,
) -> (r: Vec<Metric>)
    requires
        is_arithmetic(*compute),
        forall|i: int| 0 <= i < readings@.len() ==> (#[trigger] readings@[i]).at.valid(),
    ensures
        ({
            let samples = service_samples(
                arithmetic(*compute),
                interval,
                value_views(readings@),
            );
            value_views(r@) == samples + summaries(arithmetic(*compute), samples)
        }),
{
    let ghost f = arithmetic(*compute);
    let ghost all = value_views(readings@);
    let mut out: Vec<Metric> = Vec::new();
    let mut i: usize = 0;
    assert(all.take(0) == Seq::<ReadingView>::empty());
    assert(value_views(out@) == Seq::<MetricView>::empty());
    while i < readings.len()
        invariant
            is_arithmetic(*compute),
            f == arithmetic(*compute),
            i <= readings@.len(),
            all == value_views(readings@),
            forall|j: int| 0 <= j < readings@.len() ==> (#[trigger] readings@[j]).at.valid(),
            value_views(out@) == service_samples(f, interval, all.take(i as int)),
        decreases readings.len() - i,
    {
        let b = &readings[i];
        proof {
            assert(all.take(i + 1).drop_last() == all.take(i as int));
            assert(all.take(i + 1).last() == b@);
        }
        let left_out = match interval {
            Some((start, end)) => b.at.nanos < start.nanos || b.at.nanos > end.nanos,
            None => false,
        };
        if !left_out {
            let prior = find_prior(readings, i, b.service.as_str());
            add_reading(&mut out, prior, b, compute);
        }
        i += 1;
    }
    assert(all.take(i as int) == all);
    append_metric_summaries(&mut out, compute);
    out
}

/// Reads the counters of services into metrics.
pub fn parse_service_cgroup<F: Fn(Op) -> Number>(raw: &str, interval: Interval, compute: &F) -> (r:
    Vec<Metric>)
    requires
        is_arithmetic(*compute),
    ensures
        ({
            let samples = service_samples(arithmetic(*compute), interval, readings_in(raw@));
            value_views(r@) == samples + summaries(arithmetic(*compute), samples)
        }),
{
    let readings = read_counters(raw);
    count_services(&readings, interval, compute)
}

/// Rates come from two readings of one service whose counters did not go back; the first reading
/// of a service, and the first after its counters started anew, give levels only.
pub proof fn rates_need_two_readings(
    f: spec_fn(Op) -> Number,
    prior: Option<ReadingView>,
    b: ReadingView,
)
    ensures
        service_rows(f, prior, b).len() == (if prior matches Some(a) && follows(a, b) {
            5int
        } else {
            2
        }),
{
}

} // verus!
