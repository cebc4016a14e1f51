//! Points in time and the five-second buckets of a benchmark.
use crate::number::{apply, arithmetic, is_arithmetic, Number, Op};
use crate::order::{Key, Rank};
use crate::rounding::{floor, floor_of};
use vstd::prelude::*;

verus! {

/// A point in time, in nanoseconds since the Unix epoch.
#[derive(Clone, Copy, Debug, PartialEq, Eq, Structural)]
pub struct Moment {
    pub nanos: i128,
}

/// The earliest point of the calendar, the start of the year -262143.
pub const EARLIEST: i128 = -8_334_601_228_800_000_000_000;

/// The latest point of the calendar, the end of the year 262142.
pub const LATEST: i128 = 8_210_266_876_799_999_999_999;

const BUCKET_MICROS: i128 = 5_000_000;

/// The remainder of `a` on division by `m`, from zero up to but without `m`.
pub fn remainder(a: i128, m: i128) -> (r: i128)
    requires
        0 < m,
        i128::MIN < a,
    ensures
        r == a as int % m as int,
        0 <= r < m,
{
    if a >= 0 {
        a % m
    } else {
        let below: i128 = (-a) % m;
        let r: i128 = if below == 0 {
            0
        } else {
            m - below
        };
        proof {
            let d = m as int;
            let q = (-a) as int / d;
            vstd::arithmetic::div_mod::lemma_fundamental_div_mod((-a) as int, d);
            if below == 0 {
                assert(a == (-q) * d + 0) by (nonlinear_arith)
                    requires
                        -a == d * q + 0,
                ;
                vstd::arithmetic::div_mod::lemma_fundamental_div_mod_converse(a as int, d, -q, 0);
            } else {
                assert(a == (-q - 1) * d + (d - below)) by (nonlinear_arith)
                    requires
                        -a == d * q + below,
                ;
                vstd::arithmetic::div_mod::lemma_fundamental_div_mod_converse(
                    a as int,
                    d,
                    -q - 1,
                    d - below,
                );
            }
        }
        r
    }
}

impl Moment {
    /// The point lies in the calendar.
    pub open spec fn valid(self) -> bool {
        EARLIEST <= self.nanos <= LATEST
    }

    /// The whole seconds since the epoch, rounded down.
    pub open spec fn seconds_spec(self) -> int {
        self.nanos as int / 1_000_000_000
    }

    pub fn seconds(self) -> (r: i64)
        requires
            self.valid(),
        ensures
            r == self.seconds_spec(),
    {
        let rest: i128 = remainder(self.nanos, 1_000_000_000);
        let whole: i128 = (self.nanos - rest) / 1_000_000_000;
        whole as i64
    }
}

impl Key for Moment {
    type Model = int;

    open spec fn model(&self) -> int {
        self.nanos as int
    }

    open spec fn precedes(a: int, b: int) -> bool {
        a < b
    }

    proof fn strict_order(a: int, b: int, c: int) {
    }

    fn rank(&self, other: &Moment) -> (r: Rank) {
        if self.nanos < other.nanos {
            Rank::Before
        } else if self.nanos == other.nanos {
            Rank::Same
        } else {
            Rank::After
        }
    }
}

/// The nanoseconds of a point `nanos` nanoseconds into a second. A second of 1 000 000 000
/// nanoseconds or more is a leap second: it stays on its second, as the last point of it.
pub open spec fn point_nanos(seconds: int, nanos: int) -> int {
    seconds * 1_000_000_000 + if nanos < 1_000_000_000 {
        nanos
    } else {
        999_999_999
    }
}

/// A leap second is never counted to the second after it.
pub proof fn leap_seconds_stay(seconds: int, nanos: int)
    requires
        0 <= nanos,
    ensures
        point_nanos(seconds, nanos) / 1_000_000_000 == seconds,
{
}

/// The point `nanos` nanoseconds after `seconds` seconds since the epoch. Only the last second of a
/// minute may be a leap second.
pub open spec fn moment_at(seconds: i64, nanos: u32) -> Option<Moment> {
    let at = point_nanos(seconds as int, nanos as int);
    if EARLIEST <= at <= LATEST && (nanos < 1_000_000_000 || (nanos < 2_000_000_000 && seconds as int
        % 60 == 59)) {
        Some(Moment { nanos: at as i128 })
    } else {
        None
    }
}

pub fn from_timestamp(seconds: i64, nanos: u32) -> (r: Option<Moment>)
    ensures
        r == moment_at(seconds, nanos),
        r matches Some(at) ==> at.valid(),
{
    let rest: u32 = if nanos < 1_000_000_000 {
        nanos
    } else {
        999_999_999
    };
    let at: i128 = seconds as i128 * 1_000_000_000 + rest as i128;
    if at < EARLIEST || at > LATEST {
        return None;
    }
    if nanos < 1_000_000_000 || (nanos < 2_000_000_000 && remainder(seconds as i128, 60) == 59) {
        Some(Moment { nanos: at })
    } else {
        None
    }
}

/// The start of the five-second bucket, counted from the epoch, that holds a point: its seconds
/// divided by five and multiplied by five, rounded towards zero.
pub open spec fn epoch_bucket(at: Moment) -> Moment {
    let s = at.seconds_spec();
    let rounded = if s >= 0 {
        s / 5 * 5
    } else {
        -((-s) / 5 * 5)
    };
    Moment { nanos: (rounded * 1_000_000_000) as i128 }
}

pub fn bucket_of_epoch(at: Moment) -> (r: Moment)
    requires
        at.valid(),
    ensures
        r == epoch_bucket(at),
        r.valid(),
{
    let s: i64 = at.seconds();
    let rounded: i64 = if s >= 0 {
        s / 5 * 5
    } else {
        -((-s) / 5 * 5)
    };
    Moment { nanos: rounded as i128 * 1_000_000_000 }
}

/// The point `micros` microseconds after the epoch, if the calendar holds it.
pub fn from_micros(micros: i64) -> (r: Option<Moment>)
    ensures
        match r {
            Some(at) => at.valid() && at.nanos == micros * 1000,
            None => !(EARLIEST <= micros * 1000 <= LATEST),
        },
{
    let nanos: i128 = micros as i128 * 1000;
    if EARLIEST <= nanos && nanos <= LATEST {
        Some(Moment { nanos })
    } else {
        None
    }
}

/// The point that a number of seconds since the epoch names, rounded to whole microseconds: a
/// number of this size is off by some tenths of a microsecond, and the head of a bucket must not
/// fall before the load that it begins with.
pub open spec fn epoch_point(f: spec_fn(Op) -> Number, value: Number) -> Option<Moment> {
    let micros = floor_of(f(Op::Round(f(Op::Multiply(value, f(Op::Integer(1_000_000)))), 0)));
    if EARLIEST <= micros * 1000 <= LATEST {
        Some(Moment { nanos: (micros * 1000) as i128 })
    } else {
        None
    }
}

/// Turns decimal seconds since the epoch into a point in time.
pub fn epoch_seconds<F: Fn(Op) -> Number>(value: Number, compute: &F) -> (r: Option<Moment>)
    requires
        is_arithmetic(*compute),
    ensures
        r == epoch_point(arithmetic(*compute), value),
        r matches Some(at) ==> at.valid() && whole_micros(at) == at,
{
    let million = apply(compute, Op::Integer(1_000_000));
    let micros = apply(compute, Op::Multiply(value, million));
    from_micros(floor(apply(compute, Op::Round(micros, 0))))
}

/// `at` cut down to whole microseconds.
pub open spec fn whole_micros(at: Moment) -> Moment {
    Moment { nanos: (at.nanos as int / 1000 * 1000) as i128 }
}

/// Cuts a point down to whole microseconds, the precision in which boundaries are recorded,
/// handed to collectors and compared.
pub fn to_micros(at: Moment) -> (r: Moment)
    requires
        at.valid(),
    ensures
        r == whole_micros(at),
        r.nanos == at.nanos as int / 1000 * 1000,
        r.valid(),
{
    let rest: i128 = remainder(at.nanos, 1000);
    Moment { nanos: at.nanos - rest }
}

/// Cutting to whole microseconds twice is cutting once, and never moves a point forward nor by a
/// microsecond or more.
pub proof fn whole_micros_settles(at: Moment)
    requires
        at.valid(),
    ensures
        whole_micros(whole_micros(at)) == whole_micros(at),
        whole_micros(at).nanos <= at.nanos < whole_micros(at).nanos + 1000,
{
}

/// Whether `at` lies in the window from `start` up to but without `end`, with both boundaries cut
/// down to whole microseconds.
pub open spec fn within(at: Moment, start: Moment, end: Moment) -> bool {
    whole_micros(start).nanos <= at.nanos < whole_micros(end).nanos
}

/// Whether `at` lies in the half-open window from `start` to `end`.
pub fn in_window(at: Moment, start: Moment, end: Moment) -> (r: bool)
    requires
        start.valid(),
        end.valid(),
    ensures
        r == within(at, start, end),
{
    at.nanos >= to_micros(start).nanos && at.nanos < to_micros(end).nanos
}

/// Two windows that meet share no point.
pub proof fn windows_do_not_overlap(at: Moment, start: Moment, middle: Moment, end: Moment)
    ensures
        !(within(at, start, middle) && within(at, middle, end)),
{
}

/// The microseconds from `origin` to `at`, rounded towards zero.
pub open spec fn micros_between(origin: Moment, at: Moment) -> int {
    if at.nanos >= origin.nanos {
        (at.nanos - origin.nanos) / 1000
    } else {
        -((origin.nanos - at.nanos) / 1000)
    }
}

/// The start of the bucket that begins at most `offset` microseconds after `origin`.
pub open spec fn bucket_nanos(origin: Moment, offset: int) -> int {
    origin.nanos + offset / 5_000_000 * 5_000_000 * 1000
}

pub open spec fn epoch() -> Moment {
    Moment { nanos: 0 }
}

pub open spec fn origin_or_epoch(origin: Option<Moment>) -> Moment {
    match origin {
        Some(o) => o,
        None => epoch(),
    }
}

/// The start of the bucket that holds `at`: none where the distance from the origin does not fit
/// in sixty-four bits of microseconds.
pub open spec fn bucket_of(at: Moment, origin: Option<Moment>) -> Option<Moment> {
    let offset = micros_between(origin_or_epoch(origin), at);
    if i64::MIN <= offset <= i64::MAX {
        Some(Moment { nanos: bucket_nanos(origin_or_epoch(origin), offset) as i128 })
    } else {
        None
    }
}

/// The bucket of `at` begins inside the calendar, at a distance from the origin that fits in
/// sixty-four bits of microseconds.
pub open spec fn bucket_exists(at: Moment, origin: Option<Moment>) -> bool {
    let offset = micros_between(origin_or_epoch(origin), at);
    i64::MIN <= offset <= i64::MAX ==> {
        &&& i64::MIN <= offset / 5_000_000 * 5_000_000
        &&& EARLIEST <= bucket_nanos(origin_or_epoch(origin), offset)
    }
}

/// The start of the five-second bucket that holds `at`. Buckets are counted from `origin`, or
/// from the epoch without one.
pub fn bucket_start(at: Moment, origin: Option<Moment>) -> (r: Option<Moment>)
    requires
        at.valid(),
        origin matches Some(o) ==> o.valid(),
        bucket_exists(at, origin),
    ensures
        r == bucket_of(at, origin),
        r matches Some(start) ==> start.valid(),
{
    let origin: Moment = match origin {
        Some(o) => o,
        None => Moment { nanos: 0 },
    };
    let offset: i128 = if at.nanos >= origin.nanos {
        (at.nanos - origin.nanos) / 1000
    } else {
        -((origin.nanos - at.nanos) / 1000)
    };
    if offset < i64::MIN as i128 || offset > i64::MAX as i128 {
        return None;
    }
    let inside: i128 = remainder(offset, BUCKET_MICROS);
    let start: i128 = origin.nanos + (offset - inside) * 1000;
    Some(Moment { nanos: start })
}

fn has_bucket(at: Moment, origin: Moment) -> (r: bool)
    requires
        at.valid(),
        origin.valid(),
    ensures
        r == bucket_exists(at, Some(origin)),
{
    let offset: i128 = if at.nanos >= origin.nanos {
        (at.nanos - origin.nanos) / 1000
    } else {
        -((origin.nanos - at.nanos) / 1000)
    };
    if offset < i64::MIN as i128 || offset > i64::MAX as i128 {
        return true;
    }
    let inside: i128 = remainder(offset, BUCKET_MICROS);
    offset - inside >= i64::MIN as i128 && origin.nanos + (offset - inside) * 1000 >= EARLIEST
}

/// A bucket begins a whole number of five-second steps from the origin, no more than five seconds
/// before the point it holds and, for points of whole microseconds, not after it.
pub proof fn bucket_holds_its_point(at: Moment, origin: Moment)
    requires
        at.valid(),
        origin.valid(),
        at.nanos % 1000 == 0,
        origin.nanos % 1000 == 0,
        bucket_exists(at, Some(origin)),
        bucket_of(at, Some(origin)) is Some,
    ensures
        ({
            let start = bucket_of(at, Some(origin))->0;
            &&& start.nanos <= at.nanos < start.nanos + 5_000_000_000
            &&& (start.nanos - origin.nanos) % 5_000_000_000 == 0
        }),
{
    let offset = micros_between(origin, at);
    assert(offset * 1000 == at.nanos - origin.nanos);
}

/// Buckets counted from the load start and cut at the benchmark start.
#[derive(Clone, Copy, Debug, PartialEq, Eq, Structural)]
pub struct BucketGrid {
    pub origin: Option<Moment>,
    pub begin: Option<Moment>,
}

impl BucketGrid {
    /// The start of the bucket that holds `at`: a bucket that spans the benchmark start begins
    /// there for the points from it on.
    pub open spec fn start_spec(self, at: Moment) -> Option<Moment> {
        match bucket_of(at, self.origin) {
            None => None,
            Some(start) => match self.begin {
                Some(begin) => if at.nanos >= begin.nanos && start.nanos < begin.nanos {
                    Some(begin)
                } else {
                    Some(start)
                },
                None => Some(start),
            },
        }
    }

    pub fn start(&self, at: Moment) -> (r: Option<Moment>)
        requires
            at.valid(),
            self.origin matches Some(o) ==> o.valid(),
            bucket_exists(at, self.origin),
        ensures
            r == self.start_spec(at),
    {
        let start = match bucket_start(at, self.origin) {
            Some(start) => start,
            None => {
                return None;
            },
        };
        match self.begin {
            Some(begin) => if at.nanos >= begin.nanos && start.nanos < begin.nanos {
                Some(begin)
            } else {
                Some(start)
            },
            None => Some(start),
        }
    }

    /// The bucket of a sample: the one that the grid gives it, and the one counted from the epoch
    /// where the grid has no origin or no bucket for it.
    pub open spec fn bucket_spec(self, at: Moment) -> Moment {
        if self.origin is Some && bucket_exists(at, self.origin) && self.start_spec(at) is Some {
            self.start_spec(at)->0
        } else {
            epoch_bucket(at)
        }
    }

    pub fn bucket(&self, at: Moment) -> (r: Moment)
        requires
            at.valid(),
            self.origin matches Some(o) ==> o.valid(),
            self.begin matches Some(b) ==> b.valid(),
        ensures
            r == self.bucket_spec(at),
            r.valid(),
    {
        match self.origin {
            Some(origin) => {
                if has_bucket(at, origin) {
                    if let Some(start) = self.start(at) {
                        return start;
                    }
                }
            },
            None => {},
        }
        bucket_of_epoch(at)
    }

    /// A sample of the load and one of the initialization share no bucket: the load begins with a
    /// bucket of its own.
    pub proof fn load_begins_with_a_bucket(self, before: Moment, after: Moment)
        requires
            self.origin matches Some(o) && o.valid() && o.nanos % 1000 == 0 && before.nanos
                < o.nanos <= after.nanos,
            self.begin matches Some(b) ==> b.nanos <= self.origin->0.nanos,
            before.valid(),
            after.valid(),
            before.nanos % 1000 == 0,
            after.nanos % 1000 == 0,
            bucket_exists(before, self.origin),
            bucket_of(before, self.origin) is Some,
            bucket_exists(after, self.origin),
            bucket_of(after, self.origin) is Some,
        ensures
            self.bucket_spec(before).nanos < self.origin->0.nanos <= self.bucket_spec(after).nanos,
    {
        let o = self.origin->0;
        bucket_holds_its_point(before, o);
        bucket_holds_its_point(after, o);
        assert(micros_between(o, after) >= 0);
    }

    /// No point from the benchmark start on falls into a bucket that begins before it.
    pub proof fn begins_at_the_benchmark(self, at: Moment)
        requires
            self.begin is Some,
            at.nanos >= self.begin->0.nanos,
            self.start_spec(at) is Some,
        ensures
            self.start_spec(at)->0.nanos >= self.begin->0.nanos,
    {
    }
}

} // verus!
