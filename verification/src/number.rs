//! Measured values, held as the bits of a double-precision number.
//!
//! The bits follow IEEE 754: one sign bit, eleven exponent bits, fifty-two fraction bits. Values
//! are ordered, compared and selected on these bits. Their arithmetic is a parameter: a function
//! that needs it takes a `compute` argument, which carries out one operation at a time, and its
//! contract speaks of the results of `compute`.
use crate::order::{Key, Rank};
use vstd::prelude::*;

verus! {

const SIGN: u64 = 0x8000_0000_0000_0000;

const INFINITY: u64 = 0x7ff0_0000_0000_0000;

/// A double-precision number.
#[derive(Clone, Copy, Debug, PartialEq, Eq, Structural)]
pub struct Number {
    pub bits: u64,
}

impl Number {
    /// The bits without the sign.
    pub open spec fn magnitude(self) -> int {
        if self.bits >= 0x8000_0000_0000_0000 {
            self.bits - 0x8000_0000_0000_0000
        } else {
            self.bits as int
        }
    }

    pub open spec fn is_nan_spec(self) -> bool {
        self.magnitude() > 0x7ff0_0000_0000_0000
    }

    pub open spec fn is_finite_spec(self) -> bool {
        self.magnitude() < 0x7ff0_0000_0000_0000
    }

    pub open spec fn is_zero_spec(self) -> bool {
        self.magnitude() == 0
    }

    /// The place of the value in the total order of double-precision numbers: negative values
    /// before positive ones, and within one sign by magnitude.
    pub open spec fn place(self) -> int {
        if self.bits >= 0x8000_0000_0000_0000 {
            -self.magnitude() - 1
        } else {
            self.magnitude()
        }
    }

    /// The value is greater than zero.
    pub open spec fn is_positive_spec(self) -> bool {
        0 < self.bits <= 0x7ff0_0000_0000_0000
    }

    /// The value is less than zero.
    pub open spec fn is_negative_spec(self) -> bool {
        0x8000_0000_0000_0000 < self.bits <= 0xfff0_0000_0000_0000
    }

    pub open spec fn abs_spec(self) -> Number {
        Number { bits: self.magnitude() as u64 }
    }

    pub open spec fn zero_spec() -> Number {
        Number { bits: 0 }
    }

    /// Positive zero.
    pub fn zero() -> (r: Number)
        ensures
            r == Number::zero_spec(),
    {
        Number { bits: 0 }
    }

    pub fn is_nan(self) -> (r: bool)
        ensures
            r == self.is_nan_spec(),
    {
        self.abs().bits > INFINITY
    }

    /// Neither infinite nor not a number.
    pub fn is_finite(self) -> (r: bool)
        ensures
            r == self.is_finite_spec(),
    {
        self.abs().bits < INFINITY
    }

    pub fn is_zero(self) -> (r: bool)
        ensures
            r == self.is_zero_spec(),
    {
        self.abs().bits == 0
    }

    pub fn is_positive(self) -> (r: bool)
        ensures
            r == self.is_positive_spec(),
    {
        0 < self.bits && self.bits <= INFINITY
    }

    pub fn is_negative(self) -> (r: bool)
        ensures
            r == self.is_negative_spec(),
    {
        SIGN < self.bits && self.bits - SIGN <= INFINITY
    }

    /// The value without its sign.
    pub fn abs(self) -> (r: Number)
        ensures
            r == self.abs_spec(),
            r.bits == self.magnitude(),
    {
        if self.bits >= SIGN {
            Number { bits: self.bits - SIGN }
        } else {
            self
        }
    }

    /// `self` is greater than `other`; the two zeros are equal, and what is not a number is
    /// greater than nothing and nothing is greater than it.
    pub open spec fn exceeds(self, other: Number) -> bool {
        &&& !self.is_nan_spec() && !other.is_nan_spec()
        &&& self.place() > other.place()
        &&& !(self.is_zero_spec() && other.is_zero_spec())
    }

    pub fn greater(self, other: Number) -> (r: bool)
        ensures
            r == self.exceeds(other),
    {
        !self.is_nan() && !other.is_nan() && matches!(self.rank(&other), Rank::After) && !(
        self.is_zero() && other.is_zero())
    }

    /// `self` is at most `other`; what is not a number is neither.
    pub open spec fn at_most(self, other: Number) -> bool {
        !self.is_nan_spec() && !other.is_nan_spec() && !self.exceeds(other)
    }

    pub fn within(self, other: Number) -> (r: bool)
        ensures
            r == self.at_most(other),
    {
        !self.is_nan() && !other.is_nan() && !self.greater(other)
    }

    /// The larger of two values; a value that is not a number gives way to the other.
    pub open spec fn max_spec(a: Number, b: Number) -> Number {
        if a.is_nan_spec() {
            b
        } else if b.is_nan_spec() || b.place() <= a.place() {
            a
        } else {
            b
        }
    }

    /// The smaller of two values; a value that is not a number gives way to the other.
    pub open spec fn min_spec(a: Number, b: Number) -> Number {
        if a.is_nan_spec() {
            b
        } else if b.is_nan_spec() || a.place() <= b.place() {
            a
        } else {
            b
        }
    }

    pub fn max(a: Number, b: Number) -> (r: Number)
        ensures
            r == Number::max_spec(a, b),
    {
        if a.is_nan() {
            b
        } else if b.is_nan() {
            a
        } else {
            match b.rank(&a) {
                Rank::After => b,
                _ => a,
            }
        }
    }

    pub fn min(a: Number, b: Number) -> (r: Number)
        ensures
            r == Number::min_spec(a, b),
    {
        if a.is_nan() {
            b
        } else if b.is_nan() {
            a
        } else {
            match b.rank(&a) {
                Rank::Before => b,
                _ => a,
            }
        }
    }
}

impl View for Number {
    type V = Number;

    open spec fn view(&self) -> Number {
        *self
    }
}

impl Key for Number {
    type Model = int;

    open spec fn model(&self) -> int {
        self.place()
    }

    open spec fn precedes(a: int, b: int) -> bool {
        a < b
    }

    proof fn strict_order(a: int, b: int, c: int) {
    }

    fn rank(&self, other: &Number) -> (r: Rank) {
        let a: u64 = self.bits;
        let b: u64 = other.bits;
        if a == b {
            Rank::Same
        } else if a >= SIGN {
            if b >= SIGN && b > a {
                Rank::After
            } else {
                Rank::Before
            }
        } else if b >= SIGN || b < a {
            Rank::After
        } else {
            Rank::Before
        }
    }
}

/// The largest of the values from the first up to the `n`th.
pub open spec fn largest(values: Seq<Number>, n: int) -> Number
    decreases n,
{
    if n <= 1 {
        values[0]
    } else {
        Number::max_spec(largest(values, n - 1), values[n - 1])
    }
}

/// The smallest of the values from the first up to the `n`th.
pub open spec fn smallest(values: Seq<Number>, n: int) -> Number
    decreases n,
{
    if n <= 1 {
        values[0]
    } else {
        Number::min_spec(smallest(values, n - 1), values[n - 1])
    }
}

/// The largest value of a list, if it has any.
pub fn maximum(values: &[Number]) -> (r: Option<Number>)
    ensures
        r == (if values@.len() == 0 {
            None::<Number>
        } else {
            Some(largest(values@, values@.len() as int))
        }),
{
    if values.len() == 0 {
        return None;
    }
    let mut best = values[0];
    let mut i: usize = 1;
    while i < values.len()
        invariant
            1 <= i <= values@.len(),
            best == largest(values@, i as int),
        decreases values.len() - i,
    {
        best = Number::max(best, values[i]);
        i += 1;
    }
    Some(best)
}

/// The smallest value of a list, if it has any.
pub fn minimum(values: &[Number]) -> (r: Option<Number>)
    ensures
        r == (if values@.len() == 0 {
            None::<Number>
        } else {
            Some(smallest(values@, values@.len() as int))
        }),
{
    if values.len() == 0 {
        return None;
    }
    let mut best = values[0];
    let mut i: usize = 1;
    while i < values.len()
        invariant
            1 <= i <= values@.len(),
            best == smallest(values@, i as int),
        decreases values.len() - i,
    {
        best = Number::min(best, values[i]);
        i += 1;
    }
    Some(best)
}

/// One operation of the arithmetic on numbers.
#[derive(Clone, Copy, Debug, PartialEq, Eq, Structural)]
pub enum Op {
    Add(Number, Number),
    Subtract(Number, Number),
    Multiply(Number, Number),
    Divide(Number, Number),
    /// The value rounded to a number of decimal places.
    Round(Number, u32),
    /// The value of an integer.
    Integer(i64),
    /// The value of an integer without a sign.
    Natural(u64),
}

/// `compute` may be asked for every operation, and answers as `f` does.
pub open spec fn computes<F: Fn(Op) -> Number>(compute: F, f: spec_fn(Op) -> Number) -> bool {
    &&& forall|op: Op| #[trigger] compute.requires((op,))
    &&& forall|op: Op, r: Number| #[trigger] compute.ensures((op,), r) ==> r == f(op)
}

/// The results of `compute` depend on the operation alone.
pub open spec fn is_arithmetic<F: Fn(Op) -> Number>(compute: F) -> bool {
    exists|f: spec_fn(Op) -> Number| computes(compute, f)
}

/// What `compute` computes.
pub open spec fn arithmetic<F: Fn(Op) -> Number>(compute: F) -> spec_fn(Op) -> Number {
    choose|f: spec_fn(Op) -> Number| computes(compute, f)
}

/// Carries out one operation.
pub fn apply<F: Fn(Op) -> Number>(compute: &F, op: Op) -> (r: Number)
    requires
        is_arithmetic(*compute),
    ensures
        r == arithmetic(*compute)(op),
{
    compute(op)
}

/// The values added to `start` one after the other.
pub open spec fn total_from(f: spec_fn(Op) -> Number, start: Number, values: Seq<Number>) -> Number
    decreases values.len(),
{
    if values.len() == 0 {
        start
    } else {
        f(Op::Add(total_from(f, start, values.drop_last()), values.last()))
    }
}

/// The values added one after the other; negative zero for none.
pub open spec fn total(f: spec_fn(Op) -> Number, values: Seq<Number>) -> Number {
    total_from(f, Number { bits: 0x8000_0000_0000_0000 }, values)
}

/// Adds the values to `start` one after the other.
pub fn sum_from<F: Fn(Op) -> Number>(start: Number, values: &[Number], compute: &F) -> (r: Number)
    requires
        is_arithmetic(*compute),
    ensures
        r == total_from(arithmetic(*compute), start, values@),
{
    let mut acc = start;
    let mut i: usize = 0;
    let ghost f = arithmetic(*compute);
    assert(values@.take(0) == Seq::<Number>::empty());
    while i < values.len()
        invariant
            is_arithmetic(*compute),
            f == arithmetic(*compute),
            i <= values@.len(),
            acc == total_from(f, start, values@.take(i as int)),
        decreases values.len() - i,
    {
        assert(values@.take(i + 1).drop_last() == values@.take(i as int));
        acc = apply(compute, Op::Add(acc, values[i]));
        i += 1;
    }
    assert(values@.take(i as int) == values@);
    acc
}

/// Adds the values one after the other.
pub fn sum<F: Fn(Op) -> Number>(values: &[Number], compute: &F) -> (r: Number)
    requires
        is_arithmetic(*compute),
    ensures
        r == total(arithmetic(*compute), values@),
{
    sum_from(Number { bits: SIGN }, values, compute)
}

/// The value of a count.
pub open spec fn count_value(f: spec_fn(Op) -> Number, n: nat) -> Number {
    f(Op::Integer(n as i64))
}

/// The sum of the values divided by their number.
pub open spec fn mean(f: spec_fn(Op) -> Number, values: Seq<Number>) -> Number {
    f(Op::Divide(total(f, values), count_value(f, values.len())))
}

pub fn average<F: Fn(Op) -> Number>(values: &[Number], compute: &F) -> (r: Number)
    requires
        is_arithmetic(*compute),
    ensures
        r == mean(arithmetic(*compute), values@),
{
    let sum = sum(values, compute);
    let count = apply(compute, Op::Integer(values.len() as i64));
    apply(compute, Op::Divide(sum, count))
}

} // verus!
