//! Whole numbers next to double-precision numbers.
use crate::number::{apply, arithmetic, count_value, is_arithmetic, Number, Op};
use vstd::arithmetic::power2::{lemma2_to64, lemma_pow2_strictly_increases, lemma_pow2_unfold, pow2};
use vstd::prelude::*;

verus! {

const LEADING: u64 = 0x10_0000_0000_0000;

impl Number {
    /// The eleven exponent bits.
    pub open spec fn exponent(self) -> nat {
        (self.magnitude() / 0x10_0000_0000_0000) as nat
    }

    /// The fraction bits, with the leading one that normal numbers have.
    pub open spec fn significand(self) -> nat {
        if self.exponent() == 0 {
            (self.magnitude() % 0x10_0000_0000_0000) as nat
        } else {
            (self.magnitude() % 0x10_0000_0000_0000 + 0x10_0000_0000_0000) as nat
        }
    }

    /// The largest whole number that the value without its sign reaches.
    pub open spec fn whole(self) -> nat {
        if self.exponent() >= 1075 {
            self.significand() * pow2((self.exponent() - 1075) as nat)
        } else {
            self.significand() / pow2((1075 - self.exponent()) as nat)
        }
    }

    /// The value lies between two whole numbers.
    pub open spec fn has_fraction(self) -> bool {
        self.exponent() < 1075 && self.significand() % pow2((1075 - self.exponent()) as nat) != 0
    }

    pub open spec fn has_sign(self) -> bool {
        self.bits >= 0x8000_0000_0000_0000
    }
}

/// `v` moved into the range of `i64`.
pub open spec fn into_range(v: int) -> i64 {
    if v > i64::MAX {
        i64::MAX
    } else if v < i64::MIN {
        i64::MIN
    } else {
        v as i64
    }
}

/// The largest whole number that is not greater than the value, in the range of `i64`; zero for
/// what is not a number.
pub open spec fn floor_of(n: Number) -> i64 {
    if n.is_nan_spec() {
        0
    } else if !n.is_finite_spec() {
        if n.has_sign() {
            i64::MIN
        } else {
            i64::MAX
        }
    } else if n.has_sign() {
        into_range(-(n.whole() as int) - if n.has_fraction() { 1int } else { 0 })
    } else {
        into_range(n.whole() as int)
    }
}

/// The smallest whole number that is not less than the value, in the range of `i64`; zero for
/// what is not a number.
pub open spec fn ceiling_of(n: Number) -> i64 {
    if n.is_nan_spec() {
        0
    } else if !n.is_finite_spec() {
        if n.has_sign() {
            i64::MIN
        } else {
            i64::MAX
        }
    } else if n.has_sign() {
        into_range(-(n.whole() as int))
    } else {
        into_range(n.whole() as int + if n.has_fraction() { 1int } else { 0 })
    }
}

/// Two to the power of `k`.
fn power(k: u64) -> (r: u64)
    requires
        k < 64,
    ensures
        r == pow2(k as nat),
        r >= 1,
{
    let mut r: u64 = 1;
    let mut i: u64 = 0;
    proof {
        lemma2_to64();
    }
    while i < k
        invariant
            i <= k < 64,
            r == pow2(i as nat),
            r >= 1,
        decreases k - i,
    {
        proof {
            lemma_pow2_unfold((i + 1) as nat);
            lemma2_to64();
            if i + 1 < 63 {
                lemma_pow2_strictly_increases((i + 1) as nat, 63);
            }
            assert(pow2(63) == 0x8000_0000_0000_0000) by {
                vstd::arithmetic::power2::lemma2_to64_rest();
            }
        }
        r = r * 2;
        i += 1;
    }
    r
}

/// The whole part of a finite value without its sign, cut at 2^63, and whether there is more.
fn parts(n: Number) -> (r: (u64, bool))
    requires
        n.is_finite_spec(),
    ensures
        r.0 == (if n.whole() > 0x8000_0000_0000_0000 {
            0x8000_0000_0000_0000
        } else {
            n.whole() as int
        }),
        r.1 == n.has_fraction(),
{
    let magnitude: u64 = n.abs().bits;
    let exponent: u64 = magnitude / LEADING;
    let rest: u64 = magnitude % LEADING;
    let significand: u64 = if exponent == 0 {
        rest
    } else {
        rest + LEADING
    };
    assert(exponent == n.exponent());
    assert(significand == n.significand());
    proof {
        vstd::arithmetic::power2::lemma2_to64_rest();
        lemma2_to64();
    }
    if exponent >= 1075 {
        let k: u64 = exponent - 1075;
        if k >= 11 {
            proof {
                if k > 11 {
                    lemma_pow2_strictly_increases(11, k as nat);
                }
                assert(n.whole() >= 0x8000_0000_0000_0000) by (nonlinear_arith)
                    requires
                        n.whole() == significand * pow2(k as nat),
                        significand >= 0x10_0000_0000_0000,
                        pow2(k as nat) >= 2048,
                ;
            }
            return (0x8000_0000_0000_0000, false);
        }
        let scale: u64 = power(k);
        proof {
            if k < 10 {
                lemma_pow2_strictly_increases(k as nat, 10);
            }
            assert(significand * scale < 0x8000_0000_0000_0000) by (nonlinear_arith)
                requires
                    significand < 0x20_0000_0000_0000,
                    scale <= 1024,
            ;
        }
        (significand * scale, false)
    } else {
        let k: u64 = 1075 - exponent;
        if k >= 64 {
            proof {
                lemma_pow2_strictly_increases(63, k as nat);
                vstd::arithmetic::div_mod::lemma_basic_div(
                    significand as int,
                    pow2(k as nat) as int,
                );
                vstd::arithmetic::div_mod::lemma_small_mod(
                    significand as nat,
                    pow2(k as nat),
                );
            }
            (0, significand != 0)
        } else {
            let scale: u64 = power(k);
            proof {
                lemma_pow2_strictly_increases(0, k as nat);
                assert(significand as int / scale as int <= significand) by (nonlinear_arith)
                    requires
                        scale >= 1,
                        significand >= 0,
                ;
            }
            (significand / scale, significand % scale != 0)
        }
    }
}

pub fn floor(n: Number) -> (r: i64)
    ensures
        r == floor_of(n),
{
    if n.is_nan() {
        return 0;
    }
    let sign = n.bits >= 0x8000_0000_0000_0000;
    if !n.is_finite() {
        return if sign {
            i64::MIN
        } else {
            i64::MAX
        };
    }
    let (whole, fraction) = parts(n);
    if sign {
        if whole >= 0x8000_0000_0000_0000 {
            i64::MIN
        } else if fraction {
            -(whole as i64) - 1
        } else {
            -(whole as i64)
        }
    } else if whole >= 0x8000_0000_0000_0000 {
        i64::MAX
    } else {
        whole as i64
    }
}

pub fn ceiling(n: Number) -> (r: i64)
    ensures
        r == ceiling_of(n),
{
    if n.is_nan() {
        return 0;
    }
    let sign = n.bits >= 0x8000_0000_0000_0000;
    if !n.is_finite() {
        return if sign {
            i64::MIN
        } else {
            i64::MAX
        };
    }
    let (whole, fraction) = parts(n);
    if sign {
        if whole >= 0x8000_0000_0000_0000 {
            i64::MIN
        } else {
            -(whole as i64)
        }
    } else if whole >= 0x8000_0000_0000_0000 {
        i64::MAX
    } else if fraction && whole < 0x7fff_ffff_ffff_ffff {
        whole as i64 + 1
    } else {
        whole as i64
    }
}

/// No whole number lies strictly between the floor and the ceiling, which differ exactly where
/// the value has a fraction.
pub proof fn floor_meets_ceiling(n: Number)
    requires
        n.is_finite_spec(),
        i64::MIN < floor_of(n),
        ceiling_of(n) < i64::MAX,
    ensures
        ceiling_of(n) - floor_of(n) == (if n.has_fraction() {
            1int
        } else {
            0
        }),
{
}

/// The value at the rank that `quantile` of the values reaches, of values in ascending order.
pub open spec fn percentile_of(
    f: spec_fn(Op) -> Number,
    sorted: Seq<Number>,
    quantile: Number,
) -> Option<Number> {
    let rank = ceiling_of(f(Op::Multiply(quantile, count_value(f, sorted.len()))));
    let at = if rank < 1 {
        0
    } else {
        rank - 1
    };
    if at < sorted.len() {
        Some(sorted[at])
    } else {
        None
    }
}

pub fn percentile<F: Fn(Op) -> Number>(sorted: &[Number], quantile: Number, compute: &F) -> (r:
    Option<Number>)
    requires
        is_arithmetic(*compute),
    ensures
        r == percentile_of(arithmetic(*compute), sorted@, quantile),
{
    if sorted.len() == 0 {
        return None;
    }
    let count = apply(compute, Op::Integer(sorted.len() as i64));
    let rank: i64 = ceiling(apply(compute, Op::Multiply(quantile, count)));
    let at: u64 = if rank < 1 {
        0
    } else {
        (rank - 1) as u64
    };
    if at < sorted.len() as u64 {
        Some(sorted[at as usize])
    } else {
        None
    }
}

} // verus!
