//! Exact numeric helpers used throughout decoding and rendering.
//!
//! Periodic quantities (hue, gradient position, animation time) are exact
//! rationals, and field values are fixed-point integers, so every later
//! computation is reproducible bit for bit.

use vstd::prelude::*;

verus! {

use vstd::arithmetic::div_mod::{
    lemma_fundamental_div_mod, lemma_fundamental_div_mod_converse_mod, lemma_mod_bound,
    lemma_mod_multiples_vanish,
};

/// Largest denominator a well-formed fraction may carry.  The cap keeps a
/// product of three denominators (as arises when hue, saturation and value
/// are brought to a common denominator) inside 128-bit arithmetic.
pub const MAX_DEN: i64 = 0x8000_0000;

/// One unit of the fixed-point scale used for field values and time.
pub const FP_ONE: i64 = 65536;

/// An exact rational number `num / den`.
#[derive(Clone, Copy, Debug, PartialEq, Eq, Structural)]
pub struct Frac {
    pub num: i64,
    pub den: i64,
}

/// The fractional part of `num / den`, scaled back to a numerator over
/// `den`: the unique representative of the value in [0, 1).
pub open spec fn wrap_of(num: int, den: int) -> int {
    num % den
}

/// `num / den` clamped into [0, 1], as a numerator over `den`.
pub open spec fn clamp01_of(num: int, den: int) -> int {
    if num < 0 {
        0
    } else if num > den {
        den
    } else {
        num
    }
}

/// A fixed-point value wrapped into [0, FP_ONE).
pub open spec fn wrap_fp(v: int) -> int {
    v % 65536
}

impl Frac {
    /// Denominator positive and bounded by `MAX_DEN`.
    pub open spec fn wf(self) -> bool {
        1 <= self.den <= MAX_DEN
    }

    pub open spec fn wrapped(self) -> int {
        wrap_of(self.num as int, self.den as int)
    }

    pub fn new(num: i64, den: i64) -> (r: Frac)
        requires
            1 <= den <= MAX_DEN,
        ensures
            r == (Frac { num, den }),
            r.wf(),
    {
        Frac { num, den }
    }

    /// Wraps the value into [0, 1): the result is the nonnegative
    /// fractional part, also for negative inputs.
    pub fn wrap(self) -> (r: Frac)
        requires
            self.wf(),
        ensures
            r.wf(),
            r.den == self.den,
            r.num == self.wrapped(),
            0 <= r.num < r.den,
    {
        proof {
            lemma_mod_bound(self.num as int, self.den as int);
        }
        if self.num >= 0 {
            let m = ((self.num as u64) % (self.den as u64)) as i64;
            Frac { num: m, den: self.den }
        } else {
            let neg: u128 = (-(self.num as i128)) as u128;
            let r = (neg % (self.den as u128)) as u64;
            proof {
                let n = self.num as int;
                let d = self.den as int;
                lemma_fundamental_div_mod(-n, d);
                lemma_mod_bound(-n, d);
                let q = (-n) / d;
                let r0 = (-n) % d;
                if r0 == 0 {
                    assert(n == (-q) * d + 0) by (nonlinear_arith)
                        requires
                            -n == d * q + r0,
                            r0 == 0,
                    ;
                    lemma_fundamental_div_mod_converse_mod(n, d, -q, 0);
                } else {
                    assert(n == (-q - 1) * d + (d - r0)) by (nonlinear_arith)
                        requires
                            -n == d * q + r0,
                    ;
                    lemma_fundamental_div_mod_converse_mod(n, d, -q - 1, d - r0);
                }
            }
            if r == 0 {
                Frac { num: 0, den: self.den }
            } else {
                Frac { num: self.den - (r as i64), den: self.den }
            }
        }
    }

    /// Clamps the value into [0, 1].
    pub fn clamp01(self) -> (r: Frac)
        requires
            self.wf(),
        ensures
            r.wf(),
            r.den == self.den,
            r.num == clamp01_of(self.num as int, self.den as int),
            0 <= r.num <= r.den,
    {
        if self.num < 0 {
            Frac { num: 0, den: self.den }
        } else if self.num > self.den {
            Frac { num: self.den, den: self.den }
        } else {
            self
        }
    }
}

/// Law: wrapping always lands in [0, 1), and is periodic with period one —
/// a value and that value plus one wrap to the same fraction.
pub proof fn lemma_wrap_periodic(num: int, den: int)
    requires
        1 <= den,
    ensures
        0 <= wrap_of(num, den) < den,
        wrap_of(num + den, den) == wrap_of(num, den),
{
    lemma_mod_bound(num, den);
    lemma_mod_multiples_vanish(1, num, den);
}

/// Wraps a fixed-point value into [0, FP_ONE).
pub fn wrap_fixed(v: i64) -> (r: i64)
    requires
        -0x400_0000_0000 <= v <= 0x400_0000_0000,
    ensures
        r == wrap_fp(v as int),
        0 <= r < 65536,
{
    let shifted: u64 = (v + 0x800_0000_0000) as u64;
    let m = shifted % 65536;
    proof {
        lemma_mod_multiples_vanish(0x800_0000, v as int, 65536);
        lemma_mod_bound(v as int, 65536);
    }
    m as i64
}

} // verus!
