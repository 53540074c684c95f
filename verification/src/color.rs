//! RGB colors and exact HSV decoding.
//!
//! Hue, saturation and value arrive as exact rationals.  The hue circle is
//! divided into six sectors; within a sector two RGB channels are pinned to
//! `value` and `value * (1 - saturation)` and the third is linearly
//! interpolated between them, each channel finally scaled by 255 and rounded
//! to the nearest integer.  All of it is computed exactly over a common
//! denominator, so equal inputs give equal colors on every platform.

use vstd::prelude::*;

verus! {

use crate::fastmath::{clamp01_of, wrap_of, Frac};
use vstd::arithmetic::div_mod::{lemma_mod_bound, lemma_multiply_divide_lt};

#[derive(Clone, Copy, Debug, PartialEq, Eq, Structural)]
pub struct Color {
    pub r: u8,
    pub g: u8,
    pub b: u8,
}

/// `n / d` scaled by 255 and rounded to the nearest integer (half rounds up).
pub open spec fn round255(n: int, d: int) -> int {
    (510 * n + d) / (2 * d)
}

/// Channel numerators over the common denominator `vd * sd * hd`, given the
/// wrapped hue `hw / hd` and clamped saturation `sn / sd` and value `vn / vd`.
/// The hue circle splits into six sectors; `ofs / hd` is the offset within
/// the sector.  `upper` stands for `value`, `lower` for
/// `value * (1 - saturation)`; `rise` interpolates from `lower` to `upper`
/// and `fall` the other way.
pub open spec fn hsv_channels(hw: int, hd: int, sn: int, sd: int, vn: int, vd: int) -> (
    int,
    int,
    int,
) {
    let six = 6 * hw;
    let sector = six / hd;
    let ofs = six % hd;
    let upper = vn * (sd * hd);
    let lower = vn * ((sd - sn) * hd);
    let rise = vn * ((sd - sn) * hd + sn * ofs);
    let fall = vn * (sd * hd - sn * ofs);
    if sector == 0 {
        (upper, rise, lower)
    } else if sector == 1 {
        (fall, upper, lower)
    } else if sector == 2 {
        (lower, upper, rise)
    } else if sector == 3 {
        (lower, fall, upper)
    } else if sector == 4 {
        (rise, lower, upper)
    } else {
        (upper, lower, fall)
    }
}

/// The color a hue/saturation/value triple decodes to: hue wrapped into
/// [0, 1), saturation and value clamped into [0, 1], each RGB channel scaled
/// by 255 and rounded to nearest.
pub open spec fn from_hsv_spec(h: Frac, s: Frac, v: Frac) -> Color {
    let hw = wrap_of(h.num as int, h.den as int);
    let sn = clamp01_of(s.num as int, s.den as int);
    let vn = clamp01_of(v.num as int, v.den as int);
    let den = (v.den as int) * ((s.den as int) * (h.den as int));
    let chans = hsv_channels(hw, h.den as int, sn, s.den as int, vn, v.den as int);
    Color {
        r: round255(chans.0, den) as u8,
        g: round255(chans.1, den) as u8,
        b: round255(chans.2, den) as u8,
    }
}

/// Rounds `n / d` scaled by 255 into a byte; exact as long as `n <= d`.
fn round_channel(n: u128, d: u128) -> (r: u8)
    requires
        1 <= d <= 0x2000_0000_0000_0000_0000_0000,
        n <= d,
    ensures
        r as int == round255(n as int, d as int),
{
    let num = 510 * n + d;
    let q = num / (2 * d);
    proof {
        lemma_multiply_divide_lt(num as int, 2 * (d as int), 256);
    }
    q as u8
}

impl Color {
    pub fn new(r: u8, g: u8, b: u8) -> (c: Color)
        ensures
            c == (Color { r, g, b }),
    {
        Color { r, g, b }
    }

    /// Decodes a hue/saturation/value triple into an RGB color, exactly as
    /// `from_hsv_spec` states: six-sector interpolation over a common
    /// denominator, each channel rounded to the nearest of 0..=255.
    pub fn from_hsv(hue: Frac, saturation: Frac, value: Frac) -> (c: Color)
        requires
            hue.wf(),
            saturation.wf(),
            value.wf(),
        ensures
            c == from_hsv_spec(hue, saturation, value),
    {
        let h = hue.wrap();
        let s = saturation.clamp01();
        let v = value.clamp01();
        let hw = h.num as u128;
        let hd = h.den as u128;
        let sn = s.num as u128;
        let sd = s.den as u128;
        let vn = v.num as u128;
        let vd = v.den as u128;
        proof {
            assert(1 <= sd * hd <= 0x4000_0000_0000_0000) by (nonlinear_arith)
                requires
                    1 <= sd <= 0x8000_0000,
                    1 <= hd <= 0x8000_0000,
            ;
            assert(1 <= vd * (sd * hd) <= 0x2000_0000_0000_0000_0000_0000) by (nonlinear_arith)
                requires
                    1 <= vd <= 0x8000_0000,
                    1 <= sd * hd <= 0x4000_0000_0000_0000,
            ;
        }
        let six = 6 * hw;
        let sector = six / hd;
        let ofs = six % hd;
        proof {
            lemma_multiply_divide_lt(six as int, hd as int, 6);
            lemma_mod_bound(six as int, hd as int);
        }
        let den = vd * (sd * hd);
        proof {
            let sdi = sd as int;
            let hdi = hd as int;
            let sni = sn as int;
            let vni = vn as int;
            let vdi = vd as int;
            let ofsi = ofs as int;
            assert(0 <= sni * ofsi <= sdi * hdi && 0 <= (sdi - sni) * hdi && (sdi - sni) * hdi
                + sni * ofsi <= sdi * hdi && 1 <= sdi * hdi) by (nonlinear_arith)
                requires
                    0 <= sni <= sdi,
                    0 <= ofsi <= hdi,
                    1 <= hdi,
                    1 <= sdi,
            ;
            assert(vni * ((sdi - sni) * hdi) <= vdi * (sdi * hdi) && vni * ((sdi - sni) * hdi
                + sni * ofsi) <= vdi * (sdi * hdi) && vni * (sdi * hdi - sni * ofsi) <= vdi * (sdi
                * hdi) && vni * (sdi * hdi) <= vdi * (sdi * hdi)) by (nonlinear_arith)
                requires
                    0 <= vni <= vdi,
                    0 <= sni * ofsi <= sdi * hdi,
                    0 <= (sdi - sni) * hdi <= sdi * hdi,
                    0 <= (sdi - sni) * hdi + sni * ofsi <= sdi * hdi,
            ;
        }
        let upper = vn * (sd * hd);
        let lower = vn * ((sd - sn) * hd);
        let rise = vn * ((sd - sn) * hd + sn * ofs);
        let fall = vn * (sd * hd - sn * ofs);
        let chans = if sector == 0 {
            (upper, rise, lower)
        } else if sector == 1 {
            (fall, upper, lower)
        } else if sector == 2 {
            (lower, upper, rise)
        } else if sector == 3 {
            (lower, fall, upper)
        } else if sector == 4 {
            (rise, lower, upper)
        } else {
            (upper, lower, fall)
        };
        Color {
            r: round_channel(chans.0, den),
            g: round_channel(chans.1, den),
            b: round_channel(chans.2, den),
        }
    }
}

} // verus!
