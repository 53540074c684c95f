//! Field formula engine: decoded pattern-chromosome parameters and the
//! fixed-point scalar field they define.
//!
//! Each pattern gene decodes to one term: a triangle wave (periodic,
//! cosine-like) of a linear combination of the coordinates and the time,
//! scaled by the term's frequency and phase and weighted.  The field value
//! at a point is the sum of all terms.  Everything is fixed-point integer
//! arithmetic at scale `FP_ONE`, so evaluation is exact and reproducible;
//! the raw sum is not normalized here — wrapping into the color-index
//! domain is the color mapper's task.

use vstd::prelude::*;

verus! {

use crate::fastmath::wrap_fp;
use crate::genetics::{chromosome_wf, Chromosome, Gene, NUM_FORMULA_GENES};
use vstd::arithmetic::div_mod::{
    lemma_div_pos_is_pos, lemma_mod_bound, lemma_multiply_divide_le,
};

/// One field term's decoded parameters.
#[derive(Clone, Copy, Debug, PartialEq, Eq, Structural)]
pub struct FormulaParams {
    /// Spatial frequency multiplier, 1..=8.
    pub freq: u8,
    /// Phase offset in 256ths of a period.
    pub phase: u8,
    /// Term weight, 0..=255 meaning 0..=1.
    pub weight: u8,
    /// Which linear combination of the axes the term reads, 0..=3.
    pub axis: u8,
    /// Time frequency multiplier, 1..=4.
    pub speed: u8,
}

/// The parameters a pattern gene decodes to: a total, deterministic
/// byte-to-range mapping.
pub open spec fn decode_formula(g: Seq<u8>) -> FormulaParams
    recommends
        g.len() == 4,
{
    FormulaParams {
        freq: ((g[0] as int) % 8 + 1) as u8,
        phase: g[1],
        weight: g[2],
        axis: ((g[3] as int) % 4) as u8,
        speed: ((g[3] as int) / 64 + 1) as u8,
    }
}

/// The term parameters of a whole pattern chromosome, in gene order.
pub open spec fn decoded_formulas(genes: Seq<Seq<u8>>) -> Seq<FormulaParams> {
    genes.map_values(|g: Seq<u8>| decode_formula(g))
}

/// The coordinate combination a term reads.
pub open spec fn coord_of(axis: u8, x: int, y: int) -> int {
    if axis == 0 {
        x
    } else if axis == 1 {
        y
    } else if axis == 2 {
        x + y
    } else {
        x - y
    }
}

/// A triangle wave with period `FP_ONE` and range [-FP_ONE, FP_ONE],
/// highest at whole periods — the periodic, cosine-like kernel.
pub open spec fn wave(u: int) -> int {
    let w = wrap_fp(u);
    let d = if w < 32768 {
        w
    } else {
        65536 - w
    };
    65536 - 4 * d
}

/// One term's contribution: the wave of the scaled coordinate plus phase
/// plus scaled time, weighted by `weight / 256`.
pub open spec fn term_value(p: FormulaParams, x: int, y: int, t: int) -> int {
    let arg = p.freq * coord_of(p.axis, x, y) + 256 * p.phase + p.speed * t;
    (p.weight * wave(arg) + 0x1_0000_0000) / 256 - 0x100_0000
}

/// The field value: the sum of all terms, in term order.
pub open spec fn field_value(terms: Seq<FormulaParams>, x: int, y: int, t: int) -> int
    decreases terms.len(),
{
    if terms.len() == 0 {
        0
    } else {
        field_value(terms.drop_last(), x, y, t) + term_value(terms.last(), x, y, t)
    }
}

/// Every term lies within one fixed-point unit of zero, so the field value
/// is bounded by the number of terms.
pub proof fn lemma_term_value_bound(p: FormulaParams, x: int, y: int, t: int)
    ensures
        -0x100_0000 <= term_value(p, x, y, t) <= 0x100_0000,
{
    let arg = p.freq * coord_of(p.axis, x, y) + 256 * p.phase + p.speed * t;
    lemma_mod_bound(arg, 65536);
    let amp = wave(arg);
    assert(-65536 <= amp <= 65536);
    assert(-0x100_0000 <= p.weight * amp <= 0x100_0000) by (nonlinear_arith)
        requires
            0 <= p.weight <= 255,
            -65536 <= amp <= 65536,
    ;
    let v = p.weight * amp + 0x1_0000_0000;
    lemma_div_pos_is_pos(v, 256);
    lemma_multiply_divide_le(v, 256, 0x200_0000);
}

pub proof fn lemma_field_value_bound(terms: Seq<FormulaParams>, x: int, y: int, t: int)
    ensures
        -0x100_0000 * terms.len() <= field_value(terms, x, y, t) <= 0x100_0000 * terms.len(),
    decreases terms.len(),
{
    if terms.len() > 0 {
        lemma_field_value_bound(terms.drop_last(), x, y, t);
        lemma_term_value_bound(terms.last(), x, y, t);
    }
}

impl FormulaParams {
    /// Decodes one pattern gene, as `decode_formula` states; total for any
    /// byte pattern.
    pub fn from_gene(gene: &Gene) -> (p: FormulaParams)
        requires
            gene@.len() == 4,
        ensures
            p == decode_formula(gene@),
    {
        FormulaParams {
            freq: gene.data[0] % 8 + 1,
            phase: gene.data[1],
            weight: gene.data[2],
            axis: gene.data[3] % 4,
            speed: gene.data[3] / 64 + 1,
        }
    }
}

/// The ordered field terms of one plasma, plus the current animation time
/// (fixed-point, already wrapped by the caller).
#[derive(Debug)]
pub struct PlasmaFormulas {
    pub terms: Vec<FormulaParams>,
    pub time: i64,
}

impl PlasmaFormulas {
    pub open spec fn wf(self) -> bool {
        &&& self.terms@.len() == NUM_FORMULA_GENES
        &&& 0 <= self.time < 65536
        &&& forall|i: int|
            0 <= i < self.terms@.len() ==> 1 <= (#[trigger] self.terms@[i]).freq <= 8 && 1
                <= self.terms@[i].speed <= 4
    }

    /// Decodes every gene of a pattern chromosome, in gene order; the time
    /// starts at zero.
    pub fn from_chromosome(chromosome: &Chromosome) -> (r: PlasmaFormulas)
        requires
            chromosome_wf(
                chromosome@,
                NUM_FORMULA_GENES as int,
                crate::genetics::FORMULA_GENE_SIZE as int,
            ),
        ensures
            r.wf(),
            r.terms@ == decoded_formulas(chromosome@),
            r.time == 0,
    {
        let mut terms: Vec<FormulaParams> = Vec::new();
        let mut j: usize = 0;
        while j < chromosome.genes.len()
            invariant
                j <= chromosome@.len(),
                chromosome_wf(
                    chromosome@,
                    NUM_FORMULA_GENES as int,
                    crate::genetics::FORMULA_GENE_SIZE as int,
                ),
                terms@.len() == j,
                forall|m: int| 0 <= m < j ==> terms@[m] == decode_formula(chromosome@[m]),
            decreases chromosome@.len() - j,
        {
            proof {
                assert(chromosome@[j as int] == chromosome.genes@[j as int]@);
            }
            terms.push(FormulaParams::from_gene(&chromosome.genes[j]));
            j = j + 1;
        }
        let r = PlasmaFormulas { terms, time: 0 };
        proof {
            assert(r.terms@ =~= decoded_formulas(chromosome@));
        }
        r
    }

    /// Stores the current animation time (fixed-point, wrapped into one
    /// period by the caller).
    pub fn set_time(&mut self, t: i64)
        requires
            0 <= t < 65536,
        ensures
            final(self).terms == old(self).terms,
            final(self).time == t,
    {
        self.time = t;
    }

    /// Evaluates the field at a fixed-point coordinate, as `field_value`
    /// states: the exact sum of all terms at the stored time.
    pub fn get_value(&self, x: i64, y: i64) -> (v: i64)
        requires
            self.wf(),
            -0x20_0000_0000 <= x <= 0x20_0000_0000,
            -0x20_0000_0000 <= y <= 0x20_0000_0000,
        ensures
            v == field_value(self.terms@, x as int, y as int, self.time as int),
            -0x400_0000_0000 <= v <= 0x400_0000_0000,
    {
        let mut sum: i64 = 0;
        let mut j: usize = 0;
        proof {
            assert(self.terms@.take(0) =~= Seq::<FormulaParams>::empty());
        }
        while j < self.terms.len()
            invariant
                self.wf(),
                -0x20_0000_0000 <= x <= 0x20_0000_0000,
                -0x20_0000_0000 <= y <= 0x20_0000_0000,
                j <= self.terms@.len(),
                sum == field_value(self.terms@.take(j as int), x as int, y as int, self.time as int),
                -0x100_0000 * j <= sum <= 0x100_0000 * j,
            decreases self.terms@.len() - j,
        {
            let p = self.terms[j];
            let coord: i64 = if p.axis == 0 {
                x
            } else if p.axis == 1 {
                y
            } else if p.axis == 2 {
                x + y
            } else {
                x - y
            };
            proof {
                let fi = p.freq as int;
                let ci = coord as int;
                let si = p.speed as int;
                let ti = self.time as int;
                assert(-0x200_0000_0000 <= fi * ci <= 0x200_0000_0000) by (nonlinear_arith)
                    requires
                        0 <= fi <= 8,
                        -0x40_0000_0000 <= ci <= 0x40_0000_0000,
                ;
                assert(0 <= si * ti <= 0x4_0000) by (nonlinear_arith)
                    requires
                        0 <= si <= 4,
                        0 <= ti < 65536,
                ;
            }
            let arg = (p.freq as i64) * coord + 256 * (p.phase as i64) + (p.speed as i64)
                * self.time;
            let w = crate::fastmath::wrap_fixed(arg);
            let dmin: i64 = if w < 32768 {
                w
            } else {
                65536 - w
            };
            let amp: i64 = 65536 - 4 * dmin;
            proof {
                assert(-0x100_0000 <= p.weight * (amp as int) <= 0x100_0000) by (nonlinear_arith)
                    requires
                        0 <= p.weight <= 255,
                        -65536 <= amp <= 65536,
                ;
            }
            let scaled = (p.weight as i64) * amp + 0x1_0000_0000;
            let term = ((scaled as u64) / 256) as i64 - 0x100_0000;
            proof {
                lemma_div_pos_is_pos(scaled as int, 256);
                lemma_multiply_divide_le(scaled as int, 256, 0x200_0000);
                assert(self.terms@.take(j as int + 1).drop_last() =~= self.terms@.take(j as int));
                lemma_term_value_bound(p, x as int, y as int, self.time as int);
            }
            sum = sum + term;
            j = j + 1;
        }
        proof {
            assert(self.terms@.take(self.terms@.len() as int) =~= self.terms@);
        }
        sum
    }
}

} // verus!
