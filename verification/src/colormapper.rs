//! Gradient color mapping: decoding control points from the color
//! chromosome, building the circular gradient, and the 256-entry lookup
//! table that turns field values into colors.
//!
//! Control points lie on a circle of circumference one, positions counted
//! in 256ths.  The points are sorted ascending by position (stably, so gene
//! order breaks ties deterministically) with an implicit wrap-around
//! segment from the last point back to the first.  Each table slot samples
//! the gradient at its own position by linear channel interpolation within
//! the enclosing segment.

use vstd::prelude::*;

verus! {

use crate::color::{from_hsv_spec, Color};
use crate::fastmath::{wrap_fp, Frac};
use crate::genetics::{chromosome_wf, Chromosome, Gene};
use vstd::arithmetic::div_mod::{lemma_mod_bound, lemma_multiply_divide_lt};

/// The byte value an activation byte must exceed for the gene to yield a
/// control point.
pub const ACTIVATION_THRESHOLD: u8 = 160;

/// One stop on the color gradient: a color at a position counted in 256ths
/// of the circle, so `position` stands for `position / 256` in [0, 1).
#[derive(Clone, Copy, Debug, PartialEq, Eq, Structural)]
pub struct ControlPoint {
    pub color: Color,
    pub position: u8,
}

/// The control point a color gene decodes to, if any: byte 0 gates
/// activation; byte 1 is hue in 256ths (1.0 excluded), bytes 2 and 3 are
/// saturation and value in 255ths (1.0 included), byte 4 is the gradient
/// position in 256ths (1.0 excluded).
pub open spec fn decode_cp(g: Seq<u8>) -> Option<ControlPoint>
    recommends
        g.len() == 5,
{
    if g[0] > ACTIVATION_THRESHOLD {
        Some(
            ControlPoint {
                color: from_hsv_spec(
                    Frac { num: g[1] as i64, den: 256 },
                    Frac { num: g[2] as i64, den: 255 },
                    Frac { num: g[3] as i64, den: 255 },
                ),
                position: g[4],
            },
        )
    } else {
        None
    }
}

/// The control points of a chromosome's genes, in gene order, skipping
/// genes whose activation byte does not pass the threshold.
pub open spec fn decoded_points(genes: Seq<Seq<u8>>) -> Seq<ControlPoint>
    decreases genes.len(),
{
    if genes.len() == 0 {
        Seq::empty()
    } else {
        decoded_points(genes.drop_last()) + match decode_cp(genes.last()) {
            Some(cp) => seq![cp],
            None => Seq::empty(),
        }
    }
}

/// Positions never decrease.
pub open spec fn sorted_by_pos(s: Seq<ControlPoint>) -> bool {
    forall|i: int, j: int| 0 <= i <= j < s.len() ==> (#[trigger] s[i]).position <= (#[trigger] s[j]).position
}

/// Stable insertion: the point goes after every point whose position is
/// less than or equal to its own.
pub open spec fn insert_sorted(s: Seq<ControlPoint>, p: ControlPoint) -> Seq<ControlPoint>
    decreases s.len(),
{
    if s.len() == 0 {
        seq![p]
    } else if s.last().position <= p.position {
        s.push(p)
    } else {
        insert_sorted(s.drop_last(), p).push(s.last())
    }
}

/// Stable insertion sort by position.
pub open spec fn sort_points(s: Seq<ControlPoint>) -> Seq<ControlPoint>
    decreases s.len(),
{
    if s.len() == 0 {
        Seq::empty()
    } else {
        insert_sorted(sort_points(s.drop_last()), s.last())
    }
}

/// The gradient's stops: the decoded points sorted by position, or the
/// single fallback black point at position zero where no gene is active.
pub open spec fn gradient_points(genes: Seq<Seq<u8>>) -> Seq<ControlPoint> {
    let d = sort_points(decoded_points(genes));
    if d.len() == 0 {
        seq![ControlPoint { color: Color { r: 0, g: 0, b: 0 }, position: 0 }]
    } else {
        d
    }
}

/// The largest index whose point sits at or before position `i`, or -1
/// when every point sits after it (the slot then falls in the wrap-around
/// segment).
pub open spec fn prev_index(pts: Seq<ControlPoint>, i: int) -> int
    decreases pts.len(),
{
    if pts.len() == 0 {
        -1
    } else if pts.last().position <= i {
        pts.len() - 1
    } else {
        prev_index(pts.drop_last(), i)
    }
}

/// `a + (b - a) * n / d`, rounded to the nearest integer (half rounds up):
/// linear interpolation of two channel bytes.
pub open spec fn lerp_round(a: int, b: int, n: int, d: int) -> int {
    (2 * (a * (d - n) + b * n) + d) / (2 * d)
}

/// The color at offset `i - p0` within the segment from `c0` at `p0` to
/// `c1` at `p1`, each channel interpolated linearly and rounded.
pub open spec fn segment_color(c0: Color, p0: int, c1: Color, p1: int, i: int) -> Color {
    Color {
        r: lerp_round(c0.r as int, c1.r as int, i - p0, p1 - p0) as u8,
        g: lerp_round(c0.g as int, c1.g as int, i - p0, p1 - p0) as u8,
        b: lerp_round(c0.b as int, c1.b as int, i - p0, p1 - p0) as u8,
    }
}

/// The color of table slot `i`: the enclosing segment of the circular
/// gradient, sampled at `i / 256`.  The wrap-around segment joins the last
/// point (shifted a full turn down) to the first, and the segment past the
/// last point joins it to the first shifted a full turn up.
pub open spec fn table_color(pts: Seq<ControlPoint>, i: int) -> Color
    recommends
        pts.len() >= 1,
{
    let k = prev_index(pts, i);
    let n = pts.len() as int;
    if k == -1 {
        segment_color(
            pts[n - 1].color,
            pts[n - 1].position - 256,
            pts[0].color,
            pts[0].position as int,
            i,
        )
    } else if k == n - 1 {
        segment_color(
            pts[k].color,
            pts[k].position as int,
            pts[0].color,
            pts[0].position + 256,
            i,
        )
    } else {
        segment_color(
            pts[k].color,
            pts[k].position as int,
            pts[k + 1].color,
            pts[k + 1].position as int,
            i,
        )
    }
}

/// The full 256-entry lookup table a color chromosome builds.
pub open spec fn table_spec(genes: Seq<Seq<u8>>) -> Seq<Color> {
    Seq::new(256, |i: int| table_color(gradient_points(genes), i))
}

/// The nearest-bucket color for a field value: wrapped into [0, 1) and
/// floored onto the 256 table slots.
pub open spec fn convert_spec(table: Seq<Color>, v: int) -> Color {
    table[wrap_fp(v) / 256]
}

/// One cell of the 4x4 ordered-dither matrix.
pub open spec fn bayer_of(x: int, y: int) -> int {
    if y == 0 {
        if x == 0 { 0 } else if x == 1 { 8 } else if x == 2 { 2 } else { 10 }
    } else if y == 1 {
        if x == 0 { 12 } else if x == 1 { 4 } else if x == 2 { 14 } else { 6 }
    } else if y == 2 {
        if x == 0 { 3 } else if x == 1 { 11 } else if x == 2 { 1 } else { 9 }
    } else {
        if x == 0 { 15 } else if x == 1 { 7 } else if x == 2 { 13 } else { 5 }
    }
}

/// The dithered color for a field value at a pixel: the wrapped value is
/// nudged by the pixel's cell of the dither matrix (up to one table slot)
/// before quantization, wrapping around the circle.
pub open spec fn dither_spec(table: Seq<Color>, v: int, x: int, y: int) -> Color {
    table[((wrap_fp(v) + 16 * bayer_of(x % 4, y % 4)) / 256) % 256]
}

impl ControlPoint {
    /// Decodes one color gene, as `decode_cp` states.  A gene whose
    /// activation byte is at or below the threshold yields no point; one
    /// above it always yields one.
    pub fn from_gene(gene: &Gene) -> (r: Option<ControlPoint>)
        requires
            gene@.len() == 5,
        ensures
            r == decode_cp(gene@),
            r.is_some() <==> gene@[0] > ACTIVATION_THRESHOLD,
    {
        if gene.data[0] > ACTIVATION_THRESHOLD {
            let color = Color::from_hsv(
                Frac::new(gene.data[1] as i64, 256),
                Frac::new(gene.data[2] as i64, 255),
                Frac::new(gene.data[3] as i64, 255),
            );
            Some(ControlPoint { color, position: gene.data[4] })
        } else {
            None
        }
    }
}

proof fn lemma_insert_sorted_shape(s: Seq<ControlPoint>, p: ControlPoint, j: int)
    requires
        0 <= j <= s.len(),
        forall|m: int| 0 <= m < j ==> (#[trigger] s[m]).position <= p.position,
        forall|m: int| j <= m < s.len() ==> (#[trigger] s[m]).position > p.position,
    ensures
        insert_sorted(s, p) == s.insert(j, p),
    decreases s.len(),
{
    if s.len() == 0 {
        assert(insert_sorted(s, p) =~= s.insert(0, p));
    } else if s.last().position <= p.position {
        assert(j == s.len());
        assert(s.push(p) =~= s.insert(j, p));
    } else {
        assert(j < s.len());
        lemma_insert_sorted_shape(s.drop_last(), p, j);
        assert(insert_sorted(s.drop_last(), p).push(s.last()) =~= s.insert(j, p));
    }
}

proof fn lemma_insert_split_sorted(s: Seq<ControlPoint>, p: ControlPoint, j: int)
    requires
        sorted_by_pos(s),
        0 <= j <= s.len(),
        forall|m: int| 0 <= m < j ==> (#[trigger] s[m]).position <= p.position,
        forall|m: int| j <= m < s.len() ==> (#[trigger] s[m]).position > p.position,
    ensures
        sorted_by_pos(s.insert(j, p)),
{
    let t = s.insert(j, p);
    assert forall|a: int, b: int| 0 <= a <= b < t.len() implies (#[trigger] t[a]).position <= (
    #[trigger] t[b]).position by {
        if a < j && b < j {
        } else if a > j && b > j {
        } else if a == j && b == j {
        } else if a == j {
            assert(t[b] == s[b - 1]);
        } else if b == j {
            assert(t[a] == s[a]);
        } else if a < j && b > j {
            assert(t[a] == s[a] && t[b] == s[b - 1]);
        }
    }
}

proof fn lemma_insert_sorted_bound(s: Seq<ControlPoint>, p: ControlPoint, b: int)
    requires
        forall|i: int| 0 <= i < s.len() ==> (#[trigger] s[i]).position <= b,
        p.position <= b,
    ensures
        forall|i: int|
            0 <= i < insert_sorted(s, p).len() ==> (#[trigger] insert_sorted(s, p)[i]).position
                <= b,
    decreases s.len(),
{
    let t = insert_sorted(s, p);
    if s.len() == 0 {
        assert(t[0] == p);
    } else if s.last().position <= p.position {
        assert forall|i: int| 0 <= i < t.len() implies (#[trigger] t[i]).position <= b by {
            if i < s.len() {
                assert(t[i] == s[i]);
            } else {
                assert(t[i] == p);
            }
        }
    } else {
        let d = s.drop_last();
        assert forall|i: int| 0 <= i < d.len() implies (#[trigger] d[i]).position <= b by {
            assert(d[i] == s[i]);
        }
        lemma_insert_sorted_bound(d, p, b);
        let u = insert_sorted(d, p);
        assert forall|i: int| 0 <= i < t.len() implies (#[trigger] t[i]).position <= b by {
            if i < u.len() {
                assert(t[i] == u[i]);
            } else {
                assert(t[i] == s.last());
                assert(s[s.len() - 1].position <= b);
            }
        }
    }
}

proof fn lemma_insert_sorted_sorted(s: Seq<ControlPoint>, p: ControlPoint)
    requires
        sorted_by_pos(s),
    ensures
        sorted_by_pos(insert_sorted(s, p)),
    decreases s.len(),
{
    if s.len() == 0 {
    } else if s.last().position <= p.position {
        let t = s.push(p);
        assert forall|a: int, b: int| 0 <= a <= b < t.len() implies (#[trigger] t[a]).position <= (
        #[trigger] t[b]).position by {
            if b < s.len() {
                assert(t[a] == s[a] && t[b] == s[b]);
            } else if a < s.len() {
                assert(t[a] == s[a] && s[a].position <= s.last().position);
            }
        }
    } else {
        let d = s.drop_last();
        assert forall|a: int, b: int| 0 <= a <= b < d.len() implies (#[trigger] d[a]).position <= (
        #[trigger] d[b]).position by {
            assert(d[a] == s[a] && d[b] == s[b]);
        }
        lemma_insert_sorted_sorted(d, p);
        assert forall|i: int| 0 <= i < d.len() implies (#[trigger] d[i]).position
            <= s.last().position by {
            assert(d[i] == s[i]);
        }
        lemma_insert_sorted_bound(d, p, s.last().position as int);
        let u = insert_sorted(d, p);
        let t = u.push(s.last());
        assert forall|a: int, b: int| 0 <= a <= b < t.len() implies (#[trigger] t[a]).position <= (
        #[trigger] t[b]).position by {
            if b < u.len() {
                assert(t[a] == u[a] && t[b] == u[b]);
            } else if a < u.len() {
                assert(t[a] == u[a] && u[a].position <= s.last().position);
            }
        }
    }
}

/// Law: the gradient is well defined for every chromosome — its stops are
/// never empty (a lone black stop stands in when no gene is active) and
/// they are sorted ascending by position, so each position on the circle
/// falls in exactly one segment.
pub proof fn lemma_gradient_points_sorted(genes: Seq<Seq<u8>>)
    ensures
        gradient_points(genes).len() >= 1,
        sorted_by_pos(gradient_points(genes)),
{
    lemma_sort_points_sorted(decoded_points(genes));
}

proof fn lemma_sort_points_sorted(s: Seq<ControlPoint>)
    ensures
        sorted_by_pos(sort_points(s)),
    decreases s.len(),
{
    if s.len() > 0 {
        lemma_sort_points_sorted(s.drop_last());
        lemma_insert_sorted_sorted(sort_points(s.drop_last()), s.last());
    }
}

proof fn lemma_prev_index_props(pts: Seq<ControlPoint>, i: int)
    ensures
        -1 <= prev_index(pts, i) < pts.len(),
        prev_index(pts, i) >= 0 ==> pts[prev_index(pts, i)].position <= i,
        forall|m: int| prev_index(pts, i) < m < pts.len() ==> (#[trigger] pts[m]).position > i,
    decreases pts.len(),
{
    if pts.len() > 0 && pts.last().position > i {
        lemma_prev_index_props(pts.drop_last(), i);
        assert forall|m: int| prev_index(pts, i) < m < pts.len() implies (#[trigger] pts[m]).position
            > i by {
            if m < pts.len() - 1 {
                assert(pts.drop_last()[m] == pts[m]);
            }
        }
    }
}

/// Interpolates two channel bytes: `a` toward `b` by `n / d`, rounded to
/// the nearest byte.
fn lerp_channel(a: u8, b: u8, n: u32, d: u32) -> (r: u8)
    requires
        0 < d <= 512,
        n < d,
    ensures
        r as int == lerp_round(a as int, b as int, n as int, d as int),
{
    proof {
        assert(a * (d - n) + b * n <= 255 * d && a * (d - n) <= 255 * 512 && b * n <= 255 * 512)
            by (nonlinear_arith)
            requires
                a <= 255,
                b <= 255,
                0 <= n < d <= 512,
        ;
    }
    let val = (a as u32) * (d - n) + (b as u32) * n;
    proof {
        lemma_multiply_divide_lt(2 * (val as int) + d, 2 * (d as int), 256);
    }
    let q = (2 * val + d) / (2 * d);
    q as u8
}

fn bayer(x: usize, y: usize) -> (r: u8)
    requires
        x < 4,
        y < 4,
    ensures
        r as int == bayer_of(x as int, y as int),
        r < 16,
{
    if y == 0 {
        if x == 0 { 0 } else if x == 1 { 8 } else if x == 2 { 2 } else { 10 }
    } else if y == 1 {
        if x == 0 { 12 } else if x == 1 { 4 } else if x == 2 { 14 } else { 6 }
    } else if y == 2 {
        if x == 0 { 3 } else if x == 1 { 11 } else if x == 2 { 1 } else { 9 }
    } else {
        if x == 0 { 15 } else if x == 1 { 7 } else if x == 2 { 13 } else { 5 }
    }
}

/// Converts field values to colors through a lookup table of 256 colors
/// sampled uniformly around the gradient at construction time.
#[derive(Debug)]
pub struct ColorMapper {
    pub table: Vec<Color>,
}

impl ColorMapper {
    pub open spec fn wf(self) -> bool {
        self.table@.len() == 256
    }

    /// Builds the lookup table from a color chromosome: decode the active
    /// genes, sort the points, fall back to a single black point if none
    /// is active, then sample all 256 slots.
    pub fn new(chromosome: &Chromosome) -> (cm: ColorMapper)
        requires
            chromosome_wf(
                chromosome@,
                crate::genetics::NUM_COLOR_GENES as int,
                crate::genetics::CONTROL_POINT_GENE_SIZE as int,
            ),
        ensures
            cm.wf(),
            cm.table@ == table_spec(chromosome@),
    {
        // Decode the active genes in order.
        let mut decoded: Vec<ControlPoint> = Vec::new();
        let mut j: usize = 0;
        proof {
            assert(chromosome@.take(0) =~= Seq::<Seq<u8>>::empty());
        }
        while j < chromosome.genes.len()
            invariant
                j <= chromosome@.len(),
                chromosome_wf(
                    chromosome@,
                    crate::genetics::NUM_COLOR_GENES as int,
                    crate::genetics::CONTROL_POINT_GENE_SIZE as int,
                ),
                decoded@ == decoded_points(chromosome@.take(j as int)),
                decoded@.len() <= j,
            decreases chromosome@.len() - j,
        {
            proof {
                assert(chromosome@.take(j as int + 1).drop_last() =~= chromosome@.take(j as int));
                assert(chromosome@[j as int] == chromosome.genes@[j as int]@);
            }
            match ControlPoint::from_gene(&chromosome.genes[j]) {
                Some(cp) => {
                    decoded.push(cp);
                    proof {
                        assert(decoded@ =~= decoded_points(chromosome@.take(j as int + 1)));
                    }
                },
                None => {
                    proof {
                        assert(decoded@ =~= decoded_points(chromosome@.take(j as int + 1)));
                    }
                },
            }
            j = j + 1;
        }
        proof {
            assert(chromosome@.take(chromosome@.len() as int) =~= chromosome@);
        }
        // Stable insertion sort by position.
        let mut pts: Vec<ControlPoint> = Vec::new();
        let mut i: usize = 0;
        proof {
            assert(decoded@.take(0) =~= Seq::<ControlPoint>::empty());
        }
        while i < decoded.len()
            invariant
                i <= decoded@.len(),
                pts@ == sort_points(decoded@.take(i as int)),
                pts@.len() == i,
                sorted_by_pos(pts@),
            decreases decoded@.len() - i,
        {
            let p = decoded[i];
            let mut k: usize = pts.len();
            while k > 0 && pts[k - 1].position > p.position
                invariant
                    k <= pts@.len(),
                    sorted_by_pos(pts@),
                    forall|m: int| k <= m < pts@.len() ==> (#[trigger] pts@[m]).position > p.position,
                decreases k,
            {
                k = k - 1;
            }
            proof {
                assert(forall|m: int|
                    0 <= m < k ==> (#[trigger] pts@[m]).position <= p.position);
                lemma_insert_sorted_shape(pts@, p, k as int);
                lemma_insert_split_sorted(pts@, p, k as int);
                assert(decoded@.take(i as int + 1).drop_last() =~= decoded@.take(i as int));
            }
            pts.insert(k, p);
            i = i + 1;
        }
        proof {
            assert(decoded@.take(decoded@.len() as int) =~= decoded@);
        }
        // Fall back to a single black point where no gene was active.
        if pts.len() == 0 {
            pts.push(ControlPoint { color: Color { r: 0, g: 0, b: 0 }, position: 0 });
            proof {
                assert(pts@ =~= gradient_points(chromosome@));
            }
        } else {
            proof {
                assert(pts@ == gradient_points(chromosome@));
            }
        }
        // Sample all 256 slots.
        let mut table: Vec<Color> = Vec::new();
        let mut slot: usize = 0;
        while slot < 256
            invariant
                slot <= 256,
                pts@ == gradient_points(chromosome@),
                1 <= pts@.len() <= 256,
                table@.len() == slot,
                forall|m: int| 0 <= m < slot ==> table@[m] == table_color(pts@, m),
            decreases 256 - slot,
        {
            table.push(Self::slot_color(&pts, slot));
            slot = slot + 1;
        }
        let cm = ColorMapper { table };
        proof {
            assert(cm.table@ =~= table_spec(chromosome@));
        }
        cm
    }

    /// The color of one table slot, by scanning for the enclosing segment.
    fn slot_color(pts: &Vec<ControlPoint>, slot: usize) -> (c: Color)
        requires
            1 <= pts@.len() <= 256,
            slot < 256,
        ensures
            c == table_color(pts@, slot as int),
    {
        let n = pts.len();
        // The largest index whose position is at or before the slot.
        let mut found = false;
        let mut k: usize = 0;
        let mut m: usize = 0;
        proof {
            assert(pts@.take(0) =~= Seq::<ControlPoint>::empty());
        }
        while m < n
            invariant
                m <= n,
                n == pts@.len(),
                slot < 256,
                if found {
                    k == prev_index(pts@.take(m as int), slot as int) && k < m
                } else {
                    prev_index(pts@.take(m as int), slot as int) == -1 && k == 0
                },
            decreases n - m,
        {
            proof {
                assert(pts@.take(m as int + 1).drop_last() =~= pts@.take(m as int));
            }
            if pts[m].position as usize <= slot {
                found = true;
                k = m;
            }
            m = m + 1;
        }
        proof {
            assert(pts@.take(n as int) =~= pts@);
            lemma_prev_index_props(pts@, slot as int);
        }
        let (c0, p0, c1, p1): (Color, i32, Color, i32) = if !found {
            (
                pts[n - 1].color,
                pts[n - 1].position as i32 - 256,
                pts[0].color,
                pts[0].position as i32,
            )
        } else if k == n - 1 {
            (
                pts[k].color,
                pts[k].position as i32,
                pts[0].color,
                pts[0].position as i32 + 256,
            )
        } else {
            (
                pts[k].color,
                pts[k].position as i32,
                pts[k + 1].color,
                pts[k + 1].position as i32,
            )
        };
        let off = slot as i32 - p0;
        let d = p1 - p0;
        Color {
            r: lerp_channel(c0.r, c1.r, off as u32, d as u32),
            g: lerp_channel(c0.g, c1.g, off as u32, d as u32),
            b: lerp_channel(c0.b, c1.b, off as u32, d as u32),
        }
    }

    /// Nearest-bucket conversion of a field value, as `convert_spec`
    /// states: wrap into [0, 1), floor onto the 256 slots, read the table.
    pub fn convert(&self, value: i64) -> (c: Color)
        requires
            self.wf(),
            -0x400_0000_0000 <= value <= 0x400_0000_0000,
        ensures
            c == convert_spec(self.table@, value as int),
    {
        let w = crate::fastmath::wrap_fixed(value);
        let idx = (w as usize) / 256;
        self.table[idx]
    }

    /// Dithered conversion, as `dither_spec` states: a deterministic
    /// per-pixel nudge of up to one slot before quantization, so adjacent
    /// pixels can resolve to neighboring buckets.
    pub fn dithered_convert(&self, value: i64, x: usize, y: usize) -> (c: Color)
        requires
            self.wf(),
            -0x400_0000_0000 <= value <= 0x400_0000_0000,
        ensures
            c == dither_spec(self.table@, value as int, x as int, y as int),
    {
        let w = crate::fastmath::wrap_fixed(value);
        let o = 16 * (bayer(x % 4, y % 4) as usize);
        let idx = ((w as usize + o) / 256) % 256;
        proof {
            lemma_mod_bound((wrap_fp(value as int) + 16 * bayer_of(x as int % 4, y as int % 4))
                / 256, 256);
        }
        self.table[idx]
    }

    /// The 256-entry table in slot order.
    pub fn get_palette(&self) -> (palette: Vec<Color>)
        requires
            self.wf(),
        ensures
            palette@ == self.table@,
    {
        let mut palette: Vec<Color> = Vec::new();
        let mut i: usize = 0;
        while i < self.table.len()
            invariant
                i <= self.table@.len(),
                palette@ == self.table@.take(i as int),
            decreases self.table@.len() - i,
        {
            palette.push(self.table[i]);
            i = i + 1;
        }
        proof {
            assert(self.table@.take(self.table@.len() as int) =~= self.table@);
        }
        palette
    }
}

} // verus!
