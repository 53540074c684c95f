//! The plasma renderer: an RGB image buffer and the per-pixel pipeline
//! that fills it for one time step.
//!
//! Pixel coordinates are scaled so the shorter image side spans the
//! logical range [-1, 1] with the origin centered — the same genome looks
//! proportionally identical at any resolution.  For every pixel the field
//! engine yields a value and the color mapper turns it into a color,
//! dithered or nearest-bucket.  The whole pipeline is integer arithmetic,
//! so identical genome, settings, time and dimensions always give
//! byte-identical output.

use vstd::prelude::*;

verus! {

use crate::color::Color;
use crate::colormapper::{convert_spec, dither_spec, table_spec, ColorMapper};
use crate::fastmath::{wrap_of, Frac};
use crate::formulas::{decoded_formulas, field_value, FormulaParams, PlasmaFormulas};
use crate::genetics::{genome_wf, Genome, GenomeView};
use crate::settings::RenderingSettings;
use vstd::arithmetic::div_mod::{
    lemma_div_is_ordered, lemma_fundamental_div_mod_converse_div,
    lemma_fundamental_div_mod_converse_mod, lemma_multiply_divide_lt,
};

/// A width x height RGB pixel buffer, row-major, three bytes per pixel.
#[derive(Debug)]
pub struct Image {
    pub width: usize,
    pub height: usize,
    pub pixel_data: Vec<u8>,
}

impl Image {
    pub open spec fn wf(self) -> bool {
        self.pixel_data@.len() == self.width * self.height * 3
    }

    /// A black image of the given dimensions.
    pub fn new(width: usize, height: usize) -> (img: Image)
        requires
            width * height * 3 <= usize::MAX,
        ensures
            img.wf(),
            img.width == width,
            img.height == height,
            img.pixel_data@ == Seq::new((width * height * 3) as nat, |i: int| 0u8),
    {
        let n = width * height * 3;
        let mut pixel_data: Vec<u8> = Vec::new();
        let mut i: usize = 0;
        while i < n
            invariant
                i <= n,
                pixel_data@ == Seq::new(i as nat, |k: int| 0u8),
            decreases n - i,
        {
            pixel_data.push(0);
            proof {
                assert(pixel_data@ =~= Seq::new(i as nat + 1, |k: int| 0u8));
            }
            i = i + 1;
        }
        Image { width, height, pixel_data }
    }

    /// Writes one pixel's three channel bytes; every other byte stays.
    pub fn plot(&mut self, x: usize, y: usize, color: Color)
        requires
            old(self).wf(),
            x < old(self).width,
            y < old(self).height,
        ensures
            final(self).wf(),
            final(self).width == old(self).width,
            final(self).height == old(self).height,
            final(self).pixel_data@ == old(self).pixel_data@.update(
                ((x + y * old(self).width) * 3) as int,
                color.r,
            ).update(((x + y * old(self).width) * 3 + 1) as int, color.g).update(
                ((x + y * old(self).width) * 3 + 2) as int,
                color.b,
            ),
    {
        let len = self.pixel_data.len();
        proof {
            let wi = old(self).width as int;
            let hi = old(self).height as int;
            assert((x + y * wi) * 3 + 3 <= wi * hi * 3) by (nonlinear_arith)
                requires
                    x < wi,
                    y < hi,
            ;
        }
        let offset = (x + y * self.width) * 3;
        self.pixel_data.set(offset, color.r);
        self.pixel_data.set(offset + 1, color.g);
        self.pixel_data.set(offset + 2, color.b);
    }
}

/// The animation time as a fixed-point fraction of one period: wrapped
/// into [0, 1) and scaled by `FP_ONE`.
pub open spec fn time_fp(t: Frac) -> int {
    wrap_of(t.num as int, t.den as int) * 65536 / (t.den as int)
}

/// The fixed-point logical coordinate of pixel index `p` along a dimension
/// of `dim` pixels, where `m` is the shorter dimension: the shorter side
/// spans [-1, 1] and the origin is centered.
pub open spec fn coord_fp(p: int, dim: int, m: int) -> int {
    (131072 * p) / m - (65536 * dim) / m
}

/// The color of one pixel: the field value at the pixel's logical
/// coordinate, converted through the table — dithered or nearest-bucket.
pub open spec fn pixel_color(
    table: Seq<Color>,
    terms: Seq<FormulaParams>,
    dithering: bool,
    w: int,
    h: int,
    t: int,
    px: int,
    py: int,
) -> Color {
    let m = if w < h {
        w
    } else {
        h
    };
    let v = field_value(terms, coord_fp(px, w, m), coord_fp(py, h, m), t);
    if dithering {
        dither_spec(table, v, px, py)
    } else {
        convert_spec(table, v)
    }
}

/// The whole rendered buffer: channel `i % 3` of pixel `i / 3`, pixels in
/// row-major order.
pub open spec fn render_bytes(
    table: Seq<Color>,
    terms: Seq<FormulaParams>,
    dithering: bool,
    w: int,
    h: int,
    t: int,
) -> Seq<u8> {
    Seq::new(
        (w * h * 3) as nat,
        |i: int|
            {
                let c = pixel_color(table, terms, dithering, w, h, t, (i / 3) % w, (i / 3) / w);
                if i % 3 == 0 {
                    c.r
                } else if i % 3 == 1 {
                    c.g
                } else {
                    c.b
                }
            },
    )
}

/// Law: rendering is deterministic — any two images rendered from the
/// same genome, settings, time and dimensions are byte-identical.
pub proof fn lemma_render_deterministic(
    g: GenomeView,
    s: RenderingSettings,
    w: int,
    h: int,
    t: int,
    img1: Seq<u8>,
    img2: Seq<u8>,
)
    requires
        img1 == render_bytes(table_spec(g.color), decoded_formulas(g.pattern), s.dithering, w, h, t),
        img2 == render_bytes(table_spec(g.color), decoded_formulas(g.pattern), s.dithering, w, h, t),
    ensures
        img1 == img2,
{
}

/// The fixed-point logical coordinate of a pixel, as `coord_fp` states.
fn pixel_coord(p: usize, dim: usize, m: usize) -> (r: i64)
    requires
        p < dim,
        dim <= 1048576,
        1 <= m <= dim,
    ensures
        r == coord_fp(p as int, dim as int, m as int),
        -0x20_0000_0000 <= r <= 0x20_0000_0000,
{
    let a = (131072u64 * (p as u64)) / (m as u64);
    let b = (65536u64 * (dim as u64)) / (m as u64);
    proof {
        lemma_div_is_ordered(0, 131072 * (p as int), m as int);
        lemma_div_is_ordered(0, 65536 * (dim as int), m as int);
        lemma_multiply_divide_lt(131072 * (p as int), m as int, 0x20_0000_0000);
        lemma_multiply_divide_lt(65536 * (dim as int), m as int, 0x20_0000_0000);
        assert(131072 * (p as int) < m * 0x20_0000_0000 && 65536 * (dim as int) < m
            * 0x20_0000_0000) by (nonlinear_arith)
            requires
                p < dim <= 1048576,
                1 <= m,
        ;
    }
    (a as i64) - (b as i64)
}

/// Renders plasma images from one genome: a private color mapper and
/// field engine, built fresh from an immutable genome snapshot.
#[derive(Debug)]
pub struct PlasmaRenderer {
    pub dithering: bool,
    pub color_mapper: ColorMapper,
    pub formulas: PlasmaFormulas,
}

impl PlasmaRenderer {
    pub open spec fn wf(self) -> bool {
        &&& self.color_mapper.wf()
        &&& self.formulas.wf()
    }

    /// Whether this renderer is the one a genome and settings build.
    pub open spec fn built_from(self, g: GenomeView, s: RenderingSettings) -> bool {
        &&& self.color_mapper.table@ == table_spec(g.color)
        &&& self.formulas.terms@ == decoded_formulas(g.pattern)
        &&& self.dithering == s.dithering
    }

    /// Builds the color mapper from the color chromosome and the field
    /// engine from the pattern chromosome.
    pub fn new(genome: &Genome, settings: &RenderingSettings) -> (r: PlasmaRenderer)
        requires
            genome_wf(genome@),
        ensures
            r.wf(),
            r.built_from(genome@, *settings),
            r.formulas.time == 0,
    {
        PlasmaRenderer {
            dithering: settings.dithering,
            color_mapper: ColorMapper::new(&genome.color),
            formulas: PlasmaFormulas::from_chromosome(&genome.pattern),
        }
    }

    /// Fills the whole image for one time step, as `render_bytes` states:
    /// fully deterministic in the genome, settings, time and dimensions.
    pub fn render(&mut self, image: &mut Image, time: Frac)
        requires
            old(self).wf(),
            old(image).wf(),
            1 <= old(image).width <= 1048576,
            1 <= old(image).height <= 1048576,
            time.wf(),
        ensures
            final(self).wf(),
            final(self).dithering == old(self).dithering,
            final(self).color_mapper == old(self).color_mapper,
            final(self).formulas.terms == old(self).formulas.terms,
            final(image).wf(),
            final(image).width == old(image).width,
            final(image).height == old(image).height,
            final(image).pixel_data@ == render_bytes(
                old(self).color_mapper.table@,
                old(self).formulas.terms@,
                old(self).dithering,
                old(image).width as int,
                old(image).height as int,
                time_fp(time),
            ),
    {
        let w = image.width;
        let h = image.height;
        let m = if w < h {
            w
        } else {
            h
        };
        let tw = time.wrap();
        let tfp = (((tw.num as u64) * 65536) / (tw.den as u64)) as i64;
        proof {
            lemma_div_is_ordered(0, (tw.num as int) * 65536, tw.den as int);
            lemma_multiply_divide_lt((tw.num as int) * 65536, tw.den as int, 65536);
            assert((tw.num as int) * 65536 < (tw.den as int) * 65536) by (nonlinear_arith)
                requires
                    tw.num < tw.den,
            ;
        }
        self.formulas.set_time(tfp);
        let ghost target = render_bytes(
            self.color_mapper.table@,
            self.formulas.terms@,
            self.dithering,
            w as int,
            h as int,
            tfp as int,
        );
        let mut y: usize = 0;
        while y < h
            invariant
                y <= h,
                1 <= w <= 1048576,
                1 <= h <= 1048576,
                m == if w < h {
                    w
                } else {
                    h
                },
                self.wf(),
                self.formulas.time == tfp,
                0 <= tfp < 65536,
                target == render_bytes(
                    self.color_mapper.table@,
                    self.formulas.terms@,
                    self.dithering,
                    w as int,
                    h as int,
                    tfp as int,
                ),
                image.wf(),
                image.width == w,
                image.height == h,
                target.len() == w * h * 3,
                forall|i: int| 0 <= i < 3 * (y * w) ==> image.pixel_data@[i] == target[i],
            decreases h - y,
        {
            let yf = pixel_coord(y, h, m);
            let mut x: usize = 0;
            while x < w
                invariant
                    x <= w,
                    y < h,
                    1 <= w <= 1048576,
                    1 <= h <= 1048576,
                    m == if w < h {
                        w
                    } else {
                        h
                    },
                    yf == coord_fp(y as int, h as int, m as int),
                    -0x20_0000_0000 <= yf <= 0x20_0000_0000,
                    self.wf(),
                    self.formulas.time == tfp,
                    0 <= tfp < 65536,
                    target == render_bytes(
                        self.color_mapper.table@,
                        self.formulas.terms@,
                        self.dithering,
                        w as int,
                        h as int,
                        tfp as int,
                    ),
                    image.wf(),
                    image.width == w,
                    image.height == h,
                    target.len() == w * h * 3,
                    forall|i: int|
                        0 <= i < 3 * (y * w + x) ==> image.pixel_data@[i] == target[i],
                decreases w - x,
            {
                let xf = pixel_coord(x, w, m);
                let v = self.formulas.get_value(xf, yf);
                proof {
                    crate::formulas::lemma_field_value_bound(
                        self.formulas.terms@,
                        xf as int,
                        yf as int,
                        tfp as int,
                    );
                }
                let c = if self.dithering {
                    self.color_mapper.dithered_convert(v, x, y)
                } else {
                    self.color_mapper.convert(v)
                };
                proof {
                    let pix = y * (w as int) + x;
                    assert(3 * pix + 3 <= (w as int) * (h as int) * 3) by (nonlinear_arith)
                        requires
                            0 <= x < w,
                            0 <= y < h,
                            pix == y * (w as int) + x,
                    ;
                    lemma_fundamental_div_mod_converse_div(3 * pix, 3, pix, 0);
                    lemma_fundamental_div_mod_converse_mod(3 * pix, 3, pix, 0);
                    lemma_fundamental_div_mod_converse_div(3 * pix + 1, 3, pix, 1);
                    lemma_fundamental_div_mod_converse_mod(3 * pix + 1, 3, pix, 1);
                    lemma_fundamental_div_mod_converse_div(3 * pix + 2, 3, pix, 2);
                    lemma_fundamental_div_mod_converse_mod(3 * pix + 2, 3, pix, 2);
                    lemma_fundamental_div_mod_converse_div(pix, w as int, y as int, x as int);
                    lemma_fundamental_div_mod_converse_mod(pix, w as int, y as int, x as int);
                    assert(target[3 * pix] == c.r && target[3 * pix + 1] == c.g && target[3 * pix
                        + 2] == c.b);
                }
                image.plot(x, y, c);
                x = x + 1;
            }
            proof {
                assert(3 * ((y + 1) * (w as int)) == 3 * ((y as int) * (w as int) + w))
                    by (nonlinear_arith);
            }
            y = y + 1;
        }
        proof {
            assert(3 * ((h as int) * (w as int)) == (w as int) * (h as int) * 3)
                by (nonlinear_arith);
            assert(image.pixel_data@ =~= target);
        }
    }

    /// The 256-entry palette of the color mapper, in slot order.
    pub fn get_palette(&self) -> (palette: Vec<Color>)
        requires
            self.wf(),
        ensures
            palette@ == self.color_mapper.table@,
    {
        self.color_mapper.get_palette()
    }
}

} // verus!

