//! Validated configuration: rendering settings, output selection, and the
//! builder that turns raw command-line values into a full settings bundle.

use vstd::prelude::*;

verus! {

use crate::fastmath::Frac;
use crate::genetics::{Genome, Population};

/// Largest accepted image dimension; keeps every coordinate computation
/// inside 64-bit fixed-point arithmetic.
pub const MAX_DIMENSION: usize = 1048576;

/// How an image is produced and presented.
#[derive(Debug)]
pub enum OutputMode {
    /// An interactive display loop presents frames as they render.
    Interactive,
    /// Frames are encoded into an animation file at this path.
    File { path: Vec<u8> },
}

#[derive(Debug)]
pub struct OutputSettings {
    pub mode: OutputMode,
}

/// Everything a renderer needs besides the genome.
#[derive(Clone, Copy, Debug)]
pub struct RenderingSettings {
    pub dithering: bool,
    pub frames_per_second: Frac,
    pub loop_duration: Frac,
    pub palette_size: Option<u8>,
    pub width: usize,
    pub height: usize,
}

impl RenderingSettings {
    pub open spec fn wf(self) -> bool {
        &&& self.frames_per_second.wf()
        &&& self.frames_per_second.num >= 1
        &&& self.loop_duration.wf()
        &&& self.loop_duration.num >= 1
        &&& match self.palette_size {
            Some(n) => 2 <= n,
            None => true,
        }
        &&& 1 <= self.width <= MAX_DIMENSION
        &&& 1 <= self.height <= MAX_DIMENSION
        &&& self.width * self.height * 3 <= usize::MAX
    }
}

/// An ASCII decimal digit.
pub open spec fn is_digit(c: u8) -> bool {
    48 <= c <= 57
}

pub open spec fn all_digits(s: Seq<u8>) -> bool {
    forall|i: int| 0 <= i < s.len() ==> is_digit(#[trigger] s[i])
}

/// The number a digit string denotes.
pub open spec fn digits_val(s: Seq<u8>) -> int
    decreases s.len(),
{
    if s.len() == 0 {
        0
    } else {
        digits_val(s.drop_last()) * 10 + (s.last() - 48)
    }
}

/// Ten to the `n`th.
pub open spec fn pow10(n: nat) -> int
    decreases n,
{
    if n == 0 {
        1
    } else {
        10 * pow10((n - 1) as nat)
    }
}

proof fn lemma_all_digits_drop_last(s: Seq<u8>)
    requires
        all_digits(s),
        s.len() > 0,
    ensures
        all_digits(s.drop_last()),
{
    assert forall|i: int| 0 <= i < s.drop_last().len() implies is_digit(#[trigger] s.drop_last()[i])
        by {
        assert(s.drop_last()[i] == s[i]);
    }
}

proof fn lemma_digits_val_nonneg(s: Seq<u8>)
    requires
        all_digits(s),
    ensures
        digits_val(s) >= 0,
    decreases s.len(),
{
    if s.len() > 0 {
        lemma_all_digits_drop_last(s);
        lemma_digits_val_nonneg(s.drop_last());
    }
}

/// A digit string denotes at least as much as any of its prefixes.
proof fn lemma_digits_val_prefix(s: Seq<u8>, i: int)
    requires
        all_digits(s),
        0 <= i <= s.len(),
    ensures
        digits_val(s.take(i)) <= digits_val(s),
    decreases s.len(),
{
    if i == s.len() {
        assert(s.take(i) =~= s);
    } else {
        lemma_all_digits_drop_last(s);
        lemma_digits_val_nonneg(s.drop_last());
        assert(s.take(i) =~= s.drop_last().take(i));
        lemma_digits_val_prefix(s.drop_last(), i);
    }
}

proof fn lemma_pow10_pos(n: nat)
    ensures
        pow10(n) >= 1,
    decreases n,
{
    if n > 0 {
        lemma_pow10_pos((n - 1) as nat);
    }
}

proof fn lemma_pow10_small()
    ensures
        pow10(0) == 1,
        pow10(1) == 10,
        pow10(2) == 100,
        pow10(3) == 1000,
        pow10(4) == 10000,
        pow10(5) == 100000,
        pow10(6) == 1000000,
        pow10(7) == 10000000,
        pow10(8) == 100000000,
        pow10(9) == 1000000000,
{
    reveal_with_fuel(pow10, 11);
}

/// Parses a digit string into its value.  Succeeds exactly on nonempty
/// all-digit strings whose value fits the result type.
pub fn parse_unsigned(s: &Vec<u8>) -> (r: Option<u64>)
    ensures
        r is Some <==> s@.len() >= 1 && all_digits(s@) && digits_val(s@) <= u64::MAX,
        r matches Some(v) ==> v == digits_val(s@),
{
    if s.len() == 0 {
        return None;
    }
    let n = s.len();
    let mut acc: u64 = 0;
    let mut i: usize = 0;
    proof {
        assert(s@.take(0) =~= Seq::<u8>::empty());
    }
    while i < n
        invariant
            n == s@.len(),
            1 <= n,
            i <= n,
            all_digits(s@.take(i as int)),
            acc == digits_val(s@.take(i as int)),
        decreases n - i,
    {
        let c = s[i];
        if c < 48 || c > 57 {
            return None;
        }
        proof {
            assert(s@.take(i as int + 1).drop_last() =~= s@.take(i as int));
            assert forall|k: int| 0 <= k < i + 1 implies is_digit(#[trigger] s@.take(
                i as int + 1,
            )[k]) by {
                assert(s@.take(i as int + 1)[k] == s@[k]);
                if k < i {
                    assert(s@.take(i as int)[k] == s@[k]);
                }
            }
        }
        let d = (c - 48) as u64;
        let next = match acc.checked_mul(10) {
            Some(a) => a.checked_add(d),
            None => None,
        };
        match next {
            Some(b) => {
                acc = b;
            },
            None => {
                proof {
                    if s@.len() >= 1 && all_digits(s@) && digits_val(s@) <= u64::MAX {
                        lemma_digits_val_prefix(s@, i as int + 1);
                    }
                }
                return None;
            },
        }
        i = i + 1;
    }
    proof {
        assert(s@.take(n as int) =~= s@);
    }
    Some(acc)
}

/// The index of the first dot, or the length where there is none.
pub open spec fn first_dot(s: Seq<u8>) -> int
    decreases s.len(),
{
    if s.len() == 0 {
        0
    } else if s[0] == 46 {
        0
    } else {
        1 + first_dot(s.skip(1))
    }
}

proof fn lemma_first_dot_at(s: Seq<u8>, i: int)
    requires
        0 <= i <= s.len(),
        forall|k: int| 0 <= k < i ==> s[k] != 46,
        i < s.len() ==> s[i] == 46,
    ensures
        first_dot(s) == i,
    decreases s.len(),
{
    if i == 0 {
    } else {
        let t = s.skip(1);
        assert forall|k: int| 0 <= k < i - 1 implies t[k] != 46 by {
            assert(t[k] == s[k + 1]);
        }
        if i - 1 < t.len() {
            assert(t[i - 1] == s[i]);
        }
        lemma_first_dot_at(t, i - 1);
    }
}

/// The digits before the dot (or the whole string without one).
pub open spec fn decimal_int_part(s: Seq<u8>) -> Seq<u8> {
    s.take(first_dot(s))
}

/// The digits after the dot, empty without one.
pub open spec fn decimal_frac_part(s: Seq<u8>) -> Seq<u8> {
    if first_dot(s) < s.len() {
        s.skip(first_dot(s) + 1)
    } else {
        Seq::empty()
    }
}

/// The denominator a decimal string denotes: ten to the number of
/// fractional digits.
pub open spec fn decimal_den(s: Seq<u8>) -> int {
    pow10(decimal_frac_part(s).len())
}

/// The numerator a decimal string denotes, over `decimal_den`.
pub open spec fn decimal_num(s: Seq<u8>) -> int {
    digits_val(decimal_int_part(s)) * decimal_den(s) + digits_val(decimal_frac_part(s))
}

/// A parsable decimal: digits, at most one dot, at least one integer
/// digit, at most nine fractional digits, and a numerator that fits.
pub open spec fn decimal_ok(s: Seq<u8>) -> bool {
    &&& decimal_int_part(s).len() >= 1
    &&& all_digits(decimal_int_part(s))
    &&& all_digits(decimal_frac_part(s))
    &&& decimal_frac_part(s).len() <= 9
    &&& decimal_num(s) <= i64::MAX
}

fn copy_range(s: &Vec<u8>, from: usize, to: usize) -> (r: Vec<u8>)
    requires
        from <= to <= s@.len(),
    ensures
        r@ == s@.subrange(from as int, to as int),
{
    let mut r: Vec<u8> = Vec::new();
    let mut i: usize = from;
    proof {
        assert(s@.subrange(from as int, from as int) =~= Seq::<u8>::empty());
    }
    while i < to
        invariant
            from <= i <= to,
            to <= s@.len(),
            r@ == s@.subrange(from as int, i as int),
        decreases to - i,
    {
        r.push(s[i]);
        proof {
            assert(s@.subrange(from as int, i as int + 1) =~= s@.subrange(
                from as int,
                i as int,
            ).push(s@[i as int]));
        }
        i = i + 1;
    }
    r
}

fn copy_all(s: &Vec<u8>) -> (r: Vec<u8>)
    ensures
        r@ == s@,
{
    let r = copy_range(s, 0, s.len());
    proof {
        assert(r@ =~= s@);
    }
    r
}

/// Parses a decimal string ("16", "2.5", "10.") into an exact fraction.
/// Succeeds exactly on strings `decimal_ok` admits; the result is the
/// exact value, numerator over a power-of-ten denominator.
pub fn parse_decimal(s: &Vec<u8>) -> (r: Option<Frac>)
    ensures
        r is Some <==> decimal_ok(s@),
        r matches Some(f) ==> f.num == decimal_num(s@) && f.den == decimal_den(s@) && f.wf(),
{
    let n = s.len();
    let mut i: usize = 0;
    while i < n && s[i] != 46
        invariant
            i <= n,
            n == s@.len(),
            forall|k: int| 0 <= k < i ==> s@[k] != 46,
        decreases n - i,
    {
        i = i + 1;
    }
    let dot = i;
    proof {
        lemma_first_dot_at(s@, dot as int);
    }
    let ip = copy_range(s, 0, dot);
    let fp = if dot < n {
        copy_range(s, dot + 1, n)
    } else {
        Vec::new()
    };
    proof {
        assert(ip@ =~= decimal_int_part(s@));
        if dot < n {
            assert(fp@ =~= decimal_frac_part(s@));
        } else {
            assert(fp@ =~= decimal_frac_part(s@));
        }
        lemma_pow10_small();
        lemma_pow10_pos(decimal_frac_part(s@).len());
    }
    let iv = match parse_unsigned(&ip) {
        Some(v) => v,
        None => {
            proof {
                if decimal_ok(s@) {
                    lemma_digits_val_nonneg(fp@);
                    let ivs = digits_val(ip@);
                    let den = decimal_den(s@);
                    assert(ivs <= ivs * den) by (nonlinear_arith)
                        requires
                            0 <= ivs,
                            1 <= den,
                    ;
                }
            }
            return None;
        },
    };
    if fp.len() > 9 {
        return None;
    }
    let fv = if fp.len() == 0 {
        0u64
    } else {
        match parse_unsigned(&fp) {
            Some(v) => v,
            None => {
                proof {
                    if decimal_ok(s@) {
                        lemma_digits_val_nonneg(ip@);
                        let ivs = digits_val(ip@);
                        let den = decimal_den(s@);
                        assert(0 <= ivs * den) by (nonlinear_arith)
                            requires
                                0 <= ivs,
                                1 <= den,
                        ;
                    }
                }
                return None;
            },
        }
    };
    // Ten to the number of fractional digits.
    let mut den: u64 = 1;
    let mut k: usize = 0;
    while k < fp.len()
        invariant
            k <= fp@.len(),
            fp@.len() <= 9,
            den == pow10(k as nat),
            den <= 1000000000,
        decreases fp@.len() - k,
    {
        proof {
            lemma_pow10_small();
            lemma_pow10_mono(k as nat, 8);
        }
        den = den * 10;
        k = k + 1;
    }
    let total = match iv.checked_mul(den) {
        Some(a) => a.checked_add(fv),
        None => None,
    };
    match total {
        Some(t) => {
            if t <= 0x7FFF_FFFF_FFFF_FFFF {
                Some(Frac::new(t as i64, den as i64))
            } else {
                None
            }
        },
        None => None,
    }
}

proof fn lemma_pow10_mono(a: nat, b: nat)
    requires
        a <= b,
    ensures
        pow10(a) <= pow10(b),
    decreases b,
{
    if a < b {
        lemma_pow10_mono(a, (b - 1) as nat);
        lemma_pow10_pos((b - 1) as nat);
    }
}

/// The starting genome and the bounded working set around it.
#[derive(Debug)]
pub struct GeneticSettings {
    pub genome: Genome,
    pub population: Population,
}

/// The full validated configuration of one run.
#[derive(Debug)]
pub struct PlasmaSettings {
    pub genetics: GeneticSettings,
    pub rendering: RenderingSettings,
    pub output: OutputSettings,
}

/// Genomes generated when none is supplied.
pub const STARTING_POPULATION_SIZE: usize = 8;

/// Smallest genome pool capacity.
pub const MAX_POPULATION_SIZE: usize = 32;

/// The raw command-line values, exactly as the outside world hands them
/// over: free-argument and input-file genome texts merged in order, flag
/// presence, and the unparsed option strings.
pub struct CliArgs {
    pub genome_strings: Vec<Vec<u8>>,
    pub dithering: bool,
    pub fps: Option<Vec<u8>>,
    pub loop_duration: Option<Vec<u8>>,
    pub palette: Option<Vec<u8>>,
    pub width: Option<Vec<u8>>,
    pub height: Option<Vec<u8>>,
    pub output: Option<Vec<u8>>,
}

/// A configuration fault, carrying the offending token.
#[derive(Debug)]
pub enum SettingsError {
    /// A genome text does not decode.
    BadGenome(Vec<u8>),
    /// Frames per second or loop duration is not a positive number.
    NotAPositiveNumber(Vec<u8>),
    /// The palette size is not an integer from 2 to 255.
    BadPaletteSize(Vec<u8>),
    /// A dimension is not a positive integer within the supported range.
    BadDimension(Vec<u8>),
    /// Only one of width and height was given.
    WidthWithoutHeight,
    /// The requested image does not fit in memory.
    ImageTooLarge,
}

/// A decodable genome text.
pub open spec fn genome_text_ok(s: Seq<u8>) -> bool {
    s.len() == 96 && crate::base64::b64_valid(s)
}

pub open spec fn fps_ok(o: Option<Vec<u8>>) -> bool {
    match o {
        Some(s) => decimal_ok(s@) && decimal_num(s@) >= 1,
        None => true,
    }
}

pub open spec fn palette_opt_ok(o: Option<Vec<u8>>) -> bool {
    match o {
        Some(s) => s@.len() >= 1 && all_digits(s@) && 2 <= digits_val(s@) <= 255,
        None => true,
    }
}

pub open spec fn dimension_ok(s: Seq<u8>) -> bool {
    s.len() >= 1 && all_digits(s) && 1 <= digits_val(s) <= MAX_DIMENSION
}

pub open spec fn dims_ok(w: Option<Vec<u8>>, h: Option<Vec<u8>>) -> bool {
    match (w, h) {
        (Some(ws), Some(hs)) => dimension_ok(ws@) && dimension_ok(hs@) && digits_val(ws@)
            * digits_val(hs@) * 3 <= usize::MAX,
        (None, None) => true,
        _ => false,
    }
}

/// The dimension fault a width/height pair names: the first bad value,
/// a missing partner, or a size that cannot fit.
pub open spec fn dims_err_ok(w: Option<Vec<u8>>, h: Option<Vec<u8>>, e: SettingsError) -> bool {
    match (w, h) {
        (Some(ws), Some(hs)) => if !dimension_ok(ws@) {
            e matches SettingsError::BadDimension(b) && b@ == ws@
        } else if !dimension_ok(hs@) {
            e matches SettingsError::BadDimension(b) && b@ == hs@
        } else {
            e is ImageTooLarge
        },
        _ => e is WidthWithoutHeight,
    }
}

pub open spec fn args_ok(args: CliArgs) -> bool {
    &&& forall|i: int|
        0 <= i < args.genome_strings@.len() ==> genome_text_ok(
            (#[trigger] args.genome_strings@[i])@,
        )
    &&& fps_ok(args.fps)
    &&& fps_ok(args.loop_duration)
    &&& palette_opt_ok(args.palette)
    &&& dims_ok(args.width, args.height)
}

/// Whether dithering is on: forced by the flag, default for file output.
pub open spec fn spec_dithering(args: CliArgs) -> bool {
    args.output is Some || args.dithering
}

pub open spec fn spec_fps(args: CliArgs) -> Frac {
    match args.fps {
        Some(s) => Frac { num: decimal_num(s@) as i64, den: decimal_den(s@) as i64 },
        None => if args.output is Some {
            Frac { num: 10, den: 1 }
        } else {
            Frac { num: 16, den: 1 }
        },
    }
}

pub open spec fn spec_loop_duration(args: CliArgs) -> Frac {
    match args.loop_duration {
        Some(s) => Frac { num: decimal_num(s@) as i64, den: decimal_den(s@) as i64 },
        None => Frac { num: 60, den: 1 },
    }
}

pub open spec fn spec_palette(args: CliArgs) -> Option<u8> {
    match args.palette {
        Some(s) => Some(digits_val(s@) as u8),
        None => if args.output is Some {
            Some(64)
        } else if args.dithering {
            Some(255)
        } else {
            None
        },
    }
}

pub open spec fn spec_width(args: CliArgs) -> int {
    match args.width {
        Some(s) => digits_val(s@),
        None => if args.output is Some {
            320
        } else {
            640
        },
    }
}

pub open spec fn spec_height(args: CliArgs) -> int {
    match args.height {
        Some(s) => digits_val(s@),
        None => if args.output is Some {
            240
        } else {
            480
        },
    }
}

/// How many genomes the run starts with.
pub open spec fn spec_genome_count(args: CliArgs) -> int {
    if args.genome_strings@.len() > 0 {
        args.genome_strings@.len() as int
    } else {
        STARTING_POPULATION_SIZE as int
    }
}

/// The `i`th starting genome: decoded from the supplied texts, or
/// generated deterministically from the seed.
pub open spec fn spec_genome(args: CliArgs, seed: u64, i: int) -> crate::genetics::GenomeView {
    if args.genome_strings@.len() > 0 {
        crate::genetics::genome_of_bytes(
            crate::base64::b64_decode_spec((args.genome_strings@[i])@),
        )
    } else {
        crate::genetics::generated_genome(crate::genetics::gene_seed(seed, i))
    }
}

/// Turns raw command-line values into a validated settings bundle.
///
/// Genome texts are decoded in order and the first undecodable one is the
/// fault; with none supplied, a starting population is generated from the
/// seed.  Defaults depend on the output mode (interactive display or file
/// export); the dithering flag forces dithering on; frames per second,
/// loop duration, palette size, width and height are each validated with
/// the offending token named.  The pool's eviction policy is the caller's
/// explicit choice.
pub fn build_plasma_settings(
    args: &CliArgs,
    seed: u64,
    policy: crate::genetics::EvictionPolicy,
) -> (r: Result<PlasmaSettings, SettingsError>)
    ensures
        r.is_ok() <==> args_ok(*args),
        r matches Err(e) ==> {
            ||| (e matches SettingsError::BadGenome(b) && exists|j: int|
                0 <= j < args.genome_strings@.len() && !genome_text_ok(
                    (#[trigger] args.genome_strings@[j])@,
                ) && b@ == (args.genome_strings@[j])@)
            ||| (e matches SettingsError::NotAPositiveNumber(b) && ((args.fps matches Some(s)
                && b@ == s@ && !fps_ok(args.fps)) || (args.loop_duration matches Some(s) && b@
                == s@ && !fps_ok(args.loop_duration))))
            ||| (e matches SettingsError::BadPaletteSize(b) && args.palette matches Some(s) && b@
                == s@ && !palette_opt_ok(args.palette))
            ||| (!dims_ok(args.width, args.height) && dims_err_ok(args.width, args.height, e))
        },
        r matches Ok(p) ==> {
            &&& p.rendering.dithering == spec_dithering(*args)
            &&& p.rendering.frames_per_second == spec_fps(*args)
            &&& p.rendering.loop_duration == spec_loop_duration(*args)
            &&& p.rendering.palette_size == spec_palette(*args)
            &&& p.rendering.width == spec_width(*args)
            &&& p.rendering.height == spec_height(*args)
            &&& p.rendering.wf()
            &&& (p.output.mode matches OutputMode::File { path } && args.output matches Some(o)
                && path@ == o@ || p.output.mode is Interactive && args.output is None)
            &&& p.genetics.genome@ == spec_genome(*args, seed, 0)
            &&& crate::genetics::genome_wf(p.genetics.genome@)
            &&& p.genetics.population.wf()
            &&& p.genetics.population.policy == policy
            &&& p.genetics.population.max_size == if MAX_POPULATION_SIZE as int
                > spec_genome_count(*args) {
                MAX_POPULATION_SIZE as int
            } else {
                spec_genome_count(*args)
            }
            &&& p.genetics.population.genomes@.len() == spec_genome_count(*args)
            &&& forall|i: int|
                0 <= i < spec_genome_count(*args) ==> (
                #[trigger] p.genetics.population.genomes@[i])@ == spec_genome(*args, seed, i)
        },
{
    // Decode the supplied genome texts, in order.
    let mut genomes: Vec<crate::genetics::Genome> = Vec::new();
    let mut i: usize = 0;
    while i < args.genome_strings.len()
        invariant
            i <= args.genome_strings@.len(),
            genomes@.len() == i,
            forall|k: int|
                0 <= k < i ==> genome_text_ok((#[trigger] args.genome_strings@[k])@),
            forall|k: int|
                0 <= k < i ==> (#[trigger] genomes@[k])@ == crate::genetics::genome_of_bytes(
                    crate::base64::b64_decode_spec((args.genome_strings@[k])@),
                ),
            forall|k: int|
                0 <= k < i ==> crate::genetics::genome_wf((#[trigger] genomes@[k])@),
        decreases args.genome_strings@.len() - i,
    {
        let text = &args.genome_strings[i];
        match crate::genetics::Genome::from_base64(text) {
            Ok(g) => {
                genomes.push(g);
            },
            Err(_) => {
                return Err(SettingsError::BadGenome(copy_all(text)));
            },
        }
        i = i + 1;
    }
    // Generate a starting population where none was supplied.
    if genomes.len() == 0 {
        let mut k: usize = 0;
        while k < STARTING_POPULATION_SIZE
            invariant
                k <= STARTING_POPULATION_SIZE,
                args.genome_strings@.len() == 0,
                genomes@.len() == k,
                forall|m: int|
                    0 <= m < k ==> (#[trigger] genomes@[m])@ == crate::genetics::generated_genome(
                        crate::genetics::gene_seed(seed, m),
                    ),
                forall|m: int|
                    0 <= m < k ==> crate::genetics::genome_wf((#[trigger] genomes@[m])@),
            decreases STARTING_POPULATION_SIZE - k,
        {
            genomes.push(crate::genetics::Genome::generate(seed.wrapping_add(k as u64)));
            k = k + 1;
        }
    }
    // Frames per second and loop duration.
    let frames_per_second: Frac = match &args.fps {
        Some(s) => match parse_decimal(s) {
            Some(f) => if f.num >= 1 {
                f
            } else {
                return Err(SettingsError::NotAPositiveNumber(copy_all(s)));
            },
            None => {
                return Err(SettingsError::NotAPositiveNumber(copy_all(s)));
            },
        },
        None => if args.output.is_some() {
            Frac::new(10, 1)
        } else {
            Frac::new(16, 1)
        },
    };
    let loop_duration: Frac = match &args.loop_duration {
        Some(s) => match parse_decimal(s) {
            Some(f) => if f.num >= 1 {
                f
            } else {
                return Err(SettingsError::NotAPositiveNumber(copy_all(s)));
            },
            None => {
                return Err(SettingsError::NotAPositiveNumber(copy_all(s)));
            },
        },
        None => Frac::new(60, 1),
    };
    // Palette size.
    let palette_size: Option<u8> = match &args.palette {
        Some(s) => match parse_unsigned(s) {
            Some(v) => if 2 <= v && v <= 255 {
                Some(v as u8)
            } else {
                return Err(SettingsError::BadPaletteSize(copy_all(s)));
            },
            None => {
                return Err(SettingsError::BadPaletteSize(copy_all(s)));
            },
        },
        None => if args.output.is_some() {
            Some(64)
        } else if args.dithering {
            Some(255)
        } else {
            None
        },
    };
    // Width and height: both or neither, each positive and in range, and
    // the pixel buffer must fit in memory.
    let (width, height): (usize, usize) = match (&args.width, &args.height) {
        (Some(ws), Some(hs)) => {
            let wv = match parse_unsigned(ws) {
                Some(v) => v,
                None => {
                    return Err(SettingsError::BadDimension(copy_all(ws)));
                },
            };
            if wv < 1 || wv > 1048576 {
                return Err(SettingsError::BadDimension(copy_all(ws)));
            }
            let hv = match parse_unsigned(hs) {
                Some(v) => v,
                None => {
                    return Err(SettingsError::BadDimension(copy_all(hs)));
                },
            };
            if hv < 1 || hv > 1048576 {
                return Err(SettingsError::BadDimension(copy_all(hs)));
            }
            let w = wv as usize;
            let h = hv as usize;
            let fits = match w.checked_mul(h) {
                Some(p) => p.checked_mul(3).is_some(),
                None => false,
            };
            if fits {
                (w, h)
            } else {
                return Err(SettingsError::ImageTooLarge);
            }
        },
        (None, None) => if args.output.is_some() {
            (320, 240)
        } else {
            (640, 480)
        },
        _ => {
            return Err(SettingsError::WidthWithoutHeight);
        },
    };
    let dithering = args.output.is_some() || args.dithering;
    let rendering = RenderingSettings {
        dithering,
        frames_per_second,
        loop_duration,
        palette_size,
        width,
        height,
    };
    // Output mode.
    let mode = match &args.output {
        Some(path) => OutputMode::File { path: copy_all(path) },
        None => OutputMode::Interactive,
    };
    // The starting genome and the bounded pool around all of them.
    let starting = genomes[0].duplicate();
    let count = genomes.len();
    let cap = if MAX_POPULATION_SIZE > count {
        MAX_POPULATION_SIZE
    } else {
        count
    };
    let ghost full = genomes@;
    let mut population = crate::genetics::Population::new(cap, policy);
    let mut moved: usize = 0;
    while genomes.len() > 0
        invariant
            population.wf(),
            population.max_size == cap,
            population.policy == policy,
            cap >= count,
            moved + genomes@.len() == count,
            count == full.len(),
            population.genomes@.len() == moved,
            forall|m: int| 0 <= m < moved ==> (#[trigger] population.genomes@[m])@ == (full[m])@,
            forall|m: int| 0 <= m < genomes@.len() ==> genomes@[m] == full[moved + m],
        decreases genomes@.len(),
    {
        let g = genomes.remove(0);
        population.add(g);
        moved = moved + 1;
    }
    let p = PlasmaSettings {
        genetics: GeneticSettings { genome: starting, population },
        rendering,
        output: OutputSettings { mode },
    };
    proof {
        assert(p.rendering.wf());
    }
    Ok(p)
}

} // verus!
