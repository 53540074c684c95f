//! Genetic representation: genes, chromosomes, genomes and the bounded
//! genome pool.
//!
//! A gene is a fixed-length byte sequence; a chromosome is a fixed count of
//! genes for one role (pattern or color); a genome pairs one pattern
//! chromosome with one color chromosome.  Genomes are immutable values:
//! duplication copies every byte.  Deterministic genome generation from a
//! caller-supplied seed replaces ambient randomness, so every construction
//! is reproducible.

use vstd::prelude::*;

verus! {

/// Bytes per color-role gene: activation, hue, saturation, value, position.
pub const CONTROL_POINT_GENE_SIZE: usize = 5;

/// Genes in a color chromosome.
pub const NUM_COLOR_GENES: usize = 8;

/// Bytes per pattern-role gene: frequency, phase, weight, axis selector.
pub const FORMULA_GENE_SIZE: usize = 4;

/// Genes in a pattern chromosome.
pub const NUM_FORMULA_GENES: usize = 8;

/// A fixed-length byte sequence, the atomic unit of genetic encoding.
#[derive(Debug)]
pub struct Gene {
    pub data: Vec<u8>,
}

/// A fixed-count ordered sequence of genes for one role.
#[derive(Debug)]
pub struct Chromosome {
    pub genes: Vec<Gene>,
}

/// One pattern chromosome plus one color chromosome: the full heritable
/// description of one plasma's appearance.
#[derive(Debug)]
pub struct Genome {
    pub pattern: Chromosome,
    pub color: Chromosome,
}

pub ghost struct GenomeView {
    pub pattern: Seq<Seq<u8>>,
    pub color: Seq<Seq<u8>>,
}

impl View for Gene {
    type V = Seq<u8>;

    open spec fn view(&self) -> Seq<u8> {
        self.data@
    }
}

impl View for Chromosome {
    type V = Seq<Seq<u8>>;

    open spec fn view(&self) -> Seq<Seq<u8>> {
        self.genes@.map_values(|g: Gene| g@)
    }
}

impl View for Genome {
    type V = GenomeView;

    open spec fn view(&self) -> GenomeView {
        GenomeView { pattern: self.pattern@, color: self.color@ }
    }
}

/// A chromosome is well formed for a role when it has exactly `count` genes
/// of exactly `size` bytes each.
pub open spec fn chromosome_wf(c: Seq<Seq<u8>>, count: int, size: int) -> bool {
    &&& c.len() == count
    &&& forall|i: int| 0 <= i < c.len() ==> (#[trigger] c[i]).len() == size
}

pub open spec fn genome_wf(g: GenomeView) -> bool {
    &&& chromosome_wf(g.pattern, NUM_FORMULA_GENES as int, FORMULA_GENE_SIZE as int)
    &&& chromosome_wf(g.color, NUM_COLOR_GENES as int, CONTROL_POINT_GENE_SIZE as int)
}

/// One xorshift step of the deterministic byte generator.
pub open spec fn next_state(s: u64) -> u64 {
    let a = s ^ (s << 13);
    let b = a ^ (a >> 7);
    b ^ (b << 17)
}

pub open spec fn nth_state(seed: u64, k: nat) -> u64
    decreases k,
{
    if k == 0 {
        seed
    } else {
        next_state(nth_state(seed, (k - 1) as nat))
    }
}

pub open spec fn state_byte(s: u64) -> u8 {
    (((s >> 32) % 256) as u8)
}

/// The `n` bytes the generator emits from `seed`.
pub open spec fn gen_bytes(seed: u64, n: nat) -> Seq<u8>
    decreases n,
{
    if n == 0 {
        Seq::empty()
    } else {
        gen_bytes(seed, (n - 1) as nat).push(state_byte(nth_state(seed, n)))
    }
}

/// The seed that generates gene `j` of a chromosome seeded with `seed`.
pub open spec fn gene_seed(seed: u64, j: int) -> u64 {
    (((seed as int) + j) % 0x1_0000_0000_0000_0000) as u64
}

/// The gene byte matrix of a chromosome generated from `seed`.
pub open spec fn generated_chromosome(seed: u64, count: int, size: int) -> Seq<Seq<u8>> {
    Seq::new(count as nat, |j: int| gen_bytes(gene_seed(seed, j), size as nat))
}

/// The genome generated from `seed`.
pub open spec fn generated_genome(seed: u64) -> GenomeView {
    GenomeView {
        pattern: generated_chromosome(seed, NUM_FORMULA_GENES as int, FORMULA_GENE_SIZE as int),
        color: generated_chromosome(
            seed ^ 0x9E37_79B9_7F4A_7C15,
            NUM_COLOR_GENES as int,
            CONTROL_POINT_GENE_SIZE as int,
        ),
    }
}

pub proof fn lemma_gen_bytes_len(seed: u64, n: nat)
    ensures
        gen_bytes(seed, n).len() == n,
    decreases n,
{
    if n > 0 {
        lemma_gen_bytes_len(seed, (n - 1) as nat);
    }
}

fn step_state(s: u64) -> (r: u64)
    ensures
        r == next_state(s),
{
    let a = s ^ (s << 13u64);
    let b = a ^ (a >> 7u64);
    b ^ (b << 17u64)
}

fn copy_bytes(v: &Vec<u8>) -> (r: Vec<u8>)
    ensures
        r@ == v@,
{
    let mut r: Vec<u8> = Vec::new();
    let mut i: usize = 0;
    while i < v.len()
        invariant
            i <= v.len(),
            r@ == v@.take(i as int),
        decreases v.len() - i,
    {
        r.push(v[i]);
        i = i + 1;
    }
    proof {
        assert(r@ =~= v@);
    }
    r
}

impl Gene {
    pub fn duplicate(&self) -> (g: Gene)
        ensures
            g@ == self@,
    {
        Gene { data: copy_bytes(&self.data) }
    }

    /// A gene of `size` bytes drawn deterministically from `seed`.
    pub fn generate(seed: u64, size: usize) -> (g: Gene)
        ensures
            g@ == gen_bytes(seed, size as nat),
            g@.len() == size,
    {
        let mut data: Vec<u8> = Vec::new();
        let mut st: u64 = seed;
        let mut i: usize = 0;
        while i < size
            invariant
                i <= size,
                st == nth_state(seed, i as nat),
                data@ == gen_bytes(seed, i as nat),
            decreases size - i,
        {
            st = step_state(st);
            data.push(((st >> 32u64) % 256) as u8);
            i = i + 1;
        }
        proof {
            lemma_gen_bytes_len(seed, size as nat);
        }
        Gene { data }
    }
}

impl Chromosome {
    pub fn duplicate(&self) -> (c: Chromosome)
        ensures
            c@ == self@,
    {
        let mut genes: Vec<Gene> = Vec::new();
        let mut i: usize = 0;
        while i < self.genes.len()
            invariant
                i <= self.genes.len(),
                genes@.len() == i,
                forall|k: int| 0 <= k < i ==> (#[trigger] genes@[k])@ == self@[k],
            decreases self.genes.len() - i,
        {
            genes.push(self.genes[i].duplicate());
            i = i + 1;
        }
        let c = Chromosome { genes };
        proof {
            assert(c@ =~= self@);
        }
        c
    }

    /// A chromosome of `count` genes of `size` bytes each, drawn
    /// deterministically from `seed`.
    pub fn generate(count: usize, size: usize, seed: u64) -> (c: Chromosome)
        ensures
            c@ == generated_chromosome(seed, count as int, size as int),
            chromosome_wf(c@, count as int, size as int),
    {
        let mut genes: Vec<Gene> = Vec::new();
        let mut j: usize = 0;
        while j < count
            invariant
                j <= count,
                genes@.len() == j,
                forall|k: int|
                    0 <= k < j ==> (#[trigger] genes@[k])@ == gen_bytes(
                        gene_seed(seed, k),
                        size as nat,
                    ),
            decreases count - j,
        {
            let s = seed.wrapping_add(j as u64);
            genes.push(Gene::generate(s, size));
            j = j + 1;
        }
        let c = Chromosome { genes };
        proof {
            assert(c@ =~= generated_chromosome(seed, count as int, size as int));
            assert forall|k: int| 0 <= k < count implies (#[trigger] c@[k]).len() == size by {
                lemma_gen_bytes_len(gene_seed(seed, k), size as nat);
            }
        }
        c
    }
}

impl Genome {
    pub fn duplicate(&self) -> (g: Genome)
        ensures
            g@ == self@,
    {
        Genome { pattern: self.pattern.duplicate(), color: self.color.duplicate() }
    }

    /// A well-formed genome drawn deterministically from `seed`.
    pub fn generate(seed: u64) -> (g: Genome)
        ensures
            genome_wf(g@),
            g@ == generated_genome(seed),
    {
        let pattern = Chromosome::generate(NUM_FORMULA_GENES, FORMULA_GENE_SIZE, seed);
        let color = Chromosome::generate(
            NUM_COLOR_GENES,
            CONTROL_POINT_GENE_SIZE,
            seed ^ 0x9E37_79B9_7F4A_7C15,
        );
        Genome { pattern, color }
    }
}

/// Why a genome text failed to decode.
#[derive(Clone, Copy, Debug, PartialEq, Eq, Structural)]
pub enum GenomeError {
    /// The text does not have the fixed encoded length.
    BadLength,
    /// A character is outside the encoding alphabet.
    BadCharacter,
}

/// The gene byte sequences of a chromosome, concatenated in gene order.
pub open spec fn concat_genes(genes: Seq<Seq<u8>>) -> Seq<u8>
    decreases genes.len(),
{
    if genes.len() == 0 {
        Seq::empty()
    } else {
        concat_genes(genes.drop_last()) + genes.last()
    }
}

/// The raw bytes of a genome: pattern chromosome first, then color.
pub open spec fn genome_bytes(g: GenomeView) -> Seq<u8> {
    concat_genes(g.pattern) + concat_genes(g.color)
}

/// The genome whose raw bytes are `bytes`: the fixed per-role lengths cut
/// the sequence back into genes.
pub open spec fn genome_of_bytes(bytes: Seq<u8>) -> GenomeView {
    GenomeView {
        pattern: Seq::new(
            NUM_FORMULA_GENES as nat,
            |j: int| bytes.subrange(j * 4, j * 4 + 4),
        ),
        color: Seq::new(
            NUM_COLOR_GENES as nat,
            |j: int| bytes.subrange(32 + j * 5, 32 + j * 5 + 5),
        ),
    }
}

pub proof fn lemma_concat_genes_len(genes: Seq<Seq<u8>>, size: int)
    requires
        forall|i: int| 0 <= i < genes.len() ==> (#[trigger] genes[i]).len() == size,
        size >= 0,
    ensures
        concat_genes(genes).len() == genes.len() * size,
    decreases genes.len(),
{
    if genes.len() == 0 {
    } else {
        lemma_concat_genes_len(genes.drop_last(), size);
        assert((genes.len() - 1) * size + size == genes.len() * size) by (nonlinear_arith);
    }
}

proof fn lemma_concat_genes_index(genes: Seq<Seq<u8>>, size: int, j: int)
    requires
        forall|i: int| 0 <= i < genes.len() ==> (#[trigger] genes[i]).len() == size,
        size >= 0,
        0 <= j < genes.len(),
    ensures
        concat_genes(genes).subrange(j * size, j * size + size) == genes[j],
    decreases genes.len(),
{
    lemma_concat_genes_len(genes, size);
    lemma_concat_genes_len(genes.drop_last(), size);
    if j == genes.len() - 1 {
        assert(j * size + size == genes.len() * size) by (nonlinear_arith)
            requires
                j == genes.len() - 1,
        ;
        assert(concat_genes(genes).subrange(j * size, j * size + size) =~= genes.last());
    } else {
        assert(j * size + size <= (genes.len() - 1) * size) by (nonlinear_arith)
            requires
                0 <= j < genes.len() - 1,
                size >= 0,
        ;
        assert(0 <= j * size) by (nonlinear_arith)
            requires
                0 <= j,
                size >= 0,
        ;
        lemma_concat_genes_index(genes.drop_last(), size, j);
        assert(concat_genes(genes).subrange(j * size, j * size + size) =~= concat_genes(
            genes.drop_last(),
        ).subrange(j * size, j * size + size));
    }
}

/// Law: cutting the concatenated bytes back into genes restores the
/// genome — `genome_of_bytes` inverts `genome_bytes` on well-formed
/// genomes.
pub proof fn lemma_genome_bytes_roundtrip(g: GenomeView)
    requires
        genome_wf(g),
    ensures
        genome_of_bytes(genome_bytes(g)) == g,
{
    let pat = concat_genes(g.pattern);
    let col = concat_genes(g.color);
    let bytes = genome_bytes(g);
    lemma_concat_genes_len(g.pattern, FORMULA_GENE_SIZE as int);
    lemma_concat_genes_len(g.color, CONTROL_POINT_GENE_SIZE as int);
    assert forall|j: int| 0 <= j < NUM_FORMULA_GENES implies bytes.subrange(j * 4, j * 4 + 4)
        == g.pattern[j] by {
        lemma_concat_genes_index(g.pattern, 4, j);
        assert(bytes.subrange(j * 4, j * 4 + 4) =~= pat.subrange(j * 4, j * 4 + 4));
    }
    assert forall|j: int| 0 <= j < NUM_COLOR_GENES implies bytes.subrange(
        32 + j * 5,
        32 + j * 5 + 5,
    ) == g.color[j] by {
        lemma_concat_genes_index(g.color, 5, j);
        assert(bytes.subrange(32 + j * 5, 32 + j * 5 + 5) =~= col.subrange(j * 5, j * 5 + 5));
    }
    assert(genome_of_bytes(bytes).pattern =~= g.pattern);
    assert(genome_of_bytes(bytes).color =~= g.color);
}

/// Law: the genome text encoding is reversible — encoding a well-formed
/// genome's bytes yields a valid text that decodes back to exactly the
/// same genome.
pub proof fn lemma_genome_base64_roundtrip(g: GenomeView)
    requires
        genome_wf(g),
    ensures
        crate::base64::b64_valid(crate::base64::b64_encode_spec(genome_bytes(g))),
        genome_of_bytes(
            crate::base64::b64_decode_spec(crate::base64::b64_encode_spec(genome_bytes(g))),
        ) == g,
{
    lemma_concat_genes_len(g.pattern, FORMULA_GENE_SIZE as int);
    lemma_concat_genes_len(g.color, CONTROL_POINT_GENE_SIZE as int);
    crate::base64::lemma_b64_roundtrip(genome_bytes(g));
    lemma_genome_bytes_roundtrip(g);
}

fn append_gene_bytes(flat: &mut Vec<u8>, c: &Chromosome)
    ensures
        final(flat)@ == old(flat)@ + concat_genes(c@),
{
    let ghost base = flat@;
    let mut j: usize = 0;
    proof {
        assert(base + concat_genes(c@.take(0)) =~= base);
    }
    while j < c.genes.len()
        invariant
            j <= c.genes.len(),
            flat@ == base + concat_genes(c@.take(j as int)),
        decreases c.genes.len() - j,
    {
        let g = &c.genes[j];
        let ghost pre = flat@;
        let mut k: usize = 0;
        proof {
            assert(pre + g.data@.take(0) =~= pre);
        }
        while k < g.data.len()
            invariant
                k <= g.data.len(),
                flat@ == pre + g.data@.take(k as int),
            decreases g.data.len() - k,
        {
            flat.push(g.data[k]);
            proof {
                assert(pre + g.data@.take(k as int + 1) =~= (pre + g.data@.take(k as int)).push(
                    g.data@[k as int],
                ));
            }
            k = k + 1;
        }
        proof {
            assert(g.data@.take(g.data@.len() as int) =~= g.data@);
            assert(c@.take(j as int + 1).drop_last() =~= c@.take(j as int));
            assert(c@.take(j as int + 1).last() == c@[j as int]);
            assert(flat@ =~= base + concat_genes(c@.take(j as int + 1)));
        }
        j = j + 1;
    }
    proof {
        assert(c@.take(c.genes@.len() as int) =~= c@);
    }
}

fn split_genes(bytes: &Vec<u8>, start: usize, count: usize, size: usize) -> (c: Chromosome)
    requires
        start + count * size <= bytes@.len(),
    ensures
        c@ == Seq::new(
            count as nat,
            |j: int| bytes@.subrange(start + j * size, start + j * size + size),
        ),
        chromosome_wf(c@, count as int, size as int),
{
    let n = bytes.len();
    let mut genes: Vec<Gene> = Vec::new();
    let mut j: usize = 0;
    while j < count
        invariant
            j <= count,
            n == bytes@.len(),
            start + count * size <= n,
            genes@.len() == j,
            forall|m: int|
                0 <= m < j ==> (#[trigger] genes@[m])@ == bytes@.subrange(
                    start + m * size,
                    start + m * size + size,
                ),
        decreases count - j,
    {
        proof {
            assert(j * size + size <= count * size) by (nonlinear_arith)
                requires
                    j < count,
                    size >= 0,
            ;
            assert(j * size >= 0) by (nonlinear_arith)
                requires
                    j >= 0,
                    size >= 0,
            ;
        }
        let off = start + j * size;
        let mut data: Vec<u8> = Vec::new();
        let mut k: usize = 0;
        while k < size
            invariant
                k <= size,
                off == start + j * size,
                n == bytes@.len(),
                off + size <= n,
                data@ == bytes@.subrange(off as int, off + k),
            decreases size - k,
        {
            data.push(bytes[off + k]);
            proof {
                assert(bytes@.subrange(off as int, off + k + 1) =~= bytes@.subrange(
                    off as int,
                    off + k,
                ).push(bytes@[off + k]));
            }
            k = k + 1;
        }
        genes.push(Gene { data });
        j = j + 1;
    }
    let c = Chromosome { genes };
    proof {
        assert(c@ =~= Seq::new(
            count as nat,
            |j: int| bytes@.subrange(start + j * size, start + j * size + size),
        ));
        assert forall|m: int| 0 <= m < count implies (#[trigger] c@[m]).len() == size by {
            assert(0 <= m * size && m * size + size <= count * size) by (nonlinear_arith)
                requires
                    0 <= m < count,
                    size >= 0,
            ;
        }
    }
    c
}

impl Genome {
    /// The genome's reversible textual encoding: base64 characters over the
    /// concatenated raw bytes of both chromosomes in fixed order.
    pub fn to_base64(&self) -> (out: Vec<u8>)
        requires
            genome_wf(self@),
        ensures
            out@ == crate::base64::b64_encode_spec(genome_bytes(self@)),
            out@.len() == 96,
            crate::base64::b64_valid(out@),
    {
        let mut flat: Vec<u8> = Vec::new();
        append_gene_bytes(&mut flat, &self.pattern);
        append_gene_bytes(&mut flat, &self.color);
        proof {
            lemma_concat_genes_len(self@.pattern, FORMULA_GENE_SIZE as int);
            lemma_concat_genes_len(self@.color, CONTROL_POINT_GENE_SIZE as int);
            assert(flat@ =~= genome_bytes(self@));
        }
        crate::base64::b64_encode(&flat)
    }

    /// Decodes the textual encoding.  Succeeds exactly on texts of the
    /// fixed encoded length whose characters all belong to the alphabet;
    /// a wrong length or a foreign character names the fault.
    pub fn from_base64(text: &Vec<u8>) -> (r: Result<Genome, GenomeError>)
        ensures
            r.is_ok() <==> text@.len() == 96 && crate::base64::b64_valid(text@),
            text@.len() != 96 ==> r == Err::<Genome, GenomeError>(GenomeError::BadLength),
            text@.len() == 96 && !crate::base64::b64_valid(text@) ==> r == Err::<
                Genome,
                GenomeError,
            >(GenomeError::BadCharacter),
            r matches Ok(g) ==> genome_wf(g@) && g@ == genome_of_bytes(
                crate::base64::b64_decode_spec(text@),
            ),
    {
        if text.len() != 96 {
            return Err(GenomeError::BadLength);
        }
        let mut i: usize = 0;
        while i < text.len()
            invariant
                i <= text@.len(),
                text@.len() == 96,
                forall|k: int| 0 <= k < i ==> crate::base64::b64_val_of(#[trigger] text@[k]) >= 0,
            decreases text@.len() - i,
        {
            if crate::base64::b64_val_probe(text[i]) {
                i = i + 1;
            } else {
                return Err(GenomeError::BadCharacter);
            }
        }
        let bytes = crate::base64::b64_decode(text);
        let pattern = split_genes(&bytes, 0, NUM_FORMULA_GENES, FORMULA_GENE_SIZE);
        let color = split_genes(&bytes, 32, NUM_COLOR_GENES, CONTROL_POINT_GENE_SIZE);
        let g = Genome { pattern, color };
        proof {
            let decoded = crate::base64::b64_decode_spec(text@);
            assert(g@.pattern =~= genome_of_bytes(decoded).pattern);
            assert(g@.color =~= genome_of_bytes(decoded).color);
        }
        Ok(g)
    }
}

/// What a full genome pool does with a new genome.
#[derive(Clone, Copy, Debug, PartialEq, Eq, Structural)]
pub enum EvictionPolicy {
    /// The new genome is not stored.
    RejectNew,
    /// The oldest stored genome is dropped to make room.
    EvictOldest,
}

/// A bounded ordered pool of genomes: the genetic algorithm's working set.
/// The capacity is fixed at construction and never exceeded.
#[derive(Debug)]
pub struct Population {
    pub genomes: Vec<Genome>,
    pub max_size: usize,
    pub policy: EvictionPolicy,
}

impl Population {
    pub open spec fn wf(self) -> bool {
        &&& 1 <= self.max_size
        &&& self.genomes@.len() <= self.max_size
    }

    pub fn new(max_size: usize, policy: EvictionPolicy) -> (p: Population)
        requires
            1 <= max_size,
        ensures
            p.wf(),
            p.genomes@.len() == 0,
            p.max_size == max_size,
            p.policy == policy,
    {
        Population { genomes: Vec::new(), max_size, policy }
    }

    /// Adds a genome.  Below capacity it is appended; at capacity the
    /// eviction policy decides: the oldest genome makes room, or the new
    /// one is rejected.  Returns whether the genome was stored.
    pub fn add(&mut self, genome: Genome) -> (stored: bool)
        requires
            old(self).wf(),
        ensures
            final(self).wf(),
            final(self).max_size == old(self).max_size,
            final(self).policy == old(self).policy,
            old(self).genomes@.len() < old(self).max_size ==> {
                &&& stored
                &&& final(self).genomes@ == old(self).genomes@.push(genome)
            },
            old(self).genomes@.len() == old(self).max_size && old(self).policy
                == EvictionPolicy::EvictOldest ==> {
                &&& stored
                &&& final(self).genomes@ == old(self).genomes@.subrange(
                    1,
                    old(self).genomes@.len() as int,
                ).push(genome)
            },
            old(self).genomes@.len() == old(self).max_size && old(self).policy
                == EvictionPolicy::RejectNew ==> {
                &&& !stored
                &&& final(self).genomes@ == old(self).genomes@
            },
    {
        if self.genomes.len() < self.max_size {
            self.genomes.push(genome);
            true
        } else {
            match self.policy {
                EvictionPolicy::EvictOldest => {
                    self.genomes.remove(0);
                    self.genomes.push(genome);
                    true
                },
                EvictionPolicy::RejectNew => false,
            }
        }
    }
}

} // verus!
