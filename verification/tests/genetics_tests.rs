use plasma::genetics::{
    Chromosome, EvictionPolicy, Gene, Genome, GenomeError, Population, CONTROL_POINT_GENE_SIZE,
    FORMULA_GENE_SIZE, NUM_COLOR_GENES, NUM_FORMULA_GENES,
};

fn gene_bytes(g: &Genome) -> Vec<Vec<u8>> {
    let mut out = vec![];
    for gene in g.pattern.genes.iter() {
        out.push(gene.data.clone());
    }
    for gene in g.color.genes.iter() {
        out.push(gene.data.clone());
    }
    out
}

#[test]
fn test_generate_is_deterministic() {
    let g1 = Genome::generate(12345);
    let g2 = Genome::generate(12345);
    let g3 = Genome::generate(54321);
    assert_eq!(gene_bytes(&g1), gene_bytes(&g2));
    assert!(gene_bytes(&g1) != gene_bytes(&g3));
    assert_eq!(g1.pattern.genes.len(), NUM_FORMULA_GENES);
    assert_eq!(g1.color.genes.len(), NUM_COLOR_GENES);
    assert_eq!(g1.pattern.genes[0].data.len(), FORMULA_GENE_SIZE);
    assert_eq!(g1.color.genes[0].data.len(), CONTROL_POINT_GENE_SIZE);
}

#[test]
fn test_duplicate_copies_every_byte() {
    let g = Genome::generate(7);
    let d = g.duplicate();
    assert_eq!(gene_bytes(&g), gene_bytes(&d));
}

#[test]
fn test_base64_roundtrip() {
    let g = Genome::generate(99);
    let text = g.to_base64();
    assert_eq!(text.len(), 96);
    let back = Genome::from_base64(&text).unwrap();
    assert_eq!(gene_bytes(&g), gene_bytes(&back));
    assert_eq!(back.to_base64(), text);
}

#[test]
fn test_from_base64_bad_length() {
    let r = Genome::from_base64(&b"AAAA".to_vec());
    assert!(matches!(r, Err(GenomeError::BadLength)));
    let r2 = Genome::from_base64(&Vec::new());
    assert!(matches!(r2, Err(GenomeError::BadLength)));
}

#[test]
fn test_from_base64_bad_character() {
    let mut text = Genome::generate(3).to_base64();
    text[10] = b'!';
    let r = Genome::from_base64(&text);
    assert!(matches!(r, Err(GenomeError::BadCharacter)));
}

#[test]
fn test_population_reject_new() {
    let mut p = Population::new(2, EvictionPolicy::RejectNew);
    assert!(p.add(Genome::generate(1)));
    assert!(p.add(Genome::generate(2)));
    assert!(!p.add(Genome::generate(3)));
    assert_eq!(p.genomes.len(), 2);
    assert_eq!(gene_bytes(&p.genomes[0]), gene_bytes(&Genome::generate(1)));
    assert_eq!(gene_bytes(&p.genomes[1]), gene_bytes(&Genome::generate(2)));
}

#[test]
fn test_population_evict_oldest() {
    let mut p = Population::new(2, EvictionPolicy::EvictOldest);
    assert!(p.add(Genome::generate(1)));
    assert!(p.add(Genome::generate(2)));
    assert!(p.add(Genome::generate(3)));
    assert_eq!(p.genomes.len(), 2);
    assert_eq!(gene_bytes(&p.genomes[0]), gene_bytes(&Genome::generate(2)));
    assert_eq!(gene_bytes(&p.genomes[1]), gene_bytes(&Genome::generate(3)));
}

#[test]
fn test_chromosome_generate_sizes() {
    let c = Chromosome::generate(5, 3, 1000);
    assert_eq!(c.genes.len(), 5);
    for g in c.genes.iter() {
        assert_eq!(g.data.len(), 3);
    }
}

#[test]
fn test_gene_generate_deterministic() {
    let a = Gene::generate(77, 10);
    let b = Gene::generate(77, 10);
    assert_eq!(a.data, b.data);
    assert_eq!(a.data.len(), 10);
}
