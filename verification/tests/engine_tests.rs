use genexpr::engine::ChromosomeType;
use genexpr::engine::GenerationOutcome;
use genexpr::engine::run_generation;
use genexpr::engine::seed_population;
use genexpr::engine::solve;
use genexpr::eval::EXACT_FITNESS;
use genexpr::rng::rng_from_seed;

/// Builds a 300-bit chromosome from leading gene patterns, padding with
/// the invalid gene 1111, which decoding skips.
fn chromosome_bits(genes: &str) -> Vec<bool> {
    let mut bits: Vec<bool> = genes.chars().map(|c| c == '1').collect();
    assert!(bits.len() % 4 == 0 && bits.len() <= 300);
    while bits.len() < 300 {
        bits.push(true);
    }
    bits
}

fn slot(bits: Vec<bool>) -> ChromosomeType {
    ChromosomeType { chromosome: bits, parsed_genes: Vec::new(), fitness: 0 }
}

#[test]
fn chromosome_new_generates_full_length() {
    let mut rng = rng_from_seed(2);
    let c = ChromosomeType::new(true, &mut rng);
    assert_eq!(c.chromosome.len(), 300);
    assert_eq!(c.parsed_genes.len(), 0);
    assert_eq!(c.fitness, 0);
    let empty = ChromosomeType::new(false, &mut rng);
    assert_eq!(empty.chromosome.len(), 0);
}

#[test]
fn chromosome_parse_and_score() {
    let mut c = slot(chromosome_bits("010110100011"));
    c.parse_genes();
    assert_eq!(c.parsed_genes, vec![5, 10, 3]);
    c.assign_fitness(80);
    assert_eq!(c.fitness, EXACT_FITNESS);
    c.assign_fitness(100);
    assert_eq!(c.fitness, 500_000);
}

#[test]
fn chromosome_expression_text() {
    let mut c = slot(chromosome_bits("001011000010"));
    c.parse_genes();
    let s: String = c.expression().into_iter().collect();
    assert_eq!(s, "2 * 2 ");
}

#[test]
fn seed_population_size_and_length() {
    let mut rng = rng_from_seed(4);
    let pop = seed_population(&mut rng);
    assert_eq!(pop.len(), 100);
    for c in &pop {
        assert_eq!(c.chromosome.len(), 300);
    }
}

#[test]
fn generation_reports_exact_match_and_terminates() {
    // target 4.0; one chromosome decodes to 2 * 2
    let mut rng = rng_from_seed(6);
    let mut pop: Vec<ChromosomeType> = Vec::new();
    for i in 0..100 {
        if i == 57 {
            pop.push(slot(chromosome_bits("001011000010")));
        } else {
            pop.push(slot(vec![true; 300]));
        }
    }
    match run_generation(pop, 40, &mut rng) {
        GenerationOutcome::Solved(c) => {
            assert_eq!(c.parsed_genes, vec![2, 12, 2]);
            assert_eq!(c.fitness, EXACT_FITNESS);
            let s: String = c.expression().into_iter().collect();
            assert_eq!(s, "2 * 2 ");
        },
        GenerationOutcome::Next(_) => panic!("an exact match must end the search"),
    }
}

#[test]
fn generation_breeds_a_full_population_when_unsolved() {
    // all-invalid chromosomes decode to nothing and never solve
    let mut rng = rng_from_seed(8);
    let mut pop: Vec<ChromosomeType> = Vec::new();
    for _ in 0..100 {
        pop.push(slot(vec![true; 300]));
    }
    match run_generation(pop, 40, &mut rng) {
        GenerationOutcome::Solved(_) => panic!("nothing to solve with"),
        GenerationOutcome::Next(next) => {
            assert_eq!(next.len(), 100);
            for c in &next {
                assert_eq!(c.chromosome.len(), 300);
            }
        },
    }
}

#[test]
fn solve_reports_generation_within_budget() {
    let mut rng = rng_from_seed(10);
    match solve(40, 3, &mut rng) {
        Some((generation, c)) => {
            assert!(generation >= 1 && generation <= 3);
            assert_eq!(c.fitness, EXACT_FITNESS);
        },
        None => {},
    }
}
