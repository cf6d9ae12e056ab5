use genexpr::ops::crossover_genomes;
use genexpr::ops::crossover;
use genexpr::ops::mutate_with;
use genexpr::ops::mutate;
use genexpr::ops::select_index;
use genexpr::ops::roulette;
use genexpr::rng::rng_from_seed;

/// A 300-bit string with a fixed period-`p` pattern.
fn patterned(p: usize) -> Vec<bool> {
    (0..300).map(|i| i % p == 0).collect()
}

#[test]
fn crossover_identity_when_not_triggered() {
    let p1 = patterned(2);
    let p2 = patterned(3);
    let (c1, c2) = crossover_genomes(&p1, &p2, false, 0);
    assert_eq!(c1, p1);
    assert_eq!(c2, p2);
    let (c1, c2) = crossover_genomes(&p1, &p2, false, 150);
    assert_eq!(c1, p1);
    assert_eq!(c2, p2);
}

#[test]
fn crossover_children_keep_full_length() {
    let p1 = patterned(2);
    let p2 = patterned(3);
    for cut in [0usize, 1, 150, 299] {
        let (c1, c2) = crossover_genomes(&p1, &p2, true, cut);
        assert_eq!(c1.len(), 300);
        assert_eq!(c2.len(), 300);
    }
}

#[test]
fn crossover_recombines_at_cut() {
    let p1 = patterned(2);
    let p2 = patterned(3);
    let cut = 100;
    let (c1, c2) = crossover_genomes(&p1, &p2, true, cut);
    // first child: second parent's suffix, then first parent's prefix
    let mut want1: Vec<bool> = p2[cut..].to_vec();
    want1.extend_from_slice(&p1[..cut]);
    assert_eq!(c1, want1);
    // second child: first parent's prefix, then second parent's suffix
    let mut want2: Vec<bool> = p1[..cut].to_vec();
    want2.extend_from_slice(&p2[cut..]);
    assert_eq!(c2, want2);
}

#[test]
fn crossover_drawn_children_keep_full_length() {
    let mut rng = rng_from_seed(5);
    let p1 = patterned(2);
    let p2 = patterned(3);
    for _ in 0..20 {
        let (c1, c2) = crossover(&p1, &p2, &mut rng);
        assert_eq!(c1.len(), 300);
        assert_eq!(c2.len(), 300);
    }
}

#[test]
fn mutation_identity_without_flips() {
    let bits = patterned(7);
    let flips = vec![false; 300];
    assert_eq!(mutate_with(&bits, &flips), bits);
}

#[test]
fn mutation_flips_exactly_the_flagged_bits() {
    let bits = patterned(7);
    let mut flips = vec![false; 300];
    flips[0] = true;
    flips[13] = true;
    flips[299] = true;
    let out = mutate_with(&bits, &flips);
    for i in 0..300 {
        if flips[i] {
            assert_eq!(out[i], !bits[i]);
        } else {
            assert_eq!(out[i], bits[i]);
        }
    }
}

#[test]
fn mutation_keeps_length() {
    let mut rng = rng_from_seed(9);
    let bits = patterned(5);
    for _ in 0..10 {
        assert_eq!(mutate(&bits, &mut rng).len(), 300);
    }
}

#[test]
fn selection_scans_running_sum() {
    let fits: Vec<u64> = vec![1, 2, 3];
    assert_eq!(select_index(&fits, 0), 0);
    assert_eq!(select_index(&fits, 1), 1);
    assert_eq!(select_index(&fits, 2), 1);
    assert_eq!(select_index(&fits, 3), 2);
    assert_eq!(select_index(&fits, 5), 2);
    // a slice the running sum never exceeds falls back to the last slot
    assert_eq!(select_index(&fits, 6), 2);
}

#[test]
fn selection_degenerate_fitness_always_picks_the_holder() {
    let fits: Vec<u64> = vec![0, 0, 7, 0];
    for slice in 0..7u64 {
        assert_eq!(select_index(&fits, slice), 2);
    }
    // through the drawing wrapper, whatever the seed
    for seed in 0..10u64 {
        let mut rng = rng_from_seed(seed);
        assert_eq!(roulette(7, &fits, &mut rng), 2);
    }
}

#[test]
fn selection_zero_total_falls_back_to_last() {
    let fits: Vec<u64> = vec![0, 0, 0];
    let mut rng = rng_from_seed(3);
    assert_eq!(roulette(0, &fits, &mut rng), 2);
}
