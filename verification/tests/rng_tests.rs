use genexpr::rng::rng_below;
use genexpr::rng::rng_from_seed;

#[test]
fn rng_below_stays_under_its_bound() {
    let mut rng = rng_from_seed(12);
    for bound in 1..50u64 {
        for _ in 0..20 {
            assert!(rng_below(&mut rng, bound) < bound);
        }
    }
}

#[test]
fn rng_below_reaches_more_than_one_value() {
    // a generator that handed a constant back would fail this
    let mut rng = rng_from_seed(13);
    let mut seen = [false; 10];
    for _ in 0..200 {
        seen[rng_below(&mut rng, 10) as usize] = true;
    }
    assert!(seen.iter().filter(|s| **s).count() > 1);
}

#[test]
fn seeded_runs_repeat() {
    let mut a = rng_from_seed(99);
    let mut b = rng_from_seed(99);
    for _ in 0..50 {
        assert_eq!(rng_below(&mut a, 1000), rng_below(&mut b, 1000));
    }
}
