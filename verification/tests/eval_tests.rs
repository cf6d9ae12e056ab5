use genexpr::eval::evaluate;
use genexpr::eval::EXACT_FITNESS;

#[test]
fn fitness_exact_match() {
    // 5 + 3 against 8.0 scores the exact-match sentinel
    assert_eq!(evaluate(&vec![5, 10, 3], 80), EXACT_FITNESS);
    assert_eq!(EXACT_FITNESS, 999_900_000);
}

#[test]
fn fitness_shaping() {
    // 5 + 3 against 10.0 scores 1 / |10 - 8| = 0.5, in millionths
    assert_eq!(evaluate(&vec![5, 10, 3], 100), 500_000);
}

#[test]
fn fitness_empty_sequence_is_zero() {
    assert_eq!(evaluate(&vec![], 80), 0);
    assert_eq!(evaluate(&vec![], 0), 0);
}

#[test]
fn fitness_single_operand() {
    // a lone operand evaluates to itself
    assert_eq!(evaluate(&vec![7], 70), EXACT_FITNESS);
    assert_eq!(evaluate(&vec![7], 90), 500_000);
}

#[test]
fn fitness_multiply() {
    // 2 * 2 against 4.0
    assert_eq!(evaluate(&vec![2, 12, 2], 40), EXACT_FITNESS);
}

#[test]
fn fitness_left_to_right_fold() {
    // 8 - 2 / 3: (8 - 2) / 3 = 2, no operator precedence
    assert_eq!(evaluate(&vec![8, 11, 2, 13, 3], 20), EXACT_FITNESS);
    // 7 / 2 = 3.5 exactly, in tenths
    assert_eq!(evaluate(&vec![7, 13, 2], 35), EXACT_FITNESS);
}

#[test]
fn fitness_division_truncates_to_tenths() {
    // 1 / 3 is carried as 0.3: division truncates toward zero at a
    // tenth's resolution
    assert_eq!(evaluate(&vec![1, 13, 3], 3), EXACT_FITNESS);
}

#[test]
fn fitness_stays_positive_however_far_off() {
    // a lone 9 against one million: the reciprocal truncates to zero
    // millionths, so the floor of one millionth applies
    assert_eq!(evaluate(&vec![9], 10_000_000), 1);
    // and at the largest admissible target magnitude
    assert_eq!(evaluate(&vec![9], 1_000_000_000_000_000), 1);
    assert_eq!(evaluate(&vec![9], -1_000_000_000_000_000), 1);
    // just under the floor's reach: distance 10.0 scores 0.1 exactly
    assert_eq!(evaluate(&vec![9], 190), 100_000);
}

#[test]
fn fitness_reciprocal_distance() {
    // 9 against 10.0: 1 / |10 - 9| = 1.0
    assert_eq!(evaluate(&vec![9], 100), 1_000_000);
    // 9 against 13.0: 1 / 4 = 0.25
    assert_eq!(evaluate(&vec![9], 130), 250_000);
    // distance 0.1 gives the largest non-exact fitness, 10.0
    assert_eq!(evaluate(&vec![9], 91), 10_000_000);
}
