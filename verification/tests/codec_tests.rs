use genexpr::codec::bin_to_dec;
use genexpr::codec::decode;
use genexpr::codec::generate;
use genexpr::codec::render_expression;
use genexpr::rng::rng_from_seed;

/// Builds a bit vector from a string of '0' and '1'.
fn bits_of(s: &str) -> Vec<bool> {
    s.chars().map(|c| c == '1').collect()
}

/// Builds a 300-bit chromosome from leading gene patterns, padding with
/// the invalid gene 1111, which decoding skips.
fn chromosome_of(genes: &str) -> Vec<bool> {
    let mut bits = bits_of(genes);
    assert!(bits.len() % 4 == 0 && bits.len() <= 300);
    while bits.len() < 300 {
        bits.push(true);
    }
    bits
}

#[test]
fn bin_to_dec_nibbles() {
    assert_eq!(bin_to_dec(&bits_of("0000"), 0), 0);
    assert_eq!(bin_to_dec(&bits_of("0001"), 0), 1);
    assert_eq!(bin_to_dec(&bits_of("1000"), 0), 8);
    assert_eq!(bin_to_dec(&bits_of("1111"), 0), 15);
    assert_eq!(bin_to_dec(&bits_of("1010"), 0), 10);
}

#[test]
fn bin_to_dec_offset() {
    let bits = bits_of("00001010");
    assert_eq!(bin_to_dec(&bits, 0), 0);
    assert_eq!(bin_to_dec(&bits, 4), 10);
}

#[test]
fn decode_simple_expression() {
    // 2 * 2, followed by invalid padding genes
    let bits = chromosome_of("001011000010");
    assert_eq!(decode(&bits), vec![2, 12, 2]);
}

#[test]
fn decode_deterministic() {
    let bits = chromosome_of("010110100011");
    let first = decode(&bits);
    let second = decode(&bits);
    assert_eq!(first, second);
    assert_eq!(first, vec![5, 10, 3]);
}

#[test]
fn decode_skips_role_mismatches() {
    // operator first (skipped), 5, 5 (skipped: operator expected),
    // subtract, 3
    let bits = chromosome_of("10100101010110110011");
    assert_eq!(decode(&bits), vec![5, 11, 3]);
}

#[test]
fn decode_rewrites_divide_by_zero() {
    // 5 / 0 becomes 5 + 0
    let bits = chromosome_of("010111010000");
    assert_eq!(decode(&bits), vec![5, 10, 0]);
}

#[test]
fn decode_trims_trailing_operator() {
    // 7 + with nothing after it: the operator is dropped
    let bits = chromosome_of("01111010");
    assert_eq!(decode(&bits), vec![7]);
}

#[test]
fn decode_all_invalid_is_empty() {
    let bits = chromosome_of("");
    assert_eq!(decode(&bits), Vec::<u32>::new());
}

#[test]
fn decode_alternates_operands_and_operators() {
    let mut rng = rng_from_seed(11);
    for _ in 0..20 {
        let bits = generate(&mut rng);
        let genes = decode(&bits);
        for (k, t) in genes.iter().enumerate() {
            if k % 2 == 0 {
                assert!(*t <= 9);
            } else {
                assert!(*t >= 10 && *t <= 13);
            }
        }
        if let Some(last) = genes.last() {
            assert!(*last <= 9);
        }
        for k in 0..genes.len().saturating_sub(1) {
            assert!(!(genes[k] == 13 && genes[k + 1] == 0));
        }
    }
}

#[test]
fn generate_has_full_length() {
    let mut rng = rng_from_seed(1);
    let bits = generate(&mut rng);
    assert_eq!(bits.len(), 300);
}

#[test]
fn render_expression_tokens() {
    let chars = render_expression(&vec![2, 12, 2]);
    let s: String = chars.into_iter().collect();
    assert_eq!(s, "2 * 2 ");
    let chars = render_expression(&vec![5, 10, 3, 11, 9, 13, 4]);
    let s: String = chars.into_iter().collect();
    assert_eq!(s, "5 + 3 - 9 / 4 ");
}
