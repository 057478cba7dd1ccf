use novelty_search::bits::{le_bits, lt_bits, nan_bits, order_key};
use novelty_search::sorting::sort_bits_asc;

const SAMPLES: [f64; 12] = [
    f64::NEG_INFINITY,
    -1.0e300,
    -2.5,
    -1.0,
    -1.0e-300,
    -0.0,
    0.0,
    1.0e-300,
    1.0,
    2.5,
    1.0e300,
    f64::INFINITY,
];

#[test]
fn order_agrees_with_numeric_order_on_non_nan_values() {
    for &a in &SAMPLES {
        for &b in &SAMPLES {
            assert_eq!(le_bits(a.to_bits(), b.to_bits()), a <= b, "le on {a} {b}");
            assert_eq!(lt_bits(a.to_bits(), b.to_bits()), a < b, "lt on {a} {b}");
        }
    }
}

#[test]
fn the_two_zeros_share_one_order_key() {
    assert_eq!(order_key(0.0f64.to_bits()), order_key((-0.0f64).to_bits()));
    assert!(!lt_bits((-0.0f64).to_bits(), 0.0f64.to_bits()));
    assert!(!lt_bits(0.0f64.to_bits(), (-0.0f64).to_bits()));
}

#[test]
fn nan_bits_recognises_exactly_the_nan_patterns() {
    assert!(nan_bits(f64::NAN.to_bits()));
    assert!(nan_bits((-f64::NAN).to_bits()));
    assert!(nan_bits((0.0f64 / 0.0f64).to_bits()));
    for &a in &SAMPLES {
        assert!(!nan_bits(a.to_bits()), "not NaN: {a}");
    }
}

#[test]
fn sorting_bit_patterns_sorts_the_values() {
    let values: Vec<f64> = vec![2.5, -1.0, 0.0, 10.0, -0.5, 3.25, -1.5e8, 7.0];
    let bits: Vec<u64> = values.iter().map(|x| x.to_bits()).collect();
    let sorted_bits = sort_bits_asc(&bits);
    let sorted: Vec<f64> = sorted_bits.iter().map(|b| f64::from_bits(*b)).collect();
    let mut expected = values.clone();
    expected.sort_by(|a, b| a.partial_cmp(b).unwrap());
    assert_eq!(sorted, expected);
}
