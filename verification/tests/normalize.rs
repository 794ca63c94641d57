use bundle_miner::normalize::normalized_bundle;
use iota_conversion::Trinary;

#[test]
fn test_normalized_bundle_zero_digest() {
    let bundle: Vec<i8> = vec![0; 243];
    let mut output: Vec<i8> = vec![0; 81];
    normalized_bundle(&bundle, &mut output);
    assert_eq!(output, vec![0i8; 81]);
}

#[test]
fn test_normalized_bundle_saturated_digest() {
    // Every tryte value starts at 13, so each fragment's surplus of 351 is
    // absorbed left to right: 13 values sink to -13, one reaches 0, the rest
    // keep 13.
    let bundle: Vec<i8> = vec![1; 243];
    let mut output: Vec<i8> = vec![0; 81];
    normalized_bundle(&bundle, &mut output);
    let mut expected_fragment: Vec<i8> = Vec::new();
    expected_fragment.extend(vec![-13i8; 13]);
    expected_fragment.push(0);
    expected_fragment.extend(vec![13i8; 13]);
    let mut expected: Vec<i8> = Vec::new();
    for _ in 0..3 {
        expected.extend(&expected_fragment);
    }
    assert_eq!(output, expected);
}

#[test]
fn test_normalized_bundle_depleted_digest() {
    // Every tryte value starts at -13, so each fragment's deficit of 351 is
    // filled left to right: 13 values rise to 13, one reaches 0, the rest
    // keep -13.
    let bundle: Vec<i8> = vec![-1; 243];
    let mut output: Vec<i8> = vec![0; 81];
    normalized_bundle(&bundle, &mut output);
    let mut expected_fragment: Vec<i8> = Vec::new();
    expected_fragment.extend(vec![13i8; 13]);
    expected_fragment.push(0);
    expected_fragment.extend(vec![-13i8; 13]);
    let mut expected: Vec<i8> = Vec::new();
    for _ in 0..3 {
        expected.extend(&expected_fragment);
    }
    assert_eq!(output, expected);
}

#[test]
fn test_normalized_bundle_fixture_fragment_sums() {
    let bundle: Vec<i8> =
        "QVXRKNRXFZIPFPREXRAPNHNSRFFQOWBGCAFZEGFCKDPDXRNVZQ9VJPQPPTFXKPVZVAIENQLETXRVSFKFO".trits();
    assert_eq!(bundle.len(), 243);
    let mut output: Vec<i8> = vec![0; 81];
    normalized_bundle(&bundle, &mut output);
    for f in 0..3 {
        let sum: i32 = output[27 * f..27 * (f + 1)].iter().map(|&v| i32::from(v)).sum();
        assert_eq!(sum, 0);
    }
    assert!(output.iter().all(|&v| (-13..=13).contains(&v)));
}
