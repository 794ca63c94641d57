use bundle_miner::combine::min_normalized_bundle;

#[test]
fn test_min_normalized_bundle_exact() {
    let a: Vec<i8> = vec![5, -3, 13, -13, 0];
    let b: Vec<i8> = vec![4, -2, 13, -13, 1];
    let mut out: Vec<i8> = vec![0; 5];
    min_normalized_bundle(&a, &b, &mut out);
    // Index-wise the value closer to 13 survives.
    assert_eq!(out, vec![5, -2, 13, -13, 1]);
}

#[test]
fn test_min_normalized_bundle_commutes() {
    let a: Vec<i8> = vec![7, -13, 2, 0, 13, -1];
    let b: Vec<i8> = vec![-7, 13, 2, 1, -13, -1];
    let mut ab: Vec<i8> = vec![0; 6];
    let mut ba: Vec<i8> = vec![0; 6];
    min_normalized_bundle(&a, &b, &mut ab);
    min_normalized_bundle(&b, &a, &mut ba);
    assert_eq!(ab, ba);
    for i in 0..6 {
        assert!(13 - ab[i] <= 13 - a[i]);
        assert!(13 - ab[i] <= 13 - b[i]);
    }
}

#[test]
fn test_min_normalized_bundle_identity_on_equal() {
    let a: Vec<i8> = vec![3, -5, 0, 13, -13];
    let mut out: Vec<i8> = vec![0; 5];
    min_normalized_bundle(&a, &a, &mut out);
    assert_eq!(out, a);
}
