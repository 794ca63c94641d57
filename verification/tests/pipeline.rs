use bundle_miner::combine::min_normalized_bundle;
use bundle_miner::normalize::normalized_bundle;
use bundle_miner::search::mine_candidate;
use iota_conversion::Trinary;

/// Per-digit unsafety contributions multiplied over the first `n` fragments;
/// a zero contribution (a perfectly safe digit) is skipped rather than
/// zeroing the running product, which starts at 1.0 the first time a nonzero
/// contribution appears and stays 0.0 if none ever does.
fn probability_of_losing(nb: &[i8], n: usize) -> f64 {
    let mut p = 0.0;
    let mut seen = false;
    for i in 0..n * 27 {
        let pi = 1.0 - f64::from(13 - nb[i]) / 26.0;
        if pi > 0.0 {
            if !seen {
                p = 1.0;
                seen = true;
            }
            p *= pi;
        }
    }
    p
}

fn mine(min: &[i8], number_of_fragments: usize, essence: &mut Vec<i8>, offset: i32, count: i32) -> i32 {
    let min_v: Vec<i8> = min.to_vec();
    let mut best = 1.0f64;
    let mut best_index = 0i32;
    let mut index = offset;
    while index < offset + count {
        if let Some(c) = mine_candidate(&min_v, essence, index) {
            let p = probability_of_losing(&c, number_of_fragments);
            if p < best {
                best = p;
                best_index = index;
            }
        }
        index += 1;
    }
    best_index
}

#[test]
fn test_mine() {
    let v1: Vec<i8> =
        "QVXRKNRXFZIPFPREXRAPNHNSRFFQOWBGCAFZEGFCKDPDXRNVZQ9VJPQPPTFXKPVZVAIENQLETXRVSFKFO".trits();
    let mut a: Vec<i8> = vec![0; 243];
    for (i, t) in v1.iter().enumerate() {
        a[i] = *t;
    }

    let v2: Vec<i8> =
        "JKHLAKTRTDIKMTERIRYEWI9PPOJAKHZEMNCXFB9GTRZRWKSFVAZANHSPABGGQIJAVULKMPPAL9VBSRB9E".trits();
    let mut b: Vec<i8> = vec![0; 243];
    for (i, t) in v2.iter().enumerate() {
        b[i] = *t;
    }

    let mut nb1: Vec<i8> = vec![0; 81];
    normalized_bundle(&a, &mut nb1);

    let mut nb2: Vec<i8> = vec![0; 81];
    normalized_bundle(&b, &mut nb2);

    let mut m: Vec<i8> = vec![0; 81];
    min_normalized_bundle(&nb1, &nb2, &mut m);

    // Regression fixture: the best index over this range, pinned to this
    // hash primitive; re-running the identical, deterministic pipeline must
    // reproduce it exactly.
    let mut e: Vec<i8> = vec![0; 486 * 4];
    let i: i32 = mine(&m, 2, &mut e, 0, 500);
    assert_eq!(i, 399);

    let mut e2: Vec<i8> = vec![0; 486 * 4];
    let i2: i32 = mine(&m, 2, &mut e2, 0, 500);
    assert_eq!(i2, i);
    assert_eq!(e2, e);
}
