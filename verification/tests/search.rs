use bundle_miner::search::{has_unsafe_digit, mine_candidate};

#[test]
fn test_has_unsafe_digit() {
    assert!(has_unsafe_digit(&vec![0, -13, 13, 2]));
    assert!(!has_unsafe_digit(&vec![0, -13, 12, 2]));
    assert!(!has_unsafe_digit(&Vec::new()));
}

#[test]
fn test_mine_candidate_deterministic() {
    // An all minus-thirteen baseline never wins a digit, so the result is the
    // candidate's own normalized digest.
    let min: Vec<i8> = vec![-13; 81];
    let mut essence_a: Vec<i8> = vec![0; 486];
    let mut essence_b: Vec<i8> = vec![0; 486];
    let ra = mine_candidate(&min, &mut essence_a, 7);
    let rb = mine_candidate(&min, &mut essence_b, 7);
    assert_eq!(essence_a, essence_b);
    assert_eq!(ra, rb);
}

#[test]
fn test_mine_candidate_nonce_region() {
    let min: Vec<i8> = vec![-13; 81];
    let mut essence: Vec<i8> = vec![0; 486];
    let _ = mine_candidate(&min, &mut essence, 4);
    let mut expected: Vec<i8> = vec![0; 81];
    expected[0] = 1;
    expected[1] = 1;
    assert_eq!(&essence[324..405], expected.as_slice());
    assert!(essence[..324].iter().all(|&t| t == 0));
    assert!(essence[405..].iter().all(|&t| t == 0));
}

#[test]
fn test_mine_candidate_digest_properties() {
    // An all minus-thirteen baseline never wins a digit, so an accepted
    // candidate returns its own normalized digest.
    let min: Vec<i8> = vec![-13; 81];
    let mut accepted: Vec<Vec<i8>> = Vec::new();
    for index in 0..200 {
        let mut essence: Vec<i8> = vec![0; 486];
        if let Some(c) = mine_candidate(&min, &mut essence, index) {
            assert_eq!(c.len(), 81);
            // an accepted candidate holds no digit at the unsafe extreme
            assert!(c.iter().all(|&v| (-13..13).contains(&v)));
            // each fragment of a normalized digest sums to zero
            for f in 0..3 {
                let sum: i32 = c[27 * f..27 * (f + 1)].iter().map(|&v| i32::from(v)).sum();
                assert_eq!(sum, 0);
            }
            // the digest really comes from the hash, not from the essence
            assert_ne!(c, vec![0i8; 81]);
            accepted.push(c);
            if accepted.len() == 2 {
                break;
            }
        }
    }
    // some candidates are accepted, and different nonces hash differently
    assert_eq!(accepted.len(), 2);
    assert_ne!(accepted[0], accepted[1]);
}
