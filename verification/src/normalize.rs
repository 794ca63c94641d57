//! Normalization of a raw bundle hash into zero-sum security fragments.

use vstd::prelude::*;

use crate::model::{
    all_trits, all_tryte_values, all_tryte_values_i8, digest_fragment, down_capacity,
    fragment_trytes, imax, lemma_fragment_trytes_range, lemma_normalize_fragment_sum_zero,
    norm_digit, normalize_fragment, normalized_digest, raw_tryte, sum_prefix, up_capacity,
};
use crate::{HASH_LENGTH, NORMALIZED_BUNDLE_LENGTH};

verus! {

/// Convert a raw digest of `HASH_LENGTH` trits into a normalized bundle
/// digest of 81 tryte values: each group of 3 trits becomes one tryte value,
/// then each fragment of 27 values is adjusted by unit steps - always at the
/// first value not yet at the relevant bound - until its sum is exactly zero.
///
/// Afterwards every fragment of `output` sums to zero and every value is a
/// tryte value.
pub fn normalized_bundle(bundle: &Vec<i8>, output: &mut Vec<i8>)
    requires
        bundle@.len() == HASH_LENGTH,
        all_trits(bundle@),
        old(output)@.len() == NORMALIZED_BUNDLE_LENGTH,
    ensures
        final(output)@.len() == NORMALIZED_BUNDLE_LENGTH,
        forall|i: int|
            0 <= i < 81 ==> #[trigger] final(output)@[i] as int == normalized_digest(bundle@)[i],
        all_tryte_values_i8(final(output)@),
        forall|f: int|
            0 <= f < 3 ==> sum_prefix(#[trigger] digest_fragment(final(output)@, f), 27) == 0,
{
    let mut f: usize = 0;
    while f < 3
        invariant
            bundle@.len() == 243,
            all_trits(bundle@),
            output@.len() == 81,
            f <= 3,
            forall|i: int|
                0 <= i < 27 * f ==> #[trigger] output@[i] as int == normalized_digest(bundle@)[i],
        decreases 3 - f,
    {
        let ghost s = fragment_trytes(bundle@, f as int);
        proof {
            lemma_fragment_trytes_range(bundle@, f as int);
        }
        let base: usize = f * 27;

        // First pass: read the 27 tryte values of this fragment and their sum.
        let mut sum: i32 = 0;
        let mut j: usize = 0;
        while j < 27
            invariant
                bundle@.len() == 243,
                all_trits(bundle@),
                output@.len() == 81,
                f < 3,
                base == 27 * f,
                j <= 27,
                s == fragment_trytes(bundle@, f as int),
                all_tryte_values(s),
                forall|i: int|
                    0 <= i < 27 * f ==> #[trigger] output@[i] as int == normalized_digest(
                        bundle@,
                    )[i],
                forall|k: int| 0 <= k < j ==> #[trigger] output@[base + k] as int == s[k],
                sum == sum_prefix(s, j as int),
                -13 * j <= sum <= 13 * j,
            decreases 27 - j,
        {
            let idx = base + j;
            proof {
                assert(-1 <= bundle@[3 * (idx as int)] <= 1);
                assert(-1 <= bundle@[3 * (idx as int) + 1] <= 1);
                assert(-1 <= bundle@[3 * (idx as int) + 2] <= 1);
            }
            let t: i8 = bundle[3 * idx] + 3 * bundle[3 * idx + 1] + 9 * bundle[3 * idx + 2];
            output.set(idx, t);
            sum = sum + t as i32;
            proof {
                assert(s[j as int] == raw_tryte(bundle@, 27 * (f as int) + j as int));
                assert(sum == sum_prefix(s, j as int + 1));
            }
            j += 1;
        }

        // Second pass: absorb the surplus (or deficit), left to right.
        if sum >= 0 {
            let mut rem: i32 = sum;
            let mut j: usize = 0;
            while j < 27
                invariant
                    output@.len() == 81,
                    f < 3,
                    base == 27 * f,
                    j <= 27,
                    s.len() == 27,
                    all_tryte_values(s),
                    sum_prefix(s, 27) == sum,
                    0 <= sum <= 351,
                    rem == imax(0, sum - down_capacity(s, j as int)),
                    0 <= rem <= sum,
                    forall|i: int|
                        0 <= i < 27 * f ==> #[trigger] output@[i] as int == normalized_digest(
                            bundle@,
                        )[i],
                    forall|k: int| 0 <= k < j ==> #[trigger] output@[base + k] as int == norm_digit(
                        s,
                        k,
                    ),
                    forall|k: int| j <= k < 27 ==> #[trigger] output@[base + k] as int == s[k],
                decreases 27 - j,
            {
                let x: i8 = output[base + j];
                let cap: i32 = x as i32 + 13;
                let delta: i32 = if rem < cap {
                    rem
                } else {
                    cap
                };
                output.set(base + j, x - delta as i8);
                rem = rem - delta;
                proof {
                    assert(down_capacity(s, j as int + 1) == down_capacity(s, j as int) + (
                    s[j as int] + 13));
                    assert(output@[base + j as int] as int == norm_digit(s, j as int));
                }
                j += 1;
            }
        } else {
            let mut rem: i32 = 0 - sum;
            let mut j: usize = 0;
            while j < 27
                invariant
                    output@.len() == 81,
                    f < 3,
                    base == 27 * f,
                    j <= 27,
                    s.len() == 27,
                    all_tryte_values(s),
                    sum_prefix(s, 27) == sum,
                    -351 <= sum < 0,
                    rem == imax(0, -sum - up_capacity(s, j as int)),
                    0 <= rem <= -sum,
                    forall|i: int|
                        0 <= i < 27 * f ==> #[trigger] output@[i] as int == normalized_digest(
                            bundle@,
                        )[i],
                    forall|k: int| 0 <= k < j ==> #[trigger] output@[base + k] as int == norm_digit(
                        s,
                        k,
                    ),
                    forall|k: int| j <= k < 27 ==> #[trigger] output@[base + k] as int == s[k],
                decreases 27 - j,
            {
                let x: i8 = output[base + j];
                let cap: i32 = 13 - x as i32;
                let delta: i32 = if rem < cap {
                    rem
                } else {
                    cap
                };
                output.set(base + j, x + delta as i8);
                rem = rem - delta;
                proof {
                    assert(up_capacity(s, j as int + 1) == up_capacity(s, j as int) + (13
                    - s[j as int]));
                    assert(output@[base + j as int] as int == norm_digit(s, j as int));
                }
                j += 1;
            }
        }
        proof {
            assert forall|i: int| 27 * f <= i < 27 * (f as int + 1) implies output@[i] as int
                == normalized_digest(bundle@)[i] by {
                let k = i - 27 * f;
                assert(i / 27 == f as int);
                assert(i % 27 == k);
                assert(output@[base + k] as int == norm_digit(s, k));
            }
        }
        f += 1;
    }
    proof {
        assert forall|f: int| 0 <= f < 3 implies sum_prefix(
            #[trigger] digest_fragment(output@, f),
            27,
        ) == 0 by {
            let s = fragment_trytes(bundle@, f);
            lemma_fragment_trytes_range(bundle@, f);
            lemma_normalize_fragment_sum_zero(s);
            assert forall|j: int| 0 <= j < 27 implies #[trigger] digest_fragment(output@, f)[j]
                == normalize_fragment(s)[j] by {
                assert((27 * f + j) / 27 == f);
                assert((27 * f + j) % 27 == j);
                assert(output@[27 * f + j] as int == normalized_digest(bundle@)[27 * f + j]);
            }
            assert(digest_fragment(output@, f) =~= normalize_fragment(s));
        }
        assert forall|i: int| 0 <= i < 81 implies -13 <= #[trigger] output@[i] <= 13 by {
            let f = i / 27;
            let s = fragment_trytes(bundle@, f);
            lemma_fragment_trytes_range(bundle@, f);
            lemma_normalize_fragment_sum_zero(s);
            assert(output@[i] as int == normalized_digest(bundle@)[i]);
            assert(normalize_fragment(s)[i % 27] == norm_digit(s, i % 27));
        }
    }
}

/// For any raw digest, each of the 3 fragments of its normalized digest sums
/// to exactly zero, and every value lies between the safe and the unsafe
/// extreme.
pub proof fn lemma_normalized_digest_fragments(b: Seq<i8>)
    requires
        b.len() == 243,
        all_trits(b),
    ensures
        normalized_digest(b).len() == 81,
        all_tryte_values(normalized_digest(b)),
        forall|f: int|
            0 <= f < 3 ==> sum_prefix(
                #[trigger] normalized_digest(b).subrange(27 * f, 27 * f + 27),
                27,
            ) == 0,
{
    assert forall|f: int| 0 <= f < 3 implies sum_prefix(
        #[trigger] normalized_digest(b).subrange(27 * f, 27 * f + 27),
        27,
    ) == 0 by {
        let s = fragment_trytes(b, f);
        lemma_fragment_trytes_range(b, f);
        lemma_normalize_fragment_sum_zero(s);
        assert forall|j: int| 0 <= j < 27 implies #[trigger] normalized_digest(b).subrange(
            27 * f,
            27 * f + 27,
        )[j] == normalize_fragment(s)[j] by {
            assert((27 * f + j) / 27 == f);
            assert((27 * f + j) % 27 == j);
        }
        assert(normalized_digest(b).subrange(27 * f, 27 * f + 27) =~= normalize_fragment(s));
    }
    assert forall|i: int| 0 <= i < 81 implies -13 <= #[trigger] normalized_digest(b)[i] <= 13 by {
        let f = i / 27;
        let s = fragment_trytes(b, f);
        lemma_fragment_trytes_range(b, f);
        lemma_normalize_fragment_sum_zero(s);
        assert(normalize_fragment(s)[i % 27] == norm_digit(s, i % 27));
    }
}

} // verus!
