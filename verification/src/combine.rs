//! Digit-wise combination of two normalized digests into a worst-case digest.

use vstd::prelude::*;

use crate::model::{all_tryte_values_i8, worst_digit};
use crate::MAX_TRYTE_VALUE;

verus! {

/// Combine two normalized bundle digests of equal length: index-wise keep
/// whichever value is closer to the unsafe extreme `MAX_TRYTE_VALUE`, a tie
/// keeping the second.
pub fn min_normalized_bundle(a: &Vec<i8>, b: &Vec<i8>, out: &mut Vec<i8>)
    requires
        a@.len() == b@.len(),
        old(out)@.len() == a@.len(),
        all_tryte_values_i8(a@),
        all_tryte_values_i8(b@),
    ensures
        final(out)@.len() == a@.len(),
        forall|i: int|
            0 <= i < a@.len() ==> #[trigger] final(out)@[i] as int == worst_digit(
                a@[i] as int,
                b@[i] as int,
            ),
{
    let mut i: usize = 0;
    while i < a.len()
        invariant
            i <= a@.len(),
            a@.len() == b@.len(),
            out@.len() == a@.len(),
            all_tryte_values_i8(a@),
            all_tryte_values_i8(b@),
            forall|k: int|
                0 <= k < i ==> #[trigger] out@[k] as int == worst_digit(a@[k] as int, b@[k] as int),
        decreases a@.len() - i,
    {
        if MAX_TRYTE_VALUE - a[i] < MAX_TRYTE_VALUE - b[i] {
            out.set(i, a[i]);
        } else {
            out.set(i, b[i]);
        }
        i += 1;
    }
}

/// Laws of the worst-case combination: it is commutative in value, it leaves
/// equal inputs unchanged, and each combined value sits at least as close to
/// the unsafe extreme as the corresponding value of either input.
pub proof fn lemma_worst_case_combination(a: Seq<i8>, b: Seq<i8>)
    requires
        a.len() == b.len(),
    ensures
        forall|i: int|
            0 <= i < a.len() ==> #[trigger] worst_digit(a[i] as int, b[i] as int) == worst_digit(
                b[i] as int,
                a[i] as int,
            ),
        a == b ==> forall|i: int|
            0 <= i < a.len() ==> #[trigger] worst_digit(a[i] as int, b[i] as int) == a[i] as int,
        forall|i: int|
            0 <= i < a.len() ==> 13 - #[trigger] worst_digit(a[i] as int, b[i] as int) <= 13 - a[i]
                && 13 - worst_digit(a[i] as int, b[i] as int) <= 13 - b[i],
{
}

} // verus!
