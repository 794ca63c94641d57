//! Per-candidate step of the nonce search.

use vstd::prelude::*;

#[allow(deprecated)]
use crypto::hashes::ternary::kerl::Kerl;
use crypto::encoding::ternary::{Btrit, T1B1Buf, TritBuf};
use crypto::hashes::ternary::Sponge;

use crate::combine::min_normalized_bundle;
use crate::encode::{trits_value, write_nonce_trits};
use crate::model::{all_trits, all_tryte_values_i8, normalized_digest, worst_digit};
use crate::normalize::normalized_bundle;
use crate::{HASH_LENGTH, MAX_TRYTE_VALUE, OBSOLETE_TAG_LENGTH, OBSOLETE_TAG_OFFSET};

verus! {

/// What the Kerl sponge squeezes for a given absorbed trit sequence.
pub uninterp spec fn kerl_hash_of(input: Seq<i8>) -> Seq<i8>;

/// Relies on iota-crypto's ternary `Kerl` sponge: `absorb` of a buffer whose
/// length is a positive multiple of 243 trits followed by one `squeeze`
/// returns a 243-trit digest of balanced trits, and depends on the absorbed
/// trits alone.
#[allow(deprecated)]
#[verifier::external_body]
fn kerl_hash(input: &Vec<i8>) -> (r: Vec<i8>)
    requires
        input@.len() as int % HASH_LENGTH as int == 0,
        input@.len() > 0,
        all_trits(input@),
    ensures
        r@ == kerl_hash_of(input@),
        r@.len() == HASH_LENGTH,
        all_trits(r@),
{
    let trits: TritBuf<T1B1Buf> = input.iter().map(|t| Btrit::try_from(*t).unwrap()).collect();
    let mut kerl = Kerl::new();
    kerl.absorb(&trits).unwrap();
    let out = kerl.squeeze().unwrap();
    out.iter().map(i8::from).collect()
}

/// Whether some digit of `nb` sits exactly at the unsafe extreme
/// `MAX_TRYTE_VALUE`, which marks the digest as key-revealing.
pub fn has_unsafe_digit(nb: &Vec<i8>) -> (r: bool)
    ensures
        r == exists|i: int| 0 <= i < nb@.len() && nb@[i] == MAX_TRYTE_VALUE,
{
    let mut i: usize = 0;
    while i < nb.len()
        invariant
            i <= nb@.len(),
            forall|k: int| 0 <= k < i ==> nb@[k] != MAX_TRYTE_VALUE,
        decreases nb@.len() - i,
    {
        if nb[i] == MAX_TRYTE_VALUE {
            return true;
        }
        i += 1;
    }
    false
}

/// Evaluate one nonce candidate: write `index`'s balanced-ternary trits into
/// the essence's nonce region, hash the essence, and normalize the digest.
/// A digest with a digit at the unsafe extreme is rejected; otherwise the
/// digit-wise worst case of the digest and the baseline `min` is returned.
pub fn mine_candidate(min: &Vec<i8>, essence: &mut Vec<i8>, index: i32) -> (r: Option<Vec<i8>>)
    requires
        min@.len() == 81,
        all_tryte_values_i8(min@),
        old(essence)@.len() >= OBSOLETE_TAG_OFFSET + OBSOLETE_TAG_LENGTH,
        old(essence)@.len() as int % HASH_LENGTH as int == 0,
        all_trits(old(essence)@),
    ensures
        final(essence)@.len() == old(essence)@.len(),
        all_trits(final(essence)@),
        forall|i: int| 0 <= i < OBSOLETE_TAG_OFFSET ==> final(essence)@[i] == old(essence)@[i],
        forall|i: int|
            OBSOLETE_TAG_OFFSET + OBSOLETE_TAG_LENGTH <= i < old(essence)@.len()
                ==> final(essence)@[i] == old(essence)@[i],
        trits_value(
            final(essence)@.subrange(
                OBSOLETE_TAG_OFFSET as int,
                (OBSOLETE_TAG_OFFSET + OBSOLETE_TAG_LENGTH) as int,
            ),
        ) == index,
        ({
            let nb = normalized_digest(kerl_hash_of(final(essence)@));
            match r {
                Some(c) => !(exists|i: int| 0 <= i < 81 && nb[i] == MAX_TRYTE_VALUE as int)
                    && c@.len() == 81 && forall|i: int|
                    0 <= i < 81 ==> #[trigger] c@[i] as int == worst_digit(min@[i] as int, nb[i]),
                None => exists|i: int| 0 <= i < 81 && nb[i] == MAX_TRYTE_VALUE as int,
            }
        }),
{
    write_nonce_trits(essence, index as i64);
    proof {
        assert forall|i: int| 0 <= i < essence@.len() implies -1 <= #[trigger] essence@[i]
            <= 1 by {
            if i < 324 || i >= 405 {
                assert(essence@[i] == old(essence)@[i]);
            }
        }
    }
    let digest = kerl_hash(essence);
    let ghost nd = normalized_digest(kerl_hash_of(essence@));

    let mut nb: Vec<i8> = Vec::new();
    while nb.len() < 81
        invariant
            nb@.len() <= 81,
        decreases 81 - nb@.len(),
    {
        nb.push(0);
    }
    normalized_bundle(&digest, &mut nb);

    if has_unsafe_digit(&nb) {
        proof {
            let i = choose|i: int| 0 <= i < nb@.len() && nb@[i] == MAX_TRYTE_VALUE;
            assert(nd[i] == MAX_TRYTE_VALUE as int);
        }
        return None;
    }
    proof {
        assert forall|i: int| 0 <= i < 81 implies nd[i] != MAX_TRYTE_VALUE as int by {
            assert(nb@[i] as int == nd[i]);
            assert(nb@[i] != MAX_TRYTE_VALUE);
        }
    }

    let mut out: Vec<i8> = Vec::new();
    while out.len() < 81
        invariant
            out@.len() <= 81,
        decreases 81 - out@.len(),
    {
        out.push(0);
    }
    min_normalized_bundle(min, &nb, &mut out);
    proof {
        assert forall|i: int| 0 <= i < 81 implies #[trigger] out@[i] as int == worst_digit(
            min@[i] as int,
            nd[i],
        ) by {
            assert(out@[i] as int == worst_digit(min@[i] as int, nb@[i] as int));
            assert(nb@[i] as int == nd[i]);
        }
    }
    Some(out)
}

} // verus!
