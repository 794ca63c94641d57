//! Balanced-ternary encoding of a nonce index into the essence buffer.

use vstd::prelude::*;

use crate::{OBSOLETE_TAG_LENGTH, OBSOLETE_TAG_OFFSET};

verus! {

/// 3 to the power `k` (1 for `k <= 0`).
pub open spec fn pow3(k: int) -> int
    decreases k,
{
    if k <= 0 {
        1
    } else {
        3 * pow3(k - 1)
    }
}

pub proof fn lemma_pow3_pos(k: int)
    ensures
        pow3(k) >= 1,
    decreases k,
{
    if k > 0 {
        lemma_pow3_pos(k - 1);
    }
}

pub proof fn lemma_pow3_mono(j: int, k: int)
    requires
        j <= k,
    ensures
        pow3(j) <= pow3(k),
    decreases k - j,
{
    if j < k {
        lemma_pow3_mono(j, k - 1);
        lemma_pow3_pos(k - 1);
    }
}

/// Value of the first `k` trits of `s`, read as little-endian balanced ternary.
pub open spec fn trits_value_prefix(s: Seq<i8>, k: int) -> int
    decreases k,
{
    if k <= 0 {
        0
    } else {
        trits_value_prefix(s, k - 1) + s[k - 1] * pow3(k - 1)
    }
}

/// Value of a whole trit sequence, read as little-endian balanced ternary.
pub open spec fn trits_value(s: Seq<i8>) -> int {
    trits_value_prefix(s, s.len() as int)
}

/// The value of a prefix depends only on the entries of the prefix.
proof fn lemma_trits_value_prefix_congruence(s1: Seq<i8>, s2: Seq<i8>, k: int)
    requires
        forall|i: int| 0 <= i < k ==> s1[i] == s2[i],
    ensures
        trits_value_prefix(s1, k) == trits_value_prefix(s2, k),
    decreases k,
{
    if k > 0 {
        lemma_trits_value_prefix_congruence(s1, s2, k - 1);
    }
}

/// The value of `k` trits stays within half of 3 to the power `k`.
proof fn lemma_trits_value_prefix_bound(s: Seq<i8>, k: int)
    requires
        0 <= k <= s.len(),
        crate::model::all_trits(s),
    ensures
        -(pow3(k) - 1) <= 2 * trits_value_prefix(s, k) <= pow3(k) - 1,
    decreases k,
{
    if k > 0 {
        lemma_trits_value_prefix_bound(s, k - 1);
        lemma_pow3_pos(k - 1);
        assert(-1 <= s[k - 1] <= 1);
        if s[k - 1] == -1 {
            assert(s[k - 1] * pow3(k - 1) == -pow3(k - 1));
        } else if s[k - 1] == 0 {
            assert(s[k - 1] * pow3(k - 1) == 0);
        } else {
            assert(s[k - 1] * pow3(k - 1) == pow3(k - 1));
        }
    }
}

proof fn lemma_trits_value_prefix_injective(s1: Seq<i8>, s2: Seq<i8>, k: int)
    requires
        0 <= k <= s1.len(),
        k <= s2.len(),
        crate::model::all_trits(s1),
        crate::model::all_trits(s2),
        trits_value_prefix(s1, k) == trits_value_prefix(s2, k),
    ensures
        forall|i: int| 0 <= i < k ==> s1[i] == s2[i],
    decreases k,
{
    if k > 0 {
        lemma_trits_value_prefix_bound(s1, k - 1);
        lemma_trits_value_prefix_bound(s2, k - 1);
        lemma_pow3_pos(k - 1);
        let d = s1[k - 1] - s2[k - 1];
        assert(d * pow3(k - 1) == s1[k - 1] * pow3(k - 1) - s2[k - 1] * pow3(k - 1))
            by (nonlinear_arith)
            requires
                d == s1[k - 1] - s2[k - 1],
        ;
        assert(d * pow3(k - 1) == trits_value_prefix(s2, k - 1) - trits_value_prefix(s1, k - 1));
        if d == -2 {
            assert(d * pow3(k - 1) == -2 * pow3(k - 1));
        } else if d == -1 {
            assert(d * pow3(k - 1) == -pow3(k - 1));
        } else if d == 1 {
            assert(d * pow3(k - 1) == pow3(k - 1));
        } else if d == 2 {
            assert(d * pow3(k - 1) == 2 * pow3(k - 1));
        }
        assert(d == 0);
        lemma_trits_value_prefix_injective(s1, s2, k - 1);
    }
}

/// A value has one balanced-ternary representation at a fixed length, so
/// writing the same nonce index always produces the same trit region - the
/// search pipeline is deterministic in its inputs.
pub proof fn lemma_trits_value_injective(s1: Seq<i8>, s2: Seq<i8>)
    requires
        s1.len() == s2.len(),
        crate::model::all_trits(s1),
        crate::model::all_trits(s2),
        trits_value(s1) == trits_value(s2),
    ensures
        s1 == s2,
{
    lemma_trits_value_prefix_injective(s1, s2, s1.len() as int);
    assert(s1 =~= s2);
}

/// Write the balanced-ternary trits of `index`, least significant first, over
/// the 81-trit nonce region of the essence buffer, leaving the rest of the
/// buffer untouched.  The region afterwards holds trits whose little-endian
/// balanced-ternary value is exactly `index`.
pub fn write_nonce_trits(essence: &mut Vec<i8>, index: i64)
    requires
        old(essence)@.len() >= OBSOLETE_TAG_OFFSET + OBSOLETE_TAG_LENGTH,
        index != i64::MIN,
    ensures
        final(essence)@.len() == old(essence)@.len(),
        forall|i: int| 0 <= i < OBSOLETE_TAG_OFFSET ==> final(essence)@[i] == old(essence)@[i],
        forall|i: int|
            OBSOLETE_TAG_OFFSET + OBSOLETE_TAG_LENGTH <= i < old(essence)@.len()
                ==> final(essence)@[i] == old(essence)@[i],
        forall|i: int|
            OBSOLETE_TAG_OFFSET <= i < OBSOLETE_TAG_OFFSET + OBSOLETE_TAG_LENGTH
                ==> -1 <= #[trigger] final(essence)@[i] <= 1,
        trits_value(
            final(essence)@.subrange(
                OBSOLETE_TAG_OFFSET as int,
                (OBSOLETE_TAG_OFFSET + OBSOLETE_TAG_LENGTH) as int,
            ),
        ) == index,
{
    let neg: bool = index < 0;
    let mut a: u64 = if neg {
        (-index) as u64
    } else {
        index as u64
    };
    let ghost abs0: int = a as int;
    let ghost sgn: int = if neg {
        -1
    } else {
        1
    };
    let mut j: usize = 0;
    while j < 81
        invariant
            essence@.len() == old(essence)@.len(),
            old(essence)@.len() >= 405,
            j <= 81,
            sgn == if neg {
                -1int
            } else {
                1int
            },
            index as int == sgn * abs0,
            abs0 <= 0x7fff_ffff_ffff_ffff,
            forall|i: int| 0 <= i < 324 ==> essence@[i] == old(essence)@[i],
            forall|i: int| 405 <= i < old(essence)@.len() ==> essence@[i] == old(essence)@[i],
            forall|i: int| 324 <= i < 324 + j ==> -1 <= #[trigger] essence@[i] <= 1,
            index as int == trits_value_prefix(essence@.subrange(324, 405), j as int) + sgn * (
            a as int) * pow3(j as int),
            2 * (a as int) * pow3(j as int) <= 2 * abs0 + pow3(j as int) - 1,
        decreases 81 - j,
    {
        let ghost pre_seq = essence@;
        let r: u64 = a % 3;
        let anew: u64 = if r == 2 {
            a / 3 + 1
        } else {
            a / 3
        };
        let d0: i8 = if r == 2 {
            -1
        } else {
            r as i8
        };
        let d: i8 = if neg {
            -d0
        } else {
            d0
        };
        essence.set(OBSOLETE_TAG_OFFSET + j, d);
        proof {
            let aI = a as int;
            let anI = anew as int;
            let d0I = d0 as int;
            let dI = d as int;
            let jI = j as int;
            let sub_old = pre_seq.subrange(324, 405);
            let sub_new = essence@.subrange(324, 405);
            lemma_pow3_pos(jI);
            assert(aI == 3 * (aI / 3) + (aI % 3));
            assert(aI == 3 * anI + d0I);
            assert(dI == sgn * d0I);
            assert(forall|i: int| 0 <= i < jI ==> sub_new[i] == sub_old[i]);
            lemma_trits_value_prefix_congruence(sub_new, sub_old, jI);
            assert(sub_new[jI] == dI);
            assert(trits_value_prefix(sub_new, jI + 1) == trits_value_prefix(sub_new, jI) + dI
                * pow3(jI));
            assert(pow3(jI + 1) == 3 * pow3(jI));
            assert(sgn * aI * pow3(jI) == dI * pow3(jI) + sgn * anI * pow3(jI + 1))
                by (nonlinear_arith)
                requires
                    aI == 3 * anI + d0I,
                    dI == sgn * d0I,
                    pow3(jI + 1) == 3 * pow3(jI),
            ;
            assert(index as int == trits_value_prefix(sub_new, jI + 1) + sgn * anI * pow3(jI + 1));
            assert(3 * anI <= aI + 1);
            assert(2 * anI * pow3(jI + 1) <= 2 * aI * pow3(jI) + 2 * pow3(jI))
                by (nonlinear_arith)
                requires
                    3 * anI <= aI + 1,
                    pow3(jI) >= 1,
                    pow3(jI + 1) == 3 * pow3(jI),
            ;
            assert(2 * anI * pow3(jI + 1) <= 2 * abs0 + pow3(jI + 1) - 1);
        }
        a = anew;
        j += 1;
    }
    proof {
        lemma_pow3_pos(81);
        if a as int >= 1 {
            assert(2 * (a as int) * pow3(81) >= 2 * pow3(81)) by (nonlinear_arith)
                requires
                    a as int >= 1,
                    pow3(81) >= 1,
            ;
            assert(pow3(81) <= 2 * abs0 - 1);
            assert(pow3(41) == 36472996377170786403) by {
                reveal_with_fuel(pow3, 42);
            }
            lemma_pow3_mono(41, 81);
            assert(false);
        }
        assert(sgn * (a as int) * pow3(81) == 0) by (nonlinear_arith)
            requires
                a as int == 0,
        ;
        assert(essence@.subrange(324, 405).len() == 81);
    }
}

} // verus!
