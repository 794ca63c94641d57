//! Mathematical model of digests, fragments and their normalization.

use vstd::prelude::*;

verus! {

/// The smaller of two integers.
pub open spec fn imin(a: int, b: int) -> int {
    if a <= b {
        a
    } else {
        b
    }
}

/// The larger of two integers.
pub open spec fn imax(a: int, b: int) -> int {
    if a >= b {
        a
    } else {
        b
    }
}

/// Every entry of `s` is a balanced trit.
pub open spec fn all_trits(s: Seq<i8>) -> bool {
    forall|i: int| 0 <= i < s.len() ==> -1 <= #[trigger] s[i] <= 1
}

/// Every entry of `s` is a tryte value.
pub open spec fn all_tryte_values(s: Seq<int>) -> bool {
    forall|i: int| 0 <= i < s.len() ==> -13 <= #[trigger] s[i] <= 13
}

/// Every entry of `s` is a tryte value.
pub open spec fn all_tryte_values_i8(s: Seq<i8>) -> bool {
    forall|i: int| 0 <= i < s.len() ==> -13 <= #[trigger] s[i] <= 13
}

/// Tryte value `j` of a raw trit digest: three consecutive trits with place
/// values 1, 3 and 9.
pub open spec fn raw_tryte(b: Seq<i8>, j: int) -> int {
    b[3 * j] + 3 * b[3 * j + 1] + 9 * b[3 * j + 2]
}

/// The 27 tryte values of security fragment `f` of a raw trit digest.
pub open spec fn fragment_trytes(b: Seq<i8>, f: int) -> Seq<int> {
    Seq::new(27, |j: int| raw_tryte(b, 27 * f + j))
}

/// Sum of the first `k` values of `s`.
pub open spec fn sum_prefix(s: Seq<int>, k: int) -> int
    decreases k,
{
    if k <= 0 {
        0
    } else {
        sum_prefix(s, k - 1) + s[k - 1]
    }
}

/// How many unit decrements the first `k` values admit before they all sit at -13.
pub open spec fn down_capacity(s: Seq<int>, k: int) -> int {
    sum_prefix(s, k) + 13 * k
}

/// How many unit increments the first `k` values admit before they all sit at 13.
pub open spec fn up_capacity(s: Seq<int>, k: int) -> int {
    13 * k - sum_prefix(s, k)
}

/// Value `j` of the normalized form of fragment `s`.
///
/// Normalization removes the fragment's surplus (its total, when positive) by
/// unit decrements that always hit the first value still above -13, so value
/// `j` gives up whatever surplus the values before it could not absorb, up to
/// its own distance from -13; a negative total is filled up symmetrically
/// toward 13.
pub open spec fn norm_digit(s: Seq<int>, j: int) -> int {
    let total = sum_prefix(s, s.len() as int);
    if total >= 0 {
        s[j] - imin(s[j] + 13, imax(0, total - down_capacity(s, j)))
    } else {
        s[j] + imin(13 - s[j], imax(0, -total - up_capacity(s, j)))
    }
}

/// The normalized form of one security fragment.
pub open spec fn normalize_fragment(s: Seq<int>) -> Seq<int> {
    Seq::new(s.len(), |j: int| norm_digit(s, j))
}

/// The 81 tryte values of the normalized bundle digest of a 243-trit raw digest.
pub open spec fn normalized_digest(b: Seq<i8>) -> Seq<int> {
    Seq::new(81, |i: int| norm_digit(fragment_trytes(b, i / 27), i % 27))
}

/// Of two tryte values, whichever is closer to the unsafe extreme 13; ties
/// favor the first (on a tie both hold the same value).
pub open spec fn worst_digit(x: int, y: int) -> int {
    if 13 - y < 13 - x {
        y
    } else {
        x
    }
}

/// The tryte values of fragment `f` of an already normalized digest, as integers.
pub open spec fn digest_fragment(s: Seq<i8>, f: int) -> Seq<int> {
    Seq::new(27, |j: int| s[27 * f + j] as int)
}

/// The tryte values read out of a raw trit digest are tryte values.
pub proof fn lemma_fragment_trytes_range(b: Seq<i8>, f: int)
    requires
        b.len() == 243,
        all_trits(b),
        0 <= f < 3,
    ensures
        all_tryte_values(fragment_trytes(b, f)),
{
    assert forall|j: int| 0 <= j < 27 implies -13 <= #[trigger] fragment_trytes(b, f)[j]
        <= 13 by {
        assert(fragment_trytes(b, f)[j] == raw_tryte(b, 27 * f + j));
        assert(-1 <= b[3 * (27 * f + j)] <= 1);
        assert(-1 <= b[3 * (27 * f + j) + 1] <= 1);
        assert(-1 <= b[3 * (27 * f + j) + 2] <= 1);
    }
}

proof fn lemma_drain_sum(s: Seq<int>, k: int)
    requires
        s.len() == 27,
        all_tryte_values(s),
        sum_prefix(s, 27) >= 0,
        0 <= k <= 27,
    ensures
        sum_prefix(normalize_fragment(s), k) == sum_prefix(s, k) - imin(
            sum_prefix(s, 27),
            down_capacity(s, k),
        ),
    decreases k,
{
    if k > 0 {
        lemma_drain_sum(s, k - 1);
        assert(normalize_fragment(s)[k - 1] == norm_digit(s, k - 1));
        assert(s[k - 1] + 13 >= 0);
    }
}

proof fn lemma_fill_sum(s: Seq<int>, k: int)
    requires
        s.len() == 27,
        all_tryte_values(s),
        sum_prefix(s, 27) < 0,
        0 <= k <= 27,
    ensures
        sum_prefix(normalize_fragment(s), k) == sum_prefix(s, k) + imin(
            -sum_prefix(s, 27),
            up_capacity(s, k),
        ),
    decreases k,
{
    if k > 0 {
        lemma_fill_sum(s, k - 1);
        assert(normalize_fragment(s)[k - 1] == norm_digit(s, k - 1));
        assert(13 - s[k - 1] >= 0);
    }
}

/// Normalizing a fragment of tryte values drives its sum to exactly zero and
/// keeps every value a tryte value.
pub proof fn lemma_normalize_fragment_sum_zero(s: Seq<int>)
    requires
        s.len() == 27,
        all_tryte_values(s),
    ensures
        sum_prefix(normalize_fragment(s), 27) == 0,
        all_tryte_values(normalize_fragment(s)),
{
    let total = sum_prefix(s, 27);
    if total >= 0 {
        lemma_drain_sum(s, 27);
        assert(down_capacity(s, 27) == total + 13 * 27);
    } else {
        lemma_fill_sum(s, 27);
        assert(up_capacity(s, 27) == 13 * 27 - total);
    }
    assert forall|j: int| 0 <= j < 27 implies -13 <= #[trigger] normalize_fragment(s)[j]
        <= 13 by {
        assert(normalize_fragment(s)[j] == norm_digit(s, j));
        assert(-13 <= s[j] <= 13);
    }
}

} // verus!
