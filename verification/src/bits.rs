//! Bit-level groundwork: a per-bit reading of `u128` words, the low-bits
//! mask, and the cardinality of the set of bit positions that are set.
//!
//! Every set operation of the crate is specified through [`bit`]: a word is
//! understood as the set of positions `j < 128` at which `bit(w, j)` holds.

use vstd::arithmetic::power2::{lemma2_to64, lemma_pow2_adds, lemma_pow2_unfold, pow2};
use vstd::prelude::*;

verus! {

/// True iff bit `j` (counting from the least significant) is set in `x`.
pub open spec fn bit(x: u128, j: u128) -> bool {
    (x >> j) & 1 == 1
}

/// The set of bit positions that are set in `x`.
pub open spec fn bits_of(x: u128) -> Set<int> {
    Set::new(|j: int| 0 <= j < 128 && bit(x, j as u128))
}

/// How the boolean operators on words act on single bits.
pub proof fn lemma_bit_ops(x: u128, y: u128, j: u128)
    by (bit_vector)
    requires
        j < 128,
    ensures
        bit(x | y, j) == (bit(x, j) || bit(y, j)),
        bit(x & y, j) == (bit(x, j) && bit(y, j)),
        bit(x ^ y, j) == (bit(x, j) != bit(y, j)),
        bit(!x, j) == !bit(x, j),
        !bit(0, j),
{
}

/// Bits of a word seen through halving: bit 0 is the parity, and the
/// remaining bits are those of the half word, shifted down by one.
pub proof fn lemma_bit_halving(x: u128, j: u128)
    by (bit_vector)
    requires
        0 < j < 128,
    ensures
        bit(x, 0) == (x % 2 == 1),
        bit(x, j) == bit(x / 2, (j - 1) as u128),
{
}

/// The word with exactly `i` set: a single bit at position `i`.
pub proof fn lemma_single_bit(i: u128, j: u128)
    by (bit_vector)
    requires
        i < 128,
        j < 128,
    ensures
        bit(1u128 << i, j) == (i == j),
{
}

/// A word none of whose bits are set is zero.
pub proof fn lemma_no_bits_zero(x: u128)
    requires
        forall|j: u128| j < 128 ==> !(#[trigger] bit(x, j)),
    ensures
        x == 0,
    decreases x,
{
    assert(bit(x, 0) == (x % 2 == 1)) by (bit_vector);
    if x != 0 {
        assert(forall|j: u128| j < 128 ==> !(#[trigger] bit(x / 2, j))) by {
            assert forall|j: u128| j < 128 implies !(#[trigger] bit(x / 2, j)) by {
                if j < 127 {
                    lemma_bit_halving(x, (j + 1) as u128);
                } else {
                    assert(!bit(x / 2, 127)) by (bit_vector);
                }
            }
        }
        lemma_no_bits_zero(x / 2);
    }
}

/// Words with the same bits are the same word.
pub proof fn lemma_bit_ext(x: u128, y: u128)
    requires
        forall|j: u128| j < 128 ==> #[trigger] bit(x, j) == bit(y, j),
    ensures
        x == y,
    decreases x + y,
{
    if x == 0 {
        assert forall|j: u128| j < 128 implies !(#[trigger] bit(y, j)) by {
            lemma_bit_ops(0, 0, j);
        }
        lemma_no_bits_zero(y);
    } else if y == 0 {
        assert forall|j: u128| j < 128 implies !(#[trigger] bit(x, j)) by {
            lemma_bit_ops(0, 0, j);
        }
        lemma_no_bits_zero(x);
    } else {
        lemma_bit_halving(x, 1);
        lemma_bit_halving(y, 1);
        assert(forall|j: u128| j < 128 ==> #[trigger] bit(x / 2, j) == bit(y / 2, j)) by {
            assert forall|j: u128| j < 128 implies #[trigger] bit(x / 2, j) == bit(y / 2, j) by {
                if j < 127 {
                    lemma_bit_halving(x, (j + 1) as u128);
                    lemma_bit_halving(y, (j + 1) as u128);
                } else {
                    assert(!bit(x / 2, 127) && !bit(y / 2, 127)) by (bit_vector);
                }
            }
        }
        lemma_bit_ext(x / 2, y / 2);
    }
}

/// The value of the word with exactly the low `n` bits set.
pub open spec fn mask_val(n: nat) -> nat
    decreases n,
{
    if n == 0 {
        0
    } else {
        2 * mask_val((n - 1) as nat) + 1
    }
}

/// Masks of wider spans carry larger values.
pub proof fn lemma_mask_val_mono(a: nat, b: nat)
    requires
        a <= b,
    ensures
        mask_val(a) <= mask_val(b),
    decreases b,
{
    if a < b {
        lemma_mask_val_mono(a, (b - 1) as nat);
    }
}

/// Each mask is one less than the corresponding power of two.
pub proof fn lemma_mask_val_pow2(n: nat)
    ensures
        mask_val(n) == pow2(n) - 1,
    decreases n,
{
    if n == 0 {
        lemma_pow2_unfold(1);
        assert(pow2(0) == 1) by {
            lemma2_to64();
        }
    } else {
        lemma_mask_val_pow2((n - 1) as nat);
        lemma_pow2_unfold(n);
    }
}

/// The full 128-bit mask is the largest `u128`.
pub proof fn lemma_mask_val_128()
    ensures
        mask_val(128) == u128::MAX,
{
    lemma_mask_val_pow2(128);
    lemma_pow2_adds(64, 64);
    lemma2_to64();
}

/// Which bits the low-`n` mask has: exactly the positions below `n`.
pub proof fn lemma_mask_bits(n: nat, j: u128)
    requires
        n <= 128,
        j < 128,
    ensures
        bit(mask_val(n) as u128, j) == (j < n),
    decreases n,
{
    lemma_mask_val_mono(n, 128);
    lemma_mask_val_128();
    let m = mask_val(n) as u128;
    if n == 0 {
        lemma_bit_ops(0, 0, j);
    } else {
        let h = mask_val((n - 1) as nat) as u128;
        lemma_mask_val_mono((n - 1) as nat, 128);
        assert(m == 2 * h + 1);
        if j == 0 {
            assert(bit(m, 0) == (m % 2 == 1)) by (bit_vector);
        } else {
            lemma_bit_halving(m, j);
            assert(m / 2 == h);
            lemma_mask_bits((n - 1) as nat, (j - 1) as u128);
        }
    }
}

/// A word whose bits all lie below `n` is bounded by the low-`n` mask.
pub proof fn lemma_bits_imply_bound(x: u128, n: nat)
    requires
        n <= 128,
        forall|j: u128| n <= j < 128 ==> !(#[trigger] bit(x, j)),
    ensures
        x as nat <= mask_val(n),
    decreases n,
{
    if n == 0 {
        lemma_no_bits_zero(x);
    } else {
        assert forall|j: u128| (n - 1) as nat <= j < 128 implies !(#[trigger] bit(x / 2, j)) by {
            if j < 127 {
                lemma_bit_halving(x, (j + 1) as u128);
            } else {
                assert(!bit(x / 2, 127)) by (bit_vector);
            }
        }
        lemma_bits_imply_bound(x / 2, (n - 1) as nat);
        assert(bit(x, 0) == (x % 2 == 1)) by (bit_vector);
    }
}

/// A word bounded by the low-`n` mask has no bits at or above `n`.
pub proof fn lemma_bound_implies_bits(x: u128, n: nat)
    requires
        n <= 128,
        x as nat <= mask_val(n),
    ensures
        forall|j: u128| n <= j < 128 ==> !(#[trigger] bit(x, j)),
    decreases n,
{
    if n == 0 {
        assert forall|j: u128| 0 <= j < 128 implies !(#[trigger] bit(x, j)) by {
            lemma_bit_ops(0, 0, j);
        }
    } else {
        let h = mask_val((n - 1) as nat);
        assert(mask_val(n) == 2 * h + 1);
        assert(x as nat / 2 <= h);
        lemma_bound_implies_bits(x / 2, (n - 1) as nat);
        assert forall|j: u128| n <= j < 128 implies !(#[trigger] bit(x, j)) by {
            lemma_bit_halving(x, j);
        }
    }
}

/// The set of positions below `k` at which a bit of `x` is set.
pub open spec fn bits_below(x: u128, k: int) -> Set<int> {
    Set::new(|j: int| 0 <= j < k && j < 128 && bit(x, j as u128))
}

/// Counting one more position either adds that position or changes nothing.
pub proof fn lemma_bits_below_step(x: u128, k: int)
    requires
        0 <= k < 128,
    ensures
        bit(x, k as u128) ==> bits_below(x, k + 1) == bits_below(x, k).insert(k),
        !bit(x, k as u128) ==> bits_below(x, k + 1) == bits_below(x, k),
{
    if bit(x, k as u128) {
        assert(bits_below(x, k + 1) =~= bits_below(x, k).insert(k));
    } else {
        assert(bits_below(x, k + 1) =~= bits_below(x, k));
    }
}

/// Every such set of positions is finite, with no more members than `k`.
pub proof fn lemma_bits_below_finite(x: u128, k: int)
    requires
        0 <= k <= 128,
    ensures
        bits_below(x, k).finite(),
        bits_below(x, k).len() <= k,
    decreases k,
{
    if k == 0 {
        assert(bits_below(x, 0) =~= Set::empty());
    } else {
        lemma_bits_below_finite(x, k - 1);
        lemma_bits_below_step(x, k - 1);
    }
}

/// The whole bit set of a word is what lies below position 128.
pub proof fn lemma_bits_of_is_below(x: u128)
    ensures
        bits_of(x) == bits_below(x, 128),
        bits_of(x).finite(),
        bits_of(x).len() <= 128,
{
    assert(bits_of(x) =~= bits_below(x, 128));
    lemma_bits_below_finite(x, 128);
}

/// The positions at or above `k` at which a bit of `x` is set, in
/// ascending order.
pub open spec fn indices_from(x: u128, k: int) -> Seq<int>
    decreases 128 - k,
{
    if k >= 128 {
        Seq::empty()
    } else if bit(x, k as u128) {
        seq![k] + indices_from(x, k + 1)
    } else {
        indices_from(x, k + 1)
    }
}

/// Words that agree on the bits at or above `k` list the same positions
/// from `k` on.
pub proof fn lemma_indices_congruent(x: u128, y: u128, k: int)
    requires
        0 <= k,
        forall|j: u128| k <= j < 128 ==> #[trigger] bit(x, j) == bit(y, j),
    ensures
        indices_from(x, k) == indices_from(y, k),
    decreases 128 - k,
{
    if k < 128 {
        assert(bit(x, k as u128) == bit(y, k as u128));
        lemma_indices_congruent(x, y, k + 1);
    }
}

/// Listing may start anywhere within a span of clear bits.
pub proof fn lemma_indices_clear_below(x: u128, k: int, m: int)
    requires
        0 <= k <= m <= 128,
        forall|j: u128| k <= j < m ==> !(#[trigger] bit(x, j)),
    ensures
        indices_from(x, k) == indices_from(x, m),
    decreases m - k,
{
    if k < m {
        assert(!bit(x, k as u128));
        lemma_indices_clear_below(x, k + 1, m);
    }
}

/// When `j0` is the lowest set bit, the listing opens with `j0`.
pub proof fn lemma_indices_first(x: u128, j0: int)
    requires
        0 <= j0 < 128,
        bit(x, j0 as u128),
        forall|j: u128| j < j0 ==> !(#[trigger] bit(x, j)),
    ensures
        indices_from(x, 0) == seq![j0] + indices_from(x, j0 + 1),
{
    lemma_indices_clear_below(x, 0, j0);
}

/// The listed positions are exactly the set bits from `k` on, and they
/// come in strictly ascending order.
pub proof fn lemma_indices_props(x: u128, k: int)
    requires
        0 <= k <= 128,
    ensures
        forall|t: int|
            0 <= t < indices_from(x, k).len() ==> k <= #[trigger] indices_from(x, k)[t] < 128
                && bit(x, indices_from(x, k)[t] as u128),
        forall|t1: int, t2: int|
            #![trigger indices_from(x, k)[t1], indices_from(x, k)[t2]]
            0 <= t1 < t2 < indices_from(x, k).len() ==> indices_from(x, k)[t1] < indices_from(
                x,
                k,
            )[t2],
        forall|j: u128| k <= j < 128 && #[trigger] bit(x, j) ==> indices_from(x, k).contains(j as int),
    decreases 128 - k,
{
    let s = indices_from(x, k);
    if k < 128 {
        lemma_indices_props(x, k + 1);
        let rest = indices_from(x, k + 1);
        if bit(x, k as u128) {
            assert(s == seq![k] + rest);
            assert forall|j: u128| k <= j < 128 && #[trigger] bit(x, j) implies s.contains(
                j as int,
            ) by {
                if j == k {
                    assert(s[0] == k);
                } else {
                    assert(rest.contains(j as int));
                    let t = choose|t: int| 0 <= t < rest.len() && rest[t] == j as int;
                    assert(s[t + 1] == j as int);
                }
            }
        } else {
            assert(s == rest);
            assert forall|j: u128| k <= j < 128 && #[trigger] bit(x, j) implies s.contains(
                j as int,
            ) by {
                assert(j != k);
            }
        }
    }
}

/// How many positions are listed: all the set bits not already counted
/// below the starting point.
pub proof fn lemma_indices_len(x: u128, k: int)
    requires
        0 <= k <= 128,
    ensures
        indices_from(x, k).len() + bits_below(x, k).len() == bits_of(x).len(),
    decreases 128 - k,
{
    if k == 128 {
        lemma_bits_of_is_below(x);
    } else {
        lemma_indices_len(x, k + 1);
        lemma_bits_below_step(x, k);
        lemma_bits_below_finite(x, k);
    }
}

/// Counts the set bits of `w`.
pub fn count_bits(w: u128) -> (r: usize)
    ensures
        r as nat == bits_of(w).len(),
{
    proof {
        assert(bits_below(w, 0) =~= Set::<int>::empty());
    }
    let mut n: usize = 0;
    let mut j: usize = 0;
    while j < 128
        invariant
            j <= 128,
            n <= j,
            n as nat == bits_below(w, j as int).len(),
        decreases 128 - j,
    {
        proof {
            lemma_bits_below_finite(w, j as int);
            lemma_bits_below_step(w, j as int);
        }
        if test_bit(w, j) {
            n = n + 1;
        }
        j = j + 1;
    }
    proof {
        lemma_bits_of_is_below(w);
    }
    n
}

/// The position of the lowest set bit of a nonzero word.
pub fn lowest_bit(w: u128) -> (r: usize)
    requires
        w != 0,
    ensures
        r < 128,
        bit(w, r as u128),
        forall|j: u128| j < r ==> !(#[trigger] bit(w, j)),
{
    let mut j: usize = 0;
    while j < 128
        invariant
            j <= 128,
            forall|i: u128| i < j ==> !(#[trigger] bit(w, i)),
        decreases 128 - j,
    {
        if test_bit(w, j) {
            return j;
        }
        j = j + 1;
    }
    proof {
        lemma_no_bits_zero(w);
    }
    0
}

/// Reads bit `j` of `w`.
pub fn test_bit(w: u128, j: usize) -> (r: bool)
    requires
        j < 128,
    ensures
        r == bit(w, j as u128),
{
    (w >> (j as u128)) & 1 == 1
}

/// Sets bit `j` of `w`.
pub fn set_bit(w: u128, j: usize) -> (r: u128)
    requires
        j < 128,
    ensures
        forall|k: u128| k < 128 ==> #[trigger] bit(r, k) == (bit(w, k) || k == j),
{
    let r = w | (1u128 << (j as u128));
    proof {
        assert forall|k: u128| k < 128 implies #[trigger] bit(r, k) == (bit(w, k) || k == j) by {
            lemma_bit_ops(w, 1u128 << (j as u128), k);
            lemma_single_bit(j as u128, k);
        }
    }
    r
}

/// Clears bit `j` of `w`.
pub fn clear_bit(w: u128, j: usize) -> (r: u128)
    requires
        j < 128,
    ensures
        forall|k: u128| k < 128 ==> #[trigger] bit(r, k) == (bit(w, k) && k != j),
{
    let r = w & !(1u128 << (j as u128));
    proof {
        assert forall|k: u128| k < 128 implies #[trigger] bit(r, k) == (bit(w, k) && k != j) by {
            lemma_bit_ops(1u128 << (j as u128), 0, k);
            lemma_bit_ops(w, !(1u128 << (j as u128)), k);
            lemma_single_bit(j as u128, k);
        }
    }
    r
}

} // verus!
