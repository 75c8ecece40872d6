//! Padding leaves to a full tree.
use crate::goldilocks::GoldilocksField;
use crate::layers::{
    floor_log2, is_power_of_two, lemma_floor_log2_of_pow2, lemma_pow2_monotonic,
};
use vstd::arithmetic::power2::*;
use vstd::prelude::*;

verus! {

/// The smallest `k` with `n <= 2^k`.
pub open spec fn ceil_log2(n: nat) -> nat {
    if n <= 1 {
        0
    } else {
        floor_log2((n - 1) as nat) + 1
    }
}

/// Leaves of a full tree, and how many of them were there before padding.
#[derive(Debug)]
pub struct PaddedLeaves {
    pub leaves: Vec<Vec<GoldilocksField>>,
    pub num_leaves: usize,
    pub log2_leaves: usize,
    pub padded_size: usize,
}

/// A number between two powers of two has the exponent of the lower one as its logarithm.
proof fn lemma_floor_log2_between(m: nat, k: nat)
    requires
        pow2(k) <= m < pow2(k + 1),
    ensures
        floor_log2(m) == k,
    decreases k,
{
    lemma2_to64();
    lemma_pow2_unfold(k + 1);
    if k > 0 {
        lemma_pow2_unfold(k);
        lemma_pow2_pos((k - 1) as nat);
        lemma_floor_log2_between(m / 2, (k - 1) as nat);
    }
}

/// The padded size is the smallest power of two that is no less than the number of leaves.
pub proof fn lemma_padded_size_least(n: nat, k: nat)
    ensures
        n <= pow2(ceil_log2(n)),
        is_power_of_two(pow2(ceil_log2(n))),
        n <= pow2(k) ==> pow2(ceil_log2(n)) <= pow2(k),
{
    lemma2_to64();
    lemma_floor_log2_of_pow2(ceil_log2(n));
    lemma_pow2_pos(k);
    if n > 1 {
        let m = (n - 1) as nat;
        lemma_floor_log2_bounds(m);
        if n <= pow2(k) {
            if k < ceil_log2(n) {
                lemma_pow2_monotonic(k, floor_log2(m));
            }
            lemma_pow2_monotonic(ceil_log2(n), k);
        }
    }
}

/// A positive number lies between the power of two of its logarithm and the next one.
proof fn lemma_floor_log2_bounds(m: nat)
    requires
        m >= 1,
    ensures
        pow2(floor_log2(m)) <= m < pow2(floor_log2(m) + 1),
    decreases m,
{
    lemma2_to64();
    if m > 1 {
        lemma_floor_log2_bounds(m / 2);
        lemma_pow2_unfold(floor_log2(m));
        lemma_pow2_unfold(floor_log2(m) + 1);
    }
}

/// The exponent and the size of the smallest full tree that has room for `num_leaves` leaves.
pub fn padded_size(num_leaves: usize) -> (result: (usize, usize))
    requires
        num_leaves <= usize::MAX / 2 + 1,
    ensures
        result.0 == ceil_log2(num_leaves as nat),
        result.1 == pow2(ceil_log2(num_leaves as nat)),
{
    let mut size: usize = 1;
    let mut log2: usize = 0;
    proof {
        lemma2_to64();
    }
    while size < num_leaves
        invariant
            num_leaves <= usize::MAX / 2 + 1,
            size == pow2(log2 as nat),
            log2 < size,
            log2 > 0 ==> pow2((log2 - 1) as nat) < num_leaves,
        decreases 2 * num_leaves - size,
    {
        proof {
            lemma_pow2_unfold((log2 + 1) as nat);
        }
        size = size * 2;
        log2 = log2 + 1;
    }
    proof {
        if num_leaves > 1 {
            lemma_floor_log2_between((num_leaves - 1) as nat, (log2 - 1) as nat);
        } else if log2 > 0 {
            lemma_pow2_pos((log2 - 1) as nat);
        }
    }
    (log2, size)
}

/// A leaf of `width` zero elements.
fn zero_leaf(width: usize) -> (leaf: Vec<GoldilocksField>)
    ensures
        leaf@ == Seq::new(width as nat, |i: int| GoldilocksField(0)),
{
    let mut leaf: Vec<GoldilocksField> = Vec::new();
    while leaf.len() < width
        invariant
            leaf@.len() <= width,
            forall|i: int| 0 <= i < leaf@.len() ==> #[trigger] leaf@[i] == GoldilocksField(0),
        decreases width - leaf@.len(),
    {
        leaf.push(GoldilocksField::zero());
    }
    assert(leaf@ =~= Seq::new(width as nat, |i: int| GoldilocksField(0)));
    leaf
}

/// Pads leaves with leaves of `width` zero elements, up to a power of two of leaves.
pub fn pad_leaves(leaves: Vec<Vec<GoldilocksField>>, width: usize) -> (padded: PaddedLeaves)
    requires
        leaves@.len() <= usize::MAX / 2 + 1,
    ensures
        padded.num_leaves == leaves@.len(),
        padded.log2_leaves == ceil_log2(leaves@.len()),
        padded.padded_size == pow2(ceil_log2(leaves@.len())),
        padded.leaves@.len() == padded.padded_size,
        padded.num_leaves <= padded.padded_size,
        padded.leaves@.take(leaves@.len() as int) == leaves@,
        forall|i: int|
            leaves@.len() <= i < padded.padded_size ==> (#[trigger] padded.leaves@[i])@ == Seq::new(
                width as nat,
                |k: int| GoldilocksField(0),
            ),
{
    let num_leaves: usize = leaves.len();
    let (log2_leaves, size) = padded_size(num_leaves);
    let ghost given = leaves@;
    let mut all: Vec<Vec<GoldilocksField>> = leaves;
    proof {
        lemma_padded_size_least(num_leaves as nat, 0);
        assert(all@.take(num_leaves as int) =~= given);
    }
    while all.len() < size
        invariant
            num_leaves == given.len(),
            num_leaves <= all@.len() <= size,
            all@.take(num_leaves as int) == given,
            forall|i: int|
                num_leaves <= i < all@.len() ==> (#[trigger] all@[i])@ == Seq::new(
                    width as nat,
                    |k: int| GoldilocksField(0),
                ),
        decreases size - all@.len(),
    {
        all.push(zero_leaf(width));
        assert(all@.take(num_leaves as int) =~= given);
    }
    PaddedLeaves { leaves: all, num_leaves, log2_leaves, padded_size: size }
}

} // verus!
