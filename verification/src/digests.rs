//! Reassembly of a Merkle tree's digest array from the layers that the GPU computed.
use crate::layers::{
    floor_log2, is_power_of_two, layer_size, lemma_floor_log2_of_pow2, lemma_full_tree_layers,
    lemma_pow2_monotonic, power_of_two_depth, LayerAccessor, TreeLayers,
};
use crate::words::HashOut;
use vstd::arithmetic::div_mod::*;
use vstd::arithmetic::mul::*;
use vstd::arithmetic::power2::*;
use vstd::prelude::*;

verus! {

/// The digest array of the subtree of `2^level` leaves that starts at leaf `leaf_offset`: the
/// array of the left half, the digests of both halves, the array of the right half. The root of
/// the subtree is not in it.
pub open spec fn subtree_digests(
    tree: TreeLayers,
    level: nat,
    leaf_offset: nat,
) -> Seq<HashOut>
    decreases level,
{
    if level == 0 {
        Seq::empty()
    } else {
        let below = (level - 1) as nat;
        let right = leaf_offset + pow2(below);
        subtree_digests(tree, below, leaf_offset) + seq![
            tree.at(below, leaf_offset / pow2(below)),
            tree.at(below, right / pow2(below)),
        ] + subtree_digests(tree, below, right)
    }
}

/// The digest arrays of the first `count` subtrees below the cap, one after the other.
pub open spec fn tree_digests(tree: TreeLayers, count: nat) -> Seq<HashOut>
    decreases count,
{
    if count == 0 {
        Seq::empty()
    } else {
        let level = tree.layers_to_cap;
        let last = (count - 1) as nat;
        tree_digests(tree, last) + subtree_digests(tree, level, last * pow2(level))
    }
}

/// The digest array of a subtree of `2^level` leaves has `2 * (2^level - 1)` entries.
pub proof fn lemma_subtree_digests_len(
    tree: TreeLayers,
    level: nat,
    leaf_offset: nat,
)
    ensures
        subtree_digests(tree, level, leaf_offset).len() == 2 * (pow2(level) - 1),
    decreases level,
{
    lemma2_to64();
    if level > 0 {
        let below = (level - 1) as nat;
        lemma_pow2_unfold(level);
        lemma_subtree_digests_len(tree, below, leaf_offset);
        lemma_subtree_digests_len(tree, below, leaf_offset + pow2(below));
    }
}

/// The node above `2^level` leaves is there.
proof fn lemma_node_in_range(tree: TreeLayers, level: nat, leaf_offset: nat)
    requires
        tree.full(),
        level <= tree.layers_to_cap,
        leaf_offset + pow2(level) <= tree.leaves.len(),
    ensures
        tree.has(level, leaf_offset / pow2(level)),
{
    let n = tree.leaves.len();
    let depth = floor_log2(n);
    lemma_full_tree_layers(depth, level);
    lemma_pow2_pos(level);
    lemma_pow2_adds((depth - level) as nat, level);
    let size = pow2((depth - level) as nat);
    lemma_mul_is_commutative(size as int, pow2(level) as int);
    lemma_multiply_divide_lt(leaf_offset as int, pow2(level) as int, size as int);
    tree.lemma_full_has(level, leaf_offset / pow2(level));
}

/// Fills in the digest array of the subtree of `subtree_leaves_len` leaves that starts at
/// `leaf_offset`, and returns the subtree's root.
pub fn fill_subtree_from_gpu(
    digests_buf: &mut [HashOut],
    accessor: &LayerAccessor<'_>,
    leaf_offset: usize,
    subtree_leaves_len: usize,
) -> (root: HashOut)
    requires
        accessor.wf(),
        accessor.tree().full(),
        is_power_of_two(subtree_leaves_len as nat),
        floor_log2(subtree_leaves_len as nat) <= accessor.num_layers_to_cap,
        leaf_offset + subtree_leaves_len <= accessor.leaf_hashes@.len(),
        old(digests_buf)@.len() == 2 * (subtree_leaves_len - 1),
    ensures
        final(digests_buf)@ == subtree_digests(
            accessor.tree(),
            floor_log2(subtree_leaves_len as nat),
            leaf_offset as nat,
        ),
        root == accessor.tree().at(
            floor_log2(subtree_leaves_len as nat),
            leaf_offset as nat / subtree_leaves_len as nat,
        ),
    decreases old(digests_buf)@.len(),
{
    let ghost level = floor_log2(subtree_leaves_len as nat);
    let ghost len = digests_buf@.len();
    proof {
        lemma2_to64();
        lemma_node_in_range(accessor.tree(), level, leaf_offset as nat);
        assert(accessor.leaf_hashes.len() == accessor.leaf_hashes@.len());
    }
    if digests_buf.len() == 0 {
        assert(leaf_offset as nat / 1 == leaf_offset);
        assert(digests_buf@ =~= Seq::empty());
        return accessor.node(0, leaf_offset);
    }
    let half: usize = subtree_leaves_len / 2;
    let ghost below = (level - 1) as nat;
    proof {
        assert(level > 0);
        lemma_pow2_unfold(level);
        lemma_floor_log2_of_pow2(below);
        lemma_pow2_pos(below);
        lemma_subtree_digests_len(accessor.tree(), below, leaf_offset as nat);
        lemma_subtree_digests_len(accessor.tree(), below, (leaf_offset + half) as nat);
    }
    let middle: usize = digests_buf.len() / 2;
    let (left_buf, right_buf) = digests_buf.split_at_mut(middle);
    let (left_recursive_buf, left_digest_slot) = left_buf.split_at_mut(middle - 1);
    let (right_digest_slot, right_recursive_buf) = right_buf.split_at_mut(1);

    let left_digest = fill_subtree_from_gpu(left_recursive_buf, accessor, leaf_offset, half);
    let right_digest = fill_subtree_from_gpu(
        right_recursive_buf,
        accessor,
        leaf_offset + half,
        half,
    );
    left_digest_slot[0] = left_digest;
    right_digest_slot[0] = right_digest;

    let layer_index: usize = power_of_two_depth(subtree_leaves_len).unwrap();
    let node_index: usize = leaf_offset / subtree_leaves_len;
    accessor.node(layer_index, node_index)
}

/// The digest array of a whole tree: the arrays of the subtrees below the cap, in the order of
/// the cap.
pub fn reconstruct_digests(accessor: &LayerAccessor<'_>) -> (digests: Vec<HashOut>)
    requires
        accessor.wf(),
        accessor.tree().full(),
    ensures
        digests@ == tree_digests(accessor.tree(), accessor.cap_hashes@.len()),
        digests@.len() == 2 * (accessor.leaf_hashes@.len() - accessor.cap_hashes@.len()),
{
    let num_leaves: usize = accessor.leaf_hashes.len();
    let cap_len: usize = accessor.cap_hashes.len();
    let ghost depth = floor_log2(num_leaves as nat);
    let ghost level = accessor.num_layers_to_cap as nat;
    proof {
        lemma_full_tree_layers(depth, level);
        lemma_pow2_adds((depth - level) as nat, level);
        lemma_pow2_pos((depth - level) as nat);
        lemma_pow2_pos(level);
        lemma_mul_is_commutative(cap_len as int, pow2(level) as int);
        lemma_div_multiples_vanish(pow2(level) as int, cap_len as int);
        lemma_floor_log2_of_pow2(level);
    }
    let subtree_leaves_len: usize = num_leaves / cap_len;
    assert(subtree_leaves_len == pow2(level));
    let mut digests: Vec<HashOut> = Vec::new();
    let mut subtree_idx: usize = 0;
    proof {
        lemma_mul_basics(subtree_leaves_len as int);
    }
    while subtree_idx < cap_len
        invariant
            subtree_idx <= cap_len,
            accessor.wf(),
            accessor.tree().full(),
            cap_len == accessor.cap_hashes@.len(),
            num_leaves == accessor.leaf_hashes@.len(),
            num_leaves == cap_len * subtree_leaves_len,
            level == accessor.num_layers_to_cap,
            subtree_leaves_len == pow2(level),
            is_power_of_two(subtree_leaves_len as nat),
            floor_log2(subtree_leaves_len as nat) == level,
            subtree_leaves_len >= 1,
            digests@ == tree_digests(accessor.tree(), subtree_idx as nat),
            digests@.len() == 2 * (subtree_idx * subtree_leaves_len - subtree_idx),
        decreases cap_len - subtree_idx,
    {
        proof {
            lemma_mul_inequality(
                (subtree_idx + 1) as int,
                cap_len as int,
                subtree_leaves_len as int,
            );
            lemma_mul_is_distributive_add_other_way(
                subtree_leaves_len as int,
                subtree_idx as int,
                1,
            );
            lemma_subtree_len_fits(subtree_leaves_len);
            lemma_subtree_digests_len(
                accessor.tree(),
                level,
                (subtree_idx * subtree_leaves_len) as nat,
            );
        }
        let leaf_offset: usize = subtree_idx * subtree_leaves_len;
        let mut subtree_buf: Vec<HashOut> = zero_digests(2 * (subtree_leaves_len - 1));
        let _root = fill_subtree_from_gpu(
            subtree_buf.as_mut_slice(),
            accessor,
            leaf_offset,
            subtree_leaves_len,
        );
        proof {
            lemma_div_by_multiple(subtree_idx as int, subtree_leaves_len as int);
            assert(level > 0 ==> _root == accessor.cap_hashes@[subtree_idx as int]);
        }
        digests.append(&mut subtree_buf);
        subtree_idx = subtree_idx + 1;
    }
    digests
}

/// Twice a power of two less two fits in a machine word.
proof fn lemma_subtree_len_fits(len: usize)
    requires
        is_power_of_two(len as nat),
    ensures
        2 * (len - 1) <= usize::MAX,
{
    let k = floor_log2(len as nat);
    lemma2_to64();
    lemma2_to64_rest();
    let width = usize::BITS as nat;
    assert(width == 32 || width == 64);
    assert(pow2(width) == usize::MAX + 1);
    if k >= width {
        lemma_pow2_monotonic(width, k);
    } else {
        lemma_pow2_monotonic(k + 1, width);
        lemma_pow2_unfold(k + 1);
    }
}

/// A digest array of zero digests.
fn zero_digests(count: usize) -> (digests: Vec<HashOut>)
    ensures
        digests@.len() == count,
{
    let mut digests: Vec<HashOut> = Vec::new();
    while digests.len() < count
        invariant
            digests@.len() <= count,
        decreases count - digests@.len(),
    {
        digests.push(HashOut::zero());
    }
    digests
}

/// Every inner node is the hash of its two children.
pub open spec fn hashes_pairwise(
    tree: TreeLayers,
    two_to_one: spec_fn(HashOut, HashOut) -> HashOut,
) -> bool {
    forall|layer: nat, i: nat|
        layer < tree.layers_to_cap && i < layer_size(
            tree.leaves.len(),
            layer + 1,
        ) ==> #[trigger] tree.at(layer + 1, i) == two_to_one(
            tree.at(layer, 2 * i),
            tree.at(layer, 2 * i + 1),
        )
}

/// The root over a run of leaf digests, hashing from the leaves up.
pub open spec fn merkle_root(
    two_to_one: spec_fn(HashOut, HashOut) -> HashOut,
    leaves: Seq<HashOut>,
) -> HashOut
    decreases leaves.len(),
{
    if leaves.len() <= 1 {
        leaves[0]
    } else {
        let half = (leaves.len() / 2) as int;
        two_to_one(
            merkle_root(two_to_one, leaves.take(half)),
            merkle_root(two_to_one, leaves.skip(half)),
        )
    }
}

/// The digest array over a run of leaf digests, as a recursive construction on the host lays it
/// out: left array, left root, right root, right array.
pub open spec fn merkle_digests(
    two_to_one: spec_fn(HashOut, HashOut) -> HashOut,
    leaves: Seq<HashOut>,
) -> Seq<HashOut>
    decreases leaves.len(),
{
    if leaves.len() <= 1 {
        Seq::empty()
    } else {
        let half = (leaves.len() / 2) as int;
        merkle_digests(two_to_one, leaves.take(half)) + seq![
            merkle_root(two_to_one, leaves.take(half)),
            merkle_root(two_to_one, leaves.skip(half)),
        ] + merkle_digests(two_to_one, leaves.skip(half))
    }
}

/// Run number `index` of `2^level` leaves.
pub open spec fn leaf_run(leaves: Seq<HashOut>, level: nat, index: nat) -> Seq<HashOut> {
    leaves.subrange((index * pow2(level)) as int, ((index + 1) * pow2(level)) as int)
}

/// Where every inner node is the hash of its two children, the node above an aligned run of
/// `2^level` leaves is the Merkle root over that run, and the reassembled digest array of the
/// run is the one that a recursive construction on the host lays out.
pub proof fn lemma_subtree_mirrors_host(
    tree: TreeLayers,
    two_to_one: spec_fn(HashOut, HashOut) -> HashOut,
    level: nat,
    index: nat,
)
    requires
        tree.full(),
        hashes_pairwise(tree, two_to_one),
        level <= tree.layers_to_cap,
        (index + 1) * pow2(level) <= tree.leaves.len(),
    ensures
        tree.at(level, index) == merkle_root(
            two_to_one,
            leaf_run(tree.leaves, level, index),
        ),
        subtree_digests(tree, level, index * pow2(level)) == merkle_digests(
            two_to_one,
            leaf_run(tree.leaves, level, index),
        ),
    decreases level,
{
    let leaves = tree.leaves;
    let start = index * pow2(level);
    lemma_pow2_pos(level);
    lemma_mul_is_distributive_add_other_way(pow2(level) as int, index as int, 1);
    let run = leaf_run(leaves, level, index);
    if level == 0 {
        lemma2_to64();
        lemma_mul_basics(index as int);
        assert(run[0] == leaves[index as int]);
    } else {
        let below = (level - 1) as nat;
        let half = pow2(below);
        lemma_pow2_unfold(level);
        lemma_pow2_pos(below);
        assert(index * (2 * half) == (2 * index) * half) by (nonlinear_arith);
        assert((2 * index + 1) * half == (2 * index) * half + half) by (nonlinear_arith);
        assert((2 * index + 2) * half == (2 * index) * half + 2 * half) by (nonlinear_arith);
        lemma_subtree_mirrors_host(tree, two_to_one, below, 2 * index);
        lemma_subtree_mirrors_host(tree, two_to_one, below, 2 * index + 1);
        assert(run.take(half as int) =~= leaf_run(leaves, below, 2 * index));
        assert(run.skip(half as int) =~= leaf_run(leaves, below, 2 * index + 1));
        lemma_div_by_multiple((2 * index) as int, half as int);
        lemma_div_by_multiple((2 * index + 1) as int, half as int);
        // The node itself is the hash of the two nodes below it.
        let depth = floor_log2(leaves.len());
        lemma_full_tree_layers(depth, level);
        lemma_pow2_adds((depth - level) as nat, level);
        let size = pow2((depth - level) as nat);
        assert(index < size) by (nonlinear_arith)
            requires
                (index + 1) * pow2(level) <= size * pow2(level),
                pow2(level) > 0,
        ;
        assert(tree.at(below + 1, index) == two_to_one(
            tree.at(below, 2 * index),
            tree.at(below, 2 * index + 1),
        ));
    }
}

/// The digest arrays of the first `count` runs of `2^level` leaves, as the host lays them out.
pub open spec fn host_digests(
    two_to_one: spec_fn(HashOut, HashOut) -> HashOut,
    leaves: Seq<HashOut>,
    level: nat,
    count: nat,
) -> Seq<HashOut>
    decreases count,
{
    if count == 0 {
        Seq::empty()
    } else {
        let last = (count - 1) as nat;
        host_digests(two_to_one, leaves, level, last) + merkle_digests(
            two_to_one,
            leaf_run(leaves, level, last),
        )
    }
}

/// Where every inner node is the hash of its two children, the reassembled digest array is the
/// one that the host lays out over the same leaf digests, and every entry of the cap is the
/// Merkle root over its share of the leaves.
pub proof fn lemma_tree_mirrors_host(
    tree: TreeLayers,
    two_to_one: spec_fn(HashOut, HashOut) -> HashOut,
)
    requires
        tree.full(),
        tree.layers_to_cap > 0,
        hashes_pairwise(tree, two_to_one),
    ensures
        tree_digests(tree, tree.cap.len()) == host_digests(
            two_to_one,
            tree.leaves,
            tree.layers_to_cap,
            tree.cap.len(),
        ),
        forall|i: nat|
            i < tree.cap.len() ==> #[trigger] tree.cap[i as int]
                == merkle_root(
                two_to_one,
                leaf_run(tree.leaves, tree.layers_to_cap, i),
            ),
{
    let level = tree.layers_to_cap;
    let cap_len = tree.cap.len();
    assert forall|i: nat| i < cap_len implies #[trigger] tree.cap[i as int]
        == merkle_root(two_to_one, leaf_run(tree.leaves, level, i)) by {
        lemma_run_in_tree(tree, i);
        lemma_subtree_mirrors_host(tree, two_to_one, level, i);
    }
    lemma_first_subtrees_mirror_host(tree, two_to_one, cap_len);
}

/// The leaves below an entry of the cap are there.
proof fn lemma_run_in_tree(tree: TreeLayers, index: nat)
    requires
        tree.full(),
        index < tree.cap.len(),
    ensures
        (index + 1) * pow2(tree.layers_to_cap) <= tree.leaves.len(),
{
    let level = tree.layers_to_cap;
    let depth = floor_log2(tree.leaves.len());
    lemma_full_tree_layers(depth, level);
    lemma_pow2_adds((depth - level) as nat, level);
    lemma_mul_inequality(
        (index + 1) as int,
        tree.cap.len() as int,
        pow2(level) as int,
    );
}

/// The reassembled digest arrays of the first subtrees are those that the host lays out.
proof fn lemma_first_subtrees_mirror_host(
    tree: TreeLayers,
    two_to_one: spec_fn(HashOut, HashOut) -> HashOut,
    count: nat,
)
    requires
        tree.full(),
        hashes_pairwise(tree, two_to_one),
        count <= tree.cap.len(),
    ensures
        tree_digests(tree, count) == host_digests(
            two_to_one,
            tree.leaves,
            tree.layers_to_cap,
            count,
        ),
    decreases count,
{
    if count > 0 {
        let last = (count - 1) as nat;
        lemma_first_subtrees_mirror_host(tree, two_to_one, last);
        lemma_run_in_tree(tree, last);
        lemma_subtree_mirrors_host(tree, two_to_one, tree.layers_to_cap, last);
    }
}

/// Where a digest lies in the digest array of a subtree of `2^level` leaves. The pairs of layer `j`
/// lie `2^(j + 1)` pairs apart, behind the first `2^j - 1` pairs; so digest `b` of pair `q` of the
/// layer, which is node `2 q + b` of the layer below the subtree, lies at twice the number of its
/// pair, plus `b`.
pub proof fn lemma_digest_place(
    tree: TreeLayers,
    level: nat,
    index: nat,
    j: nat,
    q: nat,
    b: nat,
)
    requires
        j < level,
        q < pow2((level - 1 - j) as nat),
        b < 2,
    ensures
        ({
            let place = 2 * (q * pow2(j + 1) + pow2(j) - 1) + b;
            let digests = subtree_digests(tree, level, index * pow2(level));
            &&& 0 <= place < digests.len()
            &&& digests[place] == tree.at(j, (index * pow2((level - j) as nat) + 2 * q + b) as nat)
        }),
    decreases level,
{
    let below = (level - 1) as nat;
    let half = pow2(below);
    let start = index * pow2(level);
    lemma_pow2_unfold(level);
    lemma_pow2_pos(below);
    lemma_pow2_pos(j);
    assert(index * (2 * half) == (2 * index) * half) by (nonlinear_arith);
    assert((2 * index + 1) * half == (2 * index) * half + half) by (nonlinear_arith);
    lemma_subtree_digests_len(tree, below, start);
    lemma_subtree_digests_len(tree, below, start + half);
    lemma_subtree_digests_len(tree, level, start);
    let left = subtree_digests(tree, below, start);
    let right = subtree_digests(tree, below, start + half);
    let digests = subtree_digests(tree, level, start);
    let pair = q * pow2(j + 1) + pow2(j) - 1;
    let place = 2 * pair + b;
    if j == below {
        lemma2_to64();
        assert(q == 0);
        assert(0 * pow2(j + 1) == 0) by (nonlinear_arith);
        assert(pair == half - 1);
        lemma_div_by_multiple((2 * index) as int, half as int);
        lemma_div_by_multiple((2 * index + 1) as int, half as int);
        assert(pow2((level - j) as nat) == 2);
        assert(start / half == 2 * index && (start + half) / half == 2 * index + 1);
        assert(index * 2 == 2 * index);
        if b == 0 {
            assert(digests[place] == tree.at(below, start / half));
        } else {
            assert(digests[place] == tree.at(below, (start + half) / half));
        }
    } else {
        let quarter = pow2((below - 1 - j) as nat);
        lemma_pow2_unfold((level - 1 - j) as nat);
        lemma_pow2_unfold((level - j) as nat);
        lemma_pow2_adds((below - 1 - j) as nat, j + 1);
        assert(quarter * pow2(j + 1) == half);
        let whole = pow2((level - j) as nat);
        let part = pow2((below - j) as nat);
        assert(whole == 2 * part);
        assert(part == 2 * quarter);
        assert(index * (2 * part) == (2 * index) * part) by (nonlinear_arith);
        if q < quarter {
            lemma_digest_place(tree, below, 2 * index, j, q, b);
            assert(digests[place] == left[place]);
        } else {
            let rest = (q - quarter) as nat;
            assert((rest + quarter) * pow2(j + 1) == rest * pow2(j + 1) + quarter * pow2(j + 1))
                by (nonlinear_arith);
            lemma_digest_place(tree, below, 2 * index + 1, j, rest, b);
            assert((2 * index + 1) * part == (2 * index) * part + part) by (nonlinear_arith);
            let inner = 2 * (rest * pow2(j + 1) + pow2(j) - 1) + b;
            assert(place == inner + 2 * half);
            assert(digests[place] == right[inner]);
        }
    }
}

/// Where the digest array of a subtree lies among those of all subtrees: one after the other, each
/// with twice as many digests as the subtree has leaves, less two.
pub proof fn lemma_subtree_place(tree: TreeLayers, count: nat, s: nat, place: int)
    requires
        s < count,
        0 <= place < 2 * (pow2(tree.layers_to_cap) - 1),
    ensures
        tree_digests(tree, count).len() == count * (2 * (pow2(tree.layers_to_cap) - 1)),
        0 <= s * (2 * (pow2(tree.layers_to_cap) - 1)) + place < tree_digests(tree, count).len(),
        tree_digests(tree, count)[s * (2 * (pow2(tree.layers_to_cap) - 1)) + place]
            == subtree_digests(tree, tree.layers_to_cap, s * pow2(tree.layers_to_cap))[place],
    decreases count,
{
    let level = tree.layers_to_cap;
    let size = 2 * (pow2(level) - 1);
    let last = (count - 1) as nat;
    lemma_tree_digests_len(tree, last);
    lemma_subtree_digests_len(tree, level, last * pow2(level));
    assert(count * size == last * size + size) by (nonlinear_arith)
        requires
            count == last + 1,
    ;
    assert(0 <= s * size) by (nonlinear_arith)
        requires
            size >= 0,
            s >= 0,
    ;
    if s < last {
        lemma_subtree_place(tree, last, s, place);
    }
}

/// The digest arrays of the first subtrees together.
proof fn lemma_tree_digests_len(tree: TreeLayers, count: nat)
    ensures
        tree_digests(tree, count).len() == count * (2 * (pow2(tree.layers_to_cap) - 1)),
    decreases count,
{
    let size = 2 * (pow2(tree.layers_to_cap) - 1);
    if count == 0 {
        assert(0 * size == 0) by (nonlinear_arith);
    } else {
        let last = (count - 1) as nat;
        lemma_tree_digests_len(tree, last);
        lemma_subtree_digests_len(tree, tree.layers_to_cap, last * pow2(tree.layers_to_cap));
        assert(count * size == last * size + size) by (nonlinear_arith)
            requires
                count == last + 1,
        ;
    }
}

} // verus!
