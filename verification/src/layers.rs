//! Sizes and positions of the layers of a Merkle tree in the flat node buffer.
use crate::words::HashOut;
use vstd::arithmetic::div_mod::*;
use vstd::arithmetic::power2::*;
use vstd::prelude::*;

verus! {

/// The largest `k` with `2^k <= n`, for positive `n`.
pub open spec fn floor_log2(n: nat) -> nat
    decreases n,
{
    if n <= 1 {
        0
    } else {
        floor_log2(n / 2) + 1
    }
}

/// `n` is a power of two.
pub open spec fn is_power_of_two(n: nat) -> bool {
    n == pow2(floor_log2(n))
}

/// `a / b`, rounded up.
pub open spec fn div_ceil(a: int, b: int) -> int {
    (a + b - 1) / b
}

/// Number of nodes in layer `layer` above `input_size` leaves. The first layer pairs the leaves
/// and drops an unpaired one; every further layer halves its predecessor, rounding up.
pub open spec fn layer_size(input_size: nat, layer: nat) -> int {
    if layer == 0 {
        input_size as int
    } else {
        div_ceil((input_size / 2) as int, pow2((layer - 1) as nat) as int)
    }
}

/// Number of nodes in the layers from the first up to, but not with, `layer`: where `layer`
/// starts in the node buffer, which does not hold the leaves.
pub open spec fn layer_offset(input_size: nat, layer: nat) -> int
    decreases layer,
{
    if layer <= 1 {
        0
    } else {
        layer_offset(input_size, (layer - 1) as nat) + layer_size(input_size, (layer - 1) as nat)
    }
}

/// A power of two is `2^k` for just one `k`.
pub proof fn lemma_floor_log2_of_pow2(k: nat)
    ensures
        floor_log2(pow2(k)) == k,
        is_power_of_two(pow2(k)),
    decreases k,
{
    lemma_pow2_pos(k);
    if k == 0 {
        lemma2_to64();
    } else {
        lemma_pow2_unfold(k);
        lemma_pow2_pos((k - 1) as nat);
        lemma_floor_log2_of_pow2((k - 1) as nat);
    }
}

/// `2^k` grows with `k`.
pub proof fn lemma_pow2_monotonic(a: nat, b: nat)
    requires
        a <= b,
    ensures
        pow2(a) <= pow2(b),
{
    if a < b {
        lemma_pow2_strictly_increases(a, b);
    }
}

/// Every layer from the second on is half its predecessor, rounded up.
pub proof fn lemma_layer_size_step(input_size: nat, layer: nat)
    requires
        layer >= 1,
    ensures
        layer_size(input_size, layer + 1) == (layer_size(input_size, layer) + 1) / 2,
        layer_size(input_size, 1) == input_size / 2,
        0 <= layer_size(input_size, layer) <= input_size / 2,
{
    let a: int = (input_size / 2) as int;
    let b: int = pow2((layer - 1) as nat) as int;
    lemma_pow2_pos((layer - 1) as nat);
    lemma_pow2_unfold(layer);
    lemma2_to64();
    assert(pow2(layer) == 2 * b);
    lemma_div_plus_one(a + b - 1, b);
    assert((a + b - 1) / b + 1 == (a + 2 * b - 1) / b);
    lemma_div_denominator(a + 2 * b - 1, b, 2);
    assert(b * 2 == 2 * b);
    lemma_div_basics(a);
    lemma_div_pos_is_pos(a + b - 1, b);
    assert((a + b - 1) / b <= a) by (nonlinear_arith)
        requires
            a >= 0,
            b >= 1,
    {
        if a == 0 {
            assert((b - 1) / b == 0);
        } else {
            assert(a + b - 1 <= a * b);
            assert((a + b - 1) / b <= (a * b) / b);
            assert((a * b) / b == a);
        }
    }
}

/// Over `2^depth` leaves layer `layer` has `2^(depth - layer)` nodes, and the layers from the
/// first up to it take `2^depth - 2^(depth - layer + 1)` nodes.
pub proof fn lemma_full_tree_layers(depth: nat, layer: nat)
    requires
        layer <= depth,
    ensures
        layer_size(pow2(depth), layer) == pow2((depth - layer) as nat),
        layer >= 1 ==> layer_offset(pow2(depth), layer) == pow2(depth) - pow2(
            (depth - layer + 1) as nat,
        ),
        layer_offset(pow2(depth), layer + 1) == pow2(depth) - pow2((depth - layer) as nat),
    decreases layer,
{
    let n = pow2(depth);
    if layer == 0 {
    } else {
        lemma_full_tree_layers(depth, (layer - 1) as nat);
        lemma_pow2_unfold(depth);
        let a = pow2((depth - 1) as nat);
        let b = pow2((layer - 1) as nat);
        assert(n / 2 == a);
        lemma_pow2_pos((layer - 1) as nat);
        lemma_pow2_adds((depth - layer) as nat, (layer - 1) as nat);
        let q = pow2((depth - layer) as nat);
        assert(a == q * b);
        lemma_fundamental_div_mod_converse(a + b - 1, b as int, q as int, b - 1);
        lemma_pow2_unfold((depth - layer + 1) as nat);
    }
}

/// If `n` is `2^k` times an odd number above one, it is no power of two.
proof fn lemma_odd_factor(n: nat, odd: nat, k: nat)
    requires
        n == odd * pow2(k),
        odd % 2 == 1,
        odd > 1,
    ensures
        !is_power_of_two(n),
    decreases k,
{
    lemma2_to64();
    if k == 0 {
        assert(odd * 1 == odd) by (nonlinear_arith);
        let e = floor_log2(n);
        if n == pow2(e) {
            assert(e >= 1);
            lemma_pow2_unfold(e);
        }
    } else {
        lemma_pow2_unfold(k);
        let half = pow2((k - 1) as nat);
        assert(odd * (2 * half) == 2 * (odd * half)) by (nonlinear_arith);
        lemma_odd_factor(odd * half, odd, (k - 1) as nat);
        assert(n / 2 == odd * half);
        lemma_pow2_pos((k - 1) as nat);
        assert(odd * half > 1) by (nonlinear_arith)
            requires
                odd > 1,
                half >= 1,
        ;
        lemma_pow2_unfold(floor_log2(n));
    }
}

/// The depth of a tree over `n` leaves, if `n` is a power of two.
pub fn power_of_two_depth(n: usize) -> (depth: Option<usize>)
    ensures
        is_power_of_two(n as nat) ==> depth == Some(floor_log2(n as nat) as usize)
            && floor_log2(n as nat) < usize::BITS,
        !is_power_of_two(n as nat) ==> depth is None,
{
    proof {
        lemma2_to64();
    }
    if n == 0 {
        return None;
    }
    let mut rest: usize = n;
    let mut depth: usize = 0;
    while rest % 2 == 0
        invariant
            rest > 0,
            n == rest * pow2(depth as nat),
            depth < usize::BITS,
        decreases rest,
    {
        proof {
            lemma_pow2_unfold((depth + 1) as nat);
            let p = pow2(depth as nat);
            assert(rest == 2 * (rest / 2));
            assert((2 * (rest / 2)) * p == (rest / 2) * (2 * p)) by (nonlinear_arith);
            lemma_depth_fits(n, (depth + 1) as nat, (rest / 2) as nat);
        }
        rest = rest / 2;
        depth = depth + 1;
    }
    if rest == 1 {
        proof {
            assert(1 * pow2(depth as nat) == pow2(depth as nat));
            lemma_floor_log2_of_pow2(depth as nat);
        }
        Some(depth)
    } else {
        proof {
            lemma_odd_factor(n as nat, rest as nat, depth as nat);
        }
        None
    }
}

/// A machine word cannot hold a multiple of `2^k` for `k` past its width.
proof fn lemma_depth_fits(n: usize, k: nat, factor: nat)
    requires
        n == factor * pow2(k),
        factor >= 1,
    ensures
        k < usize::BITS,
{
    lemma2_to64();
    lemma2_to64_rest();
    assert(pow2(k) <= n) by (nonlinear_arith)
        requires
            n == factor * pow2(k),
            factor >= 1,
    ;
    if k >= usize::BITS {
        lemma_pow2_monotonic(usize::BITS as nat, k);
        assert(usize::BITS == 32 || usize::BITS == 64);
    }
}

/// Number of nodes in a layer.
pub fn host_layer_size(input_size: usize, layer: usize) -> (size: usize)
    ensures
        size == layer_size(input_size as nat, layer as nat),
{
    if layer == 0 {
        return input_size;
    }
    let mut size: usize = input_size / 2;
    let mut at: usize = 1;
    proof {
        lemma_layer_size_step(input_size as nat, 1);
    }
    while at < layer
        invariant
            1 <= at <= layer,
            size == layer_size(input_size as nat, at as nat),
            size <= input_size / 2,
        decreases layer - at,
    {
        proof {
            lemma_layer_size_step(input_size as nat, at as nat);
            lemma_layer_size_step(input_size as nat, (at + 1) as nat);
        }
        size = (size + 1) / 2;
        at = at + 1;
    }
    size
}

/// Later layers start later.
pub proof fn lemma_layer_offset_monotonic(input_size: nat, a: nat, b: nat)
    requires
        a <= b,
    ensures
        0 <= layer_offset(input_size, a) <= layer_offset(input_size, b),
    decreases b,
{
    if b > 1 {
        lemma_layer_size_step(input_size, (b - 1) as nat);
        if a < b {
            lemma_layer_offset_monotonic(input_size, a, (b - 1) as nat);
        } else {
            lemma_layer_offset_monotonic(input_size, (a - 1) as nat, (b - 1) as nat);
        }
    }
}

/// Where a layer starts in the node buffer.
pub fn host_layer_offset(input_size: usize, layer: usize) -> (offset: usize)
    requires
        layer_offset(input_size as nat, layer as nat) <= usize::MAX,
    ensures
        offset == layer_offset(input_size as nat, layer as nat),
{
    let mut offset: usize = 0;
    let mut size: usize = input_size / 2;
    let mut at: usize = 1;
    proof {
        lemma_layer_size_step(input_size as nat, 1);
    }
    while at < layer
        invariant
            1 <= at,
            at <= layer || at == 1,
            offset == layer_offset(input_size as nat, at as nat),
            size == layer_size(input_size as nat, at as nat),
            size <= input_size / 2,
            layer_offset(input_size as nat, layer as nat) <= usize::MAX,
        decreases layer - at,
    {
        proof {
            lemma_layer_size_step(input_size as nat, at as nat);
            lemma_layer_size_step(input_size as nat, (at + 1) as nat);
            lemma_layer_offset_monotonic(input_size as nat, (at + 1) as nat, layer as nat);
        }
        offset = offset + size;
        size = (size + 1) / 2;
        at = at + 1;
    }
    offset
}

/// All digests of a tree, from the leaves up to the cap. `nodes` holds the layers in between, one
/// after the other; the cap lies `layers_to_cap` layers above the leaves.
pub struct TreeLayers {
    pub leaves: Seq<HashOut>,
    pub nodes: Seq<HashOut>,
    pub cap: Seq<HashOut>,
    pub layers_to_cap: nat,
}

impl TreeLayers {
    /// Layer `layer` has a node at `node_idx`.
    pub open spec fn has(self, layer: nat, node_idx: nat) -> bool {
        if layer == 0 {
            node_idx < self.leaves.len()
        } else if layer < self.layers_to_cap {
            layer_offset(self.leaves.len(), layer) + node_idx < self.nodes.len()
        } else {
            layer == self.layers_to_cap && node_idx < self.cap.len()
        }
    }

    /// The node at `node_idx` of layer `layer`.
    pub open spec fn at(self, layer: nat, node_idx: nat) -> HashOut {
        if layer == 0 {
            self.leaves[node_idx as int]
        } else if layer < self.layers_to_cap {
            self.nodes[layer_offset(self.leaves.len(), layer) + node_idx]
        } else {
            self.cap[node_idx as int]
        }
    }

    /// The digests are those of a whole tree over a power of two of leaves.
    pub open spec fn full(self) -> bool {
        let n = self.leaves.len();
        &&& is_power_of_two(n)
        &&& self.layers_to_cap <= floor_log2(n)
        &&& self.nodes.len() == layer_offset(n, self.layers_to_cap)
        &&& self.cap.len() == layer_size(n, self.layers_to_cap)
    }

    /// In a full tree every layer up to the cap has the nodes that its size says.
    pub proof fn lemma_full_has(self, layer: nat, node_idx: nat)
        requires
            self.full(),
            layer <= self.layers_to_cap,
            node_idx < layer_size(self.leaves.len(), layer),
        ensures
            self.has(layer, node_idx),
    {
        if 0 < layer < self.layers_to_cap {
            lemma_layer_offset_monotonic(self.leaves.len(), layer + 1, self.layers_to_cap);
        }
    }
}

/// Where the nodes of a full tree over `2^depth` leaves lie: the leaves and the cap on their own,
/// and layer `l` in between behind the first `2^depth - 2^(depth - l + 1)` nodes.
pub proof fn lemma_node_place(tree: TreeLayers, depth: nat, layer: nat, i: nat)
    requires
        tree.leaves.len() == pow2(depth),
        layer <= tree.layers_to_cap <= depth,
        tree.layers_to_cap > 0,
    ensures
        layer == 0 ==> tree.at(layer, i) == tree.leaves[i as int],
        layer == tree.layers_to_cap ==> tree.at(layer, i) == tree.cap[i as int],
        0 < layer < tree.layers_to_cap ==> tree.at(layer, i) == tree.nodes[pow2(depth) - pow2(
            (depth - layer + 1) as nat,
        ) + i],
{
    lemma_full_tree_layers(depth, layer);
}

/// The digests that came back from the GPU, addressed by layer and position.
pub struct LayerAccessor<'a> {
    pub leaf_hashes: &'a [HashOut],
    pub node_hashes: &'a [HashOut],
    pub cap_hashes: &'a [HashOut],
    pub layer_starts: Vec<usize>,
    pub num_layers_to_cap: usize,
}

impl<'a> LayerAccessor<'a> {
    /// The digests that the accessor reads.
    pub open spec fn tree(self) -> TreeLayers {
        TreeLayers {
            leaves: self.leaf_hashes@,
            nodes: self.node_hashes@,
            cap: self.cap_hashes@,
            layers_to_cap: self.num_layers_to_cap as nat,
        }
    }

    /// The accessor knows where each layer starts.
    pub open spec fn wf(self) -> bool {
        &&& self.layer_starts@.len() == self.num_layers_to_cap
        &&& forall|l: int|
            0 <= l < self.num_layers_to_cap ==> (#[trigger] self.layer_starts@[l]) == layer_offset(
                self.leaf_hashes@.len(),
                l as nat,
            )
    }

    /// Addresses the digests of a tree over `num_leaves` leaves whose cap lies
    /// `num_layers_to_cap` layers up. The node buffer has to hold just the layers in between.
    pub fn new(
        leaf_hashes: &'a [HashOut],
        node_hashes: &'a [HashOut],
        cap_hashes: &'a [HashOut],
        num_leaves: usize,
        num_layers_to_cap: usize,
    ) -> (accessor: LayerAccessor<'a>)
        requires
            node_hashes@.len() == layer_offset(num_leaves as nat, num_layers_to_cap as nat),
        ensures
            accessor.leaf_hashes@ == leaf_hashes@,
            accessor.node_hashes@ == node_hashes@,
            accessor.cap_hashes@ == cap_hashes@,
            accessor.num_layers_to_cap == num_layers_to_cap,
            accessor.layer_starts@.len() == num_layers_to_cap,
            forall|l: int|
                0 <= l < num_layers_to_cap ==> (#[trigger] accessor.layer_starts@[l])
                    == layer_offset(num_leaves as nat, l as nat),
            num_leaves == leaf_hashes@.len() ==> accessor.wf(),
    {
        let mut layer_starts: Vec<usize> = Vec::new();
        let mut acc: usize = 0;
        let mut layer: usize = 0;
        while layer < num_layers_to_cap
            invariant
                layer <= num_layers_to_cap,
                acc == layer_offset(num_leaves as nat, layer as nat),
                layer_starts@.len() == layer,
                forall|l: int|
                    0 <= l < layer ==> (#[trigger] layer_starts@[l]) == layer_offset(
                        num_leaves as nat,
                        l as nat,
                    ),
                node_hashes@.len() == layer_offset(num_leaves as nat, num_layers_to_cap as nat),
            decreases num_layers_to_cap - layer,
        {
            layer_starts.push(acc);
            if layer > 0 {
                proof {
                    lemma_layer_size_step(num_leaves as nat, layer as nat);
                    lemma_layer_offset_monotonic(
                        num_leaves as nat,
                        (layer + 1) as nat,
                        num_layers_to_cap as nat,
                    );
                    assert(node_hashes.len() == node_hashes@.len());
                }
                acc = acc + host_layer_size(num_leaves, layer);
            }
            layer = layer + 1;
        }
        LayerAccessor { leaf_hashes, node_hashes, cap_hashes, layer_starts, num_layers_to_cap }
    }

    /// The node at `node_idx` of layer `layer`.
    pub fn node(&self, layer: usize, node_idx: usize) -> (digest: HashOut)
        requires
            self.wf(),
            self.tree().has(layer as nat, node_idx as nat),
        ensures
            digest == self.tree().at(layer as nat, node_idx as nat),
    {
        if layer == 0 {
            self.leaf_hashes[node_idx]
        } else if layer < self.num_layers_to_cap {
            let start: usize = self.layer_starts[layer];
            assert(self.node_hashes.len() == self.node_hashes@.len());
            self.node_hashes[start + node_idx]
        } else {
            self.cap_hashes[node_idx]
        }
    }
}

/// A number counts as a power of two just where it is one.
pub proof fn lemma_power_of_two(n: nat)
    ensures
        is_power_of_two(n) <==> exists|k: nat| n == #[trigger] pow2(k),
{
    if exists|k: nat| n == #[trigger] pow2(k) {
        let k = choose|k: nat| n == #[trigger] pow2(k);
        lemma_floor_log2_of_pow2(k);
    }
}

/// From layer to layer: the leaves are layer zero; the first layer pairs them; each further layer
/// pairs the one before, with an unpaired node on its own; and each layer starts where the one
/// before it ends, the first one at the start.
pub proof fn lemma_layer_by_layer(input_size: nat, layer: nat)
    ensures
        layer_size(input_size, 0) == input_size,
        layer_size(input_size, 1) == input_size / 2,
        layer >= 1 ==> layer_size(input_size, layer + 1) == (layer_size(input_size, layer) + 1) / 2,
        layer_offset(input_size, 0) == 0,
        layer_offset(input_size, 1) == 0,
        layer >= 1 ==> layer_offset(input_size, layer + 1) == layer_offset(input_size, layer)
            + layer_size(input_size, layer),
{
    lemma_layer_size_step(input_size, 1);
    if layer >= 1 {
        lemma_layer_size_step(input_size, layer);
    }
}

} // verus!
