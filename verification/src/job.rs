//! Building a Merkle tree on the GPU: from the leaves to the GPU's work, and from the words that
//! come back to the digests and the cap.
use crate::context::{GpuContextCell, MerkleTreeGpuContext};
use crate::goldilocks::GoldilocksField;
use crate::gpu::{
    layout_entries, Binding, BufferId, Dispatch, GpuCommand, LayoutEntry, Pipeline,
    ROUND_CONSTANTS_SIZE, STATE_TABLE_SIZE, WORKGROUP_SIZE,
};
use crate::layers::{
    floor_log2, host_layer_offset, host_layer_size, is_power_of_two, layer_offset, layer_size,
    lemma_floor_log2_of_pow2, lemma_full_tree_layers, lemma_layer_offset_monotonic,
    lemma_pow2_monotonic, lemma_power_of_two, power_of_two_depth,
};
use crate::plan::{
    allocates, bind_poseidon, bindings, canonical_to_montgomery_gpu, create_buffers,
    enters_montgomery, hash_leaves_gpu, hashes_leaves, inline_words, layer_args, leaf_info,
    leaves_have_length, leaves_montgomery, montgomery_to_canonical_gpu, poseidon_bound, runs,
    transpose_leaves, transposed, uniform, uploads, workgroups_for, BuildError,
    MerkleTreeKernelArgs,
};
use crate::readback::{
    context_begun, context_ended, counters_begun, counters_ended, counters_mapping, Readback,
    ReadbackCounters,
};
use crate::words::{
    number_words, residues, HashOut, BYTES_PER_BIGINT, BYTES_PER_DIGEST, NUM_HASH_OUT_ELTS,
};
use vstd::arithmetic::mul::*;
use vstd::arithmetic::power2::*;
use vstd::prelude::*;

verus! {

/// The sizes of a tree that is built on the GPU.
#[derive(Clone, Copy, Debug, PartialEq, Eq, Structural)]
pub struct TreeShape {
    pub num_leaves: usize,
    pub cap_height: usize,
    /// Digests in the cap.
    pub cap_len: usize,
    /// Layers from the leaves up to the cap.
    pub num_layers_to_cap: usize,
    /// Digests in the layers between the leaves and the cap.
    pub total_nodes: usize,
}

impl TreeShape {
    /// A tree over a power of two of leaves with its cap between the root and the leaves, and at
    /// least one layer between the leaves and the cap.
    pub open spec fn wf(self) -> bool {
        let n = self.num_leaves as nat;
        &&& is_power_of_two(n)
        &&& n <= i32::MAX
        &&& self.cap_height <= floor_log2(n)
        &&& self.num_layers_to_cap == floor_log2(n) - self.cap_height
        &&& self.cap_len == pow2(self.cap_height as nat)
        &&& self.total_nodes == layer_offset(n, self.num_layers_to_cap as nat)
        &&& self.total_nodes > 0
    }
}

/// Layers from the leaves up to a cap at `cap_height`.
pub open spec fn layers_to_cap(num_leaves: nat, cap_height: nat) -> nat {
    (floor_log2(num_leaves) - cap_height) as nat
}

/// What is wrong with the number and the lengths of the leaves, or with the height of the cap; the
/// first of the faults, in this order.
pub open spec fn shape_error(
    leaves: Seq<Vec<GoldilocksField>>,
    cap_height: usize,
) -> Option<BuildError> {
    let n = leaves.len();
    if n > i32::MAX {
        Some(BuildError::TooManyLeaves { num_leaves: n as usize })
    } else if !uniform(leaves) {
        Some(BuildError::UnevenLeaves)
    } else if !is_power_of_two(n) {
        Some(BuildError::NotPowerOfTwo)
    } else if cap_height > floor_log2(n) {
        Some(BuildError::CapTooHigh { cap_height, depth: floor_log2(n) as usize })
    } else if layer_offset(n, layers_to_cap(n, cap_height as nat)) == 0 {
        Some(BuildError::NoInternalNodes { num_leaves: n as usize, cap_height })
    } else {
        None
    }
}

/// Why a tree over the leaves is not built; the first of the faults.
pub open spec fn build_error(
    leaves: Seq<Vec<GoldilocksField>>,
    cap_height: usize,
) -> Option<BuildError> {
    match shape_error(leaves, cap_height) {
        Some(error) => Some(error),
        None => if leaves[0]@.len() == 0 {
            Some(BuildError::EmptyLeaves)
        } else if leaves[0]@.len() > i32::MAX {
            Some(
                BuildError::LeavesTooWide { elements_per_leaf: leaves[0]@.len() as usize },
            )
        } else {
            None
        },
    }
}

/// There is a layer between the leaves and the cap just where the cap lies two layers up or more.
pub proof fn lemma_internal_nodes(num_leaves: nat, cap_height: nat)
    requires
        is_power_of_two(num_leaves),
        cap_height <= floor_log2(num_leaves),
    ensures
        layer_offset(num_leaves, layers_to_cap(num_leaves, cap_height)) == 0 <==> layers_to_cap(
            num_leaves,
            cap_height,
        ) <= 1,
        layers_to_cap(num_leaves, cap_height) >= 1 ==> layer_offset(
            num_leaves,
            layers_to_cap(num_leaves, cap_height),
        ) == num_leaves - 2 * pow2(cap_height),
{
    let depth = floor_log2(num_leaves);
    let layers = layers_to_cap(num_leaves, cap_height);
    lemma_full_tree_layers(depth, layers);
    if layers >= 1 {
        lemma_pow2_unfold((cap_height + 1) as nat);
        if layers >= 2 {
            lemma_pow2_strictly_increases(cap_height + 1, depth);
        }
    }
}

/// The sizes of a tree that fits the GPU: at most `2^30` leaves, no layer and no position above
/// their number, and a cap of `2^cap_height` digests.
pub proof fn lemma_shape_sizes(num_leaves: nat, cap_height: nat, layer: nat)
    requires
        is_power_of_two(num_leaves),
        num_leaves <= i32::MAX,
        cap_height <= floor_log2(num_leaves),
        layer <= layers_to_cap(num_leaves, cap_height),
    ensures
        num_leaves <= 0x4000_0000,
        1 <= layer_size(num_leaves, layer) <= num_leaves,
        0 <= layer_offset(num_leaves, layer) <= num_leaves,
        layer_size(num_leaves, layers_to_cap(num_leaves, cap_height)) == pow2(cap_height),
        pow2(cap_height) <= num_leaves,
        layer <= 30,
{
    let depth = floor_log2(num_leaves);
    lemma2_to64();
    if depth >= 31 {
        lemma_pow2_monotonic(31, depth);
    } else {
        lemma_pow2_monotonic(depth, 30);
    }
    lemma_full_tree_layers(depth, layer);
    lemma_full_tree_layers(depth, layers_to_cap(num_leaves, cap_height));
    lemma_pow2_pos((depth - layer) as nat);
    lemma_pow2_monotonic((depth - layer) as nat, depth);
    lemma_pow2_monotonic(cap_height, depth);
    if layer >= 1 {
        lemma_pow2_monotonic((depth - layer + 1) as nat, depth);
    }
}

/// Checks number and lengths of the leaves and the height of the cap, and works out the sizes of
/// the tree.
pub fn check_leaves(leaves: &Vec<Vec<GoldilocksField>>, cap_height: usize) -> (result: Result<
    TreeShape,
    BuildError,
>)
    requires
        leaves@.len() > 0,
    ensures
        match result {
            Ok(shape) => {
                &&& shape_error(leaves@, cap_height) is None
                &&& shape.wf()
                &&& shape.num_leaves == leaves@.len()
                &&& shape.cap_height == cap_height
            },
            Err(error) => shape_error(leaves@, cap_height) == Some(error),
        },
{
    let (num_leaves, elements_per_leaf) = leaf_info(leaves);
    if num_leaves > i32::MAX as usize {
        return Err(BuildError::TooManyLeaves { num_leaves });
    }
    if !leaves_have_length(leaves, elements_per_leaf) {
        return Err(BuildError::UnevenLeaves);
    }
    let depth: usize = match power_of_two_depth(num_leaves) {
        Some(depth) => depth,
        None => return Err(BuildError::NotPowerOfTwo),
    };
    if cap_height > depth {
        return Err(BuildError::CapTooHigh { cap_height, depth });
    }
    let num_layers_to_cap: usize = depth - cap_height;
    proof {
        lemma_shape_sizes(num_leaves as nat, cap_height as nat, num_layers_to_cap as nat);
    }
    let cap_len: usize = host_layer_size(num_leaves, num_layers_to_cap);
    let total_nodes: usize = host_layer_offset(num_leaves, num_layers_to_cap);
    if total_nodes == 0 {
        return Err(BuildError::NoInternalNodes { num_leaves, cap_height });
    }
    Ok(TreeShape { num_leaves, cap_height, cap_len, num_layers_to_cap, total_nodes })
}

/// Hashes layer `layer` of the tree into the next one.
pub open spec fn hashes_layer(command: GpuCommand, shape: TreeShape, layer: nat) -> bool {
    let dst_layer_size = layer_size(shape.num_leaves as nat, layer + 1);
    &&& runs(command, Pipeline::MerkleLayer, workgroups_for(dst_layer_size), 1)
    &&& poseidon_bound(bindings(command))
    &&& bindings(command)[0] == Binding::Buffer(BufferId::LeafDigests)
    &&& bindings(command)[1] == Binding::Buffer(BufferId::Nodes)
    &&& bindings(command)[2] == Binding::Buffer(BufferId::Cap)
    &&& inline_words(
        bindings(command)[3],
        layer_args(
            shape.num_leaves as nat,
            shape.num_layers_to_cap as nat,
            shape.cap_len as nat,
            layer,
        ).words(),
    )
}

/// The arguments for hashing layer `layer` into the next one.
pub fn kernel_args(shape: &TreeShape, layer: usize) -> (args: MerkleTreeKernelArgs)
    requires
        shape.wf(),
        layer < shape.num_layers_to_cap,
    ensures
        args == layer_args(
            shape.num_leaves as nat,
            shape.num_layers_to_cap as nat,
            shape.cap_len as nat,
            layer as nat,
        ),
{
    let num_leaves: usize = shape.num_leaves;
    proof {
        lemma_shape_sizes(num_leaves as nat, shape.cap_height as nat, layer as nat);
        lemma_shape_sizes(num_leaves as nat, shape.cap_height as nat, (layer + 1) as nat);
    }
    let src_layer_size: usize = host_layer_size(num_leaves, layer);
    let dst_layer_size: usize = host_layer_size(num_leaves, layer + 1);
    let src_offset: usize = host_layer_offset(num_leaves, layer);
    let write_to_cap = layer + 1 == shape.num_layers_to_cap;
    let dst_offset: usize = if write_to_cap {
        0
    } else {
        host_layer_offset(num_leaves, layer + 1)
    };
    MerkleTreeKernelArgs {
        cap_len: shape.cap_len as u32,
        layer: layer as u32,
        src_layer_size: src_layer_size as u32,
        dst_layer_size: dst_layer_size as u32,
        src_offset: src_offset as u32,
        dst_offset: dst_offset as u32,
        write_to_cap: if write_to_cap {
            1
        } else {
            0
        },
    }
}

/// The dispatch that hashes layer `layer` into the next one.
pub fn hash_layer_gpu(shape: &TreeShape, layer: usize) -> (command: GpuCommand)
    requires
        shape.wf(),
        layer < shape.num_layers_to_cap,
    ensures
        hashes_layer(command, *shape, layer as nat),
{
    let args = kernel_args(shape, layer);
    let mut bindings: Vec<Binding> = Vec::new();
    bindings.push(Binding::Buffer(BufferId::LeafDigests));
    bindings.push(Binding::Buffer(BufferId::Nodes));
    bindings.push(Binding::Buffer(BufferId::Cap));
    bindings.push(Binding::Inline(args.to_bytes()));
    bind_poseidon(&mut bindings);
    proof {
        assert(bindings@[0] == bindings@.take(4)[0]);
        assert(bindings@[1] == bindings@.take(4)[1]);
        assert(bindings@[2] == bindings@.take(4)[2]);
        assert(bindings@[3] == bindings@.take(4)[3]);
        lemma_shape_sizes(shape.num_leaves as nat, shape.cap_height as nat, (layer + 1) as nat);
    }
    let dst_layer_size: usize = host_layer_size(shape.num_leaves, layer + 1);
    let threads_per_block: usize = WORKGROUP_SIZE as usize;
    let num_blocks: usize = (dst_layer_size + threads_per_block - 1) / threads_per_block;
    let workgroups_x: u32 = if num_blocks < 1 {
        1
    } else {
        num_blocks as u32
    };
    GpuCommand::Run(
        Dispatch { pipeline: Pipeline::MerkleLayer, bindings, workgroups_x, workgroups_y: 1 },
    )
}

/// Leaves from which on their digests have more elements than a shader can count in 32 bits.
pub const LEAF_LIMIT: usize = 0x4000_0000;

/// Elements in the digests of `digests` leaves or nodes, as a shader counts them, in 32 bits.
pub open spec fn digest_elements(digests: usize) -> u32 {
    (digests * NUM_HASH_OUT_ELTS) as u32
}

/// Below the limit on leaves the count is right.
pub proof fn lemma_digest_elements_exact(digests: usize)
    requires
        digests < LEAF_LIMIT,
    ensures
        digest_elements(digests) == 4 * digests,
{
}

/// The dispatch that brings the digests of a buffer back into canonical form.
fn digests_to_canonical_gpu(buffer: BufferId, digests: usize) -> (command: GpuCommand)
    requires
        0 < digests < LEAF_LIMIT,
    ensures
        leaves_montgomery(command, buffer, digest_elements(digests)),
{
    let elements: u32 = (digests * NUM_HASH_OUT_ELTS) as u32;
    montgomery_to_canonical_gpu(buffer, elements).unwrap()
}

/// The whole of the GPU's work for a tree, in order: bring the leaf elements in and into
/// Montgomery form; hash the leaves; make room for the nodes and the cap; hash layer by layer up
/// to the cap; bring the leaf digests and the nodes back into canonical form.
pub open spec fn builds_tree(
    commands: Seq<GpuCommand>,
    leaves: Seq<Vec<GoldilocksField>>,
    shape: TreeShape,
) -> bool {
    let layers = shape.num_layers_to_cap as int;
    &&& shape.num_leaves < LEAF_LIMIT
    &&& commands.len() == 8 + layers
    &&& uploads(commands[0], BufferId::LeafElements, number_words(residues(transposed(leaves))))
    &&& enters_montgomery(commands[1], transposed(leaves).len() as usize)
    &&& allocates(commands[2], BufferId::LeafDigests, shape.num_leaves * BYTES_PER_DIGEST)
    &&& hashes_leaves(commands[3], shape.num_leaves, leaves[0]@.len() as usize)
    &&& allocates(commands[4], BufferId::Nodes, shape.total_nodes * BYTES_PER_DIGEST)
    &&& allocates(commands[5], BufferId::Cap, shape.cap_len * BYTES_PER_DIGEST)
    &&& forall|layer: int|
        0 <= layer < layers ==> hashes_layer(
            #[trigger] commands[6 + layer],
            shape,
            layer as nat,
        )
    &&& leaves_montgomery(
        commands[6 + layers],
        BufferId::LeafDigests,
        digest_elements(shape.num_leaves),
    )
    &&& leaves_montgomery(
        commands[7 + layers],
        BufferId::Nodes,
        digest_elements(shape.total_nodes),
    )
}

/// Digests and cap of a tree, laid out as the host lays them out.
#[derive(Debug)]
pub struct GpuMerkleOutput {
    pub digests: Vec<HashOut>,
    pub cap: Vec<HashOut>,
}

/// Where a job stands.
#[derive(Debug)]
pub enum MerkleGpuJobState {
    /// The result is there.
    Immediate(GpuMerkleOutput),
    /// The GPU has this work to do before there is a result.
    Deferred { shape: TreeShape, commands: Vec<GpuCommand> },
}

/// A tree that is being built.
#[derive(Debug)]
pub struct MerkleGpuJob {
    pub state: MerkleGpuJobState,
}

impl MerkleGpuJob {
    /// A deferred job has consistent sizes.
    pub open spec fn wf(self) -> bool {
        self.state matches MerkleGpuJobState::Deferred { shape, commands } ==> shape.wf()
    }

    /// A job whose result is there.
    pub fn immediate(output: GpuMerkleOutput) -> (job: MerkleGpuJob)
        ensures
            job.state == MerkleGpuJobState::Immediate(output),
            job.wf(),
    {
        MerkleGpuJob { state: MerkleGpuJobState::Immediate(output) }
    }

    /// A job that waits for the GPU.
    pub fn deferred(shape: TreeShape, commands: Vec<GpuCommand>) -> (job: MerkleGpuJob)
        requires
            shape.wf(),
        ensures
            job.state == (MerkleGpuJobState::Deferred { shape, commands }),
            job.wf(),
    {
        MerkleGpuJob { state: MerkleGpuJobState::Deferred { shape, commands } }
    }
}

/// No readback is under way and no slice is mapped.
pub open spec fn idle(context: MerkleTreeGpuContext, counters: ReadbackCounters) -> bool {
    counters.active_mapped_slices == 0 && !context.readback_busy
}

/// A readback that was begun while all was idle, and has ended, mapped or not, leaves all idle
/// again, so that the next tree can be built.
pub proof fn lemma_readback_keeps_idle(
    context: MerkleTreeGpuContext,
    counters: ReadbackCounters,
    readback: Readback,
    size: u64,
)
    requires
        idle(context, counters),
        counters.active_readbacks < u32::MAX,
    ensures
        idle(
            context_ended(context_begun(context, size)),
            counters_ended(
                readback,
                if readback.map_guard.active {
                    counters_mapping(counters_begun(counters))
                } else {
                    counters_begun(counters)
                },
            ),
        ),
{
}

/// Works out the GPU's work for a tree over the leaves with a cap at `cap_height`. Where the sizes
/// are in order, nothing may be left over from an earlier tree; where a tree is planned, the
/// elements of its digests can be counted in 32 bits.
pub fn build_merkle_tree(
    context: &MerkleTreeGpuContext,
    counters: &ReadbackCounters,
    leaves: &Vec<Vec<GoldilocksField>>,
    cap_height: usize,
) -> (result: Result<MerkleGpuJob, BuildError>)
    requires
        leaves@.len() > 0,
        shape_error(leaves@, cap_height) is None ==> idle(*context, *counters),
        build_error(leaves@, cap_height) is None ==> leaves@.len() < LEAF_LIMIT,
    ensures
        match result {
            Ok(job) => {
                &&& build_error(leaves@, cap_height) is None
                &&& job.wf()
                &&& job.state matches MerkleGpuJobState::Deferred { shape, commands }
                &&& shape.num_leaves == leaves@.len()
                &&& shape.cap_height == cap_height
                &&& builds_tree(commands@, leaves@, shape)
            },
            Err(error) => build_error(leaves@, cap_height) == Some(error),
        },
{
    let shape = match check_leaves(leaves, cap_height) {
        Ok(shape) => shape,
        Err(error) => return Err(error),
    };
    let (elements, elements_per_leaf) = transpose_leaves(leaves);
    if elements_per_leaf == 0 {
        return Err(BuildError::EmptyLeaves);
    }
    if elements_per_leaf > i32::MAX as usize {
        return Err(BuildError::LeavesTooWide { elements_per_leaf });
    }
    proof {
        assert(build_error(leaves@, cap_height) is None);
        assert(shape.num_leaves < LEAF_LIMIT);
        lemma_shape_sizes(
            shape.num_leaves as nat,
            shape.cap_height as nat,
            shape.num_layers_to_cap as nat,
        );
    }
    let num: usize = elements.len();
    let (upload, to_montgomery) = canonical_to_montgomery_gpu(elements.as_slice(), num);
    let (leaf_digests, hash_leaves) = hash_leaves_gpu(shape.num_leaves, elements_per_leaf);
    let (nodes, cap) = create_buffers(shape.total_nodes, shape.cap_len);
    let mut commands: Vec<GpuCommand> = Vec::new();
    commands.push(upload);
    commands.push(to_montgomery);
    commands.push(leaf_digests);
    commands.push(hash_leaves);
    commands.push(nodes);
    commands.push(cap);
    let ghost setup = commands@;
    assert(setup[0] == upload && setup[1] == to_montgomery);
    assert(setup[2] == leaf_digests && setup[3] == hash_leaves);
    assert(setup[4] == nodes && setup[5] == cap);
    let mut layer: usize = 0;
    while layer < shape.num_layers_to_cap
        invariant
            shape.wf(),
            layer <= shape.num_layers_to_cap,
            setup.len() == 6,
            commands@.len() == 6 + layer,
            commands@.take(6) == setup,
            forall|l: int|
                0 <= l < layer ==> hashes_layer(#[trigger] commands@[6 + l], shape, l as nat),
        decreases shape.num_layers_to_cap - layer,
    {
        let command = hash_layer_gpu(&shape, layer);
        commands.push(command);
        assert(commands@.take(6) =~= setup);
        layer = layer + 1;
    }
    let ghost layered = commands@;
    let leave_leaves = digests_to_canonical_gpu(BufferId::LeafDigests, shape.num_leaves);
    let leave_nodes = digests_to_canonical_gpu(BufferId::Nodes, shape.total_nodes);
    commands.push(leave_leaves);
    commands.push(leave_nodes);
    proof {
        assert forall|i: int| 0 <= i < layered.len() implies commands@[i] == layered[i] by {}
        assert forall|i: int| 0 <= i < 6 implies commands@[i] == setup[i] by {
            assert(layered.take(6)[i] == layered[i]);
        }
        assert forall|l: int| 0 <= l < shape.num_layers_to_cap implies hashes_layer(
            #[trigger] commands@[6 + l],
            shape,
            l as nat,
        ) by {
            assert(layered[6 + l] == commands@[6 + l]);
        }
        assert(builds_tree(commands@, leaves@, shape));
    }
    Ok(MerkleGpuJob::deferred(shape, commands))
}

/// Works out the GPU's work for a tree, or returns `None` where the context is not set up.
pub fn try_build_merkle_tree(
    cell: &GpuContextCell,
    counters: &ReadbackCounters,
    leaves: &Vec<Vec<GoldilocksField>>,
    cap_height: usize,
) -> (result: Option<Result<MerkleGpuJob, BuildError>>)
    requires
        cell.context matches Some(context) ==> {
            &&& leaves@.len() > 0
            &&& shape_error(leaves@, cap_height) is None ==> idle(context, *counters)
            &&& build_error(leaves@, cap_height) is None ==> leaves@.len() < LEAF_LIMIT
        },
    ensures
        cell.context is None <==> result is None,
        result matches Some(Ok(job)) ==> {
            &&& build_error(leaves@, cap_height) is None
            &&& job.wf()
            &&& job.state matches MerkleGpuJobState::Deferred { shape, commands }
            &&& shape.num_leaves == leaves@.len()
            &&& shape.cap_height == cap_height
            &&& builds_tree(commands@, leaves@, shape)
        },
        result matches Some(Err(error)) ==> build_error(leaves@, cap_height) == Some(error),
{
    match &cell.context {
        Some(context) => Some(build_merkle_tree(context, counters, leaves, cap_height)),
        None => None,
    }
}

/// The layer dispatches fit together. The first reads all leaf digests. Each reads twice as many
/// digests as it writes, reads what the one before it wrote, and writes right behind what it
/// reads, within the node buffer. The last writes the whole cap.
pub proof fn lemma_layers_fit_together(shape: TreeShape, layer: nat)
    requires
        shape.wf(),
        layer < shape.num_layers_to_cap,
    ensures
        ({
            let n = shape.num_leaves as nat;
            let layers = shape.num_layers_to_cap as nat;
            let args = layer_args(n, layers, shape.cap_len as nat, layer);
            let next = layer_args(n, layers, shape.cap_len as nat, layer + 1);
            &&& args.layer == layer
            &&& args.cap_len == shape.cap_len
            &&& args.src_layer_size == 2 * args.dst_layer_size
            &&& layer == 0 ==> args.src_offset == 0 && args.src_layer_size == n
            &&& layer > 0 ==> args.src_offset + args.src_layer_size <= shape.total_nodes
            &&& layer + 1 < layers ==> {
                &&& args.write_to_cap == 0
                &&& args.dst_offset == next.src_offset
                &&& args.dst_layer_size == next.src_layer_size
                &&& args.dst_offset + args.dst_layer_size <= shape.total_nodes
                &&& layer > 0 ==> args.dst_offset == args.src_offset + args.src_layer_size
            }
            &&& layer + 1 == layers ==> {
                &&& args.write_to_cap == 1
                &&& args.dst_offset == 0
                &&& args.dst_layer_size == shape.cap_len
                &&& layer > 0 ==> args.src_offset + args.src_layer_size == shape.total_nodes
            }
        }),
{
    let n = shape.num_leaves as nat;
    let depth = floor_log2(n);
    let layers = shape.num_layers_to_cap as nat;
    lemma_shape_sizes(n, shape.cap_height as nat, layer);
    lemma_shape_sizes(n, shape.cap_height as nat, layer + 1);
    lemma_full_tree_layers(depth, layer);
    lemma_full_tree_layers(depth, layer + 1);
    lemma_pow2_unfold((depth - layer) as nat);
    lemma_layer_offset_monotonic(n, layer + 1, layers);
    if layer + 1 < layers {
        lemma_layer_offset_monotonic(n, layer + 2, layers);
    }
}

/// Bytes of a buffer while a tree of this shape is built over the leaves.
pub open spec fn buffer_size(
    buffer: BufferId,
    leaves: Seq<Vec<GoldilocksField>>,
    shape: TreeShape,
) -> int {
    match buffer {
        BufferId::LeafElements => (BYTES_PER_BIGINT * transposed(leaves).len()) as int,
        BufferId::LeafDigests => shape.num_leaves * BYTES_PER_DIGEST,
        BufferId::Nodes => shape.total_nodes * BYTES_PER_DIGEST,
        BufferId::Cap => shape.cap_len * BYTES_PER_DIGEST,
        BufferId::MdsCirc => STATE_TABLE_SIZE as int,
        BufferId::MdsDiag => STATE_TABLE_SIZE as int,
        BufferId::RoundConstants => ROUND_CONSTANTS_SIZE as int,
    }
}

/// The binding has the bytes that the shader asks for.
pub open spec fn binding_fits(
    binding: Binding,
    entry: LayoutEntry,
    leaves: Seq<Vec<GoldilocksField>>,
    shape: TreeShape,
) -> bool {
    entry.min_binding_size matches Some(size) ==> match binding {
        Binding::Buffer(buffer) => buffer_size(buffer, leaves, shape) >= size,
        Binding::Inline(bytes) => bytes@.len() >= size,
    }
}

/// Every dispatch of a tree has a binding for each entry of its pipeline's layout, and the binding
/// has the bytes that the entry asks for.
pub proof fn lemma_bindings_fit_layouts(
    commands: Seq<GpuCommand>,
    leaves: Seq<Vec<GoldilocksField>>,
    shape: TreeShape,
    i: int,
    k: int,
)
    requires
        shape.wf(),
        shape.num_leaves == leaves.len(),
        leaves[0]@.len() > 0,
        builds_tree(commands, leaves, shape),
        0 <= i < commands.len(),
        commands[i] is Run,
    ensures
        bindings(commands[i]).len() == layout_entries(commands[i]->Run_0.pipeline).len(),
        0 <= k < bindings(commands[i]).len() ==> binding_fits(
            bindings(commands[i])[k],
            layout_entries(commands[i]->Run_0.pipeline)[k],
            leaves,
            shape,
        ),
{
    let layers = shape.num_layers_to_cap as int;
    lemma_shape_sizes(shape.num_leaves as nat, shape.cap_height as nat, layers as nat);
    lemma_mul_strictly_positive(leaves.len() as int, leaves[0]@.len() as int);
    if 6 <= i < 6 + layers {
        assert(hashes_layer(commands[6 + (i - 6)], shape, (i - 6) as nat));
    }
}

/// A tree is planned just where there is at least one leaf and no more than an `i32` counts, all
/// leaves have the same number of elements, at least one and no more than an `i32` counts, the
/// number of leaves is a power of two, and the cap lies at least two layers above them.
pub proof fn lemma_planned(leaves: Seq<Vec<GoldilocksField>>, cap_height: usize)
    ensures
        build_error(leaves, cap_height) is None <==> {
            &&& 0 < leaves.len() <= 0x7FFF_FFFF
            &&& forall|i: int|
                0 <= i < leaves.len() ==> (#[trigger] leaves[i])@.len() == leaves[0]@.len()
            &&& 1 <= leaves[0]@.len() <= 0x7FFF_FFFF
            &&& exists|k: nat| leaves.len() == #[trigger] pow2(k) && cap_height + 2 <= k
        },
        shape_error(leaves, cap_height) is None <==> {
            &&& 0 < leaves.len() <= 0x7FFF_FFFF
            &&& forall|i: int|
                0 <= i < leaves.len() ==> (#[trigger] leaves[i])@.len() == leaves[0]@.len()
            &&& exists|k: nat| leaves.len() == #[trigger] pow2(k) && cap_height + 2 <= k
        },
{
    let n = leaves.len();
    lemma_power_of_two(n);
    if is_power_of_two(n) {
        lemma_pow2_pos(floor_log2(n));
        if cap_height <= floor_log2(n) {
            lemma_internal_nodes(n, cap_height as nat);
        }
    }
    if exists|k: nat| n == #[trigger] pow2(k) && cap_height + 2 <= k {
        let k = choose|k: nat| n == #[trigger] pow2(k) && cap_height + 2 <= k;
        lemma_floor_log2_of_pow2(k);
    }
}

/// What each error says of the leaves and the cap. An error comes only where those before it do
/// not hold.
pub proof fn lemma_build_errors(leaves: Seq<Vec<GoldilocksField>>, cap_height: usize)
    requires
        0 < leaves.len() <= usize::MAX,
        forall|i: int| 0 <= i < leaves.len() ==> (#[trigger] leaves[i])@.len() <= usize::MAX,
    ensures
        build_error(leaves, cap_height) matches Some(error) ==> {
            let n = leaves.len();
            let even = forall|i: int|
                0 <= i < n ==> (#[trigger] leaves[i])@.len() == leaves[0]@.len();
            &&& error is TooManyLeaves <==> n > 0x7FFF_FFFF
            &&& error matches BuildError::TooManyLeaves { num_leaves } ==> num_leaves == n
            &&& error is UnevenLeaves <==> n <= 0x7FFF_FFFF && !even
            &&& error is NotPowerOfTwo <==> n <= 0x7FFF_FFFF && even && forall|k: nat|
                n != #[trigger] pow2(k)
            &&& error matches BuildError::CapTooHigh { cap_height: asked, depth } ==> asked
                == cap_height && n == pow2(depth as nat) && depth < cap_height
            &&& error matches BuildError::NoInternalNodes {
                num_leaves,
                cap_height: asked,
            } ==> num_leaves == n && asked == cap_height && (n == pow2(cap_height as nat) || n
                == pow2((cap_height + 1) as nat))
            &&& error is EmptyLeaves ==> leaves[0]@.len() == 0
            &&& error matches BuildError::LeavesTooWide { elements_per_leaf } ==> elements_per_leaf
                == leaves[0]@.len() && elements_per_leaf > 0x7FFF_FFFF
        },
{
    let n = leaves.len();
    lemma_power_of_two(n);
    assert(leaves[0]@.len() <= usize::MAX);
    if n <= i32::MAX && is_power_of_two(n) {
        let depth = floor_log2(n);
        lemma2_to64();
        if depth >= 31 {
            lemma_pow2_monotonic(31, depth);
        }
        if cap_height <= depth {
            lemma_internal_nodes(n, cap_height as nat);
        }
    }
}

/// The sizes of a planned tree: the cap is the layer whose number of digests is two to the height
/// of the cap; between it and the leaves lie all digests of a full tree but those two layers and
/// the ones above.
pub proof fn lemma_shape_numbers(shape: TreeShape)
    requires
        shape.wf(),
    ensures
        shape.cap_len == pow2(shape.cap_height as nat),
        shape.num_leaves == shape.cap_len * pow2(shape.num_layers_to_cap as nat),
        shape.total_nodes == shape.num_leaves - 2 * shape.cap_len,
        shape.num_layers_to_cap >= 2,
{
    lemma_pow2_adds(shape.cap_height as nat, shape.num_layers_to_cap as nat);
    lemma_internal_nodes(shape.num_leaves as nat, shape.cap_height as nat);
}

} // verus!
