//! The GPU's work for one Merkle tree: what is checked before it starts, and every buffer and
//! dispatch in order.
use crate::bytes::{i32_to_bytes, little_endian, words_to_bytes};
use crate::chars::writes;
use crate::goldilocks::GoldilocksField;
use crate::gpu::{Binding, BufferId, Dispatch, GpuCommand, Pipeline, WORKGROUP_SIZE};
use crate::layers::{div_ceil, layer_offset, layer_size};
use crate::text::{decimal, lemma_decimal_writes, push_usize};
use crate::words::{fields_to_words, number_words, residues, BYTES_PER_DIGEST};
use vstd::arithmetic::div_mod::*;
use vstd::arithmetic::mul::*;
use vstd::prelude::*;
use vstd::string::*;

verus! {

/// Why a tree is not built on the GPU.
#[derive(Clone, Copy, Debug, PartialEq, Eq, Structural)]
pub enum BuildError {
    /// The number of leaves does not fit in an `i32`.
    TooManyLeaves { num_leaves: usize },
    /// The leaves do not all have the same number of elements.
    UnevenLeaves,
    /// The number of leaves is no power of two.
    NotPowerOfTwo,
    /// The cap lies above the root.
    CapTooHigh { cap_height: usize, depth: usize },
    /// There is no layer between the leaves and the cap.
    NoInternalNodes { num_leaves: usize, cap_height: usize },
    /// The leaves have no elements.
    EmptyLeaves,
    /// The number of elements per leaf does not fit in an `i32`.
    LeavesTooWide { elements_per_leaf: usize },
}

impl BuildError {
    /// What the error says.
    pub open spec fn text(self) -> Seq<char> {
        match self {
            BuildError::TooManyLeaves { num_leaves } =>
                "Merkle GPU hashing expects leaf count to fit in i32, got "@ + decimal(
                num_leaves as nat,
            ),
            BuildError::UnevenLeaves =>
                "GPU Poseidon hashing requires leaves of uniform length"@,
            BuildError::NotPowerOfTwo =>
                "GPU Merkle currently expects a power-of-two leaf count"@,
            BuildError::CapTooHigh { cap_height, depth } => "cap_height "@ + decimal(
                cap_height as nat,
            ) + " exceeds tree depth "@ + decimal(depth as nat),
            BuildError::NoInternalNodes { num_leaves, cap_height } =>
                "GPU Merkle skipped: total_internal_nodes == 0 for leaves="@ + decimal(
                num_leaves as nat,
            ) + ", cap_height="@ + decimal(cap_height as nat),
            BuildError::EmptyLeaves => "GPU Poseidon hashing received empty leaves"@,
            BuildError::LeavesTooWide { elements_per_leaf } =>
                "elements_per_leaf must fit in i32, got "@ + decimal(elements_per_leaf as nat),
        }
    }

    /// What the error says.
    pub fn message(&self) -> (message: String)
        ensures
            message@ == self.text(),
    {
        let mut out = String::new();
        match self {
            BuildError::TooManyLeaves { num_leaves } => {
                out.append("Merkle GPU hashing expects leaf count to fit in i32, got ");
                push_usize(&mut out, *num_leaves);
            },
            BuildError::UnevenLeaves => {
                out.append("GPU Poseidon hashing requires leaves of uniform length");
            },
            BuildError::NotPowerOfTwo => {
                out.append("GPU Merkle currently expects a power-of-two leaf count");
            },
            BuildError::CapTooHigh { cap_height, depth } => {
                out.append("cap_height ");
                push_usize(&mut out, *cap_height);
                out.append(" exceeds tree depth ");
                push_usize(&mut out, *depth);
            },
            BuildError::NoInternalNodes { num_leaves, cap_height } => {
                out.append("GPU Merkle skipped: total_internal_nodes == 0 for leaves=");
                push_usize(&mut out, *num_leaves);
                out.append(", cap_height=");
                push_usize(&mut out, *cap_height);
            },
            BuildError::EmptyLeaves => {
                out.append("GPU Poseidon hashing received empty leaves");
            },
            BuildError::LeavesTooWide { elements_per_leaf } => {
                out.append("elements_per_leaf must fit in i32, got ");
                push_usize(&mut out, *elements_per_leaf);
            },
        }
        assert(out@ =~= self.text());
        out
    }
}

/// All leaves have as many elements as the first one.
pub open spec fn uniform(leaves: Seq<Vec<GoldilocksField>>) -> bool {
    forall|i: int| 0 <= i < leaves.len() ==> (#[trigger] leaves[i])@.len() == leaves[0]@.len()
}

/// The number of leaves and of elements in the first of them.
pub fn leaf_info(leaves: &Vec<Vec<GoldilocksField>>) -> (info: (usize, usize))
    requires
        leaves@.len() > 0,
    ensures
        info.0 == leaves@.len(),
        info.1 == leaves@[0]@.len(),
{
    (leaves.len(), leaves[0].len())
}

/// All leaves have `elements_per_leaf` elements.
pub fn leaves_have_length(
    leaves: &Vec<Vec<GoldilocksField>>,
    elements_per_leaf: usize,
) -> (even: bool)
    ensures
        even == (forall|i: int|
            0 <= i < leaves@.len() ==> (#[trigger] leaves@[i])@.len() == elements_per_leaf),
{
    let mut i: usize = 0;
    while i < leaves.len()
        invariant
            i <= leaves@.len(),
            forall|k: int| 0 <= k < i ==> (#[trigger] leaves@[k])@.len() == elements_per_leaf,
        decreases leaves@.len() - i,
    {
        if leaves[i].len() != elements_per_leaf {
            assert(leaves@[i as int]@.len() != elements_per_leaf);
            return false;
        }
        i = i + 1;
    }
    true
}

/// The elements of the leaves, all first elements before all second ones, and so on.
pub open spec fn transposed(leaves: Seq<Vec<GoldilocksField>>) -> Seq<GoldilocksField> {
    Seq::new(
        leaves.len() * leaves[0]@.len(),
        |k: int| leaves[k % leaves.len() as int]@[k / leaves.len() as int],
    )
}

/// Element `e` of leaf `l` lies at position `e * leaves.len() + l` of the transposed elements.
pub proof fn lemma_transposed_index(leaves: Seq<Vec<GoldilocksField>>, l: int, e: int)
    requires
        0 <= l < leaves.len(),
        0 <= e < leaves[0]@.len(),
    ensures
        0 <= e * leaves.len() + l < transposed(leaves).len(),
        transposed(leaves)[e * leaves.len() + l] == leaves[l]@[e],
{
    let n = leaves.len() as int;
    let width = leaves[0]@.len() as int;
    lemma_fundamental_div_mod_converse(e * n + l, n, e, l);
    assert(0 <= e * n + l < n * width) by (nonlinear_arith)
        requires
            0 <= l < n,
            0 <= e < width,
    ;
}

/// Lays the elements of the leaves out position by position: all first elements, then all second
/// ones, and so on. Returns them with the number of elements per leaf.
pub fn transpose_leaves(leaves: &Vec<Vec<GoldilocksField>>) -> (result: (
    Vec<GoldilocksField>,
    usize,
))
    requires
        leaves@.len() > 0,
        forall|i: int|
            0 <= i < leaves@.len() ==> (#[trigger] leaves@[i])@.len() >= leaves@[0]@.len(),
    ensures
        result.0@ == transposed(leaves@),
        result.1 == leaves@[0]@.len(),
{
    let num_leaves: usize = leaves.len();
    let elements_per_leaf: usize = leaves[0].len();
    let mut elements: Vec<GoldilocksField> = Vec::new();
    let ghost expected = transposed(leaves@);
    let mut elem_idx: usize = 0;
    assert(elements@ =~= expected.take(0));
    while elem_idx < elements_per_leaf
        invariant
            num_leaves == leaves@.len(),
            num_leaves > 0,
            elements_per_leaf == leaves@[0]@.len(),
            elem_idx <= elements_per_leaf,
            forall|i: int|
                0 <= i < leaves@.len() ==> (#[trigger] leaves@[i])@.len() >= elements_per_leaf,
            expected == transposed(leaves@),
            elements@ == expected.take(elem_idx * num_leaves),
            elem_idx * num_leaves <= expected.len(),
        decreases elements_per_leaf - elem_idx,
    {
        let mut leaf_idx: usize = 0;
        while leaf_idx < num_leaves
            invariant
                num_leaves == leaves@.len(),
                elements_per_leaf == leaves@[0]@.len(),
                elem_idx < elements_per_leaf,
                leaf_idx <= num_leaves,
                forall|i: int|
                    0 <= i < leaves@.len() ==> (#[trigger] leaves@[i])@.len()
                        >= elements_per_leaf,
                expected == transposed(leaves@),
                elements@ == expected.take(elem_idx * num_leaves + leaf_idx),
                elem_idx * num_leaves + leaf_idx <= expected.len(),
            decreases num_leaves - leaf_idx,
        {
            proof {
                lemma_transposed_index(leaves@, leaf_idx as int, elem_idx as int);
            }
            let ghost at = elem_idx * num_leaves + leaf_idx;
            elements.push(leaves[leaf_idx][elem_idx]);
            assert(elements@ =~= expected.take(at + 1));
            leaf_idx = leaf_idx + 1;
        }
        assert(elem_idx * num_leaves + num_leaves == (elem_idx + 1) * num_leaves)
            by (nonlinear_arith);
        elem_idx = elem_idx + 1;
    }
    proof {
        lemma_mul_is_commutative(elements_per_leaf as int, num_leaves as int);
        assert(expected.take(expected.len() as int) =~= expected);
    }
    (elements, elements_per_leaf)
}

/// The arguments of the kernel that hashes one layer into the next.
#[derive(Clone, Copy, Debug, PartialEq, Eq, Structural)]
pub struct MerkleTreeKernelArgs {
    pub cap_len: u32,
    pub layer: u32,
    pub src_layer_size: u32,
    pub dst_layer_size: u32,
    pub src_offset: u32,
    pub dst_offset: u32,
    pub write_to_cap: u32,
}

impl MerkleTreeKernelArgs {
    /// The arguments as words, in the order in which the kernel reads them.
    pub open spec fn words(self) -> Seq<u32> {
        seq![
            self.cap_len,
            self.layer,
            self.src_layer_size,
            self.dst_layer_size,
            self.src_offset,
            self.dst_offset,
            self.write_to_cap,
        ]
    }

    /// The arguments as bytes, in the order in which the kernel reads them.
    pub fn to_bytes(&self) -> (bytes: Vec<u8>)
        ensures
            little_endian(bytes@, self.words()),
    {
        let mut words: Vec<u32> = Vec::new();
        words.push(self.cap_len);
        words.push(self.layer);
        words.push(self.src_layer_size);
        words.push(self.dst_layer_size);
        words.push(self.src_offset);
        words.push(self.dst_offset);
        words.push(self.write_to_cap);
        assert(words@ =~= self.words());
        words_to_bytes(words.as_slice())
    }
}

/// The arguments for hashing layer `layer` of a tree over `num_leaves` leaves whose cap lies
/// `num_layers_to_cap` layers up. Layers lie one after the other in the node buffer; the last
/// one goes to the cap.
pub open spec fn layer_args(
    num_leaves: nat,
    num_layers_to_cap: nat,
    cap_len: nat,
    layer: nat,
) -> MerkleTreeKernelArgs {
    MerkleTreeKernelArgs {
        cap_len: cap_len as u32,
        layer: layer as u32,
        src_layer_size: layer_size(num_leaves, layer) as u32,
        dst_layer_size: layer_size(num_leaves, layer + 1) as u32,
        src_offset: layer_offset(num_leaves, layer) as u32,
        dst_offset: if layer + 1 < num_layers_to_cap {
            layer_offset(num_leaves, layer + 1) as u32
        } else {
            0
        },
        write_to_cap: if layer + 1 == num_layers_to_cap {
            1
        } else {
            0
        },
    }
}

/// Workgroups of 64 threads for `count` threads.
pub open spec fn workgroups_for(count: int) -> int {
    div_ceil(count, WORKGROUP_SIZE as int)
}

/// The workgroups have a thread for each item, and fewer workgroups would not.
pub proof fn lemma_workgroups_cover(count: int)
    requires
        count >= 0,
    ensures
        workgroups_for(count) * WORKGROUP_SIZE >= count,
        count > 0 ==> (workgroups_for(count) - 1) * WORKGROUP_SIZE < count,
{
}

/// Workgroups of 64 threads for `count` threads.
fn workgroups(count: u32) -> (groups: u32)
    ensures
        groups == workgroups_for(count as int),
{
    ((count as u64 + (WORKGROUP_SIZE as u64 - 1)) / WORKGROUP_SIZE as u64) as u32
}

/// The binding is a fresh buffer that holds these words.
pub open spec fn inline_words(binding: Binding, words: Seq<u32>) -> bool {
    binding matches Binding::Inline(bytes) && little_endian(bytes@, words)
}

/// The command uploads these words to the buffer.
pub open spec fn uploads(command: GpuCommand, buffer: BufferId, words: Seq<u32>) -> bool {
    command matches GpuCommand::Upload { buffer: to, contents } && to == buffer && little_endian(
        contents@,
        words,
    )
}

/// The command allocates the buffer with this many bytes.
pub open spec fn allocates(command: GpuCommand, buffer: BufferId, size: int) -> bool {
    command matches GpuCommand::Allocate { buffer: to, size: bytes } && to == buffer && bytes
        == size
}

/// The command runs the pipeline on this many workgroups.
pub open spec fn runs(command: GpuCommand, pipeline: Pipeline, x: int, y: int) -> bool {
    command matches GpuCommand::Run(dispatch) && dispatch.pipeline == pipeline
        && dispatch.workgroups_x == x && dispatch.workgroups_y == y
}

/// The bindings of a command that runs a pipeline.
pub open spec fn bindings(command: GpuCommand) -> Seq<Binding> {
    command->Run_0.bindings@
}

/// The Poseidon tables are bound where the hashing shaders read them.
pub open spec fn poseidon_bound(bindings: Seq<Binding>) -> bool {
    &&& bindings.len() == 7
    &&& bindings[4] == Binding::Buffer(BufferId::MdsCirc)
    &&& bindings[5] == Binding::Buffer(BufferId::MdsDiag)
    &&& bindings[6] == Binding::Buffer(BufferId::RoundConstants)
}

/// Hashes `num_leaves` leaves of `elements_per_leaf` elements into the leaf digests.
pub open spec fn hashes_leaves(
    command: GpuCommand,
    num_leaves: usize,
    elements_per_leaf: usize,
) -> bool {
    &&& runs(command, Pipeline::LeafHash, workgroups_for((num_leaves as u32) as int), 1)
    &&& poseidon_bound(bindings(command))
    &&& bindings(command)[0] == Binding::Buffer(BufferId::LeafDigests)
    &&& bindings(command)[1] == Binding::Buffer(BufferId::LeafElements)
    &&& inline_words(bindings(command)[2], seq![(num_leaves as i32) as u32])
    &&& inline_words(bindings(command)[3], seq![(elements_per_leaf as i32) as u32])
}

/// Adds the Poseidon tables to the bindings of a hashing shader.
pub fn bind_poseidon(bindings: &mut Vec<Binding>)
    requires
        old(bindings)@.len() == 4,
    ensures
        final(bindings)@.take(4) == old(bindings)@,
        poseidon_bound(final(bindings)@),
{
    bindings.push(Binding::Buffer(BufferId::MdsCirc));
    bindings.push(Binding::Buffer(BufferId::MdsDiag));
    bindings.push(Binding::Buffer(BufferId::RoundConstants));
    assert(bindings@.take(4) =~= old(bindings)@);
}

/// The buffer of the leaf digests and the dispatch that fills it.
pub fn hash_leaves_gpu(num_leaves: usize, elements_per_leaf: usize) -> (commands: (
    GpuCommand,
    GpuCommand,
))
    requires
        num_leaves * BYTES_PER_DIGEST <= u64::MAX,
    ensures
        allocates(commands.0, BufferId::LeafDigests, num_leaves * BYTES_PER_DIGEST),
        hashes_leaves(commands.1, num_leaves, elements_per_leaf),
{
    let size: u64 = num_leaves as u64 * BYTES_PER_DIGEST as u64;
    let mut bindings: Vec<Binding> = Vec::new();
    bindings.push(Binding::Buffer(BufferId::LeafDigests));
    bindings.push(Binding::Buffer(BufferId::LeafElements));
    bindings.push(Binding::Inline(i32_to_bytes(num_leaves as i32)));
    bindings.push(Binding::Inline(i32_to_bytes(elements_per_leaf as i32)));
    bind_poseidon(&mut bindings);
    proof {
        assert(bindings@[0] == bindings@.take(4)[0]);
        assert(bindings@[1] == bindings@.take(4)[1]);
        assert(bindings@[2] == bindings@.take(4)[2]);
        assert(bindings@[3] == bindings@.take(4)[3]);
    }
    let dispatch = Dispatch {
        pipeline: Pipeline::LeafHash,
        bindings,
        workgroups_x: workgroups(num_leaves as u32),
        workgroups_y: 1,
    };
    (GpuCommand::Allocate { buffer: BufferId::LeafDigests, size }, GpuCommand::Run(dispatch))
}

/// Workgroups in the second dimension for bringing `num` elements into Montgomery form: more than
/// one only where one dimension would be too long.
pub open spec fn montgomery_rows(num: int) -> int {
    if num >= 0x1_0000 {
        num / 0x8000
    } else {
        1
    }
}

/// Workgroups in the first dimension for bringing `num` elements into Montgomery form.
pub open spec fn montgomery_columns(num: int) -> int {
    div_ceil(num, montgomery_rows(num))
}

/// The workgroups of both dimensions together reach every element, and the first dimension stays
/// below `2^16`.
pub proof fn lemma_montgomery_grid_covers(num: int)
    requires
        num >= 0,
    ensures
        montgomery_rows(num) >= 1,
        montgomery_rows(num) * montgomery_columns(num) >= num,
        montgomery_columns(num) <= 0xC000 || montgomery_columns(num) == num < 0x1_0000,
{
    let y = montgomery_rows(num);
    lemma_fundamental_div_mod(num + y - 1, y);
    lemma_mod_bound(num + y - 1, y);
    if num >= 0x1_0000 {
        lemma_fundamental_div_mod(num, 0x8000);
        assert(y >= 2);
        let x = montgomery_columns(num);
        assert(x <= 0xC000) by (nonlinear_arith)
            requires
                y >= 2,
                num < 0x8000 * y + 0x8000,
                y * x <= num + y - 1,
        ;
    } else {
        lemma_div_basics(num);
    }
}

/// Brings `num` elements of the leaf elements into Montgomery form.
pub open spec fn enters_montgomery(command: GpuCommand, num: usize) -> bool {
    &&& runs(
        command,
        Pipeline::ToMontgomery,
        ((montgomery_columns(num as int) as usize) as u32) as int,
        ((montgomery_rows(num as int) as usize) as u32) as int,
    )
    &&& bindings(command).len() == 2
    &&& bindings(command)[0] == Binding::Buffer(BufferId::LeafElements)
    &&& inline_words(bindings(command)[1], seq![(num as i32) as u32])
}

/// The upload of the leaf elements in canonical form, and the dispatch that brings `num` of them
/// into Montgomery form.
pub fn canonical_to_montgomery_gpu(elements: &[GoldilocksField], num: usize) -> (commands: (
    GpuCommand,
    GpuCommand,
))
    ensures
        uploads(commands.0, BufferId::LeafElements, number_words(residues(elements@))),
        enters_montgomery(commands.1, num),
{
    let words = fields_to_words(elements);
    let contents = words_to_bytes(words.as_slice());
    let workgroups_y: usize = if num >= 0x1_0000 {
        num / 0x8000
    } else {
        1
    };
    let whole: usize = num / workgroups_y;
    let rest: usize = num % workgroups_y;
    proof {
        let y = workgroups_y as int;
        lemma_fundamental_div_mod(num as int, y);
        lemma_mul_is_commutative(y, whole as int);
        if rest == 0 {
            lemma_fundamental_div_mod_converse(num + y - 1, y, whole as int, y - 1);
        } else {
            lemma_mul_is_distributive_add_other_way(y, whole as int, 1);
            lemma_fundamental_div_mod_converse(num + y - 1, y, whole + 1, rest - 1);
            lemma_mul_inequality(1, y, whole as int);
        }
    }
    let num_blocks_x: usize = if rest == 0 {
        whole
    } else {
        whole + 1
    };
    let mut bindings: Vec<Binding> = Vec::new();
    bindings.push(Binding::Buffer(BufferId::LeafElements));
    bindings.push(Binding::Inline(i32_to_bytes(num as i32)));
    let dispatch = Dispatch {
        pipeline: Pipeline::ToMontgomery,
        bindings,
        workgroups_x: num_blocks_x as u32,
        workgroups_y: workgroups_y as u32,
    };
    (GpuCommand::Upload { buffer: BufferId::LeafElements, contents }, GpuCommand::Run(dispatch))
}

/// Brings `num` elements of the buffer back into canonical form.
pub open spec fn leaves_montgomery(command: GpuCommand, buffer: BufferId, num: u32) -> bool {
    &&& runs(command, Pipeline::ToCanonical, workgroups_for(num as int), 1)
    &&& bindings(command).len() == 2
    &&& bindings(command)[0] == Binding::Buffer(buffer)
    &&& inline_words(bindings(command)[1], seq![(num as i32) as u32])
}

/// The dispatch that brings `num` elements of a buffer back into canonical form; none where there
/// are no elements.
pub fn montgomery_to_canonical_gpu(buffer: BufferId, num: u32) -> (command: Option<GpuCommand>)
    ensures
        num == 0 <==> command is None,
        command matches Some(command) ==> leaves_montgomery(command, buffer, num),
{
    if num == 0 {
        return None;
    }
    let mut bindings: Vec<Binding> = Vec::new();
    bindings.push(Binding::Buffer(buffer));
    bindings.push(Binding::Inline(i32_to_bytes(num as i32)));
    let dispatch = Dispatch {
        pipeline: Pipeline::ToCanonical,
        bindings,
        workgroups_x: workgroups(num),
        workgroups_y: 1,
    };
    Some(GpuCommand::Run(dispatch))
}

/// The buffers of the inner nodes and of the cap.
pub fn create_buffers(total_internal_nodes: usize, cap_len: usize) -> (commands: (
    GpuCommand,
    GpuCommand,
))
    requires
        total_internal_nodes * BYTES_PER_DIGEST <= u64::MAX,
        cap_len * BYTES_PER_DIGEST <= u64::MAX,
    ensures
        allocates(commands.0, BufferId::Nodes, total_internal_nodes * BYTES_PER_DIGEST),
        allocates(commands.1, BufferId::Cap, cap_len * BYTES_PER_DIGEST),
{
    let nodes: u64 = total_internal_nodes as u64 * BYTES_PER_DIGEST as u64;
    let cap: u64 = cap_len as u64 * BYTES_PER_DIGEST as u64;
    (
        GpuCommand::Allocate { buffer: BufferId::Nodes, size: nodes },
        GpuCommand::Allocate { buffer: BufferId::Cap, size: cap },
    )
}

/// What an error says can be read back: the numbers that it carries stand in it in decimal digits.
pub proof fn lemma_error_readable(error: BuildError)
    ensures
        match error {
            BuildError::TooManyLeaves { num_leaves } => exists|a: Seq<char>| #[trigger]
                writes(a, num_leaves as int) && error.text()
                    == "Merkle GPU hashing expects leaf count to fit in i32, got "@ + a,
            BuildError::CapTooHigh { cap_height, depth } => exists|a: Seq<char>, b: Seq<char>|
                #[trigger] writes(a, cap_height as int) && #[trigger] writes(b, depth as int)
                    && error.text() == "cap_height "@ + a + " exceeds tree depth "@ + b,
            BuildError::NoInternalNodes { num_leaves, cap_height } => exists|
                a: Seq<char>,
                b: Seq<char>,
            | #[trigger]
                writes(a, num_leaves as int) && #[trigger] writes(b, cap_height as int)
                    && error.text() == "GPU Merkle skipped: total_internal_nodes == 0 for leaves="@
                    + a + ", cap_height="@ + b,
            BuildError::LeavesTooWide { elements_per_leaf } => exists|a: Seq<char>| #[trigger]
                writes(a, elements_per_leaf as int) && error.text()
                    == "elements_per_leaf must fit in i32, got "@ + a,
            _ => true,
        },
{
    match error {
        BuildError::TooManyLeaves { num_leaves } => {
            lemma_decimal_writes(num_leaves as nat);
        },
        BuildError::CapTooHigh { cap_height, depth } => {
            lemma_decimal_writes(cap_height as nat);
            lemma_decimal_writes(depth as nat);
        },
        BuildError::NoInternalNodes { num_leaves, cap_height } => {
            lemma_decimal_writes(num_leaves as nat);
            lemma_decimal_writes(cap_height as nat);
        },
        BuildError::LeavesTooWide { elements_per_leaf } => {
            lemma_decimal_writes(elements_per_leaf as nat);
        },
        _ => {},
    }
}

} // verus!
