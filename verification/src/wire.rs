//! What the GPU is handed for a tree, byte by byte: the numbers that a shader finds where it looks
//! for them, and the threads that it is run with.
use crate::bytes::{lemma_bytes_spell_words, little_endian};
use crate::goldilocks::GoldilocksField;
use crate::gpu::{Binding, BufferId, GpuCommand, Pipeline};
use crate::job::{
    builds_tree, digest_elements, hashes_layer, lemma_shape_numbers, lemma_shape_sizes, TreeShape,
};
use crate::layers::{floor_log2, lemma_floor_log2_of_pow2, lemma_full_tree_layers};
use crate::plan::{
    bindings, enters_montgomery, hashes_leaves, layer_args, leaves_montgomery,
    lemma_montgomery_grid_covers, lemma_transposed_index, montgomery_columns, montgomery_rows,
    transposed, uniform, uploads,
};
use crate::words::{lemma_words_of_elements, number_words, residues};
use vstd::arithmetic::div_mod::*;
use vstd::arithmetic::power2::*;
use vstd::prelude::*;

verus! {

/// The number that four bytes make up, the least significant one first.
pub open spec fn number_of_4(bytes: Seq<u8>, at: int) -> int {
    bytes[at] + 0x100 * bytes[at + 1] + 0x1_0000 * bytes[at + 2] + 0x100_0000 * bytes[at + 3]
}

/// The number that eight bytes make up, the least significant one first.
pub open spec fn number_of_8(bytes: Seq<u8>, at: int) -> int {
    number_of_4(bytes, at) + 0x1_0000_0000 * number_of_4(bytes, at + 4)
}

/// Number `k` of the contents that a dispatch binds at `binding`.
pub open spec fn bound_number(command: GpuCommand, binding: int, k: int) -> int {
    number_of_4(bindings(command)[binding]->Inline_0@, 4 * k)
}

/// The workgroups that a dispatch runs.
pub open spec fn workgroups_run(command: GpuCommand) -> int {
    command->Run_0.workgroups_x * command->Run_0.workgroups_y
}

/// One word makes up one number.
proof fn lemma_one_number(bytes: Seq<u8>, word: u32)
    requires
        little_endian(bytes, seq![word]),
    ensures
        bytes.len() == 4,
        number_of_4(bytes, 0) == word,
{
    lemma_bytes_spell_words(bytes, seq![word]);
    assert(seq![word][0] == word);
}

/// Element `e` of leaf `l` is uploaded at place `e` times the number of leaves, plus `l`: its eight
/// bytes are its value modulo the field order.
pub proof fn lemma_element_uploaded(
    commands: Seq<GpuCommand>,
    leaves: Seq<Vec<GoldilocksField>>,
    shape: TreeShape,
    l: int,
    e: int,
)
    requires
        builds_tree(commands, leaves, shape),
        uniform(leaves),
        0 <= l < leaves.len(),
        0 <= e < leaves[l]@.len(),
    ensures
        commands[0] matches GpuCommand::Upload { buffer, contents } && buffer
            == BufferId::LeafElements && contents@.len() == 8 * (leaves.len() * leaves[l]@.len())
            && 0 <= e * leaves.len() + l < leaves.len() * leaves[l]@.len() && number_of_8(
            contents@,
            8 * (e * leaves.len() + l),
        ) == leaves[l]@[e].0 as int % 0xFFFF_FFFF_0000_0001,
{
    let values = transposed(leaves);
    let words = number_words(residues(values));
    assert(leaves[l]@.len() == leaves[0]@.len());
    lemma_transposed_index(leaves, l, e);
    let k = e * leaves.len() + l;
    lemma_words_of_elements(values, k);
    assert(uploads(commands[0], BufferId::LeafElements, words));
    let contents = commands[0]->contents@;
    lemma_bytes_spell_words(contents, words);
    assert(words[2 * k] as int == number_of_4(contents, 8 * k)) by {
        assert(4 * (2 * k) == 8 * k);
    }
    assert(words[2 * k + 1] as int == number_of_4(contents, 8 * k + 4)) by {
        assert(4 * (2 * k + 1) == 8 * k + 4);
    }
}

/// The leaf shader is told the number of leaves and of elements in each, and runs a thread for each
/// leaf, with no workgroup to spare.
pub proof fn lemma_leaf_dispatch(command: GpuCommand, num_leaves: usize, elements_per_leaf: usize)
    requires
        hashes_leaves(command, num_leaves, elements_per_leaf),
        num_leaves <= i32::MAX,
        elements_per_leaf <= i32::MAX,
    ensures
        command is Run,
        command->Run_0.pipeline == Pipeline::LeafHash,
        bindings(command)[0] == Binding::Buffer(BufferId::LeafDigests),
        bindings(command)[1] == Binding::Buffer(BufferId::LeafElements),
        bindings(command).len() == 7,
        bindings(command)[4] == Binding::Buffer(BufferId::MdsCirc),
        bindings(command)[5] == Binding::Buffer(BufferId::MdsDiag),
        bindings(command)[6] == Binding::Buffer(BufferId::RoundConstants),
        bound_number(command, 2, 0) == num_leaves,
        bound_number(command, 3, 0) == elements_per_leaf,
        64 * workgroups_run(command) >= num_leaves,
        num_leaves > 0 ==> 64 * (workgroups_run(command) - 1) < num_leaves,
        command->Run_0.workgroups_y == 1,
{
    lemma_one_number(bindings(command)[2]->Inline_0@, num_leaves as u32);
    lemma_one_number(bindings(command)[3]->Inline_0@, elements_per_leaf as u32);
    assert(command->Run_0.workgroups_x * 1 == command->Run_0.workgroups_x);
}

/// The shader that brings elements into Montgomery form is told their number, and runs a workgroup
/// for each: in one row where they are fewer than `2^16`, else in one row for each `2^15` of them,
/// with no row longer than it has to be.
pub proof fn lemma_enter_dispatch(command: GpuCommand, num: usize)
    requires
        enters_montgomery(command, num),
        num <= i32::MAX,
    ensures
        command is Run,
        command->Run_0.pipeline == Pipeline::ToMontgomery,
        bindings(command)[0] == Binding::Buffer(BufferId::LeafElements),
        bound_number(command, 1, 0) == num,
        bindings(command).len() == 2,
        workgroups_run(command) >= num,
        command->Run_0.workgroups_x < 0x1_0000,
        command->Run_0.workgroups_y < 0x1_0000,
        num < 0x1_0000 ==> command->Run_0.workgroups_y == 1,
        num >= 0x1_0000 ==> 0x8000 * command->Run_0.workgroups_y <= num < 0x8000 * (
        command->Run_0.workgroups_y + 1),
        num > 0 ==> (command->Run_0.workgroups_x - 1) * command->Run_0.workgroups_y < num,
{
    lemma_one_number(bindings(command)[1]->Inline_0@, num as u32);
    lemma_montgomery_grid_covers(num as int);
    let x = montgomery_columns(num as int);
    let y = montgomery_rows(num as int);
    assert(0 <= x <= 0xFFFF) by {
        lemma_div_pos_is_pos(num + y - 1, y);
    }
    assert(1 <= y <= 0xFFFF);
    assert(command->Run_0.workgroups_x == x && command->Run_0.workgroups_y == y);
    assert(x * y == y * x) by (nonlinear_arith);
    lemma_fundamental_div_mod(num + y - 1, y);
    lemma_mod_bound(num + y - 1, y);
    assert((x - 1) * y == y * x - y) by (nonlinear_arith);
}

/// The shader that brings elements back into canonical form is told their number, and runs a thread
/// for each, with no workgroup to spare.
pub proof fn lemma_leave_dispatch(command: GpuCommand, buffer: BufferId, num: u32)
    requires
        leaves_montgomery(command, buffer, num),
    ensures
        command is Run,
        command->Run_0.pipeline == Pipeline::ToCanonical,
        bindings(command)[0] == Binding::Buffer(buffer),
        bound_number(command, 1, 0) == num,
        bindings(command).len() == 2,
        64 * workgroups_run(command) >= num,
        num > 0 ==> 64 * (workgroups_run(command) - 1) < num,
        command->Run_0.workgroups_y == 1,
{
    assert((num as i32) as u32 == num) by (bit_vector);
    lemma_one_number(bindings(command)[1]->Inline_0@, num);
    assert(command->Run_0.workgroups_x * 1 == command->Run_0.workgroups_x);
}

/// The layer shader is told, in this order: the length of the cap; the layer; how many digests it
/// reads, and how many, half of them, it writes; where those lie that it reads, and where those go
/// that it writes; and whether they go to the cap. Over `2^depth` leaves layer `l` has
/// `2^(depth - l)` digests, and in the node buffer all layers between the leaves and it lie before
/// it. The shader runs a thread for each digest that it writes, with no workgroup to spare.
pub proof fn lemma_layer_dispatch(command: GpuCommand, shape: TreeShape, depth: nat, layer: nat)
    requires
        shape.wf(),
        shape.num_leaves == pow2(depth),
        layer < shape.num_layers_to_cap,
        hashes_layer(command, shape, layer),
    ensures
        command is Run,
        command->Run_0.pipeline == Pipeline::MerkleLayer,
        bindings(command)[0] == Binding::Buffer(BufferId::LeafDigests),
        bindings(command)[1] == Binding::Buffer(BufferId::Nodes),
        bindings(command)[2] == Binding::Buffer(BufferId::Cap),
        bindings(command).len() == 7,
        bindings(command)[4] == Binding::Buffer(BufferId::MdsCirc),
        bindings(command)[5] == Binding::Buffer(BufferId::MdsDiag),
        bindings(command)[6] == Binding::Buffer(BufferId::RoundConstants),
        bindings(command)[3]->Inline_0@.len() == 28,
        bound_number(command, 3, 0) == pow2(shape.cap_height as nat),
        bound_number(command, 3, 1) == layer,
        layer < depth,
        bound_number(command, 3, 2) == pow2((depth - layer) as nat),
        bound_number(command, 3, 3) == pow2((depth - layer - 1) as nat),
        layer == 0 ==> bound_number(command, 3, 4) == 0,
        layer > 0 ==> bound_number(command, 3, 4) == shape.num_leaves - pow2(
            (depth - layer + 1) as nat,
        ),
        layer + 1 < shape.num_layers_to_cap ==> bound_number(command, 3, 5) == shape.num_leaves
            - pow2((depth - layer) as nat) && bound_number(command, 3, 6) == 0,
        layer + 1 == shape.num_layers_to_cap ==> bound_number(command, 3, 5) == 0 && bound_number(
            command,
            3,
            6,
        ) == 1,
        64 * workgroups_run(command) >= bound_number(command, 3, 3),
        64 * (workgroups_run(command) - 1) < bound_number(command, 3, 3),
        command->Run_0.workgroups_y == 1,
{
    let n = shape.num_leaves as nat;
    let args = layer_args(n, shape.num_layers_to_cap as nat, shape.cap_len as nat, layer);
    let words = args.words();
    let bytes = bindings(command)[3]->Inline_0@;
    lemma_floor_log2_of_pow2(depth);
    assert(floor_log2(n) == depth);
    lemma_shape_sizes(n, shape.cap_height as nat, layer);
    lemma_shape_sizes(n, shape.cap_height as nat, layer + 1);
    lemma_full_tree_layers(depth, layer);
    lemma_full_tree_layers(depth, layer + 1);
    lemma_pow2_pos((depth - layer - 1) as nat);
    lemma_bytes_spell_words(bytes, words);
    assert(words[0] == args.cap_len && words[1] == args.layer);
    assert(words[2] == args.src_layer_size && words[3] == args.dst_layer_size);
    assert(words[4] == args.src_offset && words[5] == args.dst_offset);
    assert(words[6] == args.write_to_cap);
    assert(command->Run_0.workgroups_x * 1 == command->Run_0.workgroups_x);
}

/// The digest buffers of a tree have 32 bytes for each digest: one for each leaf; one for each
/// digest between the leaves and the cap, which is two caps less than there are leaves; and one
/// for each of the `2^cap_height` entries of the cap.
pub proof fn lemma_buffers_allocated(
    commands: Seq<GpuCommand>,
    leaves: Seq<Vec<GoldilocksField>>,
    shape: TreeShape,
)
    requires
        shape.wf(),
        shape.num_leaves == leaves.len(),
        builds_tree(commands, leaves, shape),
    ensures
        commands[2] matches GpuCommand::Allocate { buffer, size } && buffer
            == BufferId::LeafDigests && size == 32 * leaves.len(),
        commands[4] matches GpuCommand::Allocate { buffer, size } && buffer == BufferId::Nodes
            && size == 32 * (leaves.len() - 2 * pow2(shape.cap_height as nat)),
        commands[5] matches GpuCommand::Allocate { buffer, size } && buffer == BufferId::Cap
            && size == 32 * pow2(shape.cap_height as nat),
{
    lemma_shape_numbers(shape);
}

/// Each dispatch of a tree has a thread for each item that its arguments name: a leaf, an element,
/// or a digest of the layer that it writes; and what is told to it is what the tree asks for.
pub proof fn lemma_dispatches_cover(
    commands: Seq<GpuCommand>,
    leaves: Seq<Vec<GoldilocksField>>,
    shape: TreeShape,
    i: int,
)
    requires
        shape.wf(),
        shape.num_leaves == leaves.len(),
        uniform(leaves),
        leaves[0]@.len() <= i32::MAX,
        leaves.len() * leaves[0]@.len() <= i32::MAX,
        builds_tree(commands, leaves, shape),
        0 <= i < commands.len(),
    ensures
        commands.len() == 8 + shape.num_layers_to_cap,
        commands[i] is Run <==> i == 1 || i == 3 || i >= 6,
        i == 1 ==> commands[i]->Run_0.pipeline == Pipeline::ToMontgomery && bound_number(
            commands[i],
            1,
            0,
        ) == leaves.len() * leaves[0]@.len() && workgroups_run(commands[i]) >= leaves.len()
            * leaves[0]@.len(),
        i == 3 ==> commands[i]->Run_0.pipeline == Pipeline::LeafHash && bound_number(
            commands[i],
            2,
            0,
        ) == leaves.len() && bound_number(commands[i], 3, 0) == leaves[0]@.len() && 64
            * workgroups_run(commands[i]) >= leaves.len(),
        6 <= i < 6 + shape.num_layers_to_cap ==> commands[i]->Run_0.pipeline
            == Pipeline::MerkleLayer && bound_number(commands[i], 3, 1) == i - 6 && bound_number(
            commands[i],
            3,
            3,
        ) * pow2((i - 5) as nat) == leaves.len() && 64 * workgroups_run(commands[i])
            >= bound_number(commands[i], 3, 3),
        i == 6 + shape.num_layers_to_cap ==> commands[i]->Run_0.pipeline == Pipeline::ToCanonical
            && bindings(commands[i])[0] == Binding::Buffer(BufferId::LeafDigests) && bound_number(
            commands[i],
            1,
            0,
        ) == 4 * leaves.len() && 64 * workgroups_run(commands[i]) >= 4 * leaves.len(),
        i == 7 + shape.num_layers_to_cap ==> commands[i]->Run_0.pipeline == Pipeline::ToCanonical
            && bindings(commands[i])[0] == Binding::Buffer(BufferId::Nodes) && bound_number(
            commands[i],
            1,
            0,
        ) == 4 * (leaves.len() - 2 * pow2(shape.cap_height as nat)) && 64 * workgroups_run(
            commands[i],
        ) >= 4 * (leaves.len() - 2 * pow2(shape.cap_height as nat)),
{
    let n = leaves.len();
    let layers = shape.num_layers_to_cap as int;
    lemma_shape_numbers(shape);
    if i == 1 {
        lemma_enter_dispatch(commands[1], transposed(leaves).len() as usize);
    } else if i == 3 {
        lemma_leaf_dispatch(commands[3], shape.num_leaves, leaves[0]@.len() as usize);
    } else if 6 <= i < 6 + layers {
        let depth = floor_log2(n);
        let layer = (i - 6) as nat;
        assert(hashes_layer(commands[6 + (i - 6)], shape, layer));
        lemma_layer_dispatch(commands[i], shape, depth, layer);
        lemma_pow2_adds((depth - layer - 1) as nat, (i - 5) as nat);
    } else if i == 6 + layers {
        lemma_leave_dispatch(
            commands[i],
            BufferId::LeafDigests,
            digest_elements(shape.num_leaves),
        );
    } else if i == 7 + layers {
        lemma_leave_dispatch(commands[i], BufferId::Nodes, digest_elements(shape.total_nodes));
    }
}

} // verus!
