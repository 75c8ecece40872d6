//! A model of what the shaders do to the buffers, and what the whole of the GPU's work for a tree
//! comes to under it: from the leaves to the tree that a construction on the host gives. The
//! shaders themselves come from elsewhere; the laws here assume that they follow the model.
use crate::digests::{hashes_pairwise, host_digests, leaf_run, merkle_digests, merkle_root};
use crate::finish::{lemma_output_mirrors_host, output_of_tree, tree_of_words};
use crate::goldilocks::{
    canonical_form, lemma_montgomery_round_trip, modulus, montgomery_form, GoldilocksField,
    GOLDILOCKS_MODULUS,
};
use crate::gpu::{Binding, BufferId, GpuCommand, Pipeline};
use crate::job::{
    builds_tree, digest_elements, hashes_layer, lemma_internal_nodes, lemma_layers_fit_together,
    lemma_shape_sizes, GpuMerkleOutput, TreeShape,
};
use crate::layers::{layer_offset, layer_size, lemma_layer_offset_monotonic, TreeLayers};
use crate::plan::{
    allocates, bindings, enters_montgomery, inline_words, layer_args, leaves_montgomery,
    lemma_transposed_index, poseidon_bound, transposed, uniform, uploads, MerkleTreeKernelArgs,
};
use crate::words::{
    field_at, lemma_field_words_round_trip, number_words, residues, words_as_digests,
    words_as_fields, words_value, HashOut, BYTES_PER_DIGEST,
};
use vstd::arithmetic::div_mod::*;
use vstd::arithmetic::power2::*;
use vstd::prelude::*;

verus! {

/// The contents of the buffers of one tree: the leaf elements as numbers, and the digests.
pub struct DeviceBuffers {
    pub elements: Seq<int>,
    pub leaf_digests: Seq<HashOut>,
    pub nodes: Seq<HashOut>,
    pub cap: Seq<HashOut>,
}

/// A step of the GPU's work, with the numbers that it is given.
pub enum DeviceStep {
    /// The leaf elements are these words.
    Upload { words: Seq<u32> },
    /// A buffer has room for this many digests.
    Allocate { buffer: BufferId, digests: int },
    /// The first leaf elements go into Montgomery form.
    EnterMontgomery { num: i32 },
    /// Leaves are hashed.
    HashLeaves { num_leaves: i32, elements_per_leaf: i32 },
    /// A layer is hashed into the next.
    HashLayer { args: MerkleTreeKernelArgs },
    /// The first elements of a buffer go back into canonical form.
    LeaveMontgomery { buffer: BufferId, num: i32 },
}

/// The command tells the GPU to take the step.
pub open spec fn stands_for(command: GpuCommand, step: DeviceStep) -> bool {
    match step {
        DeviceStep::Upload { words } => uploads(command, BufferId::LeafElements, words),
        DeviceStep::Allocate { buffer, digests } => allocates(
            command,
            buffer,
            digests * BYTES_PER_DIGEST,
        ),
        DeviceStep::EnterMontgomery { num } => {
            &&& command matches GpuCommand::Run(dispatch)
            &&& dispatch.pipeline == Pipeline::ToMontgomery
            &&& bindings(command).len() == 2
            &&& bindings(command)[0] == Binding::Buffer(BufferId::LeafElements)
            &&& inline_words(bindings(command)[1], seq![num as u32])
        },
        DeviceStep::HashLeaves { num_leaves, elements_per_leaf } => {
            &&& command matches GpuCommand::Run(dispatch)
            &&& dispatch.pipeline == Pipeline::LeafHash
            &&& poseidon_bound(bindings(command))
            &&& bindings(command)[0] == Binding::Buffer(BufferId::LeafDigests)
            &&& bindings(command)[1] == Binding::Buffer(BufferId::LeafElements)
            &&& inline_words(bindings(command)[2], seq![num_leaves as u32])
            &&& inline_words(bindings(command)[3], seq![elements_per_leaf as u32])
        },
        DeviceStep::HashLayer { args } => {
            &&& command matches GpuCommand::Run(dispatch)
            &&& dispatch.pipeline == Pipeline::MerkleLayer
            &&& poseidon_bound(bindings(command))
            &&& bindings(command)[0] == Binding::Buffer(BufferId::LeafDigests)
            &&& bindings(command)[1] == Binding::Buffer(BufferId::Nodes)
            &&& bindings(command)[2] == Binding::Buffer(BufferId::Cap)
            &&& inline_words(bindings(command)[3], args.words())
        },
        DeviceStep::LeaveMontgomery { buffer, num } => {
            &&& command matches GpuCommand::Run(dispatch)
            &&& dispatch.pipeline == Pipeline::ToCanonical
            &&& bindings(command).len() == 2
            &&& bindings(command)[0] == Binding::Buffer(buffer)
            &&& inline_words(bindings(command)[1], seq![num as u32])
        },
    }
}

/// Element `k` of a digest in Montgomery form.
pub open spec fn element_montgomery(digest: HashOut, k: int) -> GoldilocksField {
    GoldilocksField(montgomery_form(digest@[k].0 as int) as u64)
}

/// Element `k` of a digest back in canonical form.
pub open spec fn element_canonical(digest: HashOut, k: int) -> GoldilocksField {
    GoldilocksField(canonical_form(digest@[k].0 as int) as u64)
}

/// A digest in Montgomery form.
pub open spec fn digest_montgomery(digest: HashOut) -> HashOut {
    HashOut {
        elements: [
            element_montgomery(digest, 0),
            element_montgomery(digest, 1),
            element_montgomery(digest, 2),
            element_montgomery(digest, 3),
        ],
    }
}

/// A digest back in canonical form.
pub open spec fn digest_canonical(digest: HashOut) -> HashOut {
    HashOut {
        elements: [
            element_canonical(digest, 0),
            element_canonical(digest, 1),
            element_canonical(digest, 2),
            element_canonical(digest, 3),
        ],
    }
}

/// The elements of the digest are below the field order.
pub open spec fn is_canonical(digest: HashOut) -> bool {
    forall|k: int| 0 <= k < 4 ==> (#[trigger] digest@[k]).0 < GOLDILOCKS_MODULUS
}

/// Leaving Montgomery form undoes entering it, for a whole digest.
pub proof fn lemma_digest_round_trip(digest: HashOut)
    requires
        is_canonical(digest),
    ensures
        digest_canonical(digest_montgomery(digest)) == digest,
{
    assert forall|k: int| 0 <= k < 4 implies element_canonical(digest_montgomery(digest), k)
        == #[trigger] digest@[k] by {
        let v = digest@[k].0 as int;
        lemma_montgomery_round_trip(v);
        lemma_mod_bound(v * 0x1_0000_0000_0000_0000, modulus());
        assert(digest_montgomery(digest)@[k] == element_montgomery(digest, k));
    }
    assert(digest_canonical(digest_montgomery(digest)).elements@ =~= digest.elements@);
    assert(digest_canonical(digest_montgomery(digest)).elements =~= digest.elements);
}

/// The elements of leaf `l`, out of Montgomery form.
pub open spec fn leaf_elements(
    elements: Seq<int>,
    num_leaves: int,
    elements_per_leaf: int,
    l: int,
) -> Seq<int> {
    Seq::new(elements_per_leaf as nat, |e: int| canonical_form(elements[e * num_leaves + l]))
}

/// The digest at position `i` of the source layer of a layer dispatch, out of Montgomery form.
pub open spec fn layer_source(
    buffers: DeviceBuffers,
    args: MerkleTreeKernelArgs,
    i: int,
) -> HashOut {
    digest_canonical(
        if args.layer == 0 {
            buffers.leaf_digests[i]
        } else {
            buffers.nodes[args.src_offset + i]
        },
    )
}

/// The hash that a layer dispatch computes for position `i` of its target layer.
pub open spec fn layer_hash(
    buffers: DeviceBuffers,
    args: MerkleTreeKernelArgs,
    two_to_one: spec_fn(HashOut, HashOut) -> HashOut,
    i: int,
) -> HashOut {
    two_to_one(layer_source(buffers, args, 2 * i), layer_source(buffers, args, 2 * i + 1))
}

/// The digests after the first `num` of their elements went back into canonical form.
pub open spec fn leave_montgomery(digests: Seq<HashOut>, num: int) -> Seq<HashOut> {
    Seq::new(
        digests.len(),
        |d: int|
            if 4 * d + 4 <= num {
                digest_canonical(digests[d])
            } else {
                digests[d]
            },
    )
}

/// The digests of a new buffer.
pub open spec fn zero_buffer(digests: int) -> Seq<HashOut> {
    Seq::new(
        digests as nat,
        |i: int|
            HashOut {
                elements: [
                    GoldilocksField(0),
                    GoldilocksField(0),
                    GoldilocksField(0),
                    GoldilocksField(0),
                ],
            },
    )
}

/// The buffers after a step, under the model: the shaders are taken to compute in Montgomery form,
/// that is, to read leaf elements, leaf digests and nodes in it, to write leaf digests and nodes in
/// it, and to write the cap in canonical form. A dispatch is taken to have a thread for each item
/// that it works on.
pub open spec fn apply(
    step: DeviceStep,
    buffers: DeviceBuffers,
    hash_leaf: spec_fn(Seq<int>) -> HashOut,
    two_to_one: spec_fn(HashOut, HashOut) -> HashOut,
) -> DeviceBuffers {
    match step {
        DeviceStep::Upload { words } => DeviceBuffers {
            elements: Seq::new(
                words.len() / 2,
                |k: int| words_value(words[2 * k], words[2 * k + 1]),
            ),
            ..buffers
        },
        DeviceStep::Allocate { buffer, digests } => match buffer {
            BufferId::LeafDigests => DeviceBuffers {
                leaf_digests: zero_buffer(digests),
                ..buffers
            },
            BufferId::Nodes => DeviceBuffers { nodes: zero_buffer(digests), ..buffers },
            BufferId::Cap => DeviceBuffers { cap: zero_buffer(digests), ..buffers },
            _ => buffers,
        },
        DeviceStep::EnterMontgomery { num } => DeviceBuffers {
            elements: Seq::new(
                buffers.elements.len(),
                |k: int|
                    if k < num {
                        montgomery_form(buffers.elements[k])
                    } else {
                        buffers.elements[k]
                    },
            ),
            ..buffers
        },
        DeviceStep::HashLeaves { num_leaves, elements_per_leaf } => DeviceBuffers {
            leaf_digests: Seq::new(
                buffers.leaf_digests.len(),
                |l: int|
                    if l < num_leaves {
                        digest_montgomery(
                            hash_leaf(
                                leaf_elements(
                                    buffers.elements,
                                    num_leaves as int,
                                    elements_per_leaf as int,
                                    l,
                                ),
                            ),
                        )
                    } else {
                        buffers.leaf_digests[l]
                    },
            ),
            ..buffers
        },
        DeviceStep::HashLayer { args } => if args.write_to_cap != 0 {
            DeviceBuffers {
                cap: Seq::new(
                    buffers.cap.len(),
                    |i: int|
                        if i < args.dst_layer_size {
                            layer_hash(buffers, args, two_to_one, i)
                        } else {
                            buffers.cap[i]
                        },
                ),
                ..buffers
            }
        } else {
            DeviceBuffers {
                nodes: Seq::new(
                    buffers.nodes.len(),
                    |j: int|
                        if args.dst_offset <= j < args.dst_offset + args.dst_layer_size {
                            digest_montgomery(
                                layer_hash(buffers, args, two_to_one, j - args.dst_offset),
                            )
                        } else {
                            buffers.nodes[j]
                        },
                ),
                ..buffers
            }
        },
        DeviceStep::LeaveMontgomery { buffer, num } => match buffer {
            BufferId::LeafElements => DeviceBuffers {
                elements: Seq::new(
                    buffers.elements.len(),
                    |k: int|
                        if k < num {
                            canonical_form(buffers.elements[k])
                        } else {
                            buffers.elements[k]
                        },
                ),
                ..buffers
            },
            BufferId::LeafDigests => DeviceBuffers {
                leaf_digests: leave_montgomery(buffers.leaf_digests, num as int),
                ..buffers
            },
            BufferId::Nodes => DeviceBuffers {
                nodes: leave_montgomery(buffers.nodes, num as int),
                ..buffers
            },
            _ => buffers,
        },
    }
}

/// The buffers after a run of steps.
pub open spec fn run(
    steps: Seq<DeviceStep>,
    buffers: DeviceBuffers,
    hash_leaf: spec_fn(Seq<int>) -> HashOut,
    two_to_one: spec_fn(HashOut, HashOut) -> HashOut,
) -> DeviceBuffers
    decreases steps.len(),
{
    if steps.len() == 0 {
        buffers
    } else {
        apply(
            steps.last(),
            run(steps.drop_last(), buffers, hash_leaf, two_to_one),
            hash_leaf,
            two_to_one,
        )
    }
}

/// No buffer is there yet.
pub open spec fn no_buffers() -> DeviceBuffers {
    DeviceBuffers {
        elements: Seq::empty(),
        leaf_digests: Seq::empty(),
        nodes: Seq::empty(),
        cap: Seq::empty(),
    }
}

/// The steps up to the first layer.
pub open spec fn setup_steps(
    leaves: Seq<Vec<GoldilocksField>>,
    shape: TreeShape,
) -> Seq<DeviceStep> {
    seq![
        DeviceStep::Upload { words: number_words(residues(transposed(leaves))) },
        DeviceStep::EnterMontgomery { num: (transposed(leaves).len() as usize) as i32 },
        DeviceStep::Allocate { buffer: BufferId::LeafDigests, digests: shape.num_leaves as int },
        DeviceStep::HashLeaves {
            num_leaves: shape.num_leaves as i32,
            elements_per_leaf: (leaves[0]@.len() as usize) as i32,
        },
        DeviceStep::Allocate { buffer: BufferId::Nodes, digests: shape.total_nodes as int },
        DeviceStep::Allocate { buffer: BufferId::Cap, digests: shape.cap_len as int },
    ]
}

/// The step that hashes layer `layer` into the next.
pub open spec fn layer_step(shape: TreeShape, layer: nat) -> DeviceStep {
    DeviceStep::HashLayer {
        args: layer_args(
            shape.num_leaves as nat,
            shape.num_layers_to_cap as nat,
            shape.cap_len as nat,
            layer,
        ),
    }
}

/// The steps that hash the first `count` layers.
pub open spec fn layer_steps(shape: TreeShape, count: nat) -> Seq<DeviceStep> {
    Seq::new(count, |layer: int| layer_step(shape, layer as nat))
}

/// The step that brings a buffer of digests back into canonical form.
pub open spec fn leave_step(buffer: BufferId, elements: u32) -> DeviceStep {
    DeviceStep::LeaveMontgomery { buffer, num: elements as i32 }
}

/// All steps of the work for a tree.
pub open spec fn tree_steps(
    leaves: Seq<Vec<GoldilocksField>>,
    shape: TreeShape,
) -> Seq<DeviceStep> {
    setup_steps(leaves, shape) + layer_steps(shape, shape.num_layers_to_cap as nat) + seq![
        leave_step(BufferId::LeafDigests, digest_elements(shape.num_leaves)),
        leave_step(BufferId::Nodes, digest_elements(shape.total_nodes)),
    ]
}

/// The commands for a tree stand for the steps, one by one.
pub proof fn lemma_commands_stand_for_steps(
    commands: Seq<GpuCommand>,
    leaves: Seq<Vec<GoldilocksField>>,
    shape: TreeShape,
    i: int,
)
    requires
        builds_tree(commands, leaves, shape),
        0 <= i < commands.len(),
    ensures
        commands.len() == tree_steps(leaves, shape).len(),
        stands_for(commands[i], tree_steps(leaves, shape)[i]),
{
    let layers = shape.num_layers_to_cap as int;
    let steps = tree_steps(leaves, shape);
    let setup = setup_steps(leaves, shape);
    if i < 6 {
        assert(steps[i] == setup[i]);
    } else if i < 6 + layers {
        assert(steps[i] == layer_step(shape, (i - 6) as nat));
        assert(hashes_layer(commands[6 + (i - 6)], shape, (i - 6) as nat));
    }
}

/// Running more steps goes on from where the first ones ended.
proof fn lemma_run_append(
    first: Seq<DeviceStep>,
    rest: Seq<DeviceStep>,
    buffers: DeviceBuffers,
    hash_leaf: spec_fn(Seq<int>) -> HashOut,
    two_to_one: spec_fn(HashOut, HashOut) -> HashOut,
)
    ensures
        run(first + rest, buffers, hash_leaf, two_to_one) == run(
            rest,
            run(first, buffers, hash_leaf, two_to_one),
            hash_leaf,
            two_to_one,
        ),
    decreases rest.len(),
{
    if rest.len() == 0 {
        assert(first + rest =~= first);
    } else {
        assert((first + rest).drop_last() =~= first + rest.drop_last());
        lemma_run_append(first, rest.drop_last(), buffers, hash_leaf, two_to_one);
    }
}

/// The digests of the leaves.
pub open spec fn hashed_leaves(
    leaves: Seq<Vec<GoldilocksField>>,
    hash_leaf: spec_fn(Seq<int>) -> HashOut,
) -> Seq<HashOut> {
    leaves.map_values(|leaf: Vec<GoldilocksField>| hash_leaf(residues(leaf@)))
}

/// All digests in Montgomery form.
pub open spec fn digests_montgomery(digests: Seq<HashOut>) -> Seq<HashOut> {
    digests.map_values(|digest: HashOut| digest_montgomery(digest))
}

/// Node `i` of layer `layer` above the leaf digests, hashing from the leaves up.
pub open spec fn node_above(
    hashes: Seq<HashOut>,
    two_to_one: spec_fn(HashOut, HashOut) -> HashOut,
    layer: nat,
    i: int,
) -> HashOut
    decreases layer,
{
    if layer == 0 {
        hashes[i]
    } else {
        two_to_one(
            node_above(hashes, two_to_one, (layer - 1) as nat, 2 * i),
            node_above(hashes, two_to_one, (layer - 1) as nat, 2 * i + 1),
        )
    }
}

/// Both hash functions give digests in canonical form.
pub open spec fn hashes_canonical(
    hash_leaf: spec_fn(Seq<int>) -> HashOut,
    two_to_one: spec_fn(HashOut, HashOut) -> HashOut,
) -> bool {
    &&& forall|elements: Seq<int>| is_canonical(#[trigger] hash_leaf(elements))
    &&& forall|left: HashOut, right: HashOut| is_canonical(#[trigger] two_to_one(left, right))
}

/// All counts that the shaders are given fit in an `i32`.
pub open spec fn counts_fit(leaves: Seq<Vec<GoldilocksField>>) -> bool {
    &&& transposed(leaves).len() <= i32::MAX
    &&& 4 * leaves.len() <= i32::MAX
}

/// The element of leaf `l` at `e` is where the leaf shader looks for it, and it reads the residue.
proof fn lemma_leaf_read(
    leaves: Seq<Vec<GoldilocksField>>,
    elements: Seq<int>,
    l: int,
)
    requires
        uniform(leaves),
        0 <= l < leaves.len(),
        elements.len() == transposed(leaves).len(),
        forall|k: int|
            0 <= k < elements.len() ==> #[trigger] elements[k] == montgomery_form(
                transposed(leaves)[k].residue(),
            ),
    ensures
        leaf_elements(elements, leaves.len() as int, leaves[0]@.len() as int, l) == residues(
            leaves[l]@,
        ),
{
    let n = leaves.len() as int;
    let read = leaf_elements(elements, n, leaves[0]@.len() as int, l);
    assert(leaves[l]@.len() == leaves[0]@.len());
    assert forall|e: int| 0 <= e < read.len() implies #[trigger] read[e] == residues(leaves[l]@)[e]
        by {
        lemma_transposed_index(leaves, l, e);
        let k = e * n + l;
        let r = transposed(leaves)[k].residue();
        assert(elements[k] == montgomery_form(r));
        lemma_mod_bound(transposed(leaves)[k].0 as int, modulus());
        lemma_montgomery_round_trip(r);
    }
    assert(read =~= residues(leaves[l]@));
}

/// After the upload of elements the buffer holds their residues.
proof fn lemma_uploaded_elements(
    values: Seq<GoldilocksField>,
    buffers: DeviceBuffers,
    hash_leaf: spec_fn(Seq<int>) -> HashOut,
    two_to_one: spec_fn(HashOut, HashOut) -> HashOut,
)
    ensures
        apply(
            DeviceStep::Upload { words: number_words(residues(values)) },
            buffers,
            hash_leaf,
            two_to_one,
        ).elements == residues(values),
{
    let words = number_words(residues(values));
    let uploaded = apply(DeviceStep::Upload { words }, buffers, hash_leaf, two_to_one).elements;
    lemma_field_words_round_trip(values);
    assert forall|k: int| 0 <= k < values.len() implies #[trigger] uploaded[k] == residues(
        values,
    )[k] by {
        assert(words_as_fields(words)[k] == field_at(words, k));
        assert(words_as_fields(words)[k].0 == values[k].residue());
    }
    assert(uploaded =~= residues(values));
}

/// After the setup the leaf digests are there, in Montgomery form, and room for the rest.
proof fn lemma_setup(
    leaves: Seq<Vec<GoldilocksField>>,
    shape: TreeShape,
    hash_leaf: spec_fn(Seq<int>) -> HashOut,
    two_to_one: spec_fn(HashOut, HashOut) -> HashOut,
)
    requires
        shape.wf(),
        shape.num_leaves == leaves.len(),
        uniform(leaves),
        counts_fit(leaves),
    ensures
        ({
            let ready = run(setup_steps(leaves, shape), no_buffers(), hash_leaf, two_to_one);
            &&& ready.leaf_digests == digests_montgomery(hashed_leaves(leaves, hash_leaf))
            &&& ready.nodes.len() == shape.total_nodes
            &&& ready.cap.len() == shape.cap_len
        }),
{
    let steps = setup_steps(leaves, shape);
    let n = leaves.len() as int;
    let width = leaves[0]@.len() as int;
    let values = transposed(leaves);
    assert(width <= i32::MAX) by (nonlinear_arith)
        requires
            n >= 1,
            width >= 0,
            n * width <= i32::MAX,
    ;
    assert(steps.take(0) =~= Seq::empty());
    let b0 = run(steps.take(0), no_buffers(), hash_leaf, two_to_one);
    assert(steps.take(1).drop_last() =~= steps.take(0));
    let b1 = run(steps.take(1), no_buffers(), hash_leaf, two_to_one);
    assert(b1 == apply(steps[0], b0, hash_leaf, two_to_one));
    assert(steps.take(2).drop_last() =~= steps.take(1));
    let b2 = run(steps.take(2), no_buffers(), hash_leaf, two_to_one);
    assert(b2 == apply(steps[1], b1, hash_leaf, two_to_one));
    assert(steps.take(3).drop_last() =~= steps.take(2));
    let b3 = run(steps.take(3), no_buffers(), hash_leaf, two_to_one);
    assert(b3 == apply(steps[2], b2, hash_leaf, two_to_one));
    assert(steps.take(4).drop_last() =~= steps.take(3));
    let b4 = run(steps.take(4), no_buffers(), hash_leaf, two_to_one);
    assert(b4 == apply(steps[3], b3, hash_leaf, two_to_one));
    assert(steps.take(5).drop_last() =~= steps.take(4));
    let b5 = run(steps.take(5), no_buffers(), hash_leaf, two_to_one);
    assert(b5 == apply(steps[4], b4, hash_leaf, two_to_one));
    assert(steps.take(6).drop_last() =~= steps.take(5));
    assert(steps.take(6) =~= steps);
    let b6 = run(steps, no_buffers(), hash_leaf, two_to_one);
    assert(b6 == apply(steps[5], b5, hash_leaf, two_to_one));

    lemma_uploaded_elements(values, b0, hash_leaf, two_to_one);
    assert forall|k: int| 0 <= k < values.len() implies #[trigger] b2.elements[k]
        == montgomery_form(values[k].residue()) by {
        assert(b1.elements[k] == residues(values)[k]);
    }
    let expected = digests_montgomery(hashed_leaves(leaves, hash_leaf));
    assert(b4.leaf_digests.len() == expected.len());
    assert forall|l: int| 0 <= l < leaves.len() implies #[trigger] b4.leaf_digests[l]
        == expected[l] by {
        lemma_leaf_read(leaves, b3.elements, l);
    }
    assert(b4.leaf_digests =~= expected);
}

/// After `done` layers the nodes of these layers are there, in Montgomery form; after the last
/// one the cap is there, in canonical form.
pub open spec fn layers_done(
    buffers: DeviceBuffers,
    hashes: Seq<HashOut>,
    shape: TreeShape,
    two_to_one: spec_fn(HashOut, HashOut) -> HashOut,
    done: nat,
) -> bool {
    let n = shape.num_leaves as nat;
    let layers = shape.num_layers_to_cap as nat;
    &&& buffers.leaf_digests == digests_montgomery(hashes)
    &&& buffers.nodes.len() == shape.total_nodes
    &&& buffers.cap.len() == shape.cap_len
    &&& forall|layer: nat, i: int|
        1 <= layer <= done && layer < layers && 0 <= i < layer_size(n, layer)
            ==> buffers.nodes[layer_offset(n, layer) + i] == digest_montgomery(
            #[trigger] node_above(hashes, two_to_one, layer, i),
        )
    &&& done == layers ==> forall|i: int|
        0 <= i < shape.cap_len ==> #[trigger] buffers.cap[i] == node_above(
            hashes,
            two_to_one,
            layers,
            i,
        )
}

/// Every node above canonical leaf digests is canonical.
proof fn lemma_node_canonical(
    hashes: Seq<HashOut>,
    two_to_one: spec_fn(HashOut, HashOut) -> HashOut,
    layer: nat,
    i: int,
)
    requires
        forall|l: int| 0 <= l < hashes.len() ==> is_canonical(#[trigger] hashes[l]),
        forall|left: HashOut, right: HashOut| is_canonical(#[trigger] two_to_one(left, right)),
        layer == 0 ==> 0 <= i < hashes.len(),
    ensures
        is_canonical(node_above(hashes, two_to_one, layer, i)),
{
}

/// A layer step hashes one layer more.
proof fn lemma_layer_step(
    buffers: DeviceBuffers,
    hashes: Seq<HashOut>,
    shape: TreeShape,
    hash_leaf: spec_fn(Seq<int>) -> HashOut,
    two_to_one: spec_fn(HashOut, HashOut) -> HashOut,
    done: nat,
)
    requires
        shape.wf(),
        hashes.len() == shape.num_leaves,
        forall|l: int| 0 <= l < hashes.len() ==> is_canonical(#[trigger] hashes[l]),
        forall|left: HashOut, right: HashOut| is_canonical(#[trigger] two_to_one(left, right)),
        done < shape.num_layers_to_cap,
        layers_done(buffers, hashes, shape, two_to_one, done),
    ensures
        layers_done(
            apply(layer_step(shape, done), buffers, hash_leaf, two_to_one),
            hashes,
            shape,
            two_to_one,
            done + 1,
        ),
{
    let n = shape.num_leaves as nat;
    let layers = shape.num_layers_to_cap as nat;
    let args = layer_args(n, layers, shape.cap_len as nat, done);
    let after = apply(layer_step(shape, done), buffers, hash_leaf, two_to_one);
    lemma_shape_sizes(n, shape.cap_height as nat, done);
    lemma_shape_sizes(n, shape.cap_height as nat, done + 1);
    lemma_layers_fit_together(shape, done);
    let size = layer_size(n, done + 1);
    assert forall|j: int| 0 <= j < 2 * size implies #[trigger] layer_source(buffers, args, j)
        == node_above(hashes, two_to_one, done, j) by {
        lemma_node_canonical(hashes, two_to_one, done, j);
        lemma_digest_round_trip(node_above(hashes, two_to_one, done, j));
    }
    assert forall|i: int| 0 <= i < size implies #[trigger] layer_hash(buffers, args, two_to_one, i)
        == node_above(hashes, two_to_one, done + 1, i) by {
        assert(layer_source(buffers, args, 2 * i) == node_above(hashes, two_to_one, done, 2 * i));
        assert(layer_source(buffers, args, 2 * i + 1) == node_above(
            hashes,
            two_to_one,
            done,
            2 * i + 1,
        ));
    }
    assert forall|layer: nat, i: int|
        1 <= layer <= done + 1 && layer < layers && 0 <= i < layer_size(
            n,
            layer,
        ) implies after.nodes[layer_offset(n, layer) + i] == digest_montgomery(
        #[trigger] node_above(hashes, two_to_one, layer, i),
    ) by {
        lemma_layer_offset_monotonic(n, layer, layers);
        lemma_layer_offset_monotonic(n, layer + 1, layers);
        assert(layer_offset(n, layer + 1) == layer_offset(n, layer) + layer_size(n, layer));
        if layer == done + 1 {
            assert(layer_hash(buffers, args, two_to_one, i) == node_above(
                hashes,
                two_to_one,
                done + 1,
                i,
            ));
        } else {
            lemma_layer_offset_monotonic(n, layer + 1, done + 1);
        }
    }
    if done + 1 == layers {
        assert forall|i: int| 0 <= i < shape.cap_len implies #[trigger] after.cap[i] == node_above(
            hashes,
            two_to_one,
            layers,
            i,
        ) by {
            assert(layer_hash(buffers, args, two_to_one, i) == node_above(
                hashes,
                two_to_one,
                done + 1,
                i,
            ));
        }
    }
}

/// The layer steps hash layer by layer.
proof fn lemma_layer_steps(
    buffers: DeviceBuffers,
    hashes: Seq<HashOut>,
    shape: TreeShape,
    hash_leaf: spec_fn(Seq<int>) -> HashOut,
    two_to_one: spec_fn(HashOut, HashOut) -> HashOut,
    count: nat,
)
    requires
        shape.wf(),
        hashes.len() == shape.num_leaves,
        forall|l: int| 0 <= l < hashes.len() ==> is_canonical(#[trigger] hashes[l]),
        forall|left: HashOut, right: HashOut| is_canonical(#[trigger] two_to_one(left, right)),
        count <= shape.num_layers_to_cap,
        layers_done(buffers, hashes, shape, two_to_one, 0),
    ensures
        layers_done(
            run(layer_steps(shape, count), buffers, hash_leaf, two_to_one),
            hashes,
            shape,
            two_to_one,
            count,
        ),
    decreases count,
{
    if count > 0 {
        let below = (count - 1) as nat;
        let steps = layer_steps(shape, count);
        lemma_layer_steps(buffers, hashes, shape, hash_leaf, two_to_one, below);
        assert(steps.drop_last() =~= layer_steps(shape, below));
        lemma_layer_step(
            run(layer_steps(shape, below), buffers, hash_leaf, two_to_one),
            hashes,
            shape,
            hash_leaf,
            two_to_one,
            below,
        );
    }
}

/// What the steps leave in the buffers: the digests of the leaves; above them, layer by layer, the
/// hashes of two neighbours each; all in canonical form.
pub proof fn lemma_steps_build_tree(
    leaves: Seq<Vec<GoldilocksField>>,
    shape: TreeShape,
    hash_leaf: spec_fn(Seq<int>) -> HashOut,
    two_to_one: spec_fn(HashOut, HashOut) -> HashOut,
)
    requires
        shape.wf(),
        shape.num_leaves == leaves.len(),
        uniform(leaves),
        counts_fit(leaves),
        hashes_canonical(hash_leaf, two_to_one),
    ensures
        ({
            let end = run(tree_steps(leaves, shape), no_buffers(), hash_leaf, two_to_one);
            &&& end.leaf_digests == hashed_leaves(leaves, hash_leaf)
            &&& end.nodes.len() == shape.total_nodes
            &&& end.cap.len() == shape.cap_len
            &&& hashes_pairwise(
                TreeLayers {
                    leaves: end.leaf_digests,
                    nodes: end.nodes,
                    cap: end.cap,
                    layers_to_cap: shape.num_layers_to_cap as nat,
                },
                two_to_one,
            )
        }),
{
    let n = shape.num_leaves as nat;
    let layers = shape.num_layers_to_cap as nat;
    let hashes = hashed_leaves(leaves, hash_leaf);
    lemma_shape_sizes(n, shape.cap_height as nat, layers);
    lemma_internal_nodes(n, shape.cap_height as nat);
    let setup = setup_steps(leaves, shape);
    let up = layer_steps(shape, layers);
    let leaf_num = digest_elements(shape.num_leaves);
    let node_num = digest_elements(shape.total_nodes);
    assert(leaf_num == 4 * shape.num_leaves);
    assert(node_num == 4 * shape.total_nodes);
    let leave = seq![
        leave_step(BufferId::LeafDigests, leaf_num),
        leave_step(BufferId::Nodes, node_num),
    ];
    let ready = run(setup, no_buffers(), hash_leaf, two_to_one);
    lemma_setup(leaves, shape, hash_leaf, two_to_one);
    let hashed = run(up, ready, hash_leaf, two_to_one);
    lemma_layer_steps(ready, hashes, shape, hash_leaf, two_to_one, layers);
    let end = run(leave, hashed, hash_leaf, two_to_one);
    lemma_run_append(setup, up, no_buffers(), hash_leaf, two_to_one);
    lemma_run_append(setup + up, leave, no_buffers(), hash_leaf, two_to_one);
    let half = run(leave.drop_last(), hashed, hash_leaf, two_to_one);
    assert(leave.drop_last().drop_last() =~= Seq::empty());
    assert(run(leave.drop_last().drop_last(), hashed, hash_leaf, two_to_one) == hashed);
    assert(half == apply(leave[0], hashed, hash_leaf, two_to_one));
    assert(end == apply(leave[1], half, hash_leaf, two_to_one));
    assert forall|l: int| 0 <= l < leaves.len() implies #[trigger] end.leaf_digests[l] == hashes[l]
        by {
        assert(is_canonical(hashes[l]));
        lemma_digest_round_trip(hashes[l]);
    }
    assert(end.leaf_digests =~= hashes);
    let tree = TreeLayers {
        leaves: end.leaf_digests,
        nodes: end.nodes,
        cap: end.cap,
        layers_to_cap: layers,
    };
    assert forall|layer: nat, i: int|
        layer <= layers && 0 <= i < layer_size(n, layer) implies tree.at(layer, i as nat)
        == #[trigger] node_above(hashes, two_to_one, layer, i) by {
        if 0 < layer < layers {
            lemma_layer_offset_monotonic(n, layer, layers);
            lemma_layer_offset_monotonic(n, layer + 1, layers);
            assert(layer_offset(n, layer + 1) == layer_offset(n, layer) + layer_size(n, layer));
            lemma_node_canonical(hashes, two_to_one, layer, i);
            lemma_digest_round_trip(node_above(hashes, two_to_one, layer, i));
        } else if layer == layers {
            assert(hashed.cap[i] == node_above(hashes, two_to_one, layers, i));
        }
    }
    assert forall|layer: nat, i: nat|
        layer < tree.layers_to_cap && i < layer_size(
            tree.leaves.len(),
            layer + 1,
        ) implies #[trigger] tree.at(layer + 1, i) == two_to_one(
        tree.at(layer, 2 * i),
        tree.at(layer, 2 * i + 1),
    ) by {
        lemma_shape_sizes(n, shape.cap_height as nat, layer);
        lemma_shape_sizes(n, shape.cap_height as nat, layer + 1);
        lemma_layers_fit_together(shape, layer);
        assert(tree.at(layer + 1, i) == node_above(hashes, two_to_one, layer + 1, i as int));
        assert(tree.at(layer, 2 * i) == node_above(hashes, two_to_one, layer, 2 * i as int));
        assert(tree.at(layer, 2 * i + 1) == node_above(
            hashes,
            two_to_one,
            layer,
            2 * i as int + 1,
        ));
    }
}

/// The steps that upload elements, bring them into Montgomery form and bring them back.
pub open spec fn there_and_back_steps(values: Seq<GoldilocksField>) -> Seq<DeviceStep> {
    seq![
        DeviceStep::Upload { words: number_words(residues(values)) },
        DeviceStep::EnterMontgomery { num: values.len() as i32 },
        DeviceStep::LeaveMontgomery { buffer: BufferId::LeafElements, num: values.len() as i32 },
    ]
}

/// Bringing the element buffer back into canonical form undoes bringing it into Montgomery form:
/// after both, its words are the canonical words of the elements that were uploaded. The commands
/// for both stand for the steps.
pub proof fn lemma_leaving_undoes_entering(
    values: Seq<GoldilocksField>,
    upload: GpuCommand,
    enter: GpuCommand,
    leave: GpuCommand,
    hash_leaf: spec_fn(Seq<int>) -> HashOut,
    two_to_one: spec_fn(HashOut, HashOut) -> HashOut,
)
    requires
        values.len() <= i32::MAX,
        uploads(upload, BufferId::LeafElements, number_words(residues(values))),
        enters_montgomery(enter, values.len() as usize),
        leaves_montgomery(leave, BufferId::LeafElements, values.len() as u32),
    ensures
        stands_for(upload, there_and_back_steps(values)[0]),
        stands_for(enter, there_and_back_steps(values)[1]),
        stands_for(leave, there_and_back_steps(values)[2]),
        ({
            let end = run(there_and_back_steps(values), no_buffers(), hash_leaf, two_to_one);
            &&& end.elements == residues(values)
            &&& number_words(end.elements) == number_words(residues(values))
        }),
{
    let steps = there_and_back_steps(values);
    assert(steps.take(0) =~= Seq::empty());
    let b0 = run(steps.take(0), no_buffers(), hash_leaf, two_to_one);
    assert(steps.take(1).drop_last() =~= steps.take(0));
    let b1 = run(steps.take(1), no_buffers(), hash_leaf, two_to_one);
    assert(b1 == apply(steps[0], b0, hash_leaf, two_to_one));
    assert(steps.take(2).drop_last() =~= steps.take(1));
    let b2 = run(steps.take(2), no_buffers(), hash_leaf, two_to_one);
    assert(b2 == apply(steps[1], b1, hash_leaf, two_to_one));
    assert(steps.take(3).drop_last() =~= steps.take(2));
    assert(steps.take(3) =~= steps);
    let b3 = run(steps, no_buffers(), hash_leaf, two_to_one);
    assert(b3 == apply(steps[2], b2, hash_leaf, two_to_one));
    lemma_uploaded_elements(values, b0, hash_leaf, two_to_one);
    assert forall|k: int| 0 <= k < values.len() implies #[trigger] b3.elements[k] == residues(
        values,
    )[k] by {
        let r = values[k].residue();
        assert(b1.elements[k] == residues(values)[k]);
        lemma_mod_bound(values[k].0 as int, modulus());
        lemma_montgomery_round_trip(r);
    }
    assert(b3.elements =~= residues(values));
}

/// The root over canonical leaf digests is canonical.
proof fn lemma_root_canonical(
    two_to_one: spec_fn(HashOut, HashOut) -> HashOut,
    leaves: Seq<HashOut>,
)
    requires
        leaves.len() > 0,
        forall|l: int| 0 <= l < leaves.len() ==> is_canonical(#[trigger] leaves[l]),
        forall|left: HashOut, right: HashOut| is_canonical(#[trigger] two_to_one(left, right)),
    ensures
        is_canonical(merkle_root(two_to_one, leaves)),
{
}

/// The digest array over canonical leaf digests is canonical.
proof fn lemma_digests_canonical(
    two_to_one: spec_fn(HashOut, HashOut) -> HashOut,
    leaves: Seq<HashOut>,
)
    requires
        leaves.len() > 0,
        forall|l: int| 0 <= l < leaves.len() ==> is_canonical(#[trigger] leaves[l]),
        forall|left: HashOut, right: HashOut| is_canonical(#[trigger] two_to_one(left, right)),
    ensures
        forall|i: int|
            0 <= i < merkle_digests(two_to_one, leaves).len() ==> is_canonical(
                #[trigger] merkle_digests(two_to_one, leaves)[i],
            ),
    decreases leaves.len(),
{
    if leaves.len() > 1 {
        let half = (leaves.len() / 2) as int;
        lemma_digests_canonical(two_to_one, leaves.take(half));
        lemma_digests_canonical(two_to_one, leaves.skip(half));
        lemma_root_canonical(two_to_one, leaves.take(half));
        lemma_root_canonical(two_to_one, leaves.skip(half));
        let all = merkle_digests(two_to_one, leaves);
        let left = merkle_digests(two_to_one, leaves.take(half));
        let right = merkle_digests(two_to_one, leaves.skip(half));
        assert forall|i: int| 0 <= i < all.len() implies is_canonical(#[trigger] all[i]) by {
            if i < left.len() {
                assert(all[i] == left[i]);
            } else if i >= left.len() + 2 {
                assert(all[i] == right[i - left.len() - 2]);
            }
        }
    }
}

/// The digest arrays of the first runs of canonical leaf digests are canonical.
proof fn lemma_host_digests_canonical(
    two_to_one: spec_fn(HashOut, HashOut) -> HashOut,
    leaves: Seq<HashOut>,
    level: nat,
    count: nat,
)
    requires
        count * pow2(level) <= leaves.len(),
        forall|l: int| 0 <= l < leaves.len() ==> is_canonical(#[trigger] leaves[l]),
        forall|left: HashOut, right: HashOut| is_canonical(#[trigger] two_to_one(left, right)),
    ensures
        forall|i: int|
            0 <= i < host_digests(two_to_one, leaves, level, count).len() ==> is_canonical(
                #[trigger] host_digests(two_to_one, leaves, level, count)[i],
            ),
    decreases count,
{
    if count > 0 {
        let last = (count - 1) as nat;
        lemma_pow2_pos(level);
        let size = pow2(level);
        assert((last + 1) * size == last * size + size) by (nonlinear_arith);
        lemma_host_digests_canonical(two_to_one, leaves, level, last);
        let run_of = leaf_run(leaves, level, last);
        lemma_digests_canonical(two_to_one, run_of);
        let all = host_digests(two_to_one, leaves, level, count);
        let before = host_digests(two_to_one, leaves, level, last);
        assert forall|i: int| 0 <= i < all.len() implies is_canonical(#[trigger] all[i]) by {
            if i < before.len() {
                assert(all[i] == before[i]);
            } else {
                assert(all[i] == merkle_digests(two_to_one, run_of)[i - before.len()]);
            }
        }
    }
}

/// From the leaves to the finished tree. The commands of a job stand for the steps; where the GPU
/// takes these steps, and the words that are read back are those that the steps leave in the
/// buffers, the finished job holds just what a recursive construction on the host gives over the
/// same leaves: its digest array, and its roots as the cap, every element in canonical form.
pub proof fn lemma_tree_mirrors_host_from_leaves(
    commands: Seq<GpuCommand>,
    leaves: Seq<Vec<GoldilocksField>>,
    shape: TreeShape,
    hash_leaf: spec_fn(Seq<int>) -> HashOut,
    two_to_one: spec_fn(HashOut, HashOut) -> HashOut,
    leaf_words: Seq<u32>,
    node_words: Seq<u32>,
    cap_words: Seq<u32>,
    output: GpuMerkleOutput,
)
    requires
        shape.wf(),
        shape.num_leaves == leaves.len(),
        uniform(leaves),
        counts_fit(leaves),
        hashes_canonical(hash_leaf, two_to_one),
        builds_tree(commands, leaves, shape),
        leaf_words.len() == 8 * shape.num_leaves,
        node_words.len() == 8 * shape.total_nodes,
        cap_words.len() == 8 * shape.cap_len,
        ({
            let end = run(tree_steps(leaves, shape), no_buffers(), hash_leaf, two_to_one);
            &&& words_as_digests(leaf_words) == end.leaf_digests
            &&& words_as_digests(node_words) == end.nodes
            &&& words_as_digests(cap_words) == end.cap
        }),
        output_of_tree(
            output,
            tree_of_words(leaf_words, node_words, cap_words, shape.num_layers_to_cap as nat),
        ),
    ensures
        commands.len() == tree_steps(leaves, shape).len(),
        forall|i: int|
            0 <= i < commands.len() ==> stands_for(
                #[trigger] commands[i],
                tree_steps(leaves, shape)[i],
            ),
        output.digests@ == host_digests(
            two_to_one,
            hashed_leaves(leaves, hash_leaf),
            shape.num_layers_to_cap as nat,
            shape.cap_len as nat,
        ),
        output.cap@.len() == shape.cap_len,
        forall|i: nat|
            i < shape.cap_len ==> #[trigger] output.cap@[i as int] == merkle_root(
                two_to_one,
                leaf_run(
                    hashed_leaves(leaves, hash_leaf),
                    shape.num_layers_to_cap as nat,
                    i,
                ),
            ),
        forall|i: int|
            0 <= i < output.digests@.len() ==> is_canonical(#[trigger] output.digests@[i]),
        forall|i: int| 0 <= i < output.cap@.len() ==> is_canonical(#[trigger] output.cap@[i]),
{
    let layers = shape.num_layers_to_cap as nat;
    let hashes = hashed_leaves(leaves, hash_leaf);
    lemma_commands_stand_for_steps(commands, leaves, shape, 0);
    assert forall|i: int| 0 <= i < commands.len() implies stands_for(
        #[trigger] commands[i],
        tree_steps(leaves, shape)[i],
    ) by {
        lemma_commands_stand_for_steps(commands, leaves, shape, i);
    }
    lemma_steps_build_tree(leaves, shape, hash_leaf, two_to_one);
    lemma_output_mirrors_host(
        output,
        shape,
        leaf_words,
        node_words,
        cap_words,
        two_to_one,
    );
    lemma_shape_runs(shape);
    lemma_host_digests_canonical(two_to_one, hashes, layers, shape.cap_len as nat);
    assert forall|i: int| 0 <= i < output.cap@.len() implies is_canonical(
        #[trigger] output.cap@[i],
    ) by {
        let run_of = leaf_run(hashes, layers, i as nat);
        lemma_pow2_pos(layers);
        let size = pow2(layers);
        assert((i + 1) * size <= shape.cap_len * size && (i + 1) * size == i * size + size && 0 <= i
            * size) by (nonlinear_arith)
            requires
                0 <= i < shape.cap_len,
        ;
        lemma_root_canonical(two_to_one, run_of);
        assert(output.cap@[(i as nat) as int] == merkle_root(two_to_one, run_of));
    }
}

/// The runs of leaves below the entries of the cap make up all leaves.
proof fn lemma_shape_runs(shape: TreeShape)
    requires
        shape.wf(),
    ensures
        shape.cap_len * pow2(shape.num_layers_to_cap as nat) == shape.num_leaves,
{
    lemma_pow2_adds(shape.cap_height as nat, shape.num_layers_to_cap as nat);
}

} // verus!
