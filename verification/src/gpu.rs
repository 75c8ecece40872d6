//! Descriptions of the GPU objects that Merkle tree construction needs: pipelines, bind group
//! layouts, constant tables, buffers and dispatches, all as plain values.
use crate::bytes::{bytes_hold, lemma_bytes_spell_words, little_endian, words_to_bytes};
use crate::goldilocks::{
    canonical_form, lemma_montgomery_round_trip, montgomery_form, GoldilocksField,
};
use crate::words::{
    fields_to_montgomery_words, lemma_words_of_elements, montgomery_forms, number_words,
    BYTES_PER_BIGINT, BYTES_PER_DIGEST,
};
use vstd::prelude::*;

verus! {

/// Field elements in a Poseidon state.
pub const POSEIDON_WIDTH: usize = 12;

/// Round constants of the Poseidon permutation: one per state element and round.
pub const ROUND_CONSTANT_COUNT: usize = 360;

/// Threads in a workgroup.
pub const WORKGROUP_SIZE: u32 = 64;

/// Bytes of the arguments of one layer dispatch.
pub const KERNEL_ARGS_SIZE: u64 = 28;

/// Bytes of a table with one field element per state element.
pub const STATE_TABLE_SIZE: u64 = 96;

/// Bytes of the table of round constants.
pub const ROUND_CONSTANTS_SIZE: u64 = 2880;

/// Bytes of an element count.
pub const COUNT_SIZE: u64 = 4;

/// Largest buffer, and largest buffer binding, that is asked of the device.
pub const MAX_BUFFER_SIZE: u64 = 4294967291;

/// Buffers that outlive the dispatch that first uses them.
#[derive(Clone, Copy, Debug, PartialEq, Eq, Structural)]
pub enum BufferId {
    /// Leaf elements, one element position after the other.
    LeafElements,
    /// Digests of the leaves.
    LeafDigests,
    /// Digests of the layers between the leaves and the cap.
    Nodes,
    /// Digests of the cap.
    Cap,
    /// First row of the circulant part of the Poseidon matrix.
    MdsCirc,
    /// Diagonal part of the Poseidon matrix.
    MdsDiag,
    /// Poseidon round constants.
    RoundConstants,
}

/// The compute pipelines.
#[derive(Clone, Copy, Debug, PartialEq, Eq, Structural)]
pub enum Pipeline {
    /// Hashes one layer into the next.
    MerkleLayer,
    /// Hashes leaves.
    LeafHash,
    /// Brings elements into Montgomery form.
    ToMontgomery,
    /// Brings elements back into canonical form.
    ToCanonical,
}

/// What a shader binding is bound to.
#[derive(Debug)]
pub enum Binding {
    /// The whole of a long-lived buffer.
    Buffer(BufferId),
    /// The whole of a fresh buffer with these contents.
    Inline(Vec<u8>),
}

/// One compute pass: a pipeline, its bindings in order of their numbers, and the workgroups in
/// the first two dimensions.
#[derive(Debug)]
pub struct Dispatch {
    pub pipeline: Pipeline,
    pub bindings: Vec<Binding>,
    pub workgroups_x: u32,
    pub workgroups_y: u32,
}

/// A step of the GPU's work.
#[derive(Debug)]
pub enum GpuCommand {
    /// Create a buffer with these contents.
    Upload { buffer: BufferId, contents: Vec<u8> },
    /// Create a buffer of `size` bytes that can also be copied from.
    Allocate { buffer: BufferId, size: u64 },
    /// Run a compute pass.
    Run(Dispatch),
}

/// A shader entry point and the names that the objects around it carry.
#[derive(Clone, Copy, Debug, PartialEq, Eq)]
pub struct PipelineDescriptor {
    pub shader: &'static str,
    pub entry_point: &'static str,
    pub label: &'static str,
    pub layout_label: &'static str,
}

/// One storage buffer binding of a compute shader.
#[derive(Clone, Copy, Debug, PartialEq, Eq)]
pub struct LayoutEntry {
    pub binding: u32,
    pub read_only: bool,
    pub min_binding_size: Option<u64>,
}

/// The bindings of a compute shader.
#[derive(Debug, PartialEq, Eq)]
pub struct BindGroupLayout {
    pub label: &'static str,
    pub entries: Vec<LayoutEntry>,
}

/// The pipeline that hashes one layer into the next.
pub fn create_merkle_pipeline() -> (pipeline: PipelineDescriptor)
    ensures
        pipeline.shader@ == "merkle_tree.wgsl"@,
        pipeline.entry_point@ == "processMerkleTreeLayerWithCap"@,
        pipeline.label@ == "Merkle Tree Pipeline"@,
        pipeline.layout_label@ == "Merkle Tree Pipeline Layout"@,
{
    PipelineDescriptor {
        shader: "merkle_tree.wgsl",
        entry_point: "processMerkleTreeLayerWithCap",
        label: "Merkle Tree Pipeline",
        layout_label: "Merkle Tree Pipeline Layout",
    }
}

/// The pipeline that hashes leaves.
pub fn create_leaf_hash_pipeline() -> (pipeline: PipelineDescriptor)
    ensures
        pipeline.shader@ == "poseidon1_hash.wgsl"@,
        pipeline.entry_point@ == "poseidon1Hash"@,
        pipeline.label@ == "Poseidon Leaf Hash Pipeline"@,
        pipeline.layout_label@ == "Poseidon Leaf Hash Pipeline Layout"@,
{
    PipelineDescriptor {
        shader: "poseidon1_hash.wgsl",
        entry_point: "poseidon1Hash",
        label: "Poseidon Leaf Hash Pipeline",
        layout_label: "Poseidon Leaf Hash Pipeline Layout",
    }
}

/// The pipeline that brings elements into Montgomery form.
pub fn create_to_mont_pipeline() -> (pipeline: PipelineDescriptor)
    ensures
        pipeline.shader@ == "buffer_canonical_to_montgomery.wgsl"@,
        pipeline.entry_point@ == "bufferToMontgomery"@,
        pipeline.label@ == "Buffer Canonical to Montgomery Pipeline"@,
        pipeline.layout_label@ == "Buffer Canonical to Montgomery Pipeline Layout"@,
{
    PipelineDescriptor {
        shader: "buffer_canonical_to_montgomery.wgsl",
        entry_point: "bufferToMontgomery",
        label: "Buffer Canonical to Montgomery Pipeline",
        layout_label: "Buffer Canonical to Montgomery Pipeline Layout",
    }
}

/// The pipeline that brings elements back into canonical form.
pub fn create_to_canon_pipeline() -> (pipeline: PipelineDescriptor)
    ensures
        pipeline.shader@ == "buffer_montgomery_to_canonical.wgsl"@,
        pipeline.entry_point@ == "bufferToCanonical"@,
        pipeline.label@ == "Buffer Montgomery to Canonical Pipeline"@,
        pipeline.layout_label@ == "Buffer Montgomery to Canonical Pipeline Layout"@,
{
    PipelineDescriptor {
        shader: "buffer_montgomery_to_canonical.wgsl",
        entry_point: "bufferToCanonical",
        label: "Buffer Montgomery to Canonical Pipeline",
        layout_label: "Buffer Montgomery to Canonical Pipeline Layout",
    }
}

/// A binding that the shader may write, or may only read, of any size.
pub open spec fn any_size(binding: u32, read_only: bool) -> LayoutEntry {
    LayoutEntry { binding, read_only, min_binding_size: None }
}

/// A binding that the shader may write, or may only read, of at least `size` bytes.
pub open spec fn at_least(binding: u32, read_only: bool, size: u64) -> LayoutEntry {
    LayoutEntry { binding, read_only, min_binding_size: Some(size) }
}

/// The Poseidon tables, which the two hashing shaders both read at the same bindings.
pub open spec fn poseidon_entries() -> Seq<LayoutEntry> {
    seq![
        at_least(4, true, STATE_TABLE_SIZE),
        at_least(5, true, STATE_TABLE_SIZE),
        at_least(6, true, ROUND_CONSTANTS_SIZE),
    ]
}

/// The bindings of a pipeline.
pub open spec fn layout_entries(pipeline: Pipeline) -> Seq<LayoutEntry> {
    match pipeline {
        Pipeline::MerkleLayer => seq![
            any_size(0, true),
            any_size(1, false),
            any_size(2, false),
            at_least(3, true, KERNEL_ARGS_SIZE),
        ] + poseidon_entries(),
        Pipeline::LeafHash => seq![
            at_least(0, false, BYTES_PER_DIGEST as u64),
            any_size(1, false),
            at_least(2, true, COUNT_SIZE),
            at_least(3, true, COUNT_SIZE),
        ] + poseidon_entries(),
        Pipeline::ToMontgomery => seq![
            at_least(0, false, BYTES_PER_BIGINT as u64),
            at_least(1, true, COUNT_SIZE),
        ],
        Pipeline::ToCanonical => seq![
            at_least(0, false, BYTES_PER_BIGINT as u64),
            at_least(1, true, COUNT_SIZE),
        ],
    }
}

/// A storage buffer binding; a smallest size of zero is no demand.
fn storage_entry(binding: u32, read_only: bool, min_size: u64) -> (entry: LayoutEntry)
    ensures
        min_size == 0 ==> entry == any_size(binding, read_only),
        min_size != 0 ==> entry == at_least(binding, read_only, min_size),
{
    let min_binding_size = if min_size == 0 {
        None
    } else {
        Some(min_size)
    };
    LayoutEntry { binding, read_only, min_binding_size }
}

/// The bindings of the shader that hashes one layer into the next: leaf digests, nodes, cap,
/// layer arguments and the Poseidon tables.
pub fn create_merkle_bind_group_layout() -> (layout: BindGroupLayout)
    ensures
        layout.label@ == "Merkle Tree Bind Group Layout"@,
        layout.entries@ == layout_entries(Pipeline::MerkleLayer),
{
    let mut entries: Vec<LayoutEntry> = Vec::new();
    entries.push(storage_entry(0, true, 0));
    entries.push(storage_entry(1, false, 0));
    entries.push(storage_entry(2, false, 0));
    entries.push(storage_entry(3, true, KERNEL_ARGS_SIZE));
    entries.push(storage_entry(4, true, STATE_TABLE_SIZE));
    entries.push(storage_entry(5, true, STATE_TABLE_SIZE));
    entries.push(storage_entry(6, true, ROUND_CONSTANTS_SIZE));
    assert(entries@ =~= layout_entries(Pipeline::MerkleLayer));
    BindGroupLayout { label: "Merkle Tree Bind Group Layout", entries }
}

/// The bindings of the shader that hashes leaves: digests, leaf elements, number of leaves,
/// elements per leaf and the Poseidon tables.
pub fn create_leaf_hash_bind_group_layout() -> (layout: BindGroupLayout)
    ensures
        layout.label@ == "Poseidon Leaf Hash Bind Group Layout"@,
        layout.entries@ == layout_entries(Pipeline::LeafHash),
{
    let mut entries: Vec<LayoutEntry> = Vec::new();
    entries.push(storage_entry(0, false, BYTES_PER_DIGEST as u64));
    entries.push(storage_entry(1, false, 0));
    entries.push(storage_entry(2, true, COUNT_SIZE));
    entries.push(storage_entry(3, true, COUNT_SIZE));
    entries.push(storage_entry(4, true, STATE_TABLE_SIZE));
    entries.push(storage_entry(5, true, STATE_TABLE_SIZE));
    entries.push(storage_entry(6, true, ROUND_CONSTANTS_SIZE));
    assert(entries@ =~= layout_entries(Pipeline::LeafHash));
    BindGroupLayout { label: "Poseidon Leaf Hash Bind Group Layout", entries }
}

/// The bindings of the shader that brings a buffer into Montgomery form: the buffer and the
/// number of its elements.
pub fn create_to_mont_bind_group_layout() -> (layout: BindGroupLayout)
    ensures
        layout.label@ == "Buffer Canonical to Montgomery Bind Group Layout"@,
        layout.entries@ == layout_entries(Pipeline::ToMontgomery),
{
    let mut entries: Vec<LayoutEntry> = Vec::new();
    entries.push(storage_entry(0, false, BYTES_PER_BIGINT as u64));
    entries.push(storage_entry(1, true, COUNT_SIZE));
    assert(entries@ =~= layout_entries(Pipeline::ToMontgomery));
    BindGroupLayout { label: "Buffer Canonical to Montgomery Bind Group Layout", entries }
}

/// The bindings of the shader that brings a buffer back into canonical form: the buffer and the
/// number of its elements.
pub fn create_to_canon_bind_group_layout() -> (layout: BindGroupLayout)
    ensures
        layout.label@ == "Buffer Montgomery to Canonical Bind Group Layout"@,
        layout.entries@ == layout_entries(Pipeline::ToCanonical),
{
    let mut entries: Vec<LayoutEntry> = Vec::new();
    entries.push(storage_entry(0, false, BYTES_PER_BIGINT as u64));
    entries.push(storage_entry(1, true, COUNT_SIZE));
    assert(entries@ =~= layout_entries(Pipeline::ToCanonical));
    BindGroupLayout { label: "Buffer Montgomery to Canonical Bind Group Layout", entries }
}

/// What is created on the device for one pipeline.
#[derive(Debug)]
pub struct PipelineSetup {
    pub layout: BindGroupLayout,
    pub descriptor: PipelineDescriptor,
}

/// The shader of a pipeline.
pub open spec fn shader_name(pipeline: Pipeline) -> Seq<char> {
    match pipeline {
        Pipeline::MerkleLayer => "merkle_tree.wgsl"@,
        Pipeline::LeafHash => "poseidon1_hash.wgsl"@,
        Pipeline::ToMontgomery => "buffer_canonical_to_montgomery.wgsl"@,
        Pipeline::ToCanonical => "buffer_montgomery_to_canonical.wgsl"@,
    }
}

/// The function of its shader that a pipeline runs.
pub open spec fn entry_point_name(pipeline: Pipeline) -> Seq<char> {
    match pipeline {
        Pipeline::MerkleLayer => "processMerkleTreeLayerWithCap"@,
        Pipeline::LeafHash => "poseidon1Hash"@,
        Pipeline::ToMontgomery => "bufferToMontgomery"@,
        Pipeline::ToCanonical => "bufferToCanonical"@,
    }
}

/// The name that the bind group layout of a pipeline carries.
pub open spec fn bindings_label(pipeline: Pipeline) -> Seq<char> {
    match pipeline {
        Pipeline::MerkleLayer => "Merkle Tree Bind Group Layout"@,
        Pipeline::LeafHash => "Poseidon Leaf Hash Bind Group Layout"@,
        Pipeline::ToMontgomery => "Buffer Canonical to Montgomery Bind Group Layout"@,
        Pipeline::ToCanonical => "Buffer Montgomery to Canonical Bind Group Layout"@,
    }
}

/// The name that a pipeline carries.
pub open spec fn pipeline_label(pipeline: Pipeline) -> Seq<char> {
    match pipeline {
        Pipeline::MerkleLayer => "Merkle Tree Pipeline"@,
        Pipeline::LeafHash => "Poseidon Leaf Hash Pipeline"@,
        Pipeline::ToMontgomery => "Buffer Canonical to Montgomery Pipeline"@,
        Pipeline::ToCanonical => "Buffer Montgomery to Canonical Pipeline"@,
    }
}

/// The name that the layout of a pipeline carries.
pub open spec fn pipeline_layout_label(pipeline: Pipeline) -> Seq<char> {
    match pipeline {
        Pipeline::MerkleLayer => "Merkle Tree Pipeline Layout"@,
        Pipeline::LeafHash => "Poseidon Leaf Hash Pipeline Layout"@,
        Pipeline::ToMontgomery => "Buffer Canonical to Montgomery Pipeline Layout"@,
        Pipeline::ToCanonical => "Buffer Montgomery to Canonical Pipeline Layout"@,
    }
}

/// The name of the layout of a pipeline is that of the pipeline, and says that it is a layout.
pub proof fn lemma_layout_named_after_pipeline(pipeline: Pipeline)
    ensures
        pipeline_layout_label(pipeline) == pipeline_label(pipeline) + " Layout"@,
{
    reveal_strlit(" Layout");
    reveal_strlit("Merkle Tree Pipeline");
    reveal_strlit("Poseidon Leaf Hash Pipeline");
    reveal_strlit("Buffer Canonical to Montgomery Pipeline");
    reveal_strlit("Buffer Montgomery to Canonical Pipeline");
    reveal_strlit("Merkle Tree Pipeline Layout");
    reveal_strlit("Poseidon Leaf Hash Pipeline Layout");
    reveal_strlit("Buffer Canonical to Montgomery Pipeline Layout");
    reveal_strlit("Buffer Montgomery to Canonical Pipeline Layout");
    assert(pipeline_layout_label(pipeline) =~= pipeline_label(pipeline) + " Layout"@);
}

/// No two pipelines run the same shader, or functions of the same name, and no two carry the same
/// name.
pub proof fn lemma_pipelines_told_apart(a: Pipeline, b: Pipeline)
    requires
        a != b,
    ensures
        shader_name(a) != shader_name(b),
        entry_point_name(a) != entry_point_name(b),
        pipeline_label(a) != pipeline_label(b),
        bindings_label(a) != bindings_label(b),
{
    reveal_strlit("merkle_tree.wgsl");
    reveal_strlit("poseidon1_hash.wgsl");
    reveal_strlit("buffer_canonical_to_montgomery.wgsl");
    reveal_strlit("buffer_montgomery_to_canonical.wgsl");
    reveal_strlit("processMerkleTreeLayerWithCap");
    reveal_strlit("poseidon1Hash");
    reveal_strlit("bufferToMontgomery");
    reveal_strlit("bufferToCanonical");
    reveal_strlit("Merkle Tree Pipeline");
    reveal_strlit("Poseidon Leaf Hash Pipeline");
    reveal_strlit("Buffer Canonical to Montgomery Pipeline");
    reveal_strlit("Buffer Montgomery to Canonical Pipeline");
    reveal_strlit("Merkle Tree Bind Group Layout");
    reveal_strlit("Poseidon Leaf Hash Bind Group Layout");
    reveal_strlit("Buffer Canonical to Montgomery Bind Group Layout");
    reveal_strlit("Buffer Montgomery to Canonical Bind Group Layout");
    assert(shader_name(Pipeline::MerkleLayer).len() == 16);
    assert(shader_name(Pipeline::LeafHash).len() == 19);
    assert(shader_name(Pipeline::ToMontgomery).len() == 35);
    assert(shader_name(Pipeline::ToCanonical).len() == 35);
    assert(entry_point_name(Pipeline::MerkleLayer).len() == 29);
    assert(entry_point_name(Pipeline::LeafHash).len() == 13);
    assert(entry_point_name(Pipeline::ToMontgomery).len() == 18);
    assert(entry_point_name(Pipeline::ToCanonical).len() == 17);
    assert(pipeline_label(Pipeline::MerkleLayer).len() == 20);
    assert(pipeline_label(Pipeline::LeafHash).len() == 27);
    assert(pipeline_label(Pipeline::ToMontgomery).len() == 39);
    assert(pipeline_label(Pipeline::ToCanonical).len() == 39);
    assert(bindings_label(Pipeline::MerkleLayer).len() == 29);
    assert(bindings_label(Pipeline::LeafHash).len() == 36);
    assert(bindings_label(Pipeline::ToMontgomery).len() == 48);
    assert(bindings_label(Pipeline::ToCanonical).len() == 48);
    assert(shader_name(Pipeline::ToMontgomery)[7] != shader_name(Pipeline::ToCanonical)[7]);
    assert(entry_point_name(Pipeline::ToMontgomery)[8] == 'M');
    assert(entry_point_name(Pipeline::ToCanonical)[8] == 'C');
    assert(pipeline_label(Pipeline::ToMontgomery)[7] != pipeline_label(Pipeline::ToCanonical)[7]);
    assert(bindings_label(Pipeline::ToMontgomery)[7] != bindings_label(Pipeline::ToCanonical)[7]);
}

/// The bindings and the shader that a pipeline is created from.
pub fn pipeline_setup(pipeline: Pipeline) -> (setup: PipelineSetup)
    ensures
        setup.layout.entries@ == layout_entries(pipeline),
        setup.descriptor.shader@ == shader_name(pipeline),
        setup.descriptor.entry_point@ == entry_point_name(pipeline),
        setup.layout.label@ == bindings_label(pipeline),
        setup.descriptor.label@ == pipeline_label(pipeline),
        setup.descriptor.layout_label@ == pipeline_layout_label(pipeline),
{
    match pipeline {
        Pipeline::MerkleLayer => PipelineSetup {
            layout: create_merkle_bind_group_layout(),
            descriptor: create_merkle_pipeline(),
        },
        Pipeline::LeafHash => PipelineSetup {
            layout: create_leaf_hash_bind_group_layout(),
            descriptor: create_leaf_hash_pipeline(),
        },
        Pipeline::ToMontgomery => PipelineSetup {
            layout: create_to_mont_bind_group_layout(),
            descriptor: create_to_mont_pipeline(),
        },
        Pipeline::ToCanonical => PipelineSetup {
            layout: create_to_canon_bind_group_layout(),
            descriptor: create_to_canon_pipeline(),
        },
    }
}

/// The Poseidon constants as the shaders read them.
#[derive(Debug)]
pub struct PoseidonConstantBuffers {
    pub mds_circ: Vec<u8>,
    pub mds_diag: Vec<u8>,
    pub round_constants: Vec<u8>,
}

/// The first `limit` numbers of a table, or all of them where there are fewer.
pub open spec fn at_most(table: Seq<u64>, limit: int) -> Seq<u64> {
    if table.len() <= limit {
        table
    } else {
        table.take(limit)
    }
}

/// The Montgomery forms of a table's numbers.
pub open spec fn table_forms(table: Seq<u64>) -> Seq<int> {
    table.map_values(|value: u64| montgomery_form(GoldilocksField(value).residue()))
}

/// The bytes of the first `limit` constants of a table, in Montgomery form.
fn constant_bytes(table: &[u64], limit: usize) -> (bytes: Vec<u8>)
    ensures
        little_endian(bytes@, number_words(table_forms(at_most(table@, limit as int)))),
{
    let mut fields: Vec<GoldilocksField> = Vec::new();
    let ghost kept = at_most(table@, limit as int);
    while fields.len() < limit && fields.len() < table.len()
        invariant
            fields@.len() <= kept.len(),
            kept == at_most(table@, limit as int),
            forall|i: int|
                0 <= i < fields@.len() ==> #[trigger] fields@[i] == GoldilocksField(kept[i]),
        decreases table@.len() - fields@.len(),
    {
        let value: u64 = table[fields.len()];
        fields.push(GoldilocksField::from_canonical_u64(value));
    }
    assert(montgomery_forms(fields@) =~= table_forms(kept));
    let words = fields_to_montgomery_words(fields.as_slice());
    words_to_bytes(words.as_slice())
}

/// The Poseidon constants as the shaders read them: the two parts of the matrix and the round
/// constants, each element in Montgomery form.
pub fn create_poseidon_constant_buffers(
    mds_matrix_circ: &[u64],
    mds_matrix_diag: &[u64],
    all_round_constants: &[u64],
) -> (buffers: PoseidonConstantBuffers)
    ensures
        little_endian(
            buffers.mds_circ@,
            number_words(table_forms(at_most(mds_matrix_circ@, POSEIDON_WIDTH as int))),
        ),
        little_endian(
            buffers.mds_diag@,
            number_words(table_forms(at_most(mds_matrix_diag@, POSEIDON_WIDTH as int))),
        ),
        little_endian(
            buffers.round_constants@,
            number_words(table_forms(at_most(all_round_constants@, ROUND_CONSTANT_COUNT as int))),
        ),
{
    PoseidonConstantBuffers {
        mds_circ: constant_bytes(mds_matrix_circ, POSEIDON_WIDTH),
        mds_diag: constant_bytes(mds_matrix_diag, POSEIDON_WIDTH),
        round_constants: constant_bytes(all_round_constants, ROUND_CONSTANT_COUNT),
    }
}

/// Full constant tables give buffers of just the sizes that the shaders ask for.
pub proof fn lemma_constant_buffers_fit(table: Seq<u64>, limit: nat, bytes: Seq<u8>)
    requires
        table.len() >= limit,
        bytes_hold(bytes, number_words(table_forms(at_most(table, limit as int)))),
    ensures
        bytes.len() == 8 * limit,
        limit == POSEIDON_WIDTH ==> bytes.len() == STATE_TABLE_SIZE,
        limit == ROUND_CONSTANT_COUNT ==> bytes.len() == ROUND_CONSTANTS_SIZE,
{
}

/// What the shaders read of a constant: the eight bytes of number `i` of a buffer, least
/// significant byte first, are `2^64` times number `i` of the table modulo the field order, and
/// out of Montgomery form the number of the table itself. There is one for each number of the
/// table, up to the limit.
pub proof fn lemma_constants_readable(table: Seq<u64>, limit: nat, bytes: Seq<u8>, i: int)
    requires
        little_endian(bytes, number_words(table_forms(at_most(table, limit as int)))),
    ensures
        table.len() <= limit ==> bytes.len() == 8 * table.len(),
        table.len() > limit ==> bytes.len() == 8 * limit,
        0 <= i < table.len() && i < limit ==> {
            let number = bytes[8 * i] + 0x100 * bytes[8 * i + 1] + 0x1_0000 * bytes[8 * i + 2]
                + 0x100_0000 * bytes[8 * i + 3] + 0x1_0000_0000 * bytes[8 * i + 4]
                + 0x100_0000_0000 * bytes[8 * i + 5] + 0x1_0000_0000_0000 * bytes[8 * i + 6]
                + 0x100_0000_0000_0000 * bytes[8 * i + 7];
            &&& number == (table[i] * 0x1_0000_0000_0000_0000) % 0xFFFF_FFFF_0000_0001
            &&& canonical_form(number) == table[i] as int % 0xFFFF_FFFF_0000_0001
        },
{
    let kept = at_most(table, limit as int);
    let values = kept.map_values(|value: u64| GoldilocksField(value));
    let words = number_words(table_forms(kept));
    assert(montgomery_forms(values) =~= table_forms(kept));
    lemma_bytes_spell_words(bytes, words);
    if 0 <= i < table.len() && i < limit {
        let v = table[i] as int;
        assert(values[i].0 == table[i]);
        lemma_words_of_elements(values, i);
        assert(words[2 * i] as int == bytes[4 * (2 * i)] + 0x100 * bytes[4 * (2 * i) + 1] + 0x1_0000
            * bytes[4 * (2 * i) + 2] + 0x100_0000 * bytes[4 * (2 * i) + 3]);
        assert(words[2 * i + 1] as int == bytes[4 * (2 * i + 1)] + 0x100 * bytes[4 * (2 * i + 1)
            + 1] + 0x1_0000 * bytes[4 * (2 * i + 1) + 2] + 0x100_0000 * bytes[4 * (2 * i + 1) + 3]);
        lemma_montgomery_round_trip(v);
    }
}

} // verus!
