use merkle_gpu::goldilocks::to_montgomery_u64;
use merkle_gpu::gpu::{
    create_leaf_hash_bind_group_layout, create_leaf_hash_pipeline,
    create_merkle_bind_group_layout, create_merkle_pipeline, create_poseidon_constant_buffers,
    create_to_canon_bind_group_layout, create_to_canon_pipeline, create_to_mont_bind_group_layout,
    create_to_mont_pipeline, pipeline_setup, BindGroupLayout, LayoutEntry, Pipeline,
    MAX_BUFFER_SIZE, POSEIDON_WIDTH, ROUND_CONSTANT_COUNT, ROUND_CONSTANTS_SIZE, STATE_TABLE_SIZE,
};

fn entry(binding: u32, read_only: bool, min_binding_size: Option<u64>) -> LayoutEntry {
    LayoutEntry { binding, read_only, min_binding_size }
}

fn bytes_of(values: &[u64]) -> Vec<u8> {
    let mut bytes = Vec::new();
    for value in values {
        let encoded = to_montgomery_u64(*value);
        bytes.extend_from_slice(&(encoded as u32).to_ne_bytes());
        bytes.extend_from_slice(&((encoded >> 32) as u32).to_ne_bytes());
    }
    bytes
}

#[test]
fn pipelines_name_their_shaders() {
    assert_eq!(create_merkle_pipeline().shader, "merkle_tree.wgsl");
    assert_eq!(create_merkle_pipeline().entry_point, "processMerkleTreeLayerWithCap");
    assert_eq!(create_leaf_hash_pipeline().shader, "poseidon1_hash.wgsl");
    assert_eq!(create_leaf_hash_pipeline().entry_point, "poseidon1Hash");
    assert_eq!(create_to_mont_pipeline().entry_point, "bufferToMontgomery");
    assert_eq!(create_to_canon_pipeline().entry_point, "bufferToCanonical");
    assert_eq!(
        create_to_canon_pipeline().layout_label,
        "Buffer Montgomery to Canonical Pipeline Layout"
    );
}

#[test]
fn layer_layout() {
    assert_eq!(
        create_merkle_bind_group_layout(),
        BindGroupLayout {
            label: "Merkle Tree Bind Group Layout",
            entries: vec![
                entry(0, true, None),
                entry(1, false, None),
                entry(2, false, None),
                entry(3, true, Some(28)),
                entry(4, true, Some(96)),
                entry(5, true, Some(96)),
                entry(6, true, Some(2880)),
            ],
        }
    );
}

#[test]
fn leaf_layout() {
    assert_eq!(
        create_leaf_hash_bind_group_layout(),
        BindGroupLayout {
            label: "Poseidon Leaf Hash Bind Group Layout",
            entries: vec![
                entry(0, false, Some(32)),
                entry(1, false, None),
                entry(2, true, Some(4)),
                entry(3, true, Some(4)),
                entry(4, true, Some(96)),
                entry(5, true, Some(96)),
                entry(6, true, Some(2880)),
            ],
        }
    );
}

#[test]
fn conversion_layouts() {
    let entries = vec![entry(0, false, Some(8)), entry(1, true, Some(4))];
    assert_eq!(create_to_mont_bind_group_layout().entries, entries);
    assert_eq!(create_to_canon_bind_group_layout().entries, entries);
    assert_eq!(
        create_to_mont_bind_group_layout().label,
        "Buffer Canonical to Montgomery Bind Group Layout"
    );
    assert_eq!(
        create_to_canon_bind_group_layout().label,
        "Buffer Montgomery to Canonical Bind Group Layout"
    );
}

#[test]
fn setups_belong_to_their_pipelines() {
    let layer = pipeline_setup(Pipeline::MerkleLayer);
    assert_eq!(layer.layout, create_merkle_bind_group_layout());
    assert_eq!(layer.descriptor, create_merkle_pipeline());
    let leaf = pipeline_setup(Pipeline::LeafHash);
    assert_eq!(leaf.layout, create_leaf_hash_bind_group_layout());
    assert_eq!(leaf.descriptor, create_leaf_hash_pipeline());
    let enter = pipeline_setup(Pipeline::ToMontgomery);
    assert_eq!(enter.layout, create_to_mont_bind_group_layout());
    assert_eq!(enter.descriptor, create_to_mont_pipeline());
    let leave = pipeline_setup(Pipeline::ToCanonical);
    assert_eq!(leave.layout, create_to_canon_bind_group_layout());
    assert_eq!(leave.descriptor, create_to_canon_pipeline());
}

#[test]
fn constants_are_in_montgomery_form() {
    let circ: Vec<u64> = (1..=12).collect();
    let diag: Vec<u64> = (0..12).map(|i| if i == 0 { 8 } else { 0 }).collect();
    let rounds: Vec<u64> = (0..360).map(|i| i * 1_000_003).collect();
    let buffers = create_poseidon_constant_buffers(&circ, &diag, &rounds);
    assert_eq!(buffers.mds_circ, bytes_of(&circ));
    assert_eq!(buffers.mds_diag, bytes_of(&diag));
    assert_eq!(buffers.round_constants, bytes_of(&rounds));
    assert_eq!(buffers.mds_circ.len() as u64, STATE_TABLE_SIZE);
    assert_eq!(buffers.round_constants.len() as u64, ROUND_CONSTANTS_SIZE);
}

#[test]
fn constants_past_the_tables_are_left_out() {
    let circ: Vec<u64> = (0..20).collect();
    let rounds: Vec<u64> = (0..400).collect();
    let buffers = create_poseidon_constant_buffers(&circ, &circ[..3], &rounds);
    assert_eq!(buffers.mds_circ, bytes_of(&circ[..POSEIDON_WIDTH]));
    assert_eq!(buffers.mds_diag, bytes_of(&circ[..3]));
    assert_eq!(buffers.round_constants, bytes_of(&rounds[..ROUND_CONSTANT_COUNT]));
}

#[test]
fn largest_buffer() {
    assert_eq!(MAX_BUFFER_SIZE, (1u64 << 32) - 5);
}
