use merkle_gpu::goldilocks::GoldilocksField;
use merkle_gpu::gpu::{Binding, BufferId, GpuCommand, Pipeline};
use merkle_gpu::plan::{
    bind_poseidon, canonical_to_montgomery_gpu, create_buffers, hash_leaves_gpu, leaf_info,
    leaves_have_length, montgomery_to_canonical_gpu, transpose_leaves, BuildError,
    MerkleTreeKernelArgs,
};

fn leaves(rows: &[&[u64]]) -> Vec<Vec<GoldilocksField>> {
    rows.iter()
        .map(|row| row.iter().map(|v| GoldilocksField(*v)).collect())
        .collect()
}

fn words(values: &[u32]) -> Vec<u8> {
    values.iter().flat_map(|v| v.to_ne_bytes()).collect()
}

fn buffer_at(bindings: &[Binding], i: usize) -> BufferId {
    match &bindings[i] {
        Binding::Buffer(buffer) => *buffer,
        Binding::Inline(_) => panic!("binding {} is inline", i),
    }
}

fn inline_at(bindings: &[Binding], i: usize) -> &[u8] {
    match &bindings[i] {
        Binding::Inline(bytes) => bytes,
        Binding::Buffer(_) => panic!("binding {} is a buffer", i),
    }
}

#[test]
fn messages_of_build_errors() {
    assert_eq!(
        BuildError::TooManyLeaves { num_leaves: 3000000000 }.message(),
        "Merkle GPU hashing expects leaf count to fit in i32, got 3000000000"
    );
    assert_eq!(
        BuildError::UnevenLeaves.message(),
        "GPU Poseidon hashing requires leaves of uniform length"
    );
    assert_eq!(
        BuildError::NotPowerOfTwo.message(),
        "GPU Merkle currently expects a power-of-two leaf count"
    );
    assert_eq!(
        BuildError::CapTooHigh { cap_height: 5, depth: 3 }.message(),
        "cap_height 5 exceeds tree depth 3"
    );
    assert_eq!(
        BuildError::NoInternalNodes { num_leaves: 4, cap_height: 1 }.message(),
        "GPU Merkle skipped: total_internal_nodes == 0 for leaves=4, cap_height=1"
    );
    assert_eq!(
        BuildError::EmptyLeaves.message(),
        "GPU Poseidon hashing received empty leaves"
    );
    assert_eq!(
        BuildError::LeavesTooWide { elements_per_leaf: 12 }.message(),
        "elements_per_leaf must fit in i32, got 12"
    );
}

#[test]
fn leaf_counts() {
    let rows = leaves(&[&[1, 2, 3], &[4, 5, 6]]);
    assert_eq!(leaf_info(&rows), (2, 3));
    assert!(leaves_have_length(&rows, 3));
    assert!(!leaves_have_length(&rows, 2));
    assert!(!leaves_have_length(&leaves(&[&[1], &[2, 3]]), 1));
    assert!(leaves_have_length(&Vec::new(), 9));
}

#[test]
fn transposing() {
    let rows = leaves(&[&[1, 2, 3], &[4, 5, 6]]);
    let (elements, width) = transpose_leaves(&rows);
    assert_eq!(width, 3);
    let raw: Vec<u64> = elements.iter().map(|e| e.0).collect();
    assert_eq!(raw, vec![1, 4, 2, 5, 3, 6]);
    // Element e of leaf l lies at e * leaves + l.
    for l in 0..2 {
        for e in 0..3 {
            assert_eq!(elements[e * 2 + l], rows[l][e]);
        }
    }
}

#[test]
fn transposing_leaves_without_elements() {
    let (elements, width) = transpose_leaves(&leaves(&[&[], &[]]));
    assert_eq!(width, 0);
    assert!(elements.is_empty());
}

#[test]
fn kernel_arguments_in_order() {
    let args = MerkleTreeKernelArgs {
        cap_len: 1,
        layer: 2,
        src_layer_size: 3,
        dst_layer_size: 4,
        src_offset: 5,
        dst_offset: 6,
        write_to_cap: 7,
    };
    assert_eq!(args.to_bytes(), words(&[1, 2, 3, 4, 5, 6, 7]));
}

#[test]
fn poseidon_tables_come_last() {
    let mut bindings = vec![
        Binding::Buffer(BufferId::Cap),
        Binding::Buffer(BufferId::Cap),
        Binding::Buffer(BufferId::Cap),
        Binding::Buffer(BufferId::Nodes),
    ];
    bind_poseidon(&mut bindings);
    assert_eq!(bindings.len(), 7);
    assert_eq!(buffer_at(&bindings, 3), BufferId::Nodes);
    assert_eq!(buffer_at(&bindings, 4), BufferId::MdsCirc);
    assert_eq!(buffer_at(&bindings, 5), BufferId::MdsDiag);
    assert_eq!(buffer_at(&bindings, 6), BufferId::RoundConstants);
}

#[test]
fn hashing_leaves() {
    let (allocate, run) = hash_leaves_gpu(130, 86);
    match allocate {
        GpuCommand::Allocate { buffer, size } => {
            assert_eq!(buffer, BufferId::LeafDigests);
            assert_eq!(size, 130 * 32);
        }
        other => panic!("unexpected {:?}", other),
    }
    match run {
        GpuCommand::Run(dispatch) => {
            assert_eq!(dispatch.pipeline, Pipeline::LeafHash);
            assert_eq!((dispatch.workgroups_x, dispatch.workgroups_y), (3, 1));
            assert_eq!(buffer_at(&dispatch.bindings, 0), BufferId::LeafDigests);
            assert_eq!(buffer_at(&dispatch.bindings, 1), BufferId::LeafElements);
            assert_eq!(inline_at(&dispatch.bindings, 2), words(&[130]));
            assert_eq!(inline_at(&dispatch.bindings, 3), words(&[86]));
            assert_eq!(dispatch.bindings.len(), 7);
        }
        other => panic!("unexpected {:?}", other),
    }
}

#[test]
fn one_workgroup_for_up_to_64_leaves() {
    for (count, groups) in [(1usize, 1u32), (64, 1), (65, 2), (128, 2), (129, 3)] {
        match hash_leaves_gpu(count, 1).1 {
            GpuCommand::Run(dispatch) => {
                assert_eq!(dispatch.workgroups_x, groups);
                assert!(dispatch.workgroups_x as usize * 64 >= count);
            }
            other => panic!("unexpected {:?}", other),
        }
    }
}

#[test]
fn entering_montgomery_form() {
    let elements = [GoldilocksField(7), GoldilocksField(0x1_0000_0000)];
    let (upload, run) = canonical_to_montgomery_gpu(&elements, 2);
    match upload {
        GpuCommand::Upload { buffer, contents } => {
            assert_eq!(buffer, BufferId::LeafElements);
            assert_eq!(contents, words(&[7, 0, 0, 1]));
        }
        other => panic!("unexpected {:?}", other),
    }
    match run {
        GpuCommand::Run(dispatch) => {
            assert_eq!(dispatch.pipeline, Pipeline::ToMontgomery);
            assert_eq!((dispatch.workgroups_x, dispatch.workgroups_y), (2, 1));
            assert_eq!(buffer_at(&dispatch.bindings, 0), BufferId::LeafElements);
            assert_eq!(inline_at(&dispatch.bindings, 1), words(&[2]));
        }
        other => panic!("unexpected {:?}", other),
    }
}

#[test]
fn grid_for_entering_montgomery_form() {
    for (num, x, y) in [
        (0usize, 0u32, 1u32),
        (65535, 65535, 1),
        (65536, 32768, 2),
        (98303, 49152, 2),
        (100000, 33334, 3),
        (45_088_768, 32768, 1376),
    ] {
        match canonical_to_montgomery_gpu(&[], num).1 {
            GpuCommand::Run(dispatch) => {
                assert_eq!((dispatch.workgroups_x, dispatch.workgroups_y), (x, y));
                assert!(x as u64 * y as u64 >= num as u64);
            }
            other => panic!("unexpected {:?}", other),
        }
    }
}

#[test]
fn leaving_montgomery_form() {
    match montgomery_to_canonical_gpu(BufferId::Nodes, 65) {
        Some(GpuCommand::Run(dispatch)) => {
            assert_eq!(dispatch.pipeline, Pipeline::ToCanonical);
            assert_eq!((dispatch.workgroups_x, dispatch.workgroups_y), (2, 1));
            assert_eq!(buffer_at(&dispatch.bindings, 0), BufferId::Nodes);
            assert_eq!(inline_at(&dispatch.bindings, 1), words(&[65]));
        }
        other => panic!("unexpected {:?}", other),
    }
    assert!(montgomery_to_canonical_gpu(BufferId::Nodes, 0).is_none());
}

#[test]
fn node_and_cap_buffers() {
    let (nodes, cap) = create_buffers(14, 2);
    match (nodes, cap) {
        (
            GpuCommand::Allocate { buffer: BufferId::Nodes, size: nodes },
            GpuCommand::Allocate { buffer: BufferId::Cap, size: cap },
        ) => {
            assert_eq!(nodes, 14 * 32);
            assert_eq!(cap, 2 * 32);
        }
        other => panic!("unexpected {:?}", other),
    }
}
