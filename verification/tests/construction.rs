//! Builds whole trees, with a device that carries out the commands one after the other and a
//! simple hash in place of Poseidon.
use merkle_gpu::binary::{parse_binary_test_vectors, parse_test_vectors_binary, BINARY_LEAF_WIDTH};
use merkle_gpu::context::{GpuContextCell, MerkleTreeGpuContext};
use merkle_gpu::digests::{fill_subtree_from_gpu, reconstruct_digests};
use merkle_gpu::finish::{FinishAction, FinishProgress};
use merkle_gpu::goldilocks::{
    from_montgomery_u64, to_montgomery_u64, GoldilocksField, GOLDILOCKS_MODULUS,
};
use merkle_gpu::gpu::{Binding, BufferId, Dispatch, GpuCommand, Pipeline};
use merkle_gpu::job::{
    build_merkle_tree, check_leaves, kernel_args, try_build_merkle_tree, GpuMerkleOutput,
    MerkleGpuJob, MerkleGpuJobState, TreeShape,
};
use merkle_gpu::layers::LayerAccessor;
use merkle_gpu::padding::pad_leaves;
use merkle_gpu::plan::{canonical_to_montgomery_gpu, montgomery_to_canonical_gpu, BuildError};
use merkle_gpu::readback::ReadbackCounters;
use merkle_gpu::words::{fields_to_words, HashOut, WordCountError};

type Digest = [u64; 4];

fn mix(values: &[u64]) -> Digest {
    let p = GOLDILOCKS_MODULUS as u128;
    let mut state = [1u128, 2, 3, 4];
    for value in values {
        for k in 0..4 {
            state[k] = (state[k] * (k as u128 + 1_000_003) + *value as u128 + k as u128) % p;
        }
    }
    [state[0] as u64, state[1] as u64, state[2] as u64, state[3] as u64]
}

fn hash_pair(left: &Digest, right: &Digest) -> Digest {
    let mut values = left.to_vec();
    values.extend_from_slice(right);
    mix(&values)
}

fn to_hash(digest: &Digest) -> HashOut {
    HashOut {
        elements: [
            GoldilocksField(digest[0]),
            GoldilocksField(digest[1]),
            GoldilocksField(digest[2]),
            GoldilocksField(digest[3]),
        ],
    }
}

/// The digest array over the leaves and their root, recursively.
fn host_subtree(leaves: &[Digest]) -> (Vec<HashOut>, Digest) {
    if leaves.len() == 1 {
        return (Vec::new(), leaves[0]);
    }
    let (left, right) = leaves.split_at(leaves.len() / 2);
    let (mut digests, left_root) = host_subtree(left);
    let (right_digests, right_root) = host_subtree(right);
    digests.push(to_hash(&left_root));
    digests.push(to_hash(&right_root));
    digests.extend(right_digests);
    (digests, hash_pair(&left_root, &right_root))
}

fn host_tree(leaves: &[Vec<GoldilocksField>], cap_height: usize) -> GpuMerkleOutput {
    let hashed: Vec<Digest> = leaves
        .iter()
        .map(|leaf| {
            let values: Vec<u64> = leaf.iter().map(|e| e.to_canonical_u64()).collect();
            mix(&values)
        })
        .collect();
    let mut digests = Vec::new();
    let mut cap = Vec::new();
    for subtree in hashed.chunks(leaves.len() >> cap_height) {
        let (part, root) = host_subtree(subtree);
        digests.extend(part);
        cap.push(to_hash(&root));
    }
    GpuMerkleOutput { digests, cap }
}

/// A device with the buffers of one tree. Elements are pairs of words.
struct Device {
    elements: Vec<u64>,
    leaf_digests: Vec<u64>,
    nodes: Vec<u64>,
    cap: Vec<u64>,
    dispatches: usize,
}

fn elements_of(bytes: &[u8]) -> Vec<u64> {
    bytes
        .chunks(8)
        .map(|c| {
            let low = u32::from_ne_bytes([c[0], c[1], c[2], c[3]]) as u64;
            let high = u32::from_ne_bytes([c[4], c[5], c[6], c[7]]) as u64;
            low | high << 32
        })
        .collect()
}

fn inline_words(binding: &Binding) -> Vec<u32> {
    match binding {
        Binding::Inline(bytes) => bytes
            .chunks(4)
            .map(|c| u32::from_ne_bytes([c[0], c[1], c[2], c[3]]))
            .collect(),
        Binding::Buffer(_) => panic!("expected contents"),
    }
}

impl Device {
    fn new() -> Device {
        Device {
            elements: Vec::new(),
            leaf_digests: Vec::new(),
            nodes: Vec::new(),
            cap: Vec::new(),
            dispatches: 0,
        }
    }

    fn buffer(&mut self, id: BufferId) -> &mut Vec<u64> {
        match id {
            BufferId::LeafElements => &mut self.elements,
            BufferId::LeafDigests => &mut self.leaf_digests,
            BufferId::Nodes => &mut self.nodes,
            BufferId::Cap => &mut self.cap,
            _ => panic!("constants are not kept"),
        }
    }

    fn bound(&mut self, binding: &Binding) -> &mut Vec<u64> {
        match binding {
            Binding::Buffer(id) => self.buffer(*id),
            Binding::Inline(_) => panic!("expected a buffer"),
        }
    }

    fn run(&mut self, dispatch: &Dispatch) {
        self.dispatches += 1;
        let threads = dispatch.workgroups_x as usize * dispatch.workgroups_y as usize;
        match dispatch.pipeline {
            Pipeline::ToMontgomery => {
                let num = inline_words(&dispatch.bindings[1])[0] as usize;
                assert!(threads >= num);
                for value in self.bound(&dispatch.bindings[0])[..num].iter_mut() {
                    *value = to_montgomery_u64(*value);
                }
            }
            Pipeline::ToCanonical => {
                let num = inline_words(&dispatch.bindings[1])[0] as usize;
                assert!(threads * 64 >= num);
                for value in self.bound(&dispatch.bindings[0])[..num].iter_mut() {
                    *value = from_montgomery_u64(*value);
                }
            }
            Pipeline::LeafHash => {
                let num_leaves = inline_words(&dispatch.bindings[2])[0] as usize;
                let width = inline_words(&dispatch.bindings[3])[0] as usize;
                assert!(threads * 64 >= num_leaves);
                for l in 0..num_leaves {
                    let values: Vec<u64> = (0..width)
                        .map(|e| from_montgomery_u64(self.elements[e * num_leaves + l]))
                        .collect();
                    for (k, value) in mix(&values).iter().enumerate() {
                        self.leaf_digests[4 * l + k] = to_montgomery_u64(*value);
                    }
                }
            }
            Pipeline::MerkleLayer => {
                let args = inline_words(&dispatch.bindings[3]);
                let (layer, src_len, dst_len) = (args[1], args[2], args[3] as usize);
                let (src_offset, dst_offset) = (args[4] as usize, args[5] as usize);
                let write_to_cap = args[6] == 1;
                assert!(threads * 64 >= dst_len);
                assert_eq!(src_len as usize, 2 * dst_len);
                for i in 0..dst_len {
                    let read = |at: usize| -> Digest {
                        let source = if layer == 0 { &self.leaf_digests } else { &self.nodes };
                        let start = 4 * (src_offset + at);
                        [
                            from_montgomery_u64(source[start]),
                            from_montgomery_u64(source[start + 1]),
                            from_montgomery_u64(source[start + 2]),
                            from_montgomery_u64(source[start + 3]),
                        ]
                    };
                    let digest = hash_pair(&read(2 * i), &read(2 * i + 1));
                    for (k, value) in digest.iter().enumerate() {
                        if write_to_cap {
                            self.cap[4 * i + k] = *value;
                        } else {
                            self.nodes[4 * (dst_offset + i) + k] = to_montgomery_u64(*value);
                        }
                    }
                }
            }
        }
    }

    fn carry_out(&mut self, commands: &[GpuCommand]) {
        for command in commands {
            match command {
                GpuCommand::Upload { buffer, contents } => {
                    *self.buffer(*buffer) = elements_of(contents);
                }
                GpuCommand::Allocate { buffer, size } => {
                    *self.buffer(*buffer) = vec![0; (*size / 8) as usize];
                }
                GpuCommand::Run(dispatch) => self.run(dispatch),
            }
        }
    }

    fn words(&mut self, buffer: BufferId) -> Vec<u32> {
        self.buffer(buffer)
            .iter()
            .flat_map(|v| [*v as u32, (*v >> 32) as u32])
            .collect()
    }
}

fn idle_build(
    leaves: &Vec<Vec<GoldilocksField>>,
    cap_height: usize,
) -> Result<MerkleGpuJob, BuildError> {
    build_merkle_tree(
        &MerkleTreeGpuContext::new(),
        &ReadbackCounters::new(),
        leaves,
        cap_height,
    )
}

fn commands_of(job: &MerkleGpuJob) -> (&TreeShape, &[GpuCommand]) {
    match &job.state {
        MerkleGpuJobState::Deferred { shape, commands } => (shape, commands),
        MerkleGpuJobState::Immediate(_) => panic!("expected work"),
    }
}

fn gpu_tree(leaves: &Vec<Vec<GoldilocksField>>, cap_height: usize) -> GpuMerkleOutput {
    let job = idle_build(leaves, cap_height).unwrap();
    let mut device = Device::new();
    device.carry_out(commands_of(&job).1);
    let leaf_words = device.words(BufferId::LeafDigests);
    let node_words = device.words(BufferId::Nodes);
    let cap_words = device.words(BufferId::Cap);
    job.wait(&leaf_words, &node_words, &cap_words).unwrap()
}

fn numbered_leaves(count: u64, width: u64) -> Vec<Vec<GoldilocksField>> {
    (0..count)
        .map(|l| (0..width).map(|e| GoldilocksField(l * 1000 + e)).collect())
        .collect()
}

/// Raw bytes of `count` leaves of the benchmark's width.
fn binary_leaves(count: u64) -> Vec<u8> {
    (0..count * BINARY_LEAF_WIDTH as u64)
        .flat_map(|i| (i * 0x1_0001_0003 + 5).to_le_bytes())
        .collect()
}

#[test]
fn test_merkle_tree_construction() {
    let data = binary_leaves(13);
    let leaves = parse_test_vectors_binary(&data);
    assert!(!leaves.is_empty(), "Should parse at least one leaf");

    let padded = pad_leaves(leaves, BINARY_LEAF_WIDTH);
    let tree = gpu_tree(&padded.leaves, 0);
    assert!(!tree.cap.is_empty(), "Tree should have a root");
    assert!(
        !tree.digests.is_empty(),
        "Tree should have internal digests"
    );
    assert_eq!(tree.cap.len(), 1);
    assert_eq!(tree.digests.len(), 2 * (16 - 1));
}

#[test]
fn test_binary_parsing() {
    let data = binary_leaves(13);
    let leaves = parse_binary_test_vectors(&data, 86);
    assert!(!leaves.is_empty(), "Should parse at least one leaf");
    for (i, leaf) in leaves.iter().enumerate().take(10) {
        assert_eq!(
            leaf.len(),
            86,
            "Leaf {} should have 86 elements, has {}",
            i,
            leaf.len()
        );
    }
    assert_eq!(leaves.len(), 13);
    assert_eq!(leaves[1][0].0, 86 * 0x1_0001_0003 + 5);
}

#[test]
fn gpu_tree_mirrors_the_host() {
    for depth in 2..8u32 {
        for cap_height in 0..(depth as usize - 1) {
            let leaves = numbered_leaves(1 << depth, 5);
            let gpu = gpu_tree(&leaves, cap_height);
            let host = host_tree(&leaves, cap_height);
            assert_eq!(gpu.cap, host.cap);
            assert_eq!(gpu.digests, host.digests);
            for digest in gpu.digests.iter().chain(gpu.cap.iter()) {
                assert!(digest.elements.iter().all(|e| e.0 < GOLDILOCKS_MODULUS));
            }
            assert_eq!(gpu.cap.len(), 1 << cap_height);
            assert_eq!(gpu.digests.len(), 2 * ((1 << depth) - (1 << cap_height)));
        }
    }
}

#[test]
fn one_step_at_a_time() {
    let leaves = numbered_leaves(8, 3);
    let job = idle_build(&leaves, 1).unwrap();
    let mut device = Device::new();
    device.carry_out(commands_of(&job).1);
    let mut waiting = match job.finish() {
        FinishProgress::More(next) => next,
        FinishProgress::Done(_) => panic!("nothing was read yet"),
    };
    let mut actions = Vec::new();
    let output = loop {
        let action = waiting.action();
        actions.push(action);
        match action {
            FinishAction::WaitForQueue => waiting = waiting.queue_drained(),
            FinishAction::Read { buffer, word_len } => {
                let words = device.words(buffer);
                assert_eq!(words.len() as u64, word_len);
                match waiting.words_read(&words).unwrap() {
                    FinishProgress::More(next) => waiting = next,
                    FinishProgress::Done(output) => break output,
                }
            }
        }
    };
    assert_eq!(
        actions,
        vec![
            FinishAction::WaitForQueue,
            FinishAction::Read { buffer: BufferId::LeafDigests, word_len: 64 },
            FinishAction::Read { buffer: BufferId::Nodes, word_len: 32 },
            FinishAction::Read { buffer: BufferId::Cap, word_len: 16 },
        ]
    );
    let host = host_tree(&leaves, 1);
    assert_eq!(output.cap, host.cap);
    assert_eq!(output.digests, host.digests);
}

#[test]
fn commands_in_order() {
    let job = idle_build(&numbered_leaves(16, 2), 1).unwrap();
    let (shape, commands) = commands_of(&job);
    assert_eq!(
        *shape,
        TreeShape {
            num_leaves: 16,
            cap_height: 1,
            cap_len: 2,
            num_layers_to_cap: 3,
            total_nodes: 12,
        }
    );
    let kinds: Vec<String> = commands
        .iter()
        .map(|command| match command {
            GpuCommand::Upload { buffer, contents } => {
                format!("upload {:?} {}", buffer, contents.len())
            }
            GpuCommand::Allocate { buffer, size } => format!("allocate {:?} {}", buffer, size),
            GpuCommand::Run(dispatch) => format!(
                "run {:?} {}x{}",
                dispatch.pipeline, dispatch.workgroups_x, dispatch.workgroups_y
            ),
        })
        .collect();
    assert_eq!(
        kinds,
        vec![
            "upload LeafElements 256",
            "run ToMontgomery 32x1",
            "allocate LeafDigests 512",
            "run LeafHash 1x1",
            "allocate Nodes 384",
            "allocate Cap 64",
            "run MerkleLayer 1x1",
            "run MerkleLayer 1x1",
            "run MerkleLayer 1x1",
            "run ToCanonical 1x1",
            "run ToCanonical 1x1",
        ]
    );
}

#[test]
fn layer_arguments_fit_together() {
    let leaves = numbered_leaves(16, 1);
    let shape = check_leaves(&leaves, 1).unwrap();
    let first = kernel_args(&shape, 0);
    let second = kernel_args(&shape, 1);
    let third = kernel_args(&shape, 2);
    assert_eq!((first.src_layer_size, first.dst_layer_size), (16, 8));
    assert_eq!((first.src_offset, first.dst_offset, first.write_to_cap), (0, 0, 0));
    assert_eq!((second.src_layer_size, second.dst_layer_size), (8, 4));
    assert_eq!((second.src_offset, second.dst_offset, second.write_to_cap), (0, 8, 0));
    assert_eq!((third.src_layer_size, third.dst_layer_size), (4, 2));
    assert_eq!((third.src_offset, third.dst_offset, third.write_to_cap), (8, 0, 1));
    assert_eq!((third.layer, third.cap_len), (2, 2));
}

#[test]
fn uneven_leaves_are_refused() {
    let mut leaves = numbered_leaves(8, 2);
    leaves[5].push(GoldilocksField(1));
    assert_eq!(idle_build(&leaves, 0).unwrap_err(), BuildError::UnevenLeaves);
    // Unevenness goes before the number of leaves.
    leaves.pop();
    assert_eq!(idle_build(&leaves, 0).unwrap_err(), BuildError::UnevenLeaves);
}

#[test]
fn other_than_powers_of_two_are_refused() {
    assert_eq!(
        idle_build(&numbered_leaves(6, 2), 0).unwrap_err(),
        BuildError::NotPowerOfTwo
    );
}

#[test]
fn caps_above_the_root_are_refused() {
    assert_eq!(
        idle_build(&numbered_leaves(8, 2), 4).unwrap_err(),
        BuildError::CapTooHigh { cap_height: 4, depth: 3 }
    );
}

#[test]
fn trees_without_inner_layers_are_refused() {
    for (count, cap_height) in [(1u64, 0usize), (2, 0), (2, 1), (4, 1), (8, 2), (8, 3)] {
        assert_eq!(
            idle_build(&numbered_leaves(count, 2), cap_height).unwrap_err(),
            BuildError::NoInternalNodes { num_leaves: count as usize, cap_height }
        );
    }
    assert!(idle_build(&numbered_leaves(4, 2), 0).is_ok());
    assert!(idle_build(&numbered_leaves(8, 2), 1).is_ok());
}

#[test]
fn leaves_without_elements_are_refused() {
    assert_eq!(
        idle_build(&numbered_leaves(8, 0), 0).unwrap_err(),
        BuildError::EmptyLeaves
    );
}

#[test]
fn no_tree_without_a_context() {
    let counters = ReadbackCounters::new();
    let leaves = numbered_leaves(8, 2);
    let mut cell = GpuContextCell::empty();
    assert!(try_build_merkle_tree(&cell, &counters, &leaves, 0).is_none());
    cell.install(MerkleTreeGpuContext::new()).unwrap();
    assert!(try_build_merkle_tree(&cell, &counters, &leaves, 0).unwrap().is_ok());
    assert_eq!(
        try_build_merkle_tree(&cell, &counters, &leaves, 9).unwrap().unwrap_err(),
        BuildError::CapTooHigh { cap_height: 9, depth: 3 }
    );
}

#[test]
fn a_result_that_is_there_is_handed_out() {
    let host = host_tree(&numbered_leaves(4, 1), 0);
    let (digests, cap) = (host.digests.clone(), host.cap.clone());
    let output = MerkleGpuJob::immediate(host).wait(&[], &[], &[]).unwrap();
    assert_eq!(output.digests, digests);
    assert_eq!(output.cap, cap);
}

#[test]
fn broken_words_are_refused() {
    let leaves = numbered_leaves(4, 1);
    let zeros = vec![0u32; 64];
    let build = || idle_build(&leaves, 0).unwrap();
    assert_eq!(
        build().wait(&zeros[..30], &zeros[..16], &zeros[..8]).unwrap_err(),
        WordCountError { got: 6 }
    );
    assert_eq!(
        build().wait(&zeros[..32], &zeros[..17], &zeros[..7]).unwrap_err(),
        WordCountError { got: 1 }
    );
    assert_eq!(
        build().wait(&zeros[..32], &zeros[..16], &zeros[..7]).unwrap_err(),
        WordCountError { got: 7 }
    );
    let output = build().wait(&zeros[..32], &zeros[..16], &zeros[..8]).unwrap();
    assert_eq!(output.digests, vec![HashOut::zero(); 6]);
}

#[test]
fn digest_array_of_four_leaves() {
    let numbered = |n: u64| to_hash(&[n, 0, 0, 0]);
    let leaves: Vec<HashOut> = (0..4).map(numbered).collect();
    let nodes = vec![numbered(10), numbered(11)];
    let cap = vec![numbered(20)];
    let accessor = LayerAccessor::new(&leaves, &nodes, &cap, 4, 2);
    let expected = vec![
        numbered(0),
        numbered(1),
        numbered(10),
        numbered(11),
        numbered(2),
        numbered(3),
    ];
    let mut buf = vec![HashOut::zero(); 6];
    assert_eq!(fill_subtree_from_gpu(&mut buf, &accessor, 0, 4), numbered(20));
    assert_eq!(buf, expected);
    assert_eq!(reconstruct_digests(&accessor), expected);
    let mut right = vec![HashOut::zero(); 2];
    assert_eq!(fill_subtree_from_gpu(&mut right, &accessor, 2, 2), numbered(11));
    assert_eq!(right, vec![numbered(2), numbered(3)]);
    assert_eq!(fill_subtree_from_gpu(&mut [], &accessor, 3, 1), numbered(3));
}

#[test]
fn leaving_montgomery_form_undoes_entering_it() {
    let values: Vec<GoldilocksField> = (0..200u64)
        .map(|i| GoldilocksField(i.wrapping_mul(0x0123_4567_89AB_CDEF)))
        .chain([GoldilocksField(GOLDILOCKS_MODULUS - 1), GoldilocksField(u64::MAX)])
        .collect();
    let (upload, enter) = canonical_to_montgomery_gpu(&values, values.len());
    let leave = montgomery_to_canonical_gpu(BufferId::LeafElements, values.len() as u32).unwrap();
    let mut device = Device::new();
    device.carry_out(&[upload, enter]);
    assert_ne!(device.words(BufferId::LeafElements), fields_to_words(&values));
    device.carry_out(&[leave]);
    assert_eq!(device.words(BufferId::LeafElements), fields_to_words(&values));
}
