use merkle_gpu::goldilocks::GoldilocksField;
use merkle_gpu::layers::{
    host_layer_offset, host_layer_size, power_of_two_depth, LayerAccessor,
};
use merkle_gpu::words::HashOut;

fn numbered(n: u64) -> HashOut {
    HashOut {
        elements: [
            GoldilocksField(n),
            GoldilocksField(0),
            GoldilocksField(0),
            GoldilocksField(0),
        ],
    }
}

#[test]
fn sizes_of_a_full_tree() {
    let sizes: Vec<usize> = (0..=4).map(|layer| host_layer_size(16, layer)).collect();
    assert_eq!(sizes, vec![16, 8, 4, 2, 1]);
}

#[test]
fn sizes_round_up_above_the_first_layer() {
    // 11 leaves: the unpaired leaf is dropped, later layers round up.
    let sizes: Vec<usize> = (0..=5).map(|layer| host_layer_size(11, layer)).collect();
    assert_eq!(sizes, vec![11, 5, 3, 2, 1, 1]);
    assert_eq!(host_layer_size(0, 3), 0);
    assert_eq!(host_layer_size(1, 1), 0);
}

#[test]
fn offsets_add_up_the_sizes() {
    let offsets: Vec<usize> = (0..=5).map(|layer| host_layer_offset(16, layer)).collect();
    assert_eq!(offsets, vec![0, 0, 8, 12, 14, 15]);
    assert_eq!(host_layer_offset(11, 4), 5 + 3 + 2);
    for layer in 1..5 {
        assert_eq!(
            host_layer_offset(16, layer + 1),
            host_layer_offset(16, layer) + host_layer_size(16, layer)
        );
    }
}

#[test]
fn depths() {
    assert_eq!(power_of_two_depth(1), Some(0));
    assert_eq!(power_of_two_depth(2), Some(1));
    assert_eq!(power_of_two_depth(1 << 20), Some(20));
    assert_eq!(power_of_two_depth(0), None);
    assert_eq!(power_of_two_depth(3), None);
    assert_eq!(power_of_two_depth(12), None);
}

#[test]
fn accessor_finds_nodes() {
    let leaves: Vec<HashOut> = (0..8).map(numbered).collect();
    let nodes: Vec<HashOut> = (100..106).map(numbered).collect();
    let cap = vec![numbered(200)];
    let accessor = LayerAccessor::new(&leaves, &nodes, &cap, 8, 3);
    assert_eq!(accessor.layer_starts, vec![0, 0, 4]);
    assert_eq!(accessor.node(0, 5), numbered(5));
    assert_eq!(accessor.node(1, 0), numbered(100));
    assert_eq!(accessor.node(1, 3), numbered(103));
    assert_eq!(accessor.node(2, 1), numbered(105));
    assert_eq!(accessor.node(3, 0), numbered(200));
}

#[test]
fn accessor_with_a_wide_cap() {
    let leaves: Vec<HashOut> = (0..8).map(numbered).collect();
    let nodes: Vec<HashOut> = (100..104).map(numbered).collect();
    let cap = vec![numbered(200), numbered(201)];
    let accessor = LayerAccessor::new(&leaves, &nodes, &cap, 8, 2);
    assert_eq!(accessor.node(1, 2), numbered(102));
    assert_eq!(accessor.node(2, 1), numbered(201));
}
