use merkle_gpu::goldilocks::{GoldilocksField, GOLDILOCKS_MODULUS};
use merkle_gpu::job::GpuMerkleOutput;
use merkle_gpu::padding::PaddedLeaves;
use merkle_gpu::report::{
    compare_trees, prepare_test_leaves, root_hash, test_merkle_tree_construction as report_tree,
    test_merkle_tree_cpu_vs_gpu as report_comparison, NoTestVectors,
};
use merkle_gpu::words::HashOut;

fn digest(a: u64, b: u64, c: u64, d: u64) -> HashOut {
    HashOut {
        elements: [
            GoldilocksField(a),
            GoldilocksField(b),
            GoldilocksField(c),
            GoldilocksField(d),
        ],
    }
}

fn tree(cap: Vec<HashOut>, digests: Vec<HashOut>) -> GpuMerkleOutput {
    GpuMerkleOutput { digests, cap }
}

fn padded() -> PaddedLeaves {
    prepare_test_leaves(vec![vec![GoldilocksField(1); 32]; 3]).unwrap()
}

#[test]
fn test_vectors_are_padded() {
    let prepared = padded();
    assert_eq!((prepared.num_leaves, prepared.padded_size), (3, 4));
    assert_eq!(prepared.leaves[3], vec![GoldilocksField(0); 32]);
    assert_eq!(prepared.leaves[2], vec![GoldilocksField(1); 32]);
}

#[test]
fn there_have_to_be_test_vectors() {
    let error = prepare_test_leaves(Vec::new()).unwrap_err();
    assert_eq!(error, NoTestVectors);
    assert_eq!(error.message(), "No test vectors found");
}

#[test]
fn root_hash_is_canonical() {
    assert_eq!(
        root_hash(&digest(1, GOLDILOCKS_MODULUS + 2, 0, u64::MAX)),
        "1, 2, 0, 4294967294"
    );
}

#[test]
fn report_on_a_tree() {
    let report = report_tree(
        &padded(),
        0,
        &tree(vec![digest(9, 8, 7, 6)], vec![digest(0, 0, 0, 0); 6]),
    );
    assert!(report.success);
    assert_eq!(
        (report.num_leaves, report.padded_size, report.cap_height),
        (3, 4, 0)
    );
    assert_eq!(report.root_hash, "9, 8, 7, 6");
    assert_eq!(report.num_digests, 6);
}

#[test]
fn equal_trees_match() {
    let cpu = tree(
        vec![digest(1, 2, 3, GOLDILOCKS_MODULUS)],
        vec![digest(5, 5, 5, 5)],
    );
    let gpu = tree(vec![digest(1, 2, 3, 0)], vec![digest(5, 5, 5, 5)]);
    assert!(compare_trees(&cpu, &gpu).differences.is_empty());
    let report = report_comparison(&padded(), 0, &cpu, &gpu);
    assert!(report.success && report.matches);
    assert_eq!(report.message, "CPU and GPU results match");
    assert_eq!(report.differences, None);
    assert_eq!(report.digest_mismatches, 0);
    assert_eq!(report.cpu_root_hash, "1, 2, 3, 0");
    assert_eq!(report.gpu_root_hash, "1, 2, 3, 0");
}

#[test]
fn differing_digests_are_told() {
    let cpu = tree(
        vec![digest(1, 2, 3, 4)],
        vec![digest(0, 0, 0, 0), digest(5, 6, 7, 8)],
    );
    let gpu = tree(
        vec![digest(1, 2, 3, 9)],
        vec![digest(0, 0, 0, 0), digest(5, 6, 7, 0)],
    );
    let report = report_comparison(&padded(), 0, &cpu, &gpu);
    assert!(report.success && !report.matches);
    assert_eq!(report.message, "2 differences found");
    assert_eq!(report.digest_mismatches, 1);
    assert_eq!(
        report.differences.unwrap(),
        "Cap[0] mismatch:\n  CPU: [1, 2, 3, 4]\n  GPU: [1, 2, 3, 9]\n\n\
         Digest[1] mismatch:\n  CPU: [5, 6, 7, 8]\n  GPU: [5, 6, 7, 0]"
    );
}

#[test]
fn differing_lengths_are_told() {
    let cpu = tree(vec![digest(1, 1, 1, 1)], vec![digest(2, 2, 2, 2); 2]);
    let gpu = tree(vec![digest(1, 1, 1, 1); 2], vec![digest(2, 2, 2, 2); 14]);
    assert_eq!(
        compare_trees(&cpu, &gpu).differences,
        vec![
            "Cap length mismatch: CPU=1, GPU=2",
            "Digests length mismatch: CPU=2, GPU=14",
        ]
    );
    assert_eq!(compare_trees(&cpu, &gpu).digest_mismatches, 0);
}

#[test]
fn only_the_first_ten_digests_are_told() {
    let cap = vec![digest(1, 1, 1, 1)];
    let cpu = tree(cap.clone(), vec![digest(0, 0, 0, 0); 14]);
    let mut digests = vec![digest(0, 0, 0, 1); 14];
    digests[2] = digest(0, 0, 0, 0);
    let comparison = compare_trees(&cpu, &tree(cap.clone(), digests.clone()));
    assert_eq!(comparison.digest_mismatches, 13);
    let found = comparison.differences;
    assert_eq!(found.len(), 11);
    assert!(found[1].starts_with("Digest[1] mismatch:"));
    assert!(found[2].starts_with("Digest[3] mismatch:"));
    assert!(found[9].starts_with("Digest[10] mismatch:"));
    assert_eq!(found[10], "... and 3 more digest mismatches (total: 13)");
    // Ten of them are told without a remark.
    for i in 10..13 {
        digests[i] = digest(0, 0, 0, 0);
    }
    let comparison = compare_trees(&cpu, &tree(cap, digests));
    assert_eq!(comparison.digest_mismatches, 10);
    let found = comparison.differences;
    assert_eq!(found.len(), 10);
    assert!(found[9].starts_with("Digest[13] mismatch:"));
}

#[test]
fn all_differing_cap_entries_are_told() {
    let cpu = tree(vec![digest(0, 0, 0, 0); 16], Vec::new());
    let gpu = tree(vec![digest(1, 0, 0, 0); 16], Vec::new());
    let comparison = compare_trees(&cpu, &gpu);
    assert_eq!(comparison.digest_mismatches, 0);
    let found = comparison.differences;
    assert_eq!(found.len(), 16);
    assert_eq!(
        found[15],
        "Cap[15] mismatch:\n  CPU: [0, 0, 0, 0]\n  GPU: [1, 0, 0, 0]"
    );
}
