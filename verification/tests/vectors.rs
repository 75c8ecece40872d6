use merkle_gpu::binary::{binary_shape, parse_binary_test_vectors, BinaryShape};
use merkle_gpu::chars::{find, parse_u64, split_on, trim};
use merkle_gpu::goldilocks::GoldilocksField;
use merkle_gpu::padding::{pad_leaves, padded_size};
use merkle_gpu::vectors::{get_test_vector_count, parse_test_vectors_from_str};

fn raw(vectors: &[Vec<GoldilocksField>]) -> Vec<Vec<u64>> {
    vectors
        .iter()
        .map(|vector| vector.iter().map(|e| e.0).collect())
        .collect()
}

fn parsed(text: &str) -> Vec<Vec<u64>> {
    raw(&parse_test_vectors_from_str(text))
}

fn chars(text: &str) -> Vec<char> {
    text.chars().collect()
}

#[test]
fn lists_of_numbers() {
    assert_eq!(parsed("[[1, 2], [3, 4]]"), vec![vec![1, 2], vec![3, 4]]);
    assert_eq!(parsed("[[7]]"), vec![vec![7]]);
    assert_eq!(
        parsed("[[18446744073709551615, 0]]"),
        vec![vec![u64::MAX, 0]]
    );
}

#[test]
fn white_space_around_text_and_numbers() {
    assert_eq!(parsed("\n  [[ 1,2 ,\t3], [4]]\r\n"), vec![vec![1, 2, 3], vec![4]]);
    assert_eq!(parsed("\u{a0}[[1]]\u{3000}"), vec![vec![1]]);
}

#[test]
fn text_that_is_not_bracketed_holds_nothing() {
    for text in ["", "   ", "[", "[[", "]]", "[1, 2]", "[[1, 2]", "[1], [2]]", "[]]"] {
        assert!(parsed(text).is_empty(), "{:?}", text);
    }
}

#[test]
fn lists_with_anything_but_numbers_are_skipped() {
    assert_eq!(parsed("[[1, x], [2]]"), vec![vec![2]]);
    assert_eq!(parsed("[[1, -2], [3], [1.5]]"), vec![vec![3]]);
    assert_eq!(parsed("[[1, ], [2]]"), vec![vec![2]]);
    assert_eq!(parsed("[[18446744073709551616], [5]]"), vec![vec![5]]);
    assert!(parsed("[[]]").is_empty());
}

#[test]
fn lists_are_told_apart_by_bracket_comma_space_bracket() {
    // Without the space the separator is not there, so the list holds brackets.
    assert!(parsed("[[1],[2]]").is_empty());
    assert_eq!(parsed("[[1], [2], [3]]").len(), 3);
}

#[test]
fn a_plus_sign_is_part_of_a_number() {
    assert_eq!(parsed("[[+5, 006]]"), vec![vec![5, 6]]);
    assert!(parsed("[[+]]").is_empty());
    assert!(parsed("[[++1]]").is_empty());
}

#[test]
fn text_round_trip() {
    let vectors = vec![vec![0u64, 10, u64::MAX], vec![3], vec![1, 2, 3, 4]];
    let lists: Vec<String> = vectors
        .iter()
        .map(|v| {
            let numbers: Vec<String> = v.iter().map(|n| n.to_string()).collect();
            numbers.join(", ")
        })
        .collect();
    let text = format!("[[{}]]", lists.join("], ["));
    assert_eq!(parsed(&text), vectors);
}

#[test]
fn counting_vectors() {
    assert_eq!(get_test_vector_count("[[1, 2], [3, 4], [5]]"), 3);
    assert_eq!(get_test_vector_count("[[1, 2], [a], [5]]"), 2);
    assert_eq!(get_test_vector_count("nothing"), 0);
}

#[test]
fn trimming_and_splitting() {
    assert_eq!(trim(&chars("  a b ")), chars("a b").as_slice());
    assert_eq!(trim(&chars(" \t ")), chars("").as_slice());
    assert_eq!(find(&chars("abcabc"), &chars("ca")), Some(2));
    assert_eq!(find(&chars("abc"), &chars("x")), None);
    assert_eq!(find(&chars("ab"), &chars("abc")), None);
    let text = chars("a,,b,");
    let pieces = split_on(&text, &[',']);
    let pieces: Vec<String> = pieces.iter().map(|p| p.iter().collect()).collect();
    assert_eq!(pieces, vec!["a", "", "b", ""]);
}

#[test]
fn reading_numbers() {
    assert_eq!(parse_u64(&chars("0")), Some(0));
    assert_eq!(parse_u64(&chars("18446744073709551615")), Some(u64::MAX));
    assert_eq!(parse_u64(&chars("18446744073709551616")), None);
    assert_eq!(parse_u64(&chars("99999999999999999999999")), None);
    assert_eq!(parse_u64(&chars("")), None);
    assert_eq!(parse_u64(&chars("12a")), None);
    assert_eq!(parse_u64(&chars("-1")), None);
}

#[test]
fn bytes_come_least_significant_first() {
    let data = [1u8, 2, 3, 4, 5, 6, 7, 8, 0xFF, 0xFF, 0xFF, 0xFF, 0xFF, 0xFF, 0xFF, 0xFF];
    assert_eq!(
        raw(&parse_binary_test_vectors(&data, 2)),
        vec![vec![0x0807_0605_0403_0201, u64::MAX]]
    );
}

#[test]
fn what_is_left_over_makes_no_leaf() {
    let mut data: Vec<u8> = (1u64..=7).flat_map(|n| n.to_le_bytes()).collect();
    data.extend_from_slice(&[9, 9, 9]);
    assert_eq!(
        raw(&parse_binary_test_vectors(&data, 3)),
        vec![vec![1, 2, 3], vec![4, 5, 6]]
    );
    assert_eq!(
        binary_shape(data.len(), 3),
        BinaryShape {
            total_elements: 7,
            leaves: 2,
            leftover_bytes: 3,
            leftover_elements: 1,
        }
    );
    assert!(parse_binary_test_vectors(&data, 8).is_empty());
    assert!(parse_binary_test_vectors(&[], 1).is_empty());
}

#[test]
fn binary_round_trip() {
    let leaves = vec![vec![0u64, 1], vec![u64::MAX, 0x0102_0304_0506_0708]];
    let data: Vec<u8> = leaves.iter().flatten().flat_map(|n| n.to_le_bytes()).collect();
    assert_eq!(raw(&parse_binary_test_vectors(&data, 2)), leaves);
}

#[test]
fn shape_of_the_benchmark_data() {
    assert_eq!(
        binary_shape(360_710_144, 86),
        BinaryShape {
            total_elements: 45_088_768,
            leaves: 524_288,
            leftover_bytes: 0,
            leftover_elements: 0,
        }
    );
}

#[test]
fn padded_sizes() {
    for (count, log2, size) in [
        (0usize, 0usize, 1usize),
        (1, 0, 1),
        (2, 1, 2),
        (3, 2, 4),
        (4, 2, 4),
        (5, 3, 8),
        (1025, 11, 2048),
        (524_288, 19, 524_288),
    ] {
        assert_eq!(padded_size(count), (log2, size));
    }
}

#[test]
fn padding_keeps_the_leaves_and_adds_zeros() {
    let leaves = vec![
        vec![GoldilocksField(1), GoldilocksField(2)],
        vec![GoldilocksField(3)],
        vec![GoldilocksField(4)],
    ];
    let padded = pad_leaves(leaves, 2);
    assert_eq!((padded.num_leaves, padded.log2_leaves, padded.padded_size), (3, 2, 4));
    assert_eq!(
        raw(&padded.leaves),
        vec![vec![1, 2], vec![3], vec![4], vec![0, 0]]
    );
    let full = pad_leaves(padded.leaves, 9);
    assert_eq!((full.num_leaves, full.padded_size, full.leaves.len()), (4, 4, 4));
}
