//! Test vectors as raw bytes: 64-bit numbers, least significant byte first.
use crate::goldilocks::GoldilocksField;
use crate::vectors::{leaf_values, raw_values};
use vstd::arithmetic::div_mod::*;
use vstd::prelude::*;

verus! {

/// Elements in a leaf of the benchmark.
pub const BINARY_LEAF_WIDTH: usize = 86;

/// The 64-bit number at `at`, least significant byte first.
pub open spec fn le_u64(data: Seq<u8>, at: int) -> int {
    data[at] + data[at + 1] * 0x100 + data[at + 2] * 0x1_0000 + data[at + 3] * 0x100_0000 + data[at
        + 4] * 0x1_0000_0000 + data[at + 5] * 0x100_0000_0000 + data[at + 6] * 0x1_0000_0000_0000
        + data[at + 7] * 0x100_0000_0000_0000
}

/// Reads the 64-bit number at `at`, least significant byte first.
fn read_u64_le(data: &[u8], at: usize) -> (value: u64)
    requires
        at + 8 <= data@.len(),
    ensures
        value == le_u64(data@, at as int),
{
    assert(data.len() == data@.len());
    data[at] as u64 + data[at + 1] as u64 * 0x100 + data[at + 2] as u64 * 0x1_0000 + data[at
        + 3] as u64 * 0x100_0000 + data[at + 4] as u64 * 0x1_0000_0000 + data[at + 5] as u64
        * 0x100_0000_0000 + data[at + 6] as u64 * 0x1_0000_0000_0000 + data[at + 7] as u64
        * 0x100_0000_0000_0000
}

/// How raw bytes divide into leaves.
#[derive(Clone, Copy, Debug, PartialEq, Eq, Structural)]
pub struct BinaryShape {
    /// Whole elements.
    pub total_elements: usize,
    /// Whole leaves.
    pub leaves: usize,
    /// Bytes after the last whole element.
    pub leftover_bytes: usize,
    /// Elements after the last whole leaf.
    pub leftover_elements: usize,
}

/// How `len` bytes divide into leaves of `elems_per_leaf` elements of eight bytes.
pub fn binary_shape(len: usize, elems_per_leaf: usize) -> (shape: BinaryShape)
    requires
        elems_per_leaf > 0,
    ensures
        shape.total_elements == len / 8,
        shape.leftover_bytes == len % 8,
        shape.leaves == (len / 8) / elems_per_leaf,
        shape.leftover_elements == (len / 8) % elems_per_leaf,
{
    let total_elements: usize = len / 8;
    BinaryShape {
        total_elements,
        leaves: total_elements / elems_per_leaf,
        leftover_bytes: len % 8,
        leftover_elements: total_elements % elems_per_leaf,
    }
}

/// The leaves that raw bytes hold: 64-bit numbers, least significant byte first, `elems_per_leaf`
/// to a leaf. What is left over at the end makes no leaf.
pub open spec fn binary_vectors(data: Seq<u8>, elems_per_leaf: nat) -> Seq<Seq<u64>> {
    Seq::new(
        data.len() / 8 / elems_per_leaf,
        |l: int|
            Seq::new(elems_per_leaf, |e: int| le_u64(data, 8 * (l * elems_per_leaf + e)) as u64),
    )
}

/// Element `e` of leaf `l` lies within the bytes.
proof fn lemma_element_in_data(len: int, elems_per_leaf: int, l: int, e: int)
    requires
        len >= 0,
        elems_per_leaf > 0,
        0 <= l < len / 8 / elems_per_leaf,
        0 <= e < elems_per_leaf,
    ensures
        0 <= l * elems_per_leaf,
        l * elems_per_leaf + e < len / 8,
{
    let total = len / 8;
    let leaves = total / elems_per_leaf;
    lemma_fundamental_div_mod(total, elems_per_leaf);
    lemma_mod_bound(total, elems_per_leaf);
    assert(0 <= l * elems_per_leaf && l * elems_per_leaf + elems_per_leaf <= elems_per_leaf
        * leaves) by (nonlinear_arith)
        requires
            0 <= l < leaves,
            elems_per_leaf > 0,
    ;
}

/// Reads leaves from raw bytes.
pub fn parse_binary_test_vectors(data: &[u8], elems_per_leaf: usize) -> (leaves: Vec<
    Vec<GoldilocksField>,
>)
    requires
        elems_per_leaf > 0,
    ensures
        leaf_values(leaves@) == binary_vectors(data@, elems_per_leaf as nat),
{
    let shape = binary_shape(data.len(), elems_per_leaf);
    let ghost expected = binary_vectors(data@, elems_per_leaf as nat);
    let mut leaves: Vec<Vec<GoldilocksField>> = Vec::new();
    assert(leaf_values(leaves@) =~= expected.take(0));
    while leaves.len() < shape.leaves
        invariant
            elems_per_leaf > 0,
            shape.leaves == (data@.len() / 8) / elems_per_leaf as nat,
            expected == binary_vectors(data@, elems_per_leaf as nat),
            expected.len() == shape.leaves,
            leaves@.len() <= shape.leaves,
            leaf_values(leaves@) == expected.take(leaves@.len() as int),
        decreases shape.leaves - leaves@.len(),
    {
        let l: usize = leaves.len();
        let mut leaf: Vec<GoldilocksField> = Vec::new();
        while leaf.len() < elems_per_leaf
            invariant
                l < shape.leaves,
                shape.leaves == (data@.len() / 8) / elems_per_leaf as nat,
                expected == binary_vectors(data@, elems_per_leaf as nat),
                leaf@.len() <= elems_per_leaf,
                forall|e: int|
                    0 <= e < leaf@.len() ==> (#[trigger] leaf@[e]).0 == expected[l as int][e],
            decreases elems_per_leaf - leaf@.len(),
        {
            proof {
                lemma_element_in_data(
                    data@.len() as int,
                    elems_per_leaf as int,
                    l as int,
                    leaf@.len() as int,
                );
                assert(data.len() == data@.len());
            }
            let at: usize = (l * elems_per_leaf + leaf.len()) * 8;
            let value: u64 = read_u64_le(data, at);
            leaf.push(GoldilocksField::from_canonical_u64(value));
        }
        let ghost before = leaf_values(leaves@);
        let ghost values = raw_values(leaf@);
        assert(values =~= expected[l as int]);
        leaves.push(leaf);
        assert(leaf_values(leaves@) =~= before.push(values));
        assert(expected.take(l + 1) =~= expected.take(l as int).push(expected[l as int]));
    }
    assert(expected.take(expected.len() as int) =~= expected);
    leaves
}

/// Reads the leaves of the benchmark from raw bytes.
pub fn parse_test_vectors_binary(data: &[u8]) -> (leaves: Vec<Vec<GoldilocksField>>)
    ensures
        leaf_values(leaves@) == binary_vectors(data@, BINARY_LEAF_WIDTH as nat),
{
    parse_binary_test_vectors(data, BINARY_LEAF_WIDTH)
}

/// Byte `k` of a 64-bit number, counted from the least significant one.
pub open spec fn le_byte(value: u64, k: int) -> u8 {
    if k == 0 {
        (value % 0x100) as u8
    } else if k == 1 {
        (value / 0x100 % 0x100) as u8
    } else if k == 2 {
        (value / 0x1_0000 % 0x100) as u8
    } else if k == 3 {
        (value / 0x100_0000 % 0x100) as u8
    } else if k == 4 {
        (value / 0x1_0000_0000 % 0x100) as u8
    } else if k == 5 {
        (value / 0x100_0000_0000 % 0x100) as u8
    } else if k == 6 {
        (value / 0x1_0000_0000_0000 % 0x100) as u8
    } else {
        (value / 0x100_0000_0000_0000 % 0x100) as u8
    }
}

/// The bytes of a number add up to it.
proof fn lemma_le_bytes(value: u64)
    ensures
        value == le_byte(value, 0) + le_byte(value, 1) * 0x100 + le_byte(value, 2) * 0x1_0000
            + le_byte(value, 3) * 0x100_0000 + le_byte(value, 4) * 0x1_0000_0000 + le_byte(value, 5)
            * 0x100_0000_0000 + le_byte(value, 6) * 0x1_0000_0000_0000 + le_byte(value, 7)
            * 0x100_0000_0000_0000,
{
    let q1 = value / 0x100;
    let q2 = value / 0x1_0000;
    let q3 = value / 0x100_0000;
    let q4 = value / 0x1_0000_0000;
    let q5 = value / 0x100_0000_0000;
    let q6 = value / 0x1_0000_0000_0000;
    let q7 = value / 0x100_0000_0000_0000;
    assert(q2 == q1 / 0x100);
    assert(q3 == q2 / 0x100);
    assert(q4 == q3 / 0x100);
    assert(q5 == q4 / 0x100);
    assert(q6 == q5 / 0x100);
    assert(q7 == q6 / 0x100);
    assert(q7 < 0x100);
}

/// Leaves of `elems_per_leaf` elements as raw bytes.
pub open spec fn vectors_binary(leaves: Seq<Seq<u64>>, elems_per_leaf: nat) -> Seq<u8> {
    Seq::new(
        8 * (leaves.len() * elems_per_leaf),
        |i: int|
            le_byte(
                leaves[i / 8 / elems_per_leaf as int][i / 8 % elems_per_leaf as int],
                i % 8,
            ),
    )
}

/// Element `e` of leaf `l` stands among the raw bytes of the leaves.
proof fn lemma_encoded_element(leaves: Seq<Seq<u64>>, elems_per_leaf: nat, l: int, e: int)
    requires
        0 <= l < leaves.len(),
        0 <= e < elems_per_leaf,
        0 <= l * elems_per_leaf,
        l * elems_per_leaf + e < leaves.len() * elems_per_leaf,
    ensures
        le_u64(vectors_binary(leaves, elems_per_leaf), 8 * (l * elems_per_leaf + e))
            == leaves[l][e],
{
    let data = vectors_binary(leaves, elems_per_leaf);
    let at = l * elems_per_leaf + e;
    let value = leaves[l][e];
    lemma_fundamental_div_mod_converse(at, elems_per_leaf as int, l, e);
    assert forall|k: int| 0 <= k < 8 implies data[#[trigger] (8 * at + k)] == le_byte(value, k) by {
        let i = 8 * at + k;
        assert(i / 8 == at && i % 8 == k);
    }
    assert(data[8 * at + 0] == le_byte(value, 0));
    lemma_le_bytes(value);
}

/// Reading leaves back from their raw bytes gives the same leaves.
pub proof fn lemma_binary_round_trip(leaves: Seq<Seq<u64>>, elems_per_leaf: nat)
    requires
        elems_per_leaf > 0,
        forall|i: int| 0 <= i < leaves.len() ==> (#[trigger] leaves[i]).len() == elems_per_leaf,
    ensures
        binary_vectors(vectors_binary(leaves, elems_per_leaf), elems_per_leaf) == leaves,
{
    let data = vectors_binary(leaves, elems_per_leaf);
    let read = binary_vectors(data, elems_per_leaf);
    let total = (leaves.len() * elems_per_leaf) as int;
    let width = elems_per_leaf as int;
    assert(data.len() / 8 == total);
    lemma_div_by_multiple(leaves.len() as int, width);
    assert(read.len() == leaves.len());
    assert forall|l: int| 0 <= l < leaves.len() implies #[trigger] read[l] == leaves[l] by {
        assert forall|e: int| 0 <= e < width implies read[l][e] == leaves[l][e] by {
            let at = l * width + e;
            lemma_element_in_data(data.len() as int, width, l, e);
            lemma_fundamental_div_mod_converse(at, width, l, e);
            lemma_encoded_element(leaves, elems_per_leaf, l, e);
        }
        assert(read[l] =~= leaves[l]);
    }
    assert(read =~= leaves);
}

/// Raw bytes divide into leaves from the start: as many as there are bytes for, eight to an
/// element; and each element is its eight bytes, the least significant one first.
pub proof fn lemma_leaves_from_bytes(data: Seq<u8>, elems_per_leaf: nat, l: int, e: int)
    requires
        elems_per_leaf > 0,
    ensures
        ({
            let leaves = binary_vectors(data, elems_per_leaf);
            &&& 8 * elems_per_leaf * leaves.len() <= data.len() < 8 * elems_per_leaf * (
            leaves.len() + 1)
            &&& 0 <= l < leaves.len() ==> leaves[l].len() == elems_per_leaf
            &&& 0 <= l < leaves.len() && 0 <= e < elems_per_leaf ==> {
                let at = 8 * (l * elems_per_leaf + e);
                &&& 0 <= at <= data.len() - 8
                &&& leaves[l][e] as int == data[at] + 0x100 * data[at + 1] + 0x1_0000 * data[at + 2]
                    + 0x100_0000 * data[at + 3] + 0x1_0000_0000 * data[at + 4] + 0x100_0000_0000
                    * data[at + 5] + 0x1_0000_0000_0000 * data[at + 6] + 0x100_0000_0000_0000
                    * data[at + 7]
            }
        }),
{
    let leaves = binary_vectors(data, elems_per_leaf);
    let total = data.len() as int / 8;
    let w = elems_per_leaf as int;
    lemma_fundamental_div_mod(total, w);
    lemma_mod_bound(total, w);
    let count = leaves.len() as int;
    assert(8 * w * count == 8 * (w * count)) by (nonlinear_arith);
    assert(8 * w * (count + 1) == 8 * (w * count) + 8 * w) by (nonlinear_arith);
    if 0 <= l < count && 0 <= e < w {
        lemma_element_in_data(data.len() as int, w, l, e);
    }
}

} // verus!
