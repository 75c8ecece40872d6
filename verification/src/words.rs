//! The 32-bit word encoding in which field elements and digests travel to and from the GPU.
use crate::chars::writes;
use crate::goldilocks::{
    lemma_same_element, modulus, montgomery_form, to_montgomery_u64, GoldilocksField,
};
use crate::text::{decimal, lemma_decimal_writes, push_usize};
use vstd::arithmetic::div_mod::*;
use vstd::prelude::*;
use vstd::std_specs::cmp::PartialEqSpec;
use vstd::string::*;

verus! {

/// Words per field element.
pub const BIGINT_LIMBS: usize = 2;

/// Field elements per digest.
pub const NUM_HASH_OUT_ELTS: usize = 4;

/// Words per digest.
pub const WORDS_PER_DIGEST: usize = 8;

/// Bytes per digest.
pub const BYTES_PER_DIGEST: usize = 32;

/// Bytes per field element.
pub const BYTES_PER_BIGINT: usize = 8;

/// The number written as a low and a high word.
pub open spec fn words_value(low: u32, high: u32) -> int {
    low as int + high as int * 0x1_0000_0000
}

/// A digest: four field elements.
#[derive(Clone, Copy, Debug)]
pub struct HashOut {
    pub elements: [GoldilocksField; 4],
}

impl View for HashOut {
    type V = Seq<GoldilocksField>;

    open spec fn view(&self) -> Seq<GoldilocksField> {
        self.elements@
    }
}

impl HashOut {
    /// The residues of the four elements.
    pub open spec fn residues(self) -> Seq<int> {
        Seq::new(4, |i: int| self@[i].residue())
    }

    /// The digest of four zero elements.
    pub fn zero() -> (digest: HashOut)
        ensures
            digest@ == Seq::new(4, |i: int| GoldilocksField(0)),
    {
        let elements = [
            GoldilocksField::zero(),
            GoldilocksField::zero(),
            GoldilocksField::zero(),
            GoldilocksField::zero(),
        ];
        HashOut { elements }
    }
}

/// Digests are equal when their elements stand for the same residues.
impl PartialEq for HashOut {
    fn eq(&self, other: &Self) -> (equal: bool) {
        let equal = self.elements[0] == other.elements[0] && self.elements[1] == other.elements[1]
            && self.elements[2] == other.elements[2] && self.elements[3] == other.elements[3];
        proof {
            let (a, b) = (self.residues(), other.residues());
            if equal {
                assert(a =~= b);
            } else {
                assert(a[0] == self@[0].residue() && a[1] == self@[1].residue());
                assert(a[2] == self@[2].residue() && a[3] == self@[3].residue());
            }
        }
        equal
    }
}

impl vstd::std_specs::cmp::PartialEqSpecImpl for HashOut {
    open spec fn obeys_eq_spec() -> bool {
        true
    }

    open spec fn eq_spec(&self, other: &Self) -> bool {
        self.residues() == other.residues()
    }
}

impl Eq for HashOut {

}

/// A digest was to be read from the wrong number of words.
#[derive(Clone, Copy, Debug, PartialEq, Eq, Structural)]
pub struct WordCountError {
    pub got: usize,
}

impl WordCountError {
    /// What the error says.
    pub open spec fn text(self) -> Seq<char> {
        "expected 8 words per digest, got "@ + decimal(self.got as nat)
    }

    /// What the error says.
    pub fn message(&self) -> (message: String)
        ensures
            message@ == self.text(),
    {
        let mut out = String::new();
        out.append("expected 8 words per digest, got ");
        push_usize(&mut out, self.got);
        assert(out@ =~= self.text());
        out
    }
}

/// Splits a number into its low and high word.
pub fn split_words(value: u64) -> (words: [u32; 2])
    ensures
        words_value(words[0], words[1]) == value,
{
    assert((value & 0xFFFF_FFFF) == value % 0x1_0000_0000) by (bit_vector);
    assert((value >> 32) == value / 0x1_0000_0000) by (bit_vector);
    [(value & 0xFFFF_FFFF) as u32, (value >> 32) as u32]
}

/// The words of an element in Montgomery form, low word first.
pub fn field_to_montgomery_words(value: &GoldilocksField) -> (words: [u32; 2])
    ensures
        words_value(words[0], words[1]) == montgomery_form(value.residue()),
{
    let canonical: u64 = value.to_canonical_u64();
    let monty: u64 = to_montgomery_u64(canonical);
    split_words(monty)
}

/// The words of an element in canonical form, low word first.
pub fn field_to_words(value: &GoldilocksField) -> (words: [u32; 2])
    ensures
        words_value(words[0], words[1]) == value.residue(),
{
    let canon: u64 = value.to_canonical_u64();
    split_words(canon)
}

/// Reads an element from its two words.
pub fn words_to_field(words: &[u32; 2]) -> (element: GoldilocksField)
    ensures
        element.0 == words_value(words[0], words[1]),
{
    let low: u64 = words[0] as u64;
    let high: u64 = words[1] as u64;
    assert((high << 32 | low) == high * 0x1_0000_0000 + low) by (bit_vector)
        requires
            low <= 0xFFFF_FFFF,
            high <= 0xFFFF_FFFF,
    ;
    let canon: u64 = high << 32 | low;
    GoldilocksField::from_canonical_u64(canon)
}

/// The elements that a run of words holds.
pub open spec fn words_as_fields(words: Seq<u32>) -> Seq<GoldilocksField> {
    Seq::new(words.len() / 2, |i: int| field_at(words, i))
}

/// Element `i` of a run of words.
pub open spec fn field_at(words: Seq<u32>, i: int) -> GoldilocksField {
    GoldilocksField(words_value(words[2 * i], words[2 * i + 1]) as u64)
}

/// Digest `i` of a run of words.
pub open spec fn digest_at(words: Seq<u32>, i: int) -> HashOut {
    HashOut {
        elements: [
            field_at(words, 4 * i),
            field_at(words, 4 * i + 1),
            field_at(words, 4 * i + 2),
            field_at(words, 4 * i + 3),
        ],
    }
}

/// The digests that a run of words holds.
pub open spec fn words_as_digests(words: Seq<u32>) -> Seq<HashOut> {
    Seq::new(words.len() / 8, |i: int| digest_at(words, i))
}

/// The digests of a run of words hold its elements, four to a digest, in order.
pub proof fn lemma_digest_elements(words: Seq<u32>, i: int, k: int)
    requires
        0 <= i < words_as_digests(words).len(),
        0 <= k < 4,
    ensures
        0 <= 4 * i + k < words_as_fields(words).len(),
        words_as_digests(words)[i]@[k] == words_as_fields(words)[4 * i + k],
{
}

/// Reads a digest from its eight words; any other number of words is an error.
pub fn words_to_hash(words: &[u32]) -> (result: Result<HashOut, WordCountError>)
    ensures
        result == if words@.len() == WORDS_PER_DIGEST {
            Ok::<HashOut, WordCountError>(digest_at(words@, 0))
        } else {
            Err(WordCountError { got: words@.len() as usize })
        },
{
    if words.len() != WORDS_PER_DIGEST {
        return Err(WordCountError { got: words.len() });
    }
    let elements = [
        words_to_field(&[words[0], words[1]]),
        words_to_field(&[words[2], words[3]]),
        words_to_field(&[words[4], words[5]]),
        words_to_field(&[words[6], words[7]]),
    ];
    assert(elements =~= digest_at(words@, 0).elements);
    Ok(HashOut { elements })
}

/// Reads a run of digests. The words have to come in whole digests.
pub fn decode_digests(words: &[u32]) -> (result: Result<Vec<HashOut>, WordCountError>)
    ensures
        words@.len() % 8 != 0 ==> result == Err::<Vec<HashOut>, WordCountError>(
            WordCountError { got: (words@.len() % 8) as usize },
        ),
        words@.len() % 8 == 0 ==> (result matches Ok(digests) && digests@ == words_as_digests(
            words@,
        )),
{
    let mut digests: Vec<HashOut> = Vec::new();
    let mut start: usize = 0;
    while words.len() - start >= WORDS_PER_DIGEST
        invariant
            start == 8 * digests@.len(),
            start <= words@.len(),
            forall|i: int|
                0 <= i < digests@.len() ==> #[trigger] digests@[i] == digest_at(words@, i),
        decreases words@.len() - start,
    {
        let chunk = vstd::slice::slice_subrange(words, start, start + 8);
        let digest = words_to_hash(chunk)?;
        proof {
            let i = digests@.len() as int;
            assert forall|k: int| 0 <= k < 4 implies #[trigger] field_at(chunk@, k) == field_at(
                words@,
                4 * i + k,
            ) by {}
            assert(digest_at(chunk@, 0).elements =~= digest_at(words@, i).elements);
        }
        digests.push(digest);
        start = start + 8;
    }
    if start < words.len() {
        match words_to_hash(vstd::slice::slice_subrange(words, start, words.len())) {
            Ok(_) => {},
            Err(error) => return Err(error),
        }
    }
    Ok(digests)
}

/// The low word of a number below `2^64`.
pub open spec fn low_word(value: int) -> u32 {
    (value % 0x1_0000_0000) as u32
}

/// The high word of a number below `2^64`.
pub open spec fn high_word(value: int) -> u32 {
    (value / 0x1_0000_0000) as u32
}

/// The words of a run of numbers, two for each, the low one first.
pub open spec fn number_words(numbers: Seq<int>) -> Seq<u32> {
    Seq::new(
        2 * numbers.len(),
        |i: int|
            if i % 2 == 0 {
                low_word(numbers[i / 2])
            } else {
                high_word(numbers[i / 2])
            },
    )
}

/// The residues of a run of elements.
pub open spec fn residues(values: Seq<GoldilocksField>) -> Seq<int> {
    values.map_values(|value: GoldilocksField| value.residue())
}

/// The Montgomery forms of a run of elements.
pub open spec fn montgomery_forms(values: Seq<GoldilocksField>) -> Seq<int> {
    values.map_values(|value: GoldilocksField| montgomery_form(value.residue()))
}

/// A number is told by its two words: it is the low one, plus `2^32` times the high one.
pub proof fn lemma_words_of_value(low: u32, high: u32)
    ensures
        words_value(low, high) == low + 0x1_0000_0000 * high,
        low_word(words_value(low, high)) == low,
        high_word(words_value(low, high)) == high,
{
}

/// Reading back the words of a run of elements gives the same residues, each in canonical form.
pub proof fn lemma_field_words_round_trip(values: Seq<GoldilocksField>)
    ensures
        ({
            let read = words_as_fields(number_words(residues(values)));
            &&& read.len() == values.len()
            &&& residues(read) == residues(values)
            &&& forall|i: int| 0 <= i < read.len() ==> (#[trigger] read[i]).0 == values[i].residue()
        }),
{
    let numbers = residues(values);
    let words = number_words(numbers);
    let read = words_as_fields(words);
    assert(read.len() == values.len());
    assert forall|i: int| 0 <= i < values.len() implies (#[trigger] read[i]).0
        == values[i].residue() && read[i].residue() == values[i].residue() by {
        let r = values[i].residue();
        assert(numbers[i] == r);
        lemma_mod_bound(values[i].0 as int, modulus());
        assert((2 * i) / 2 == i && (2 * i + 1) / 2 == i);
        assert(words[2 * i] == low_word(r));
        assert(words[2 * i + 1] == high_word(r));
        lemma_small_mod(r as nat, modulus() as nat);
    }
    assert(residues(read) =~= residues(values));
}

/// The words of all elements in Montgomery form, one element after the other.
pub fn fields_to_montgomery_words(values: &[GoldilocksField]) -> (out: Vec<u32>)
    ensures
        out@ == number_words(montgomery_forms(values@)),
{
    let mut out: Vec<u32> = Vec::new();
    let mut i: usize = 0;
    let ghost expected = number_words(montgomery_forms(values@));
    while i < values.len()
        invariant
            i <= values@.len(),
            expected == number_words(montgomery_forms(values@)),
            out@ =~= expected.take(2 * i),
        decreases values@.len() - i,
    {
        let words = field_to_montgomery_words(&values[i]);
        proof {
            lemma_words_of_value(words[0], words[1]);
            assert((2 * i) / 2 == i && (2 * i + 1) / 2 == i as int);
        }
        out.push(words[0]);
        out.push(words[1]);
        i = i + 1;
    }
    out
}

/// The words of all elements in canonical form, one element after the other.
pub fn fields_to_words(values: &[GoldilocksField]) -> (out: Vec<u32>)
    ensures
        out@ == number_words(residues(values@)),
{
    let mut out: Vec<u32> = Vec::new();
    let mut i: usize = 0;
    let ghost expected = number_words(residues(values@));
    while i < values.len()
        invariant
            i <= values@.len(),
            expected == number_words(residues(values@)),
            out@ =~= expected.take(2 * i),
        decreases values@.len() - i,
    {
        let words = field_to_words(&values[i]);
        proof {
            lemma_words_of_value(words[0], words[1]);
            assert((2 * i) / 2 == i && (2 * i + 1) / 2 == i as int);
        }
        out.push(words[0]);
        out.push(words[1]);
        i = i + 1;
    }
    out
}

/// The two words of element `i` of a run, the low one first, make up its value modulo the field
/// order; in Montgomery form, `2^64` times that value.
pub proof fn lemma_words_of_elements(values: Seq<GoldilocksField>, i: int)
    requires
        0 <= i < values.len(),
    ensures
        number_words(residues(values)).len() == 2 * values.len(),
        number_words(residues(values))[2 * i] + 0x1_0000_0000 * number_words(residues(values))[2
            * i + 1] == values[i].0 as int % 0xFFFF_FFFF_0000_0001,
        number_words(montgomery_forms(values)).len() == 2 * values.len(),
        number_words(montgomery_forms(values))[2 * i] + 0x1_0000_0000 * number_words(
            montgomery_forms(values),
        )[2 * i + 1] == (values[i].0 as int * 0x1_0000_0000_0000_0000) % 0xFFFF_FFFF_0000_0001,
{
    let p: int = 0xFFFF_FFFF_0000_0001;
    let v = values[i].0 as int;
    assert((2 * i) / 2 == i && (2 * i + 1) / 2 == i && (2 * i) % 2 == 0 && (2 * i + 1) % 2 == 1);
    lemma_mod_bound(v, p);
    lemma_two_words(v % p);
    lemma_mul_mod_noop_left(v, 0x1_0000_0000_0000_0000, p);
    lemma_mod_bound(v * 0x1_0000_0000_0000_0000, p);
    lemma_two_words((v * 0x1_0000_0000_0000_0000) % p);
    assert(residues(values)[i] == v % p);
    assert(montgomery_forms(values)[i] == (v * 0x1_0000_0000_0000_0000) % p);
}

/// A number below `2^64` is made up of its two words.
proof fn lemma_two_words(value: int)
    requires
        0 <= value < 0x1_0000_0000_0000_0000,
    ensures
        low_word(value) + 0x1_0000_0000 * high_word(value) == value,
{
}

/// Element `k` of digest `i` is made up of words `8 i + 2 k` and `8 i + 2 k + 1`, the low one
/// first.
pub proof fn lemma_digest_from_words(words: Seq<u32>, i: int, k: int)
    requires
        0 <= i,
        8 * i + 8 <= words.len(),
        0 <= k < 4,
    ensures
        words_as_digests(words).len() == words.len() / 8,
        words_as_digests(words)[i]@[k].0 == words[8 * i + 2 * k] + 0x1_0000_0000 * words[8 * i + 2
            * k + 1],
{
    assert(words_as_digests(words)[i]@[k] == field_at(words, 4 * i + k));
}

/// Digests are equal just where each of the four pairs of elements differs by a multiple of the
/// field order.
pub proof fn lemma_same_digest(a: HashOut, b: HashOut)
    ensures
        a.eq_spec(&b) <==> forall|k: int|
            0 <= k < 4 ==> (#[trigger] a@[k].0 - b@[k].0) % 0xFFFF_FFFF_0000_0001 == 0,
        a.residues() == b.residues() <==> forall|k: int|
            0 <= k < 4 ==> (#[trigger] a@[k].0 - b@[k].0) % 0xFFFF_FFFF_0000_0001 == 0,
        a.residues().len() == 4,
{
    assert forall|k: int| 0 <= k < 4 implies (a.residues()[k] == b.residues()[k] <==> (
    #[trigger] a@[k].0 - b@[k].0) % 0xFFFF_FFFF_0000_0001 == 0) by {
        lemma_same_element(a@[k], b@[k]);
    }
    if forall|k: int| 0 <= k < 4 ==> (#[trigger] a@[k].0 - b@[k].0) % 0xFFFF_FFFF_0000_0001 == 0 {
        assert forall|k: int| 0 <= k < 4 implies a.residues()[k] == b.residues()[k] by {
            assert((a@[k].0 - b@[k].0) % 0xFFFF_FFFF_0000_0001 == 0);
        }
        assert(a.residues() =~= b.residues());
    }
}

/// What the error says can be read back: the number of words stands in it in decimal digits.
pub proof fn lemma_word_count_readable(error: WordCountError)
    ensures
        exists|count: Seq<char>| #[trigger]
            writes(count, error.got as int) && error.text() == "expected 8 words per digest, got "@
                + count,
{
    lemma_decimal_writes(error.got as nat);
}

} // verus!
