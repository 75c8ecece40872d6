//! Words and numbers as the raw bytes that GPU buffers hold.
use vstd::prelude::*;

verus! {

/// Byte `k` of a number, counted from the least significant one.
pub open spec fn byte_at(value: int, k: int) -> int {
    if k == 0 {
        value % 0x100
    } else if k == 1 {
        (value / 0x100) % 0x100
    } else if k == 2 {
        (value / 0x1_0000) % 0x100
    } else {
        (value / 0x100_0000) % 0x100
    }
}

/// `bytes` hold the words one after the other, the least significant byte of each first.
pub open spec fn little_endian(bytes: Seq<u8>, words: Seq<u32>) -> bool {
    &&& bytes.len() == 4 * words.len()
    &&& forall|i: int, k: int|
        #![trigger bytes[4 * i + k]]
        0 <= i < words.len() && 0 <= k < 4 ==> bytes[4 * i + k] == byte_at(words[i] as int, k)
}

/// `bytes` hold the words one after the other, the most significant byte of each first.
pub open spec fn big_endian(bytes: Seq<u8>, words: Seq<u32>) -> bool {
    &&& bytes.len() == 4 * words.len()
    &&& forall|i: int, k: int|
        #![trigger bytes[4 * i + k]]
        0 <= i < words.len() && 0 <= k < 4 ==> bytes[4 * i + k] == byte_at(words[i] as int, 3 - k)
}

/// `bytes` are the words as some machine lays them out in memory.
pub open spec fn bytes_hold(bytes: Seq<u8>, words: Seq<u32>) -> bool {
    little_endian(bytes, words) || big_endian(bytes, words)
}

/// A word is told by its four bytes.
proof fn lemma_word_of_bytes(a: u32, b: u32)
    requires
        forall|k: int| 0 <= k < 4 ==> #[trigger] byte_at(a as int, k) == byte_at(b as int, k),
    ensures
        a == b,
{
    assert(byte_at(a as int, 0) == byte_at(b as int, 0));
    assert(byte_at(a as int, 1) == byte_at(b as int, 1));
    assert(byte_at(a as int, 2) == byte_at(b as int, 2));
    assert(byte_at(a as int, 3) == byte_at(b as int, 3));
}

/// Bytes that are read in the byte order in which they were written give back the words.
pub proof fn lemma_bytes_round_trip(bytes: Seq<u8>, written: Seq<u32>, read: Seq<u32>)
    requires
        ({
            ||| little_endian(bytes, written) && little_endian(bytes, read)
            ||| big_endian(bytes, written) && big_endian(bytes, read)
        }),
    ensures
        read == written,
{
    assert forall|i: int| 0 <= i < written.len() implies #[trigger] read[i] == written[i] by {
        assert forall|k: int| 0 <= k < 4 implies #[trigger] byte_at(read[i] as int, k) == byte_at(
            written[i] as int,
            k,
        ) by {
            if little_endian(bytes, written) && little_endian(bytes, read) {
                assert(bytes[4 * i + k] == byte_at(written[i] as int, k));
            } else {
                assert(bytes[4 * i + (3 - k)] == byte_at(written[i] as int, 3 - (3 - k)));
            }
        }
        lemma_word_of_bytes(read[i], written[i]);
    }
    assert(read =~= written);
}

/// `bytemuck::cast_slice` from words to bytes, copied out. It re-reads the memory of the words,
/// so every word gives four bytes, in the byte order of the machine, one order for all words.
/// Which of the two orders it is, is not stated: it is the machine's.
#[verifier::external_body]
fn cast_words(words: &[u32]) -> (bytes: Vec<u8>)
    ensures
        bytes_hold(bytes@, words@),
{
    bytemuck::cast_slice::<u32, u8>(words).to_vec()
}

/// `bytemuck::bytes_of` for a signed word, copied out: the four bytes of its two's complement, in
/// the byte order of the machine. Which order it is, is not stated: it is the machine's.
#[verifier::external_body]
fn cast_i32(value: &i32) -> (bytes: Vec<u8>)
    ensures
        bytes_hold(bytes@, seq![*value as u32]),
{
    bytemuck::bytes_of::<i32>(value).to_vec()
}

/// `bytemuck::pod_collect_to_vec` from bytes to words. It copies the bytes, wherever they lie, into
/// fresh words, in the byte order of the machine, one order for all words. Which of the two orders
/// it is, is not stated: it is the machine's. Bytes that do not make whole words are left out.
#[verifier::external_body]
fn collect_words(bytes: &[u8]) -> (words: Vec<u32>)
    requires
        bytes@.len() % 4 == 0,
    ensures
        bytes_hold(bytes@, words@),
{
    bytemuck::pod_collect_to_vec::<u8, u32>(bytes)
}

/// Of words that end in a one, the bytes tell their order.
proof fn lemma_marked_bytes(bytes: Seq<u8>, words: Seq<u32>)
    requires
        bytes_hold(bytes, words),
        words.len() > 0,
        words.last() == 1,
    ensures
        bytes[bytes.len() - 4] == 1 ==> little_endian(bytes, words),
        bytes[bytes.len() - 4] != 1 ==> big_endian(bytes, words),
{
    let last = words.len() - 1;
    assert(bytes.len() - 4 == 4 * last + 0);
    assert(words[last] == 1);
    if little_endian(bytes, words) {
        assert(bytes[4 * last + 0] == byte_at(1, 0));
    } else {
        assert(bytes[4 * last + 0] == byte_at(1, 3));
    }
}

/// Of bytes that end in those of a one, least significant byte first, the words tell their order.
proof fn lemma_marked_words(bytes: Seq<u8>, words: Seq<u32>)
    requires
        bytes_hold(bytes, words),
        words.len() > 0,
        bytes[bytes.len() - 4] == 1,
        bytes[bytes.len() - 3] == 0,
        bytes[bytes.len() - 2] == 0,
        bytes[bytes.len() - 1] == 0,
    ensures
        words.last() == 1 ==> little_endian(bytes, words),
        words.last() != 1 ==> big_endian(bytes, words),
{
    let last = words.len() - 1;
    let word = words[last] as int;
    assert(bytes[4 * last + 0] == 1 && bytes[4 * last + 1] == 0);
    assert(bytes[4 * last + 2] == 0 && bytes[4 * last + 3] == 0);
    if little_endian(bytes, words) {
        assert(byte_at(word, 0) == 1 && byte_at(word, 1) == 0);
        assert(byte_at(word, 2) == 0 && byte_at(word, 3) == 0);
        assert(word == 1);
    } else {
        assert(byte_at(word, 3) == 1);
    }
}

/// The bytes of a run of words, the least significant byte of each first: the order in which GPU
/// buffers hold them.
pub fn words_to_bytes(words: &[u32]) -> (bytes: Vec<u8>)
    ensures
        bytes_hold(bytes@, words@),
        little_endian(bytes@, words@),
        bytes@.len() == 4 * words@.len(),
{
    let mut marked: Vec<u32> = Vec::new();
    while marked.len() < words.len()
        invariant
            marked@.len() <= words@.len(),
            marked@ == words@.take(marked@.len() as int),
        decreases words@.len() - marked@.len(),
    {
        let ghost before = marked@;
        marked.push(words[marked.len()]);
        assert(marked@ =~= words@.take(before.len() as int + 1));
    }
    marked.push(1);
    let laid_out = cast_words(marked.as_slice());
    assert(laid_out.len() == laid_out@.len());
    let end: usize = laid_out.len() - 4;
    let little = laid_out[end] == 1;
    proof {
        lemma_marked_bytes(laid_out@, marked@);
    }
    let mut bytes: Vec<u8> = Vec::new();
    while bytes.len() < end
        invariant
            end == 4 * words@.len(),
            laid_out@.len() == end + 4,
            marked@.len() == words@.len() + 1,
            marked@.take(words@.len() as int) == words@,
            little ==> little_endian(laid_out@, marked@),
            !little ==> big_endian(laid_out@, marked@),
            bytes@.len() <= end,
            bytes@.len() % 4 == 0,
            forall|i: int, k: int|
                #![trigger bytes@[4 * i + k]]
                0 <= i < bytes@.len() / 4 && 0 <= k < 4 ==> bytes@[4 * i + k] == byte_at(
                    words@[i] as int,
                    k,
                ),
        decreases end - bytes@.len(),
    {
        let at: usize = bytes.len();
        let ghost word = at as int / 4;
        let ghost before = bytes@;
        proof {
            assert(marked@[word] == words@[word]) by {
                assert(marked@.take(words@.len() as int)[word] == marked@[word]);
            }
            assert(at == 4 * word);
            assert(laid_out@[4 * word + 0] == laid_out@[at as int]);
            assert(laid_out@[4 * word + 1] == laid_out@[at + 1]);
            assert(laid_out@[4 * word + 2] == laid_out@[at + 2]);
            assert(laid_out@[4 * word + 3] == laid_out@[at + 3]);
        }
        if little {
            bytes.push(laid_out[at]);
            bytes.push(laid_out[at + 1]);
            bytes.push(laid_out[at + 2]);
            bytes.push(laid_out[at + 3]);
        } else {
            bytes.push(laid_out[at + 3]);
            bytes.push(laid_out[at + 2]);
            bytes.push(laid_out[at + 1]);
            bytes.push(laid_out[at]);
        }
        assert forall|i: int, k: int|
            #![trigger bytes@[4 * i + k]]
            0 <= i < bytes@.len() / 4 && 0 <= k < 4 implies bytes@[4 * i + k] == byte_at(
            words@[i] as int,
            k,
        ) by {
            if i < word {
                assert(bytes@[4 * i + k] == before[4 * i + k]);
            }
        }
    }
    bytes
}

/// The bytes of a signed word, the least significant one first.
pub fn i32_to_bytes(value: i32) -> (bytes: Vec<u8>)
    ensures
        bytes_hold(bytes@, seq![value as u32]),
        little_endian(bytes@, seq![value as u32]),
        bytes@.len() == 4,
{
    let laid_out = cast_i32(&value);
    let word: u32 = value as u32;
    let ghost words = seq![word];
    proof {
        let first: int = 0;
        assert(words[first] == word);
        if little_endian(laid_out@, words) {
            assert(laid_out@[4 * first + 0] == byte_at(word as int, 0));
            assert(laid_out@[4 * first + 1] == byte_at(word as int, 1));
            assert(laid_out@[4 * first + 2] == byte_at(word as int, 2));
            assert(laid_out@[4 * first + 3] == byte_at(word as int, 3));
        } else {
            assert(laid_out@[4 * first + 0] == byte_at(word as int, 3));
            assert(laid_out@[4 * first + 1] == byte_at(word as int, 2));
            assert(laid_out@[4 * first + 2] == byte_at(word as int, 1));
            assert(laid_out@[4 * first + 3] == byte_at(word as int, 0));
        }
    }
    let little = laid_out[0] as u32 == word % 0x100 && laid_out[1] as u32 == word / 0x100 % 0x100
        && laid_out[2] as u32 == word / 0x1_0000 % 0x100 && laid_out[3] as u32 == word
        / 0x100_0000 % 0x100;
    if little {
        assert(little_endian(laid_out@, words));
        return laid_out;
    }
    let mut bytes: Vec<u8> = Vec::new();
    bytes.push(laid_out[3]);
    bytes.push(laid_out[2]);
    bytes.push(laid_out[1]);
    bytes.push(laid_out[0]);
    assert(little_endian(bytes@, words));
    bytes
}

/// The word with its bytes in reverse.
fn reverse_bytes(word: u32) -> (reversed: u32)
    ensures
        forall|k: int|
            0 <= k < 4 ==> #[trigger] byte_at(reversed as int, k) == byte_at(word as int, 3 - k),
{
    let b0: u32 = word % 0x100;
    let b1: u32 = word / 0x100 % 0x100;
    let b2: u32 = word / 0x1_0000 % 0x100;
    let b3: u32 = word / 0x100_0000 % 0x100;
    let reversed: u32 = b0 * 0x100_0000 + b1 * 0x1_0000 + b2 * 0x100 + b3;
    proof {
        let r = reversed as int;
        assert(r % 0x100 == b3);
        assert(r / 0x100 == b0 * 0x1_0000 + b1 * 0x100 + b2);
        assert(r / 0x1_0000 == b0 * 0x100 + b1);
        assert(r / 0x100_0000 == b0);
        assert(byte_at(r, 0) == b3 && byte_at(r, 1) == b2);
        assert(byte_at(r, 2) == b1 && byte_at(r, 3) == b0);
    }
    reversed
}

/// The words that a run of bytes holds, the least significant byte of each first, or `None` where
/// the bytes do not make whole words.
pub fn bytes_to_words(bytes: &[u8]) -> (words: Option<Vec<u32>>)
    ensures
        words is Some <==> bytes@.len() % 4 == 0,
        words matches Some(words) ==> bytes_hold(bytes@, words@) && 4 * words@.len()
            == bytes@.len(),
        words matches Some(words) ==> little_endian(bytes@, words@),
{
    if bytes.len() % 4 != 0 {
        return None;
    }
    let mut marked: Vec<u8> = Vec::new();
    while marked.len() < bytes.len()
        invariant
            marked@.len() <= bytes@.len(),
            marked@ == bytes@.take(marked@.len() as int),
        decreases bytes@.len() - marked@.len(),
    {
        let ghost before = marked@;
        marked.push(bytes[marked.len()]);
        assert(marked@ =~= bytes@.take(before.len() as int + 1));
    }
    marked.push(1);
    marked.push(0);
    marked.push(0);
    marked.push(0);
    let laid_out = collect_words(marked.as_slice());
    let end: usize = laid_out.len() - 1;
    let little = laid_out[end] == 1;
    proof {
        lemma_marked_words(marked@, laid_out@);
    }
    let mut words: Vec<u32> = Vec::new();
    while words.len() < end
        invariant
            bytes@.len() == 4 * end,
            laid_out@.len() == end + 1,
            marked@.len() == bytes@.len() + 4,
            marked@.take(bytes@.len() as int) == bytes@,
            little ==> little_endian(marked@, laid_out@),
            !little ==> big_endian(marked@, laid_out@),
            words@.len() <= end,
            forall|i: int, k: int|
                #![trigger bytes@[4 * i + k]]
                0 <= i < words@.len() && 0 <= k < 4 ==> bytes@[4 * i + k] == byte_at(
                    words@[i] as int,
                    k,
                ),
        decreases end - words@.len(),
    {
        let at: usize = words.len();
        let ghost before = words@;
        let word: u32 = if little {
            laid_out[at]
        } else {
            reverse_bytes(laid_out[at])
        };
        words.push(word);
        assert forall|i: int, k: int|
            #![trigger bytes@[4 * i + k]]
            0 <= i < words@.len() && 0 <= k < 4 implies bytes@[4 * i + k] == byte_at(
            words@[i] as int,
            k,
        ) by {
            assert(marked@.take(bytes@.len() as int)[4 * i + k] == marked@[4 * i + k]);
            if i == at {
                assert(byte_at(word as int, k) == byte_at(words@[i] as int, k));
            } else {
                assert(words@[i] == before[i]);
            }
        }
    }
    Some(words)
}

/// Bytes that hold words, the least significant byte first, spell the numbers out: each word is
/// its first byte, plus `256` times the second, and so on.
pub proof fn lemma_bytes_spell_words(bytes: Seq<u8>, words: Seq<u32>)
    requires
        little_endian(bytes, words),
    ensures
        bytes.len() == 4 * words.len(),
        forall|i: int|
            0 <= i < words.len() ==> (#[trigger] words[i]) as int == bytes[4 * i] + 0x100 * bytes[4
                * i + 1] + 0x1_0000 * bytes[4 * i + 2] + 0x100_0000 * bytes[4 * i + 3],
{
    assert forall|i: int| 0 <= i < words.len() implies (#[trigger] words[i]) as int == bytes[4 * i]
        + 0x100 * bytes[4 * i + 1] + 0x1_0000 * bytes[4 * i + 2] + 0x100_0000 * bytes[4 * i
        + 3] by {
        let w = words[i] as int;
        assert(bytes[4 * i + 0] == byte_at(w, 0) && bytes[4 * i + 1] == byte_at(w, 1));
        assert(bytes[4 * i + 2] == byte_at(w, 2) && bytes[4 * i + 3] == byte_at(w, 3));
        assert(w / 0x1_0000 == w / 0x100 / 0x100);
        assert(w / 0x100_0000 == w / 0x1_0000 / 0x100);
    }
}

} // verus!
