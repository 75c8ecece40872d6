use merkle_gpu::bytes::{bytes_to_words, i32_to_bytes, words_to_bytes};
use merkle_gpu::goldilocks::{to_montgomery_u64, GoldilocksField, GOLDILOCKS_MODULUS};
use merkle_gpu::words::{
    decode_digests, field_to_montgomery_words, field_to_words, fields_to_montgomery_words,
    fields_to_words, split_words, words_to_field, words_to_hash, HashOut, WordCountError,
    BYTES_PER_DIGEST, WORDS_PER_DIGEST,
};

fn digest(a: u64, b: u64, c: u64, d: u64) -> HashOut {
    HashOut {
        elements: [
            GoldilocksField(a),
            GoldilocksField(b),
            GoldilocksField(c),
            GoldilocksField(d),
        ],
    }
}

#[test]
fn words_come_low_first() {
    assert_eq!(split_words(0x0123_4567_89AB_CDEF), [0x89AB_CDEF, 0x0123_4567]);
    assert_eq!(field_to_words(&GoldilocksField(0x1_0000_0002)), [2, 1]);
    assert_eq!(words_to_field(&[2, 1]).0, 0x1_0000_0002);
}

#[test]
fn words_are_canonical() {
    assert_eq!(field_to_words(&GoldilocksField(GOLDILOCKS_MODULUS + 3)), [3, 0]);
}

#[test]
fn montgomery_words_of_one() {
    assert_eq!(field_to_montgomery_words(&GoldilocksField(1)), [0xFFFF_FFFF, 0]);
    let m = to_montgomery_u64(77);
    assert_eq!(
        field_to_montgomery_words(&GoldilocksField(77)),
        [m as u32, (m >> 32) as u32]
    );
}

#[test]
fn field_words_round_trip() {
    let values = [
        GoldilocksField(0),
        GoldilocksField(0xFFFF_FFFF_0000_0000),
        GoldilocksField(u64::MAX),
    ];
    let words = fields_to_words(&values);
    assert_eq!(words.len(), 6);
    for i in 0..3 {
        let read = words_to_field(&[words[2 * i], words[2 * i + 1]]);
        assert_eq!(read, values[i]);
        assert_eq!(read.0, values[i].to_canonical_u64());
    }
}

#[test]
fn montgomery_words_of_a_run() {
    let words = fields_to_montgomery_words(&[GoldilocksField(1), GoldilocksField(2)]);
    assert_eq!(words, vec![0xFFFF_FFFF, 0, 0xFFFF_FFFE, 1]);
}

#[test]
fn digest_of_eight_words() {
    let read = words_to_hash(&[1, 0, 2, 0, 3, 0, 4, 1]).unwrap();
    assert_eq!(read, digest(1, 2, 3, 0x1_0000_0004));
    assert_eq!(read.elements[3].0, 0x1_0000_0004);
}

#[test]
fn digest_needs_eight_words() {
    let error = words_to_hash(&[1, 2, 3]).unwrap_err();
    assert_eq!(error, WordCountError { got: 3 });
    assert_eq!(error.message(), "expected 8 words per digest, got 3");
    assert_eq!(words_to_hash(&[0; 9]).unwrap_err().got, 9);
    assert_eq!(words_to_hash(&[]).unwrap_err().got, 0);
}

#[test]
fn runs_of_digests() {
    let words: Vec<u32> = (0..16).collect();
    let digests = decode_digests(&words).unwrap();
    assert_eq!(digests.len(), 2);
    assert_eq!(digests[0].elements[0].0, 1u64 << 32);
    assert_eq!(digests[1].elements[3].0, (15u64 << 32) + 14);
    // Element k of digest i is element 4 i + k of the words.
    for i in 0..2 {
        for k in 0..4 {
            let at = 2 * (4 * i + k);
            assert_eq!(digests[i].elements[k], words_to_field(&[words[at], words[at + 1]]));
        }
    }
    assert_eq!(decode_digests(&[]).unwrap().len(), 0);
}

#[test]
fn runs_of_digests_have_to_be_whole() {
    assert_eq!(decode_digests(&[0; 13]).unwrap_err().got, 5);
    assert_eq!(decode_digests(&[0; 1]).unwrap_err().got, 1);
}

#[test]
fn digests_are_equal_by_residue() {
    assert_eq!(digest(1, 2, 3, 4), digest(1, 2, 3, GOLDILOCKS_MODULUS + 4));
    assert_ne!(digest(1, 2, 3, 4), digest(1, 2, 3, 5));
    assert_ne!(digest(1, 2, 3, 4), digest(0, 2, 3, 4));
    assert_eq!(HashOut::zero(), digest(0, 0, 0, 0));
}

#[test]
fn digest_sizes() {
    assert_eq!(WORDS_PER_DIGEST, 8);
    assert_eq!(BYTES_PER_DIGEST, 32);
}

#[test]
fn words_as_bytes() {
    let bytes = words_to_bytes(&[0x0403_0201, 0x0807_0605]);
    let mut expected = 0x0403_0201u32.to_ne_bytes().to_vec();
    expected.extend_from_slice(&0x0807_0605u32.to_ne_bytes());
    assert_eq!(bytes, expected);
}

#[test]
fn signed_words_as_bytes() {
    assert_eq!(i32_to_bytes(5), 5i32.to_ne_bytes().to_vec());
    assert_eq!(i32_to_bytes(-2), (-2i32).to_ne_bytes().to_vec());
}

#[test]
fn bytes_round_trip() {
    let words = vec![1u32, 0xFFFF_FFFF, 0x1234_5678];
    let bytes = words_to_bytes(&words);
    assert_eq!(bytes_to_words(&bytes), Some(words.clone()));
    // The words come out the same wherever their bytes lie.
    for shift in 0..4 {
        let mut shifted = vec![0u8; shift];
        shifted.extend_from_slice(&bytes);
        assert_eq!(bytes_to_words(&shifted[shift..]), Some(words.clone()));
    }
    assert_eq!(bytes_to_words(&[]), Some(Vec::new()));
}

#[test]
fn bytes_that_make_no_words() {
    let bytes = [0u8; 8];
    assert_eq!(bytes_to_words(&bytes[..7]), None);
    assert_eq!(bytes_to_words(&bytes[..1]), None);
    assert_eq!(bytes_to_words(&bytes[..4]), Some(vec![0]));
}
