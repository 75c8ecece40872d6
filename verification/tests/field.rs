use merkle_gpu::goldilocks::{
    from_montgomery_u64, to_montgomery_u64, GoldilocksField, GOLDILOCKS_MODULUS, MONTGOMERY_R,
    MONTGOMERY_R_INV,
};

#[test]
fn montgomery_round_trip() {
    for value in [0u64, 1, 2, 12345, 0xFFFF_FFFF, GOLDILOCKS_MODULUS - 1] {
        assert_eq!(from_montgomery_u64(to_montgomery_u64(value)), value);
        assert_eq!(to_montgomery_u64(from_montgomery_u64(value)), value);
    }
}

#[test]
fn montgomery_form_of_small_values() {
    assert_eq!(to_montgomery_u64(0), 0);
    // 2^64 mod p is 2^32 - 1.
    assert_eq!(to_montgomery_u64(1), 0xFFFF_FFFF);
    assert_eq!(to_montgomery_u64(2), 0x1_FFFF_FFFE);
    assert_eq!(from_montgomery_u64(1), MONTGOMERY_R_INV);
}

#[test]
fn montgomery_form_reduces() {
    assert_eq!(to_montgomery_u64(GOLDILOCKS_MODULUS), 0);
    assert_eq!(to_montgomery_u64(GOLDILOCKS_MODULUS + 1), to_montgomery_u64(1));
    assert_eq!(from_montgomery_u64(GOLDILOCKS_MODULUS), 0);
}

#[test]
fn montgomery_form_keeps_values_apart() {
    assert_ne!(to_montgomery_u64(3), to_montgomery_u64(4));
    assert_ne!(to_montgomery_u64(0), to_montgomery_u64(GOLDILOCKS_MODULUS - 1));
}

#[test]
fn radix_times_its_inverse_is_one() {
    let p = GOLDILOCKS_MODULUS as u128;
    assert_eq!((MONTGOMERY_R % p) * (MONTGOMERY_R_INV as u128 % p) % p, 1);
}

#[test]
fn canonical_values_are_reduced() {
    assert_eq!(GoldilocksField::from_canonical_u64(5).to_canonical_u64(), 5);
    assert_eq!(GoldilocksField(GOLDILOCKS_MODULUS).to_canonical_u64(), 0);
    assert_eq!(GoldilocksField(u64::MAX).to_canonical_u64(), 0xFFFF_FFFE);
}

#[test]
fn wrapping_does_not_reduce() {
    assert_eq!(GoldilocksField::from_canonical_u64(u64::MAX).0, u64::MAX);
}

#[test]
fn elements_are_equal_by_residue() {
    assert_eq!(GoldilocksField(0), GoldilocksField(GOLDILOCKS_MODULUS));
    assert_eq!(GoldilocksField(7), GoldilocksField(GOLDILOCKS_MODULUS + 7));
    assert_ne!(GoldilocksField(7), GoldilocksField(8));
    assert_eq!(GoldilocksField::zero(), GoldilocksField(0));
}
