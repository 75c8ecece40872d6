//! Goldilocks field elements as the host sees them, and the Montgomery form that the compute
//! shaders work in.
use vstd::arithmetic::div_mod::*;
use vstd::prelude::*;
use vstd::std_specs::cmp::PartialEqSpec;

verus! {

/// Order of the Goldilocks field, `2^64 - 2^32 + 1`.
pub const GOLDILOCKS_MODULUS: u64 = 0xFFFF_FFFF_0000_0001;

/// Montgomery radix `R = 2^64`.
pub const MONTGOMERY_R: u128 = 0x1_0000_0000_0000_0000;

/// Inverse of the Montgomery radix modulo the field order.
pub const MONTGOMERY_R_INV: u64 = 0xFFFF_FFFE_0000_0001;

/// The field order as a mathematical integer.
pub open spec fn modulus() -> int {
    GOLDILOCKS_MODULUS as int
}

/// A field element. Any `u64` may stand for an element; two values that are congruent modulo the
/// field order stand for the same one.
#[derive(Clone, Copy, Debug)]
pub struct GoldilocksField(pub u64);

impl GoldilocksField {
    /// The residue that this value stands for, in `[0, p)`.
    pub open spec fn residue(self) -> int {
        self.0 as int % modulus()
    }

    /// The zero element.
    pub fn zero() -> (element: GoldilocksField)
        ensures
            element == GoldilocksField(0),
    {
        GoldilocksField(0)
    }

    /// Wraps a value without reducing it.
    pub fn from_canonical_u64(value: u64) -> (element: GoldilocksField)
        ensures
            element == GoldilocksField(value),
            element.residue() == value as int % modulus(),
            value < GOLDILOCKS_MODULUS ==> element.residue() == value,
    {
        GoldilocksField(value)
    }

    /// The representative of this element below the field order.
    pub fn to_canonical_u64(&self) -> (canonical: u64)
        ensures
            canonical < GOLDILOCKS_MODULUS,
            canonical == self.residue(),
    {
        if self.0 >= GOLDILOCKS_MODULUS {
            proof {
                lemma_fundamental_div_mod_converse(
                    self.0 as int,
                    modulus(),
                    1,
                    self.0 - GOLDILOCKS_MODULUS,
                );
            }
            self.0 - GOLDILOCKS_MODULUS
        } else {
            proof {
                lemma_small_mod(self.0 as nat, modulus() as nat);
            }
            self.0
        }
    }
}

/// Elements are equal when they stand for the same residue.
impl PartialEq for GoldilocksField {
    fn eq(&self, other: &Self) -> (equal: bool) {
        self.to_canonical_u64() == other.to_canonical_u64()
    }
}

impl vstd::std_specs::cmp::PartialEqSpecImpl for GoldilocksField {
    open spec fn obeys_eq_spec() -> bool {
        true
    }

    open spec fn eq_spec(&self, other: &Self) -> bool {
        self.residue() == other.residue()
    }
}

impl Eq for GoldilocksField {

}

/// `value * R mod p`.
pub open spec fn montgomery_form(value: int) -> int {
    (value * MONTGOMERY_R as int) % modulus()
}

/// `value * R^-1 mod p`.
pub open spec fn canonical_form(value: int) -> int {
    (value * MONTGOMERY_R_INV as int) % modulus()
}

/// Converts a value to Montgomery form.
pub fn to_montgomery_u64(value: u64) -> (encoded: u64)
    ensures
        encoded == montgomery_form(value as int),
        encoded < GOLDILOCKS_MODULUS,
{
    let res: u128 = ((value as u128) * MONTGOMERY_R) % (GOLDILOCKS_MODULUS as u128);
    res as u64
}

/// Converts a value back from Montgomery form.
pub fn from_montgomery_u64(value: u64) -> (decoded: u64)
    ensures
        decoded == canonical_form(value as int),
        decoded < GOLDILOCKS_MODULUS,
{
    let res: u128 = ((value as u128) * (MONTGOMERY_R_INV as u128)) % (GOLDILOCKS_MODULUS as u128);
    res as u64
}

/// Leaving Montgomery form undoes entering it, and the other way round, up to reduction modulo
/// the field order; on reduced values both round trips are the identity.
pub proof fn lemma_montgomery_round_trip(value: int)
    ensures
        canonical_form(montgomery_form(value)) == value % modulus(),
        montgomery_form(canonical_form(value)) == value % modulus(),
        0 <= value < modulus() ==> canonical_form(montgomery_form(value)) == value,
        0 <= value < modulus() ==> montgomery_form(canonical_form(value)) == value,
{
    let r: int = MONTGOMERY_R as int;
    let r_inv: int = MONTGOMERY_R_INV as int;
    let p: int = modulus();
    assert((r * r_inv) % p == 1) by {
        lemma_fundamental_div_mod_converse(r * r_inv, p, 0xFFFF_FFFE_FFFF_FFFF, 1);
    }
    lemma_mul_mod_noop_left(value * r, r_inv, p);
    lemma_mul_mod_noop_left(value * r_inv, r, p);
    assert(value * r * r_inv == value * (r * r_inv)) by (nonlinear_arith);
    assert(value * r_inv * r == value * (r * r_inv)) by (nonlinear_arith);
    lemma_mul_mod_noop_right(value, r * r_inv, p);
    if 0 <= value < p {
        lemma_small_mod(value as nat, p as nat);
    }
}

/// Montgomery form keeps distinct residues distinct.
pub proof fn lemma_montgomery_injective(a: int, b: int)
    ensures
        montgomery_form(a) == montgomery_form(b) <==> a % modulus() == b % modulus(),
{
    lemma_montgomery_round_trip(a);
    lemma_montgomery_round_trip(b);
    let r: int = MONTGOMERY_R as int;
    lemma_mul_mod_noop_left(a, r, modulus());
    lemma_mul_mod_noop_left(b, r, modulus());
}

/// Two values stand for the same element, and compare as equal, just where their difference is a
/// multiple of the field order; the residue is the one number below the field order among them.
pub proof fn lemma_same_element(a: GoldilocksField, b: GoldilocksField)
    ensures
        a.eq_spec(&b) <==> (a.0 - b.0) % 0xFFFF_FFFF_0000_0001 == 0,
        a.residue() == b.residue() <==> (a.0 - b.0) % 0xFFFF_FFFF_0000_0001 == 0,
        0 <= a.residue() < 0xFFFF_FFFF_0000_0001,
        a.residue() == a.0 || a.residue() == a.0 - 0xFFFF_FFFF_0000_0001,
{
    let p: int = 0xFFFF_FFFF_0000_0001;
    let (x, y) = (a.0 as int, b.0 as int);
    lemma_mod_bound(x, p);
    lemma_mod_bound(y, p);
    lemma_residue_of(x);
    lemma_residue_of(y);
    if x - y >= p {
        lemma_fundamental_div_mod_converse(x - y, p, 1, x - y - p);
    } else if 0 <= x - y {
        lemma_small_mod((x - y) as nat, p as nat);
    } else if x - y >= -p {
        lemma_fundamental_div_mod_converse(x - y, p, -1, x - y + p);
    } else {
        lemma_fundamental_div_mod_converse(x - y, p, -2, x - y + 2 * p);
    }
}

/// A 64-bit number lies at most once the field order above its residue.
proof fn lemma_residue_of(x: int)
    requires
        0 <= x < 0x1_0000_0000_0000_0000,
    ensures
        x % modulus() == (if x < 0xFFFF_FFFF_0000_0001 {
            x
        } else {
            x - 0xFFFF_FFFF_0000_0001
        }),
{
    let p: int = 0xFFFF_FFFF_0000_0001;
    if x < p {
        lemma_small_mod(x as nat, p as nat);
    } else {
        lemma_fundamental_div_mod_converse(x, p, 1, x - p);
    }
}

/// Montgomery form is multiplication by `2^64` modulo the field order, and canonical form is the
/// one number below the field order that this multiplication brings back to the value.
pub proof fn lemma_montgomery_radix(value: int)
    ensures
        montgomery_form(value) == (value * 0x1_0000_0000_0000_0000) % 0xFFFF_FFFF_0000_0001,
        (canonical_form(value) * 0x1_0000_0000_0000_0000) % 0xFFFF_FFFF_0000_0001 == value
            % 0xFFFF_FFFF_0000_0001,
        0 <= canonical_form(value) < 0xFFFF_FFFF_0000_0001,
{
    lemma_montgomery_round_trip(value);
    lemma_mod_bound(value * (MONTGOMERY_R_INV as int), modulus());
}

} // verus!
