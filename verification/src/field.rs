//! Field elements: values of the pasta base field `Fp`, held as the canonical
//! little-endian base-2^64 digits of their representative in `[0, p)`.
//! The arithmetic itself (reduction mod p) is done by `halo2_proofs`.

use vstd::prelude::*;

use halo2_proofs::pasta::group::ff::PrimeField;
use halo2_proofs::pasta::Fp;

verus! {

/// The modulus of the pasta base field `Fp`: the prime
/// p = 2^254 + 45560315531419706090280762371685220353.
pub open spec fn field_modulus() -> nat {
    0x40000000000000000000000000000000224698fc094cf91b992d30ed00000001nat
}

/// Field addition on representatives.
pub open spec fn f_add(a: int, b: int) -> int {
    (a + b) % (field_modulus() as int)
}

/// Field subtraction on representatives.
pub open spec fn f_sub(a: int, b: int) -> int {
    (a - b) % (field_modulus() as int)
}

/// Field multiplication on representatives.
pub open spec fn f_mul(a: int, b: int) -> int {
    (a * b) % (field_modulus() as int)
}

/// The additive chain both example circuits compute: the two seeds, then each
/// entry the field sum of the two before it.
pub open spec fn fib_chain(a: int, b: int, r: int) -> int
    decreases r,
{
    if r <= 0 {
        a
    } else if r == 1 {
        b
    } else {
        f_add(fib_chain(a, b, r - 2), fib_chain(a, b, r - 1))
    }
}

/// One element of the field, as the four little-endian 64-bit digits of its
/// canonical representative.
#[derive(Clone, Copy, PartialEq, Eq, Structural, Debug)]
pub struct Felt {
    pub limb0: u64,
    pub limb1: u64,
    pub limb2: u64,
    pub limb3: u64,
}

impl Felt {
    /// The integer this element stands for.
    pub open spec fn val(self) -> nat {
        self.limb0 as nat
            + self.limb1 as nat * 0x10000000000000000
            + self.limb2 as nat * 0x100000000000000000000000000000000
            + self.limb3 as nat * 0x1000000000000000000000000000000000000000000000000
    }

    /// The digits encode the canonical representative: the value is reduced.
    pub open spec fn is_canonical(self) -> bool {
        self.val() < field_modulus()
    }

    /// The additive identity.
    pub fn zero() -> (r: Felt)
        ensures
            r.val() == 0,
            r.is_canonical(),
    {
        Felt { limb0: 0, limb1: 0, limb2: 0, limb3: 0 }
    }

    /// The element standing for a small integer.
    pub fn from_u64(x: u64) -> (r: Felt)
        ensures
            r.val() == x,
            r.is_canonical(),
    {
        Felt { limb0: x, limb1: 0, limb2: 0, limb3: 0 }
    }

    /// Field addition.
    pub fn add(self, other: Felt) -> (r: Felt)
        ensures
            r.val() == f_add(self.val() as int, other.val() as int),
            r.is_canonical(),
    {
        fp_add(self, other)
    }

    /// Field subtraction.
    pub fn sub(self, other: Felt) -> (r: Felt)
        ensures
            r.val() == f_sub(self.val() as int, other.val() as int),
            r.is_canonical(),
    {
        fp_sub(self, other)
    }

    /// Field multiplication.
    pub fn mul(self, other: Felt) -> (r: Felt)
        ensures
            r.val() == f_mul(self.val() as int, other.val() as int),
            r.is_canonical(),
    {
        fp_mul(self, other)
    }
}

/// Two elements with the same value have the same digits: base-2^64 digits
/// are unique, so comparing `Felt`s structurally compares field values.
pub proof fn lemma_canonical_eq(a: Felt, b: Felt)
    requires
        a.val() == b.val(),
    ensures
        a == b,
{
    assert(a.limb0 == b.limb0 && a.limb1 == b.limb1 && a.limb2 == b.limb2
        && a.limb3 == b.limb3) by (nonlinear_arith)
        requires
            a.val() == b.val(),
            a.limb0 < 0x10000000000000000,
            b.limb0 < 0x10000000000000000,
            a.limb1 < 0x10000000000000000,
            b.limb1 < 0x10000000000000000,
            a.limb2 < 0x10000000000000000,
            b.limb2 < 0x10000000000000000,
            a.limb3 < 0x10000000000000000,
            b.limb3 < 0x10000000000000000,
    {
    }
}

/// Relies on `Fp::from_raw` (reads four little-endian 64-bit digits, reducing
/// mod p), field addition on `Fp`, and `PrimeField::to_repr` (writes the
/// canonical little-endian bytes): the result holds the canonical digits of
/// the sum of the arguments mod p.
#[verifier::external_body]
fn fp_add(a: Felt, b: Felt) -> (r: Felt)
    ensures
        r.val() == f_add(a.val() as int, b.val() as int),
        r.is_canonical(),
{
    let s = (Fp::from_raw([a.limb0, a.limb1, a.limb2, a.limb3])
        + Fp::from_raw([b.limb0, b.limb1, b.limb2, b.limb3]))
    .to_repr();
    Felt {
        limb0: u64::from_le_bytes(s[0..8].try_into().unwrap()),
        limb1: u64::from_le_bytes(s[8..16].try_into().unwrap()),
        limb2: u64::from_le_bytes(s[16..24].try_into().unwrap()),
        limb3: u64::from_le_bytes(s[24..32].try_into().unwrap()),
    }
}

/// Relies on `Fp::from_raw`, field subtraction on `Fp`, and
/// `PrimeField::to_repr`: the result holds the canonical digits of the
/// difference of the arguments mod p.
#[verifier::external_body]
fn fp_sub(a: Felt, b: Felt) -> (r: Felt)
    ensures
        r.val() == f_sub(a.val() as int, b.val() as int),
        r.is_canonical(),
{
    let s = (Fp::from_raw([a.limb0, a.limb1, a.limb2, a.limb3])
        - Fp::from_raw([b.limb0, b.limb1, b.limb2, b.limb3]))
    .to_repr();
    Felt {
        limb0: u64::from_le_bytes(s[0..8].try_into().unwrap()),
        limb1: u64::from_le_bytes(s[8..16].try_into().unwrap()),
        limb2: u64::from_le_bytes(s[16..24].try_into().unwrap()),
        limb3: u64::from_le_bytes(s[24..32].try_into().unwrap()),
    }
}

/// Relies on `Fp::from_raw`, field multiplication on `Fp`, and
/// `PrimeField::to_repr`: the result holds the canonical digits of the
/// product of the arguments mod p.
#[verifier::external_body]
fn fp_mul(a: Felt, b: Felt) -> (r: Felt)
    ensures
        r.val() == f_mul(a.val() as int, b.val() as int),
        r.is_canonical(),
{
    let s = (Fp::from_raw([a.limb0, a.limb1, a.limb2, a.limb3])
        * Fp::from_raw([b.limb0, b.limb1, b.limb2, b.limb3]))
    .to_repr();
    Felt {
        limb0: u64::from_le_bytes(s[0..8].try_into().unwrap()),
        limb1: u64::from_le_bytes(s[8..16].try_into().unwrap()),
        limb2: u64::from_le_bytes(s[16..24].try_into().unwrap()),
        limb3: u64::from_le_bytes(s[24..32].try_into().unwrap()),
    }
}

} // verus!
