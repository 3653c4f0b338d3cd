//! Field elements of the BLS12-381 scalar field, modelled as their canonical
//! integer representative below the field order. Arithmetic is carried out by
//! the arkworks field implementation behind trusted wrappers whose contracts
//! state the exact modular result.
use vstd::prelude::*;

use ark_bls12_381::Fr;
use ark_ff::{BigInt, PrimeField};

verus! {

/// The order of the BLS12-381 scalar field: all protocol arithmetic is exact
/// modulo this prime.
pub open spec fn scalar_modulus() -> nat {
    0x73eda753299d7d483339d80809a1d80553bda402fffe5bfeffffffff00000001nat
}

/// Little-endian 64-bit limbs of the field order.
pub const MODULUS_LIMB_0: u64 = 0xffffffff00000001;
pub const MODULUS_LIMB_1: u64 = 0x53bda402fffe5bfe;
pub const MODULUS_LIMB_2: u64 = 0x3339d80809a1d805;
pub const MODULUS_LIMB_3: u64 = 0x73eda753299d7d48;

/// Field addition on canonical representatives.
pub open spec fn f_add(a: nat, b: nat) -> nat {
    (a + b) % scalar_modulus()
}

/// Field subtraction on canonical representatives.
pub open spec fn f_sub(a: nat, b: nat) -> nat {
    (((a % scalar_modulus()) + scalar_modulus() - (b % scalar_modulus()))
        % (scalar_modulus() as int)) as nat
}

/// Field multiplication on canonical representatives.
pub open spec fn f_mul(a: nat, b: nat) -> nat {
    (a * b) % scalar_modulus()
}

/// A scalar field element, stored as the four little-endian 64-bit limbs of
/// its canonical representative. Every `Scalar` that the library hands out
/// satisfies `wf`: the represented integer lies below the field order.
#[derive(Clone, Copy, Debug, PartialEq, Eq, Structural)]
pub struct Scalar {
    l0: u64,
    l1: u64,
    l2: u64,
    l3: u64,
}

/// The integer that four little-endian 64-bit limbs stand for.
pub open spec fn limbs_val(l0: u64, l1: u64, l2: u64, l3: u64) -> nat {
    (l0 + l1 * 0x10000000000000000nat
        + l2 * 0x100000000000000000000000000000000nat
        + l3 * 0x1000000000000000000000000000000000000000000000000nat) as nat
}

/// The integer a `Scalar` stands for.
pub closed spec fn scalar_val(s: Scalar) -> nat {
    limbs_val(s.l0, s.l1, s.l2, s.l3)
}

impl View for Scalar {
    type V = nat;

    open spec fn view(&self) -> nat {
        scalar_val(*self)
    }
}

impl Scalar {
    /// A `Scalar` is well formed when its representative is canonical.
    pub open spec fn wf(self) -> bool {
        scalar_val(self) < scalar_modulus()
    }

    /// Embeds a small integer into the field.
    pub fn from_u64(x: u64) -> (r: Scalar)
        ensures
            r@ == x as nat,
            r.wf(),
    {
        Scalar { l0: x, l1: 0, l2: 0, l3: 0 }
    }

    /// Builds a field element from the little-endian limbs of its canonical
    /// representative; refuses an integer at or above the field order.
    pub fn from_limbs(l0: u64, l1: u64, l2: u64, l3: u64) -> (r: Option<Scalar>)
        ensures
            r is Some <==> limbs_val(l0, l1, l2, l3) < scalar_modulus(),
            r is Some ==> (r->0@ == limbs_val(l0, l1, l2, l3) && r->0.wf()),
    {
        proof {
            lemma_limb_order(l0, l1, l2, l3);
        }
        let below = l3 < MODULUS_LIMB_3
            || (l3 == MODULUS_LIMB_3 && (l2 < MODULUS_LIMB_2
            || (l2 == MODULUS_LIMB_2 && (l1 < MODULUS_LIMB_1
            || (l1 == MODULUS_LIMB_1 && l0 < MODULUS_LIMB_0)))));
        if below {
            Some(Scalar { l0, l1, l2, l3 })
        } else {
            None
        }
    }

    /// The little-endian limbs of the canonical representative.
    pub fn limbs(&self) -> (r: (u64, u64, u64, u64))
        ensures
            limbs_val(r.0, r.1, r.2, r.3) == self@,
    {
        (self.l0, self.l1, self.l2, self.l3)
    }

    /// Field addition.
    pub fn add_mod(&self, other: &Scalar) -> (r: Scalar)
        requires
            self.wf(),
            other.wf(),
        ensures
            r.wf(),
            r@ == f_add(self@, other@),
    {
        fr_add_limbs(self, other)
    }

    /// Field subtraction.
    pub fn sub_mod(&self, other: &Scalar) -> (r: Scalar)
        requires
            self.wf(),
            other.wf(),
        ensures
            r.wf(),
            r@ == f_sub(self@, other@),
    {
        fr_sub_limbs(self, other)
    }

    /// Field multiplication.
    pub fn mul_mod(&self, other: &Scalar) -> (r: Scalar)
        requires
            self.wf(),
            other.wf(),
        ensures
            r.wf(),
            r@ == f_mul(self@, other@),
    {
        fr_mul_limbs(self, other)
    }
}

/// The lexicographic limb comparison agrees with the order on represented
/// integers against the field order.
proof fn lemma_limb_order(l0: u64, l1: u64, l2: u64, l3: u64)
    ensures
        limbs_val(l0, l1, l2, l3) < scalar_modulus() <==> (l3 < MODULUS_LIMB_3
            || (l3 == MODULUS_LIMB_3 && (l2 < MODULUS_LIMB_2
            || (l2 == MODULUS_LIMB_2 && (l1 < MODULUS_LIMB_1
            || (l1 == MODULUS_LIMB_1 && l0 < MODULUS_LIMB_0)))))),
{
    assert(scalar_modulus() == MODULUS_LIMB_0 + MODULUS_LIMB_1 * 0x10000000000000000
        + MODULUS_LIMB_2 * 0x100000000000000000000000000000000
        + MODULUS_LIMB_3 * 0x1000000000000000000000000000000000000000000000000);
}

/// Relies on `ark_ff` addition on the BLS12-381 scalar field `Fr`: the sum of
/// two canonical representatives modulo the field order, with
/// `Fr::from_bigint` and `into_bigint` mapping canonical representatives
/// below the order to field elements and back.
#[verifier::external_body]
fn fr_add_limbs(a: &Scalar, b: &Scalar) -> (r: Scalar)
    requires
        a.wf(),
        b.wf(),
    ensures
        r.wf(),
        r@ == f_add(a@, b@),
{
    let x = Fr::from_bigint(BigInt::new([a.l0, a.l1, a.l2, a.l3])).unwrap();
    let y = Fr::from_bigint(BigInt::new([b.l0, b.l1, b.l2, b.l3])).unwrap();
    let z = (x + y).into_bigint().0;
    Scalar { l0: z[0], l1: z[1], l2: z[2], l3: z[3] }
}

/// Relies on `ark_ff` subtraction on the BLS12-381 scalar field `Fr`: the
/// difference of two canonical representatives modulo the field order.
#[verifier::external_body]
fn fr_sub_limbs(a: &Scalar, b: &Scalar) -> (r: Scalar)
    requires
        a.wf(),
        b.wf(),
    ensures
        r.wf(),
        r@ == f_sub(a@, b@),
{
    let x = Fr::from_bigint(BigInt::new([a.l0, a.l1, a.l2, a.l3])).unwrap();
    let y = Fr::from_bigint(BigInt::new([b.l0, b.l1, b.l2, b.l3])).unwrap();
    let z = (x - y).into_bigint().0;
    Scalar { l0: z[0], l1: z[1], l2: z[2], l3: z[3] }
}

/// Relies on `ark_ff` multiplication on the BLS12-381 scalar field `Fr`: the
/// product of two canonical representatives modulo the field order.
#[verifier::external_body]
fn fr_mul_limbs(a: &Scalar, b: &Scalar) -> (r: Scalar)
    requires
        a.wf(),
        b.wf(),
    ensures
        r.wf(),
        r@ == f_mul(a@, b@),
{
    let x = Fr::from_bigint(BigInt::new([a.l0, a.l1, a.l2, a.l3])).unwrap();
    let y = Fr::from_bigint(BigInt::new([b.l0, b.l1, b.l2, b.l3])).unwrap();
    let z = (x * y).into_bigint().0;
    Scalar { l0: z[0], l1: z[1], l2: z[2], l3: z[3] }
}

} // verus!
