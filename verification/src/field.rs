//! Elements of the prime field over which the circuit is laid out.
//!
//! An element is held as four 64-bit limbs, least significant first, and
//! every element that this module hands out stands for a number below the
//! field's order.  The arithmetic itself is done by the type `Fp` of
//! `pasta_curves`, which `halo2_proofs` re-exports; the three functions that
//! reach it are the only part of this module that is assumed rather than
//! proved.

use halo2_proofs::pasta::Fp;
use vstd::arithmetic::div_mod::{
    lemma_add_mod_noop_right, lemma_div_pos_is_pos, lemma_fundamental_div_mod,
    lemma_mod_add_multiples_vanish, lemma_mod_bound, lemma_mod_pos_bound, lemma_small_mod,
};
use vstd::prelude::*;

verus! {

/// The order of the field: the prime
/// `0x40000000000000000000000000000000224698fc094cf91b992d30ed00000001`.
pub open spec fn modulus() -> nat {
    0x40000000000000000000000000000000224698fc094cf91b992d30ed00000001nat
}

/// The sum of two numbers in the field.
pub open spec fn add_mod(x: nat, y: nat) -> nat {
    (x + y) % modulus()
}

/// The product of two numbers in the field.
pub open spec fn mul_mod(x: nat, y: nat) -> nat {
    (x * y) % modulus()
}

/// The difference of two numbers in the field.
pub open spec fn sub_mod(x: nat, y: nat) -> nat {
    ((x - y) % (modulus() as int)) as nat
}

/// The number that four limbs stand for, least significant limb first.
pub open spec fn limbs_value(l0: u64, l1: u64, l2: u64, l3: u64) -> nat {
    (l0 + l1 * 0x1_0000_0000_0000_0000 + l2 * 0x1_0000_0000_0000_0000_0000_0000_0000_0000 + l3
        * 0x1_0000_0000_0000_0000_0000_0000_0000_0000_0000_0000_0000_0000) as nat
}

/// An element of the field.
#[derive(Clone, Copy, Debug, PartialEq, Eq, Structural)]
pub struct FieldElement {
    l0: u64,
    l1: u64,
    l2: u64,
    l3: u64,
}

impl FieldElement {
    /// The number this element stands for.
    pub closed spec fn value(self) -> nat {
        limbs_value(self.l0, self.l1, self.l2, self.l3)
    }

    /// The limbs of this element, least significant first.
    pub closed spec fn limbs(self) -> Seq<u64> {
        seq![self.l0, self.l1, self.l2, self.l3]
    }

    /// The element is in canonical form: its number is below the order.
    pub open spec fn wf(self) -> bool {
        self.value() < modulus()
    }

    /// The limbs determine the number and the number determines the limbs.
    pub proof fn lemma_value_of_limbs(self)
        ensures
            self.limbs().len() == 4,
            self.value() == limbs_value(
                self.limbs()[0],
                self.limbs()[1],
                self.limbs()[2],
                self.limbs()[3],
            ),
    {
    }

    /// Two elements that stand for the same number are the same element.
    pub proof fn lemma_value_injective(self, other: FieldElement)
        requires
            self.value() == other.value(),
        ensures
            self == other,
    {
        assert(self.l3 == other.l3);
        assert(self.l2 == other.l2);
        assert(self.l1 == other.l1);
    }

    /// The element that stands for `n`, for every `n` that four limbs can
    /// hold.
    pub closed spec fn from_nat(n: nat) -> FieldElement {
        choose|e: FieldElement| e.value() == n
    }

    /// `from_nat` and `value` undo each other.
    pub proof fn lemma_from_nat(n: nat)
        requires
            n < modulus(),
        ensures
            Self::from_nat(n).value() == n,
            Self::from_nat(n).wf(),
    {
        let w: int = 0x1_0000_0000_0000_0000;
        let q1 = n as int / w;
        let q2 = q1 / w;
        let q3 = q2 / w;
        lemma_fundamental_div_mod(n as int, w);
        lemma_fundamental_div_mod(q1, w);
        lemma_fundamental_div_mod(q2, w);
        lemma_mod_pos_bound(n as int, w);
        lemma_mod_pos_bound(q1, w);
        lemma_mod_pos_bound(q2, w);
        lemma_div_pos_is_pos(n as int, w);
        lemma_div_pos_is_pos(q1, w);
        lemma_div_pos_is_pos(q2, w);
        let l0 = n as int % w;
        let l1 = q1 % w;
        let l2 = q2 % w;
        assert(n == l0 + w * q1);
        assert(q1 == l1 + w * q2);
        assert(q2 == l2 + w * q3);
        assert(0 <= q3 < w);
        let e = FieldElement { l0: l0 as u64, l1: l1 as u64, l2: l2 as u64, l3: q3 as u64 };
        assert(e.value() == n);
    }

    /// An element is the one that `from_nat` gives for its number.
    pub proof fn lemma_from_nat_of_value(self)
        ensures
            Self::from_nat(self.value()) == self,
    {
        Self::from_nat(self.value()).lemma_value_injective(self);
    }

    /// The sum of two elements in the field.
    pub open spec fn sum(self, rhs: FieldElement) -> FieldElement {
        Self::from_nat(add_mod(self.value(), rhs.value()))
    }

    /// The difference of two elements in the field.
    pub open spec fn difference(self, rhs: FieldElement) -> FieldElement {
        Self::from_nat(sub_mod(self.value(), rhs.value()))
    }

    /// The product of two elements in the field.
    pub open spec fn product(self, rhs: FieldElement) -> FieldElement {
        Self::from_nat(mul_mod(self.value(), rhs.value()))
    }

    /// The sum, the difference and the product of two elements are in
    /// canonical form and stand for the sum, the difference and the product
    /// of their numbers modulo the order.
    pub proof fn lemma_arithmetic(self, rhs: FieldElement)
        ensures
            self.sum(rhs).wf(),
            self.sum(rhs).value() == add_mod(self.value(), rhs.value()),
            self.difference(rhs).wf(),
            self.difference(rhs).value() == sub_mod(self.value(), rhs.value()),
            self.product(rhs).wf(),
            self.product(rhs).value() == mul_mod(self.value(), rhs.value()),
    {
        let p = modulus() as int;
        lemma_mod_pos_bound((self.value() + rhs.value()) as int, p);
        lemma_mod_bound(self.value() - rhs.value(), p);
        lemma_mod_pos_bound((self.value() * rhs.value()) as int, p);
        Self::lemma_from_nat(add_mod(self.value(), rhs.value()));
        Self::lemma_from_nat(sub_mod(self.value(), rhs.value()));
        Self::lemma_from_nat(mul_mod(self.value(), rhs.value()));
    }

    /// An element and its negation add up to zero.
    pub proof fn lemma_cancel(self)
        ensures
            self.sum(Self::from_nat(0).difference(self)) == Self::from_nat(0),
    {
        let p = modulus() as int;
        let zero = Self::from_nat(0);
        Self::lemma_from_nat(0);
        zero.lemma_arithmetic(self);
        let t = self.value() as int;
        lemma_add_mod_noop_right(t, 0 - t, p);
        lemma_small_mod(0, modulus());
    }

    /// The difference of two canonical elements vanishes exactly when they
    /// are the same element.
    pub proof fn lemma_vanish(self, rhs: FieldElement)
        requires
            self.wf(),
            rhs.wf(),
        ensures
            self.sum(Self::from_nat(0).difference(rhs)) == Self::from_nat(0) <==> self == rhs,
    {
        let p = modulus() as int;
        let zero = Self::from_nat(0);
        Self::lemma_from_nat(0);
        zero.lemma_arithmetic(rhs);
        let negated = zero.difference(rhs);
        self.lemma_arithmetic(negated);
        let t = self.value() as int;
        let d = rhs.value() as int;
        if self == rhs {
            self.lemma_cancel();
        }
        if self.sum(negated) == zero {
            lemma_add_mod_noop_right(t, 0 - d, p);
            assert((t - d) % p == 0);
            if t > d {
                lemma_small_mod((t - d) as nat, modulus());
            } else if t < d {
                lemma_mod_add_multiples_vanish(t - d, p);
                lemma_small_mod((p + (t - d)) as nat, modulus());
            }
            assert(t == d);
            self.lemma_value_injective(rhs);
        }
    }

    /// One times a canonical element is that element.
    pub proof fn lemma_one_times(self)
        requires
            self.wf(),
        ensures
            Self::from_nat(1).product(self) == self,
    {
        Self::lemma_from_nat(1);
        assert(1 * self.value() == self.value());
        lemma_small_mod(self.value(), modulus());
        self.lemma_from_nat_of_value();
    }

    /// One times the difference of two canonical elements vanishes exactly
    /// when they are the same element.
    pub proof fn lemma_scaled_vanish(self, rhs: FieldElement)
        requires
            self.wf(),
            rhs.wf(),
        ensures
            Self::from_nat(1).product(self.sum(Self::from_nat(0).difference(rhs))) == Self::from_nat(
                0,
            ) <==> self == rhs,
    {
        let zero = Self::from_nat(0);
        zero.lemma_arithmetic(rhs);
        self.lemma_arithmetic(zero.difference(rhs));
        self.sum(zero.difference(rhs)).lemma_one_times();
        self.lemma_vanish(rhs);
    }

    /// The additive identity.
    pub fn zero() -> (r: FieldElement)
        ensures
            r.wf(),
            r.value() == 0,
            r == Self::from_nat(0),
    {
        let r = FieldElement { l0: 0, l1: 0, l2: 0, l3: 0 };
        proof {
            r.lemma_from_nat_of_value();
        }
        r
    }

    /// The multiplicative identity.
    pub fn one() -> (r: FieldElement)
        ensures
            r.wf(),
            r.value() == 1,
            r == Self::from_nat(1),
    {
        let r = FieldElement { l0: 1, l1: 0, l2: 0, l3: 0 };
        proof {
            r.lemma_from_nat_of_value();
        }
        r
    }

    /// The element that stands for `v`.
    pub fn from_u64(v: u64) -> (r: FieldElement)
        ensures
            r.wf(),
            r.value() == v,
            r == Self::from_nat(v as nat),
    {
        let r = FieldElement { l0: v, l1: 0, l2: 0, l3: 0 };
        proof {
            r.lemma_from_nat_of_value();
        }
        r
    }

    /// The element with the given limbs, least significant first, or `None`
    /// when they stand for a number that is not below the order.
    pub fn from_limbs(limbs: [u64; 4]) -> (r: Option<FieldElement>)
        ensures
            r is Some <==> limbs_value(limbs[0], limbs[1], limbs[2], limbs[3]) < modulus(),
            r matches Some(e) ==> e.wf() && e.limbs() == limbs@,
    {
        let l0 = limbs[0];
        let l1 = limbs[1];
        let l2 = limbs[2];
        let l3 = limbs[3];
        let below = l3 < 0x4000_0000_0000_0000 || (l3 == 0x4000_0000_0000_0000 && l2 == 0 && (l1
            < 0x2246_98fc_094c_f91b || (l1 == 0x2246_98fc_094c_f91b && l0
            < 0x992d_30ed_0000_0001)));
        if below {
            let e = FieldElement { l0, l1, l2, l3 };
            assert(e.limbs() =~= limbs@);
            Some(e)
        } else {
            None
        }
    }

    /// The limbs of this element, least significant first.
    pub fn to_limbs(&self) -> (r: [u64; 4])
        ensures
            r@ == self.limbs(),
    {
        let r = [self.l0, self.l1, self.l2, self.l3];
        assert(r@ =~= self.limbs());
        r
    }
}

impl FieldElement {
    /// Adds two elements.
    pub fn add(&self, rhs: &FieldElement) -> (r: FieldElement)
        ensures
            r == self.sum(*rhs),
    {
        let r = field_add(self, rhs);
        proof {
            r.lemma_from_nat_of_value();
        }
        r
    }

    /// Subtracts `rhs` from this element.
    pub fn sub(&self, rhs: &FieldElement) -> (r: FieldElement)
        ensures
            r == self.difference(*rhs),
    {
        let r = field_sub(self, rhs);
        proof {
            r.lemma_from_nat_of_value();
        }
        r
    }

    /// Multiplies two elements.
    pub fn mul(&self, rhs: &FieldElement) -> (r: FieldElement)
        ensures
            r == self.product(*rhs),
    {
        let r = field_mul(self, rhs);
        proof {
            r.lemma_from_nat_of_value();
        }
        r
    }
}

/// The sum of two elements.
///
/// Assumed, not proved.  The body turns the limbs of both operands into
/// `Fp` values with `Fp::from_raw`, which takes any four limbs to the
/// element congruent to their number, adds the two with `Fp::add`, and reads
/// the result's canonical little-endian bytes, which `From<Fp> for [u8; 32]`
/// gives, back into limbs.  The contract claims that the result stands for
/// the sum of the two numbers modulo the field's order, in canonical form.
#[verifier::external_body]
fn field_add(x: &FieldElement, y: &FieldElement) -> (r: FieldElement)
    ensures
        r.wf(),
        r.value() == add_mod(x.value(), y.value()),
{
    let out = Fp::from_raw([x.l0, x.l1, x.l2, x.l3]).add(&Fp::from_raw([y.l0, y.l1, y.l2, y.l3]));
    let bytes: [u8; 32] = out.into();
    FieldElement {
        l0: u64::from_le_bytes(bytes[0..8].try_into().unwrap()),
        l1: u64::from_le_bytes(bytes[8..16].try_into().unwrap()),
        l2: u64::from_le_bytes(bytes[16..24].try_into().unwrap()),
        l3: u64::from_le_bytes(bytes[24..32].try_into().unwrap()),
    }
}

/// The difference of two elements.
///
/// Assumed, not proved.  The body turns the limbs of both operands into
/// `Fp` values with `Fp::from_raw`, subtracts the second from the first with
/// `Fp::sub`, and reads the result's canonical little-endian bytes, which
/// `From<Fp> for [u8; 32]` gives, back into limbs.  The contract claims that
/// the result stands for the difference of the two numbers modulo the
/// field's order, in canonical form.
#[verifier::external_body]
fn field_sub(x: &FieldElement, y: &FieldElement) -> (r: FieldElement)
    ensures
        r.wf(),
        r.value() == sub_mod(x.value(), y.value()),
{
    let out = Fp::from_raw([x.l0, x.l1, x.l2, x.l3]).sub(&Fp::from_raw([y.l0, y.l1, y.l2, y.l3]));
    let bytes: [u8; 32] = out.into();
    FieldElement {
        l0: u64::from_le_bytes(bytes[0..8].try_into().unwrap()),
        l1: u64::from_le_bytes(bytes[8..16].try_into().unwrap()),
        l2: u64::from_le_bytes(bytes[16..24].try_into().unwrap()),
        l3: u64::from_le_bytes(bytes[24..32].try_into().unwrap()),
    }
}

/// The product of two elements.
///
/// Assumed, not proved.  The body turns the limbs of both operands into
/// `Fp` values with `Fp::from_raw`, multiplies the two with `Fp::mul`, and
/// reads the result's canonical little-endian bytes, which
/// `From<Fp> for [u8; 32]` gives, back into limbs.  The contract claims that
/// the result stands for the product of the two numbers modulo the field's
/// order, in canonical form.
#[verifier::external_body]
fn field_mul(x: &FieldElement, y: &FieldElement) -> (r: FieldElement)
    ensures
        r.wf(),
        r.value() == mul_mod(x.value(), y.value()),
{
    let out = Fp::from_raw([x.l0, x.l1, x.l2, x.l3]).mul(&Fp::from_raw([y.l0, y.l1, y.l2, y.l3]));
    let bytes: [u8; 32] = out.into();
    FieldElement {
        l0: u64::from_le_bytes(bytes[0..8].try_into().unwrap()),
        l1: u64::from_le_bytes(bytes[8..16].try_into().unwrap()),
        l2: u64::from_le_bytes(bytes[16..24].try_into().unwrap()),
        l3: u64::from_le_bytes(bytes[24..32].try_into().unwrap()),
    }
}

} // verus!
