//! Elements of the BabyBear prime field `Z/pZ` with `p = 2^31 - 2^27 + 1`,
//! held by their canonical representative.
use p3_baby_bear::BabyBear;
use p3_field::{Field, PrimeCharacteristicRing, PrimeField32, TwoAdicField};
use vstd::arithmetic::power::pow;
use vstd::arithmetic::power2::pow2;
use vstd::prelude::*;

verus! {

/// The field's modulus.
pub const P: u32 = 0x78000001;

/// The largest `k` such that `2^k` divides `P - 1`.
pub const TWO_ADICITY: usize = 27;

/// Reduction modulo `P` of an integer, as a field value.
pub open spec fn modp(x: int) -> int {
    x % (P as int)
}

/// An element of the field, held as its canonical representative in `[0, P)`.
#[derive(Debug, Clone, Copy, PartialEq, Eq, Hash)]
pub struct FieldElement {
    value: u32,
}

impl View for FieldElement {
    type V = int;

    closed spec fn view(&self) -> int {
        modp(self.value as int)
    }
}

/// Relies on `BabyBear::new`, `Field::inverse` and `as_canonical_u32`: the
/// canonical multiplicative inverse of a nonzero canonical value.
#[verifier::external_body]
fn inverse_canonical(a: u32) -> (r: u32)
    requires
        0 < a < P,
    ensures
        r < P,
        modp(a as int * r as int) == 1,
{
    BabyBear::new(a).inverse().as_canonical_u32()
}

/// Relies on `BabyBear::new`, `exp_u64` and `as_canonical_u32`: the canonical
/// value of `a` raised to the power `e`.
#[verifier::external_body]
fn exp_canonical(a: u32, e: u64) -> (r: u32)
    requires
        a < P,
    ensures
        r as int == modp(pow(a as int, e as nat)),
{
    BabyBear::new(a).exp_u64(e).as_canonical_u32()
}

/// Relies on `TwoAdicField::two_adic_generator` (which asserts
/// `bits <= TWO_ADICITY`) and `as_canonical_u32`: a generator of the
/// multiplicative subgroup of order exactly `2^bits`.
#[verifier::external_body]
fn two_adic_generator_canonical(bits: usize) -> (r: u32)
    requires
        bits <= TWO_ADICITY,
    ensures
        r < P,
        modp(pow(r as int, pow2(bits as nat))) == 1,
        bits > 0 ==> modp(pow(r as int, pow2((bits - 1) as nat))) != 1,
{
    BabyBear::two_adic_generator(bits).as_canonical_u32()
}

impl FieldElement {
    #[verifier::type_invariant]
    spec fn canonical(self) -> bool {
        self.value < P
    }

    /// Every element's value lies in `[0, P)`.
    pub proof fn lemma_range(x: Self)
        ensures
            0 <= x@ < P,
    {
        vstd::arithmetic::div_mod::lemma_mod_bound(x.value as int, P as int);
    }

    /// Under the invariant, the value is the stored representative.
    proof fn lemma_canonical(x: Self)
        requires
            x.value < P,
        ensures
            x@ == x.value,
    {
        vstd::arithmetic::div_mod::lemma_small_mod(x.value as nat, P as nat);
    }

    fn from_canonical(value: u32) -> (r: Self)
        requires
            value < P,
        ensures
            r@ == value,
    {
        proof {
            vstd::arithmetic::div_mod::lemma_small_mod(value as nat, P as nat);
        }
        FieldElement { value }
    }

    pub fn zero() -> (r: Self)
        ensures
            r@ == 0,
    {
        Self::from_canonical(0)
    }

    pub fn one() -> (r: Self)
        ensures
            r@ == 1,
    {
        Self::from_canonical(1)
    }

    /// The element `x mod P`.
    pub fn from_u64(x: u64) -> (r: Self)
        ensures
            r@ == modp(x as int),
    {
        Self::from_canonical((x % (P as u64)) as u32)
    }

    /// The canonical representative in `[0, P)`.
    pub fn as_canonical_u32(&self) -> (r: u32)
        ensures
            r as int == self@,
            r < P,
    {
        proof {
            use_type_invariant(self);
            Self::lemma_canonical(*self);
        }
        self.value
    }

    pub fn add(self, o: Self) -> (r: Self)
        ensures
            r@ == modp(self@ + o@),
    {
        proof {
            use_type_invariant(self);
            Self::lemma_canonical(self);
            use_type_invariant(o);
            Self::lemma_canonical(o);
        }
        let s: u32 = self.value + o.value;
        Self::from_canonical(s % P)
    }

    pub fn sub(self, o: Self) -> (r: Self)
        ensures
            r@ == modp(self@ - o@),
    {
        proof {
            use_type_invariant(self);
            Self::lemma_canonical(self);
            use_type_invariant(o);
            Self::lemma_canonical(o);
            vstd::arithmetic::div_mod::lemma_mod_add_multiples_vanish(
                self@ - o@,
                P as int,
            );
        }
        let s: u32 = self.value + (P - o.value);
        Self::from_canonical(s % P)
    }

    pub fn mul(self, o: Self) -> (r: Self)
        ensures
            r@ == modp(self@ * o@),
    {
        proof {
            use_type_invariant(self);
            Self::lemma_canonical(self);
            use_type_invariant(o);
            Self::lemma_canonical(o);
            vstd::arithmetic::mul::lemma_mul_upper_bound(
                self.value as int,
                P as int,
                o.value as int,
                P as int,
            );
        }
        let m: u64 = (self.value as u64) * (o.value as u64);
        Self::from_canonical((m % (P as u64)) as u32)
    }

    /// `2 * self`.
    pub fn double(self) -> (r: Self)
        ensures
            r@ == modp(2 * self@),
    {
        self.add(self)
    }

    /// The multiplicative inverse of a nonzero element.
    pub fn inverse(self) -> (r: Self)
        requires
            self@ != 0,
        ensures
            modp(self@ * r@) == 1,
    {
        proof {
            use_type_invariant(self);
            Self::lemma_canonical(self);
        }
        Self::from_canonical(inverse_canonical(self.value))
    }

    /// `self` raised to the power `e`.
    pub fn exp_u64(self, e: u64) -> (r: Self)
        ensures
            r@ == modp(pow(self@, e as nat)),
    {
        proof {
            use_type_invariant(self);
            Self::lemma_canonical(self);
        }
        let v = exp_canonical(self.value, e);
        proof {
            vstd::arithmetic::div_mod::lemma_mod_bound(pow(self@, e as nat), P as int);
        }
        Self::from_canonical(v)
    }

    /// A generator of the multiplicative subgroup of order exactly `2^bits`.
    pub fn two_adic_generator(bits: usize) -> (r: Self)
        requires
            bits <= TWO_ADICITY,
        ensures
            modp(pow(r@, pow2(bits as nat))) == 1,
            bits > 0 ==> modp(pow(r@, pow2((bits - 1) as nat))) != 1,
    {
        Self::from_canonical(two_adic_generator_canonical(bits))
    }
}

} // verus!
