//! Two-adic multiplicative subgroups over which (I)FFTs and Reed-Solomon
//! encodings are performed.
use crate::field::{modp, FieldElement, P, TWO_ADICITY};
use vstd::arithmetic::power::pow;
use vstd::arithmetic::power2::{lemma2_to64, lemma_pow2_unfold, pow2};
use vstd::prelude::*;

verus! {

/// A multiplicative subgroup of power-of-two size, with a (by default trivial)
/// coset offset.
#[derive(Debug, Clone, Copy, PartialEq, Eq, Hash)]
pub struct Radix2EvaluationDomain {
    /// The size of the domain.
    pub size: u64,
    /// `log_2(self.size)`.
    pub log_size_of_group: u32,
    /// Size of the domain as a field element.
    pub size_as_field_element: FieldElement,
    /// Inverse of the size in the field.
    pub size_inv: FieldElement,
    /// A generator of the subgroup.
    pub group_gen: FieldElement,
    /// Inverse of the generator of the subgroup.
    pub group_gen_inv: FieldElement,
    /// Offset that specifies the coset.
    pub offset: FieldElement,
    /// Inverse of the offset that specifies the coset.
    pub offset_inv: FieldElement,
    /// Constant coefficient of the vanishing polynomial: `offset^size`.
    pub offset_pow_size: FieldElement,
}

/// `k` is the exponent of the smallest power of two that is at least `n`.
pub open spec fn is_ceil_log2(n: nat, k: nat) -> bool {
    &&& n <= pow2(k)
    &&& (k == 0 || pow2((k - 1) as nat) < n)
}

impl Radix2EvaluationDomain {
    /// The domain is the subgroup of order `size = 2^log_size_of_group`,
    /// generated by `group_gen`, and every stored inverse is one.
    pub open spec fn wf(&self) -> bool {
        &&& self.log_size_of_group <= TWO_ADICITY
        &&& self.size == pow2(self.log_size_of_group as nat)
        &&& modp(pow(self.group_gen@, self.size as nat)) == 1
        &&& self.log_size_of_group > 0 ==> modp(
            pow(self.group_gen@, pow2((self.log_size_of_group - 1) as nat)),
        ) != 1
        &&& modp(self.group_gen@ * self.group_gen_inv@) == 1
        &&& self.size_as_field_element@ == self.size
        &&& modp(self.size_as_field_element@ * self.size_inv@) == 1
        &&& modp(self.offset@ * self.offset_inv@) == 1
        &&& self.offset_pow_size@ == modp(pow(self.offset@, self.size as nat))
    }

    /// The subgroup whose size is `num_coeffs` rounded up to a power of two,
    /// with the trivial coset offset `1`; `None` when that size exceeds
    /// `2^TWO_ADICITY`.
    pub fn new(num_coeffs: usize) -> (r: Option<Self>)
        ensures
            r is None <==> num_coeffs > pow2(TWO_ADICITY as nat),
            r matches Some(d) ==> {
                &&& d.wf()
                &&& is_ceil_log2(num_coeffs as nat, d.log_size_of_group as nat)
                &&& d.offset@ == 1
                &&& d.offset_inv@ == 1
                &&& d.offset_pow_size@ == 1
            },
    {
        proof {
            lemma2_to64();
        }
        let mut log_size_of_group: u32 = 0;
        let mut size: u64 = 1;
        while log_size_of_group < TWO_ADICITY as u32 && (size as usize) < num_coeffs
            invariant
                log_size_of_group <= TWO_ADICITY,
                size == pow2(log_size_of_group as nat),
                log_size_of_group == 0 || pow2((log_size_of_group - 1) as nat) < num_coeffs,
                pow2(27) == 0x8000000,
                size <= 0x8000000,
            decreases TWO_ADICITY - log_size_of_group,
        {
            proof {
                lemma_pow2_unfold((log_size_of_group + 1) as nat);
                if log_size_of_group + 1 < TWO_ADICITY {
                    vstd::arithmetic::power2::lemma_pow2_strictly_increases(
                        (log_size_of_group + 1) as nat,
                        TWO_ADICITY as nat,
                    );
                }
            }
            size = size * 2;
            log_size_of_group = log_size_of_group + 1;
        }
        proof {
            if log_size_of_group < TWO_ADICITY {
                vstd::arithmetic::power2::lemma_pow2_strictly_increases(
                    log_size_of_group as nat,
                    TWO_ADICITY as nat,
                );
            }
        }
        if (size as usize) < num_coeffs {
            return None;
        }
        proof {
            if log_size_of_group < TWO_ADICITY {
                vstd::arithmetic::power2::lemma_pow2_strictly_increases(
                    log_size_of_group as nat,
                    TWO_ADICITY as nat,
                );
            }
        }
        let group_gen = FieldElement::two_adic_generator(log_size_of_group as usize);
        let size_as_field_element = FieldElement::from_u64(size);
        let size_inv = size_as_field_element.inverse();
        proof {
            assert(group_gen@ != 0) by {
                vstd::arithmetic::power::lemma0_pow(size as nat);
                if log_size_of_group > 0 {
                    vstd::arithmetic::power2::lemma_pow2_pos((log_size_of_group - 1) as nat);
                    vstd::arithmetic::power::lemma0_pow(
                        pow2((log_size_of_group - 1) as nat),
                    );
                } else {
                    vstd::arithmetic::power::lemma_pow1(group_gen@);
                }
            }
        }
        let group_gen_inv = group_gen.inverse();
        let one = FieldElement::one();
        proof {
            vstd::arithmetic::power::lemma1_pow(size as nat);
            vstd::arithmetic::div_mod::lemma_small_mod(size as nat, P as nat);
            vstd::arithmetic::div_mod::lemma_small_mod(1, P as nat);
            assert(size_as_field_element@ == size);
            assert(modp(pow(one@, size as nat)) == 1);
            assert(modp(one@ * one@) == 1);
            assert(is_ceil_log2(num_coeffs as nat, log_size_of_group as nat));
        }
        let one = FieldElement::one();
        Some(
            Radix2EvaluationDomain {
                size,
                log_size_of_group,
                size_as_field_element,
                size_inv,
                group_gen,
                group_gen_inv,
                offset: one,
                offset_inv: one,
                offset_pow_size: one,
            },
        )
    }

    pub fn size(&self) -> (r: usize)
        requires
            self.wf(),
        ensures
            r == self.size,
    {
        proof {
            lemma2_to64();
            if self.log_size_of_group < TWO_ADICITY {
                vstd::arithmetic::power2::lemma_pow2_strictly_increases(
                    self.log_size_of_group as nat,
                    TWO_ADICITY as nat,
                );
            }
        }
        self.size as usize
    }

    pub fn group_gen(&self) -> (r: FieldElement)
        ensures
            r == self.group_gen,
    {
        self.group_gen
    }

    pub fn group_gen_inv(&self) -> (r: FieldElement)
        ensures
            r == self.group_gen_inv,
    {
        self.group_gen_inv
    }

    pub fn log_size_of_group(&self) -> (r: u32)
        ensures
            r == self.log_size_of_group,
    {
        self.log_size_of_group
    }

    pub fn size_inv(&self) -> (r: FieldElement)
        ensures
            r == self.size_inv,
    {
        self.size_inv
    }

    pub fn coset_offset(&self) -> (r: FieldElement)
        ensures
            r == self.offset,
    {
        self.offset
    }

    pub fn coset_offset_inv(&self) -> (r: FieldElement)
        ensures
            r == self.offset_inv,
    {
        self.offset_inv
    }

    pub fn coset_offset_pow_size(&self) -> (r: FieldElement)
        ensures
            r == self.offset_pow_size,
    {
        self.offset_pow_size
    }
}

} // verus!
