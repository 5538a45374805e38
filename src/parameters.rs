//! The integer part of the protocol parameters: soundness regimes, the
//! folding schedule and the inputs of the parameter derivation.
use vstd::prelude::*;

verus! {

/// Below this many variables the prover sends the polynomial's coefficients
/// instead of folding further.
pub const MAX_NUM_VARIABLES_TO_SEND_COEFFS: usize = 6;

/// The list-decoding regime assumed for the underlying code.
#[derive(Debug, Clone, Copy, PartialEq, Eq, Structural, Hash)]
pub enum SoundnessType {
    UniqueDecoding,
    ProvableList,
    ConjectureList,
}

/// How the verifier evaluates folds.
#[derive(Debug, Clone, Copy, PartialEq, Eq, Structural, Hash)]
pub enum FoldType {
    Naive,
    ProverHelps,
}

/// The number of variables of the committed multilinear polynomial.
#[derive(Debug, Clone, Copy, PartialEq, Eq, Structural, Hash)]
pub struct MultivariateParameters {
    pub num_variables: usize,
}

impl MultivariateParameters {
    pub fn new(num_variables: usize) -> (r: Self)
        ensures
            r.num_variables == num_variables,
    {
        MultivariateParameters { num_variables }
    }

    pub fn num_variables(&self) -> (r: usize)
        ensures
            r == self.num_variables,
    {
        self.num_variables
    }
}

/// Why a folding schedule does not fit a number of variables.
#[derive(Debug, Clone, Copy, PartialEq, Eq, Structural, Hash)]
pub enum FoldingFactorError {
    /// A factor (first field) exceeds the number of variables (second field).
    TooLarge(usize, usize),
    /// A factor is zero.
    ZeroFactor,
}

/// How many variables each round folds.
#[derive(Debug, Clone, Copy, PartialEq, Eq, Structural, Hash)]
pub enum FoldingFactor {
    /// The same factor in every round.
    Constant(usize),
    /// A factor for the first round and another for all later rounds.
    ConstantFromSecondRound(usize, usize),
}

/// `a / b` rounded up.
pub open spec fn ceil_div(a: nat, b: nat) -> nat
    recommends
        b > 0,
{
    ((a + b - 1) / (b as int)) as nat
}

proof fn lemma_le_div_iff_mul_le(n: nat, a: nat, f: nat)
    requires
        f > 0,
    ensures
        (n <= (a as int) / (f as int)) <==> (n * f <= a),
{
    vstd::arithmetic::div_mod::lemma_fundamental_div_mod(a as int, f as int);
    vstd::arithmetic::div_mod::lemma_mod_bound(a as int, f as int);
    let q = (a as int) / (f as int);
    let r = (a as int) % (f as int);
    if n <= q {
        vstd::arithmetic::mul::lemma_mul_inequality(n as int, q, f as int);
        assert(n * f <= q * f);
        assert(q * f == f * q) by (nonlinear_arith);
    } else {
        vstd::arithmetic::mul::lemma_mul_inequality(q + 1, n as int, f as int);
        assert((q + 1) * f == f * q + f) by (nonlinear_arith);
    }
}

fn div_ceil(a: usize, b: usize) -> (r: usize)
    requires
        b > 0,
    ensures
        r == ceil_div(a as nat, b as nat),
        a > 0 ==> r >= 1,
{
    let q = a / b;
    proof {
        vstd::arithmetic::div_mod::lemma_fundamental_div_mod(a as int, b as int);
        if a % b != 0 {
            assert(q < a) by (nonlinear_arith)
                requires
                    a == b * q + a % b,
                    a % b > 0,
                    b > 0,
                    q >= 0,
            ;
        }
    }
    let r = if a % b == 0 {
        q
    } else {
        q + 1
    };
    proof {
        vstd::arithmetic::div_mod::lemma_fundamental_div_mod(a as int, b as int);
        vstd::arithmetic::div_mod::lemma_fundamental_div_mod((a + b - 1) as int, b as int);
        vstd::arithmetic::div_mod::lemma_mod_bound(a as int, b as int);
        vstd::arithmetic::div_mod::lemma_mod_bound((a + b - 1) as int, b as int);
        assert(((a + b - 1) / (b as int)) == r) by (nonlinear_arith)
            requires
                a == b * q + a % b,
                0 <= a % b < b,
                (a + b - 1) == b * ((a + b - 1) / (b as int)) + (a + b - 1) % (b as int),
                0 <= (a + b - 1) % (b as int) < b,
                r == if a % b == 0 { q as int } else { q + 1 },
        ;
    }
    proof {
        if a > 0 && a % b == 0 {
            assert(q >= 1) by (nonlinear_arith)
                requires
                    a == b * q + a % b,
                    a % b == 0,
                    a > 0,
                    q >= 0,
            ;
        }
    }
    r
}

impl FoldingFactor {
    /// The factor of round `round`.
    pub open spec fn spec_at_round(&self, round: nat) -> nat {
        match self {
            FoldingFactor::Constant(f) => *f as nat,
            FoldingFactor::ConstantFromSecondRound(first, f) => if round == 0 {
                *first as nat
            } else {
                *f as nat
            },
        }
    }

    /// The schedule's error for `num_variables` variables, if any.
    pub open spec fn validity(&self, num_variables: usize) -> Result<(), FoldingFactorError> {
        match self {
            FoldingFactor::Constant(f) => if *f > num_variables {
                Err(FoldingFactorError::TooLarge(*f, num_variables))
            } else if *f == 0 {
                Err(FoldingFactorError::ZeroFactor)
            } else {
                Ok(())
            },
            FoldingFactor::ConstantFromSecondRound(first, f) => if *first > num_variables {
                Err(FoldingFactorError::TooLarge(*first, num_variables))
            } else if *f > num_variables {
                Err(FoldingFactorError::TooLarge(*f, num_variables))
            } else if *f == 0 || *first == 0 {
                Err(FoldingFactorError::ZeroFactor)
            } else {
                Ok(())
            },
        }
    }

    /// The number of folding rounds after the first, and the number of
    /// sumcheck rounds left for the final polynomial: rounds are added until
    /// at most `MAX_NUM_VARIABLES_TO_SEND_COEFFS` variables would be left.
    pub open spec fn number_of_rounds(&self, num_variables: nat) -> (int, int) {
        let m = MAX_NUM_VARIABLES_TO_SEND_COEFFS as nat;
        match self {
            FoldingFactor::Constant(f) => if num_variables <= m {
                (0, num_variables - *f)
            } else {
                let n = ceil_div((num_variables - m) as nat, *f as nat);
                (n - 1, num_variables - n * (*f))
            },
            FoldingFactor::ConstantFromSecondRound(first, f) => {
                let rest = num_variables - *first;
                if rest < m {
                    (0, rest)
                } else {
                    let n = ceil_div((rest - m) as nat, *f as nat);
                    (n as int, rest - n * (*f))
                }
            },
        }
    }

    /// `number_of_rounds` stays within the natural numbers: no factor is zero
    /// where it divides, and the rounds do not fold more variables than
    /// there are.
    pub open spec fn rounds_defined(&self, num_variables: nat) -> bool {
        let (n, fin) = self.number_of_rounds(num_variables);
        &&& n >= 0
        &&& fin >= 0
        &&& match self {
            FoldingFactor::Constant(f) => num_variables > MAX_NUM_VARIABLES_TO_SEND_COEFFS ==> *f
                > 0,
            FoldingFactor::ConstantFromSecondRound(first, f) => {
                &&& *first <= num_variables
                &&& num_variables - *first >= MAX_NUM_VARIABLES_TO_SEND_COEFFS ==> *f > 0
            },
        }
    }

    pub fn at_round(&self, round: usize) -> (r: usize)
        ensures
            r == self.spec_at_round(round as nat),
    {
        match self {
            FoldingFactor::Constant(f) => *f,
            FoldingFactor::ConstantFromSecondRound(first, f) => if round == 0 {
                *first
            } else {
                *f
            },
        }
    }

    /// Checks that no factor is zero and none exceeds `num_variables`.
    pub fn check_validity(&self, num_variables: usize) -> (r: Result<(), FoldingFactorError>)
        ensures
            r == self.validity(num_variables),
    {
        match self {
            FoldingFactor::Constant(f) => if *f > num_variables {
                Err(FoldingFactorError::TooLarge(*f, num_variables))
            } else if *f == 0 {
                Err(FoldingFactorError::ZeroFactor)
            } else {
                Ok(())
            },
            FoldingFactor::ConstantFromSecondRound(first, f) => if *first > num_variables {
                Err(FoldingFactorError::TooLarge(*first, num_variables))
            } else if *f > num_variables {
                Err(FoldingFactorError::TooLarge(*f, num_variables))
            } else if *f == 0 || *first == 0 {
                Err(FoldingFactorError::ZeroFactor)
            } else {
                Ok(())
            },
        }
    }

    /// Whether `compute_number_of_rounds` is defined for `num_variables`.
    pub fn rounds_are_defined(&self, num_variables: usize) -> (r: bool)
        ensures
            r == self.rounds_defined(num_variables as nat),
    {
        let m = MAX_NUM_VARIABLES_TO_SEND_COEFFS;
        match self {
            FoldingFactor::Constant(f) => {
                if num_variables <= m {
                    *f <= num_variables
                } else if *f == 0 {
                    false
                } else {
                    let n = div_ceil(num_variables - m, *f);
                    proof {
                        lemma_le_div_iff_mul_le(n as nat, num_variables as nat, *f as nat);
                    }
                    n <= num_variables / *f
                }
            },
            FoldingFactor::ConstantFromSecondRound(first, f) => {
                if *first > num_variables {
                    false
                } else {
                    let rest = num_variables - *first;
                    if rest < m {
                        true
                    } else if *f == 0 {
                        false
                    } else {
                        let n = div_ceil(rest - m, *f);
                        proof {
                            lemma_le_div_iff_mul_le(n as nat, rest as nat, *f as nat);
                        }
                        n <= rest / *f
                    }
                }
            },
        }
    }

    /// The number of folding rounds after the first and the number of final
    /// sumcheck rounds.
    pub fn compute_number_of_rounds(&self, num_variables: usize) -> (r: (usize, usize))
        requires
            self.rounds_defined(num_variables as nat),
        ensures
            r.0 == self.number_of_rounds(num_variables as nat).0,
            r.1 == self.number_of_rounds(num_variables as nat).1,
    {
        match self {
            FoldingFactor::Constant(f) => {
                if num_variables <= MAX_NUM_VARIABLES_TO_SEND_COEFFS {
                    return (0, num_variables - *f);
                }
                let n = div_ceil(num_variables - MAX_NUM_VARIABLES_TO_SEND_COEFFS, *f);
                proof {
                    assert(n * (*f) <= num_variables);
                }
                (n - 1, num_variables - n * *f)
            },
            FoldingFactor::ConstantFromSecondRound(first, f) => {
                let rest = num_variables - *first;
                if rest < MAX_NUM_VARIABLES_TO_SEND_COEFFS {
                    return (0, rest);
                }
                let n = div_ceil(rest - MAX_NUM_VARIABLES_TO_SEND_COEFFS, *f);
                proof {
                    assert(n * (*f) <= rest);
                }
                (n, rest - n * *f)
            },
        }
    }
}

/// Number of queries under a list-decoding regime for a protocol security
/// level of `sec` bits at inverse rate `2^log_inv_rate`: `2 sec / log_inv_rate`
/// for `ProvableList` and `sec / log_inv_rate` for `ConjectureList`, rounded up.
pub open spec fn list_queries(soundness_type: SoundnessType, sec: nat, log_inv_rate: nat) -> nat {
    match soundness_type {
        SoundnessType::ProvableList => ceil_div(2 * sec, log_inv_rate),
        _ => ceil_div(sec, log_inv_rate),
    }
}

/// The query count of the list-decoding regimes; `None` under
/// `UniqueDecoding`, whose count is a ratio of logarithms.
pub fn list_decoding_queries(
    soundness_type: SoundnessType,
    protocol_security_level: usize,
    log_inv_rate: usize,
) -> (r: Option<usize>)
    requires
        log_inv_rate > 0,
        2 * protocol_security_level <= usize::MAX,
    ensures
        soundness_type == SoundnessType::UniqueDecoding <==> r is None,
        r matches Some(q) ==> q == list_queries(
            soundness_type,
            protocol_security_level as nat,
            log_inv_rate as nat,
        ),
{
    match soundness_type {
        SoundnessType::UniqueDecoding => None,
        SoundnessType::ProvableList => Some(div_ceil(2 * protocol_security_level, log_inv_rate)),
        SoundnessType::ConjectureList => Some(div_ceil(protocol_security_level, log_inv_rate)),
    }
}

proof fn lemma_ceil_div_monotone(a: nat, b: nat, d: nat)
    requires
        a <= b,
        d > 0,
    ensures
        ceil_div(a, d) <= ceil_div(b, d),
{
    vstd::arithmetic::div_mod::lemma_div_is_ordered((a + d - 1) as int, (b + d - 1) as int, d as int);
}

/// Under a list-decoding regime and at a fixed rate, the number of queries
/// never decreases as the protocol security level grows, and never grows as
/// it decreases.
pub proof fn lemma_list_queries_monotone(
    soundness_type: SoundnessType,
    sec1: nat,
    sec2: nat,
    log_inv_rate: nat,
)
    requires
        log_inv_rate > 0,
        sec1 <= sec2,
    ensures
        list_queries(soundness_type, sec1, log_inv_rate) <= list_queries(
            soundness_type,
            sec2,
            log_inv_rate,
        ),
{
    lemma_ceil_div_monotone(2 * sec1, 2 * sec2, log_inv_rate);
    lemma_ceil_div_monotone(sec1, sec2, log_inv_rate);
}

/// The integer shape of one folding round.
#[derive(Debug, Clone, Copy, PartialEq, Eq, Structural, Hash)]
pub struct RoundShape {
    /// Variables left once this round's fold is done.
    pub num_variables: usize,
    /// Inverse rate, as a logarithm, before this round's fold; the round's
    /// queries are drawn at this rate.
    pub log_inv_rate: usize,
    /// Inverse rate, as a logarithm, after this round's fold.
    pub next_rate: usize,
}

impl FoldingFactor {
    /// Variables folded by rounds `0..=r`.
    pub open spec fn folded(&self, r: nat) -> nat
        decreases r,
    {
        if r == 0 {
            self.spec_at_round(0)
        } else {
            self.folded((r - 1) as nat) + self.spec_at_round(r)
        }
    }

    /// Inverse rate, as a logarithm, before round `r`: each fold by `f`
    /// variables raises it by `f - 1`.
    pub open spec fn rate_before(&self, start: nat, r: nat) -> int
        decreases r,
    {
        if r == 0 {
            start as int
        } else {
            self.rate_before(start, (r - 1) as nat) + self.spec_at_round((r - 1) as nat) - 1
        }
    }

    /// Every round after the first folds by the second round's factor.
    proof fn lemma_later_rounds(&self, r: nat)
        ensures
            r > 0 ==> self.spec_at_round(r) == self.spec_at_round(1),
            r == 0 ==> self.spec_at_round(r) == self.spec_at_round(0),
    {
    }

    proof fn lemma_folded_closed_form(&self, r: nat)
        ensures
            self.folded(r) == self.spec_at_round(0) + r * self.spec_at_round(1),
        decreases r,
    {
        self.lemma_later_rounds(r);
        if r > 0 {
            self.lemma_folded_closed_form((r - 1) as nat);
            assert(r * self.spec_at_round(1) == (r - 1) * self.spec_at_round(1) + self.spec_at_round(1))
                by (nonlinear_arith);
        }
    }

    proof fn lemma_rate_bound(&self, start: nat, r: nat)
        requires
            self.spec_at_round(0) > 0,
            self.spec_at_round(1) > 0,
        ensures
            start <= self.rate_before(start, r),
            r > 0 ==> self.rate_before(start, r) <= start + self.folded((r - 1) as nat),
        decreases r,
    {
        if r > 0 {
            let k = (r - 1) as nat;
            self.lemma_later_rounds(k);
            assert(self.rate_before(start, r) == self.rate_before(start, k) + self.spec_at_round(k)
                - 1);
            if k > 0 {
                self.lemma_rate_bound(start, k);
                assert(self.folded(k) == self.folded((k - 1) as nat) + self.spec_at_round(k));
            } else {
                assert(self.rate_before(start, 0) == start);
                assert(self.folded(0) == self.spec_at_round(0));
            }
        }
    }

    /// The shape of each folding round after the first, and the final inverse
    /// rate, for `num_variables` variables and a starting inverse rate of
    /// `2^starting_log_inv_rate`.
    pub fn round_shapes(&self, num_variables: usize, starting_log_inv_rate: usize) -> (r: (
        Vec<RoundShape>,
        usize,
    ))
        requires
            self.validity(num_variables) is Ok,
            self.rounds_defined(num_variables as nat),
            num_variables + starting_log_inv_rate <= usize::MAX,
        ensures
            r.0@.len() == self.number_of_rounds(num_variables as nat).0,
            forall|i: int|
                0 <= i < r.0@.len() ==> {
                    &&& (#[trigger] r.0@[i]).num_variables == num_variables - self.folded(i as nat)
                    &&& r.0@[i].log_inv_rate == self.rate_before(starting_log_inv_rate as nat, i as nat)
                    &&& r.0@[i].next_rate == self.rate_before(
                        starting_log_inv_rate as nat,
                        (i + 1) as nat,
                    )
                },
            r.1 == self.rate_before(
                starting_log_inv_rate as nat,
                self.number_of_rounds(num_variables as nat).0 as nat,
            ),
            num_variables - self.folded(self.number_of_rounds(num_variables as nat).0 as nat)
                == self.number_of_rounds(num_variables as nat).1,
    {
        let (num_rounds, final_sumcheck_rounds) = self.compute_number_of_rounds(num_variables);
        let ghost start = starting_log_inv_rate as nat;
        let ghost nv = num_variables as nat;
        proof {
            self.lemma_folded_closed_form(num_rounds as nat);
            assert(nv - self.folded(num_rounds as nat) == final_sumcheck_rounds) by {
                match self {
                    FoldingFactor::Constant(f) => {
                        if nv > MAX_NUM_VARIABLES_TO_SEND_COEFFS {
                            assert(num_rounds * (*f as int) + *f == (num_rounds + 1) * (*f as int))
                                by (nonlinear_arith);
                        }
                    },
                    FoldingFactor::ConstantFromSecondRound(first, f) => {},
                }
            }
        }
        proof {
            assert(self.spec_at_round(0) > 0 && self.spec_at_round(1) > 0) by {
                match self {
                    FoldingFactor::Constant(f) => {},
                    FoldingFactor::ConstantFromSecondRound(first, f) => {},
                }
            }
        }
        let mut shapes: Vec<RoundShape> = Vec::new();
        let mut log_inv_rate = starting_log_inv_rate;
        let mut nv_left = num_variables - self.at_round(0);
        let mut round: usize = 0;
        while round < num_rounds
            invariant
                self.validity(num_variables) is Ok,
                num_variables + starting_log_inv_rate <= usize::MAX,
                nv - self.folded(num_rounds as nat) == final_sumcheck_rounds,
                self.folded(num_rounds as nat) == self.spec_at_round(0) + num_rounds
                    * self.spec_at_round(1),
                self.spec_at_round(0) > 0,
                self.spec_at_round(1) > 0,
                start == starting_log_inv_rate,
                nv == num_variables,
                round <= num_rounds,
                shapes@.len() == round,
                nv_left == nv - self.folded(round as nat),
                log_inv_rate == self.rate_before(start, round as nat),
                forall|i: int|
                    0 <= i < round ==> {
                        &&& (#[trigger] shapes@[i]).num_variables == nv - self.folded(i as nat)
                        &&& shapes@[i].log_inv_rate == self.rate_before(start, i as nat)
                        &&& shapes@[i].next_rate == self.rate_before(start, (i + 1) as nat)
                    },
            decreases num_rounds - round,
        {
            proof {
                self.lemma_folded_closed_form(round as nat);
                self.lemma_folded_closed_form((round + 1) as nat);
                assert(round * self.spec_at_round(1) + self.spec_at_round(1) <= num_rounds
                    * self.spec_at_round(1)) by (nonlinear_arith)
                    requires
                        round < num_rounds,
                ;
                assert((round + 1) * self.spec_at_round(1) == round * self.spec_at_round(1)
                    + self.spec_at_round(1)) by (nonlinear_arith);
                self.lemma_rate_bound(start, (round + 1) as nat);
                assert(self.spec_at_round((round + 1) as nat) == self.spec_at_round(1));
                self.lemma_later_rounds(round as nat);
                self.lemma_later_rounds((round + 1) as nat);
                assert(self.rate_before(start, (round + 1) as nat) == self.rate_before(
                    start,
                    round as nat,
                ) + self.spec_at_round(round as nat) - 1);
                assert(round * self.spec_at_round(1) <= num_rounds * self.spec_at_round(1))
                    by (nonlinear_arith)
                    requires
                        round <= num_rounds,
                ;
            }
            let next_rate = log_inv_rate + (self.at_round(round) - 1);
            shapes.push(RoundShape { num_variables: nv_left, log_inv_rate, next_rate });
            nv_left = nv_left - self.at_round(round + 1);
            log_inv_rate = next_rate;
            round = round + 1;
        }
        (shapes, log_inv_rate)
    }
}

/// The protocol-level inputs of the parameter derivation; `H` and `C` are the
/// commitment's hash and compression primitives, carried through unread.
#[derive(Debug, Clone)]
pub struct WhirParameters<H, C> {
    pub initial_statement: bool,
    pub starting_log_inv_rate: usize,
    pub folding_factor: FoldingFactor,
    pub soundness_type: SoundnessType,
    pub security_level: usize,
    pub pow_bits: usize,
    pub fold_optimisation: FoldType,
    pub merkle_hash: H,
    pub merkle_compress: C,
}

} // verus!
