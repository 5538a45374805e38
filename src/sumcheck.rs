//! One round of the sumcheck protocol for a multilinear polynomial against an
//! aggregated weight table.
use crate::field::{modp, FieldElement};
use crate::poly::{add_window, scaled_eq, vals, CoefficientList, EvaluationsList, MultilinearPoint};
use crate::statement::{combine_prefix, Statement, Weights};
use rayon::iter::{IndexedParallelIterator, ParallelIterator};
use rayon::slice::ParallelSlice;
use vstd::arithmetic::power2::pow2;
use vstd::prelude::*;

verus! {

/// Sum, over the first `k` adjacent pairs `(2i, 2i+1)`, of the product of the
/// constant terms of the linear functions through `p` and through `w`.
pub open spec fn pair_c0(p: Seq<int>, w: Seq<int>, k: nat) -> int
    decreases k,
{
    if k == 0 {
        0
    } else {
        let i = 2 * (k - 1);
        modp(pair_c0(p, w, (k - 1) as nat) + modp(p[i] * w[i]))
    }
}

/// Sum, over the first `k` adjacent pairs `(2i, 2i+1)`, of the product of the
/// slopes of the linear functions through `p` and through `w`.
pub open spec fn pair_c2(p: Seq<int>, w: Seq<int>, k: nat) -> int
    decreases k,
{
    if k == 0 {
        0
    } else {
        let i = 2 * (k - 1);
        modp(
            pair_c2(p, w, (k - 1) as nat) + modp(modp(p[i + 1] - p[i]) * modp(w[i + 1] - w[i])),
        )
    }
}

/// The evaluations at `0, 1, 2` of the quadratic `c0 + c1 X + c2 X^2` whose
/// values at `0` and `1` add up to `sum`.
pub open spec fn quadratic_evals(c0: int, c2: int, sum: int) -> Seq<int> {
    let c1 = modp(modp(sum - modp(2 * c0)) - c2);
    let e0 = c0;
    let e1 = modp(modp(c0 + c1) + c2);
    let e2 = modp(modp(modp(e1 + c1) + c2) + modp(2 * c2));
    seq![e0, e1, e2]
}

/// The weight table after adding `rands[i] * eq_{points[i]}` for each `i < k`.
pub open spec fn add_equalities(
    w: Seq<int>,
    points: Seq<MultilinearPoint>,
    rands: Seq<FieldElement>,
    k: nat,
) -> Seq<int>
    decreases k,
{
    if k == 0 {
        w
    } else {
        add_window(
            add_equalities(w, points, rands, (k - 1) as nat),
            0,
            scaled_eq(vals(points[k - 1].0@), rands[k - 1]@),
        )
    }
}

/// The sum after adding `rands[i] * evals[i]` for each `i < k`.
pub open spec fn add_claims(s: int, rands: Seq<FieldElement>, evals: Seq<FieldElement>, k: nat) -> int
    decreases k,
{
    if k == 0 {
        s
    } else {
        modp(add_claims(s, rands, evals, (k - 1) as nat) + modp(rands[k - 1]@ * evals[k - 1]@))
    }
}

/// `x` is `P * (x / P) + modp(x)`.
proof fn lemma_split(x: int)
    ensures
        x == (crate::field::P as int) * (x / (crate::field::P as int)) + modp(x),
{
    vstd::arithmetic::div_mod::lemma_fundamental_div_mod(x, crate::field::P as int);
}

/// The round polynomial's values at `0` and `1` add up to the claimed sum, and
/// its second difference `S(2) - 2 S(1) + S(0)` is twice its leading
/// coefficient.
pub proof fn lemma_quadratic_evals(c0: int, c2: int, sum: int)
    ensures
        modp(quadratic_evals(c0, c2, sum)[0] + quadratic_evals(c0, c2, sum)[1]) == modp(sum),
        modp(
            quadratic_evals(c0, c2, sum)[2] - 2 * quadratic_evals(c0, c2, sum)[1]
                + quadratic_evals(c0, c2, sum)[0],
        ) == modp(2 * c2),
{
    let pp = crate::field::P as int;
    let m1 = modp(2 * c0);
    let a = modp(sum - m1);
    let c1 = modp(a - c2);
    let c = modp(c0 + c1);
    let e1 = modp(c + c2);
    let f = modp(e1 + c1);
    let g = modp(f + c2);
    let m2 = modp(2 * c2);
    let e2 = modp(g + m2);
    lemma_split(2 * c0);
    lemma_split(sum - m1);
    lemma_split(a - c2);
    lemma_split(c0 + c1);
    lemma_split(c + c2);
    lemma_split(e1 + c1);
    lemma_split(f + c2);
    lemma_split(2 * c2);
    lemma_split(g + m2);
    let q0 = (2 * c0) / pp;
    let qa = (sum - m1) / pp;
    let qb = (a - c2) / pp;
    let qc = (c0 + c1) / pp;
    let qd = (c + c2) / pp;
    let qf = (e1 + c1) / pp;
    let qg = (f + c2) / pp;
    let qh = (2 * c2) / pp;
    let qi = (g + m2) / pp;
    assert(c0 + e1 == sum + pp * (q0 - qa - qb - qc - qd));
    vstd::arithmetic::div_mod::lemma_mod_multiples_vanish(q0 - qa - qb - qc - qd, sum, pp);
    assert(e2 - 2 * e1 + c0 == 2 * c2 + pp * (qc + qd - qf - qg - qh - qi));
    vstd::arithmetic::div_mod::lemma_mod_multiples_vanish(qc + qd - qf - qg - qh - qi, 2 * c2, pp);
}

proof fn lemma_pairs_zero_weights(p: Seq<int>, w: Seq<int>, k: nat)
    requires
        2 * k <= w.len(),
        p.len() == w.len(),
        forall|i: int| 0 <= i < w.len() ==> #[trigger] w[i] == 0,
    ensures
        pair_c0(p, w, k) == 0,
        pair_c2(p, w, k) == 0,
    decreases k,
{
    if k > 0 {
        lemma_pairs_zero_weights(p, w, (k - 1) as nat);
        let i = 2 * (k - 1);
        assert(w[i] == 0 && w[i + 1] == 0);
        assert(modp(p[i] * w[i]) == 0);
        assert(modp(w[i + 1] - w[i]) == 0);
        assert(modp(p[i + 1] - p[i]) * 0 == 0);
    }
}

/// With no constraints, the weights are all zero and the claimed sum is zero,
/// so every round polynomial is identically zero.
pub proof fn lemma_no_constraints_zero_round(coeffs: CoefficientList, statement: Statement, r: int)
    requires
        coeffs.wf(),
        statement.num_variables == coeffs.num_variables,
        statement.constraints@.len() == 0,
    ensures
        ({
            let p = crate::poly::wavelet(vals(coeffs.coeffs@));
            let (t, s) = statement.combined(r);
            let k = (p.len() / 2) as nat;
            quadratic_evals(pair_c0(p, t, k), pair_c2(p, t, k), s) == seq![0int, 0int, 0int]
        }),
{
    let p = crate::poly::wavelet(vals(coeffs.coeffs@));
    crate::poly::lemma_wavelet_len(vals(coeffs.coeffs@), coeffs.num_variables as nat);
    let (t, s) = statement.combined(r);
    let k = (p.len() / 2) as nat;
    assert(s == 0);
    assert(t.len() == p.len());
    lemma_pairs_zero_weights(p, t, k);
    assert(quadratic_evals(0, 0, 0) =~= seq![0int, 0int, 0int]);
}

/// Every entry of a scaled equality table is a field value.
proof fn lemma_scaled_eq_range(z: Seq<int>, s: int)
    requires
        0 <= s < crate::field::P,
    ensures
        forall|i: int|
            0 <= i < scaled_eq(z, s).len() ==> 0 <= #[trigger] scaled_eq(z, s)[i] < crate::field::P,
    decreases z.len(),
{
    if z.len() > 0 {
        let s1 = modp(s * z[0]);
        let s0 = modp(s - s1);
        lemma_scaled_eq_range(z.drop_first(), s0);
        lemma_scaled_eq_range(z.drop_first(), s1);
        crate::poly::lemma_scaled_eq_len(z.drop_first(), s0);
        crate::poly::lemma_scaled_eq_len(z.drop_first(), s1);
        let a = scaled_eq(z.drop_first(), s0);
        let b = scaled_eq(z.drop_first(), s1);
        assert forall|i: int| 0 <= i < scaled_eq(z, s).len() implies 0 <= #[trigger] scaled_eq(z, s)[i] < crate::field::P by {
            if i < a.len() {
                assert(scaled_eq(z, s)[i] == a[i]);
            } else {
                assert(scaled_eq(z, s)[i] == b[i - a.len()]);
            }
        }
    }
}

/// With one evaluation constraint `p(z) = v` and randomness `1`, the weights
/// are the equality indicator of `z`, the claimed sum is `v`, the round
/// polynomial's values at `0` and `1` add up to `v`, and its second
/// difference is twice its leading coefficient.
pub proof fn lemma_single_evaluation_round(coeffs: CoefficientList, statement: Statement)
    requires
        coeffs.wf(),
        statement.wf(),
        statement.num_variables == coeffs.num_variables,
        statement.constraints@.len() == 1,
        statement.constraints@[0].0 is Evaluation,
    ensures
        ({
            let p = crate::poly::wavelet(vals(coeffs.coeffs@));
            let (t, s) = statement.combined(1);
            let k = (p.len() / 2) as nat;
            let e = quadratic_evals(pair_c0(p, t, k), pair_c2(p, t, k), s);
            &&& s == statement.constraints@[0].1@
            &&& t == scaled_eq(vals(statement.constraints@[0].0->point.0@), 1)
            &&& modp(e[0] + e[1]) == s
            &&& modp(e[2] - 2 * e[1] + e[0]) == modp(2 * pair_c2(p, t, k))
        }),
{
    let c = statement.constraints@[0];
    let v = c.1@;
    let z = vals(c.0->point.0@);
    let n = statement.num_variables as nat;
    crate::field::FieldElement::lemma_range(c.1);
    vstd::arithmetic::div_mod::lemma_small_mod(v as nat, crate::field::P as nat);
    vstd::arithmetic::div_mod::lemma_small_mod(1, crate::field::P as nat);
    assert(statement.constraints@[0].0.spec_num_variables() == n);
    let (t0, s0, g0) = combine_prefix(statement.constraints@, 1, n, 0);
    assert(g0 == 1);
    let (t, s) = statement.combined(1);
    assert(s == v);
    crate::poly::lemma_scaled_eq_len(z, 1);
    lemma_scaled_eq_range(z, 1);
    let eq = scaled_eq(z, 1);
    assert(c.0.scaled_table(1) == eq);
    assert forall|i: int| 0 <= i < eq.len() implies modp(t0[i] + eq[i]) == eq[i] by {
        vstd::arithmetic::div_mod::lemma_small_mod(eq[i] as nat, crate::field::P as nat);
    }
    assert(t =~= eq);
    let p = crate::poly::wavelet(vals(coeffs.coeffs@));
    let k = (p.len() / 2) as nat;
    lemma_quadratic_evals(pair_c0(p, t, k), pair_c2(p, t, k), s);
}

/// A univariate polynomial of degree at most two, by its evaluations at
/// `0, 1, 2`, for the round that reduces `n_variables` variables.
#[derive(Debug, Clone, PartialEq, Eq)]
pub struct SumcheckPolynomial {
    pub evaluations: Vec<FieldElement>,
    pub n_variables: usize,
}

impl SumcheckPolynomial {
    pub fn new(evaluations: Vec<FieldElement>, n_variables: usize) -> (r: Self)
        ensures
            r.evaluations@ == evaluations@,
            r.n_variables == n_variables,
    {
        SumcheckPolynomial { evaluations, n_variables }
    }

    pub fn evaluations(&self) -> (r: &[FieldElement])
        ensures
            r@ == self.evaluations@,
    {
        self.evaluations.as_slice()
    }
}

/// The contributions of one adjacent pair: the product of the constant
/// terms and the product of the slopes.
fn pair_terms(p0: FieldElement, p1: FieldElement, w0: FieldElement, w1: FieldElement) -> (r: (
    FieldElement,
    FieldElement,
))
    ensures
        r.0@ == modp(p0@ * w0@),
        r.1@ == modp(modp(p1@ - p0@) * modp(w1@ - w0@)),
{
    (p0.mul(w0), p1.sub(p0).mul(w1.sub(w0)))
}

fn zero_pair() -> (r: (FieldElement, FieldElement))
    ensures
        r.0@ == 0,
        r.1@ == 0,
{
    (FieldElement::zero(), FieldElement::zero())
}

fn add_pairs(a: (FieldElement, FieldElement), b: (FieldElement, FieldElement)) -> (r: (
    FieldElement,
    FieldElement,
))
    ensures
        r.0@ == modp(a.0@ + b.0@),
        r.1@ == modp(a.1@ + b.1@),
{
    (a.0.add(b.0), a.1.add(b.1))
}

/// Relies on rayon's `par_chunks_exact(2)`, `zip`, `map` and `reduce`: the
/// pairs are mapped through `pair_terms` and combined with `add_pairs`, which
/// adds in the field, with identity `zero_pair`. Field addition is
/// associative, so the result is the sum over all pairs, whatever grouping
/// rayon chose.
#[verifier::external_body]
fn par_pair_sums(p: &[FieldElement], w: &[FieldElement]) -> (r: (FieldElement, FieldElement))
    requires
        p@.len() == w@.len(),
        p@.len() % 2 == 0,
    ensures
        r.0@ == pair_c0(vals(p@), vals(w@), p@.len() / 2),
        r.1@ == pair_c2(vals(p@), vals(w@), p@.len() / 2),
{
    p.par_chunks_exact(2)
        .zip(w.par_chunks_exact(2))
        .map(|(p_at, w_at)| pair_terms(p_at[0], p_at[1], w_at[0], w_at[1]))
        .reduce(zero_pair, add_pairs)
}

/// The prover's state for one sumcheck round: the polynomial's evaluations,
/// the aggregated weights and the claimed weighted sum.
#[derive(Debug)]
pub struct SumcheckSingle {
    /// Evaluations of the polynomial `p(X)`.
    pub evaluation_of_p: EvaluationsList,
    /// Evaluations of the aggregated constraint weights.
    pub weights: EvaluationsList,
    /// Accumulated claimed sum.
    pub sum: FieldElement,
}

impl SumcheckSingle {
    pub open spec fn wf(&self) -> bool {
        &&& self.evaluation_of_p.wf()
        &&& self.weights.wf()
        &&& self.weights.num_variables == self.evaluation_of_p.num_variables
    }

    /// The round polynomial's evaluations at `0, 1, 2`.
    pub open spec fn round_evals(&self) -> Seq<int> {
        let p = vals(self.evaluation_of_p.evals@);
        let w = vals(self.weights.evals@);
        let k = (p.len() / 2) as nat;
        quadratic_evals(pair_c0(p, w, k), pair_c2(p, w, k), self.sum@)
    }

    /// The state for the polynomial with coefficients `coeffs` under the
    /// statement's constraints combined with randomness `r`.
    pub fn new(coeffs: CoefficientList, statement: &Statement, r: FieldElement) -> (s: Self)
        requires
            coeffs.wf(),
            statement.wf(),
            statement.num_variables == coeffs.num_variables,
        ensures
            s.wf(),
            s.evaluation_of_p.num_variables == coeffs.num_variables,
            vals(s.evaluation_of_p.evals@) == crate::poly::wavelet(vals(coeffs.coeffs@)),
            vals(s.weights.evals@) == statement.combined(r@).0,
            s.sum@ == statement.combined(r@).1,
    {
        // The coefficients are in memory, so the weight table's size fits too.
        let num_coeffs = coeffs.coeffs.len();
        proof {
            assert(pow2(statement.num_variables as nat) == num_coeffs);
        }
        let (weights, sum) = statement.combine(r);
        SumcheckSingle { evaluation_of_p: EvaluationsList::from_coefficients(coeffs), weights, sum }
    }

    pub fn num_variables(&self) -> (r: usize)
        ensures
            r == self.evaluation_of_p.num_variables,
    {
        self.evaluation_of_p.num_variables
    }

    /// Adds `rands[i] * eq_{points[i]}` to the weights and `rands[i] * evals[i]`
    /// to the sum, for each `i`.
    pub fn add_new_equality(
        &mut self,
        points: &[MultilinearPoint],
        combination_randomness: &[FieldElement],
        evaluations: &[FieldElement],
    )
        requires
            old(self).wf(),
            combination_randomness@.len() == points@.len(),
            combination_randomness@.len() == evaluations@.len(),
            forall|i: int|
                0 <= i < points@.len() ==> (#[trigger] points@[i]).0@.len()
                    == old(self).weights.num_variables,
        ensures
            final(self).wf(),
            final(self).evaluation_of_p == old(self).evaluation_of_p,
            final(self).weights.num_variables == old(self).weights.num_variables,
            vals(final(self).weights.evals@) == add_equalities(
                vals(old(self).weights.evals@),
                points@,
                combination_randomness@,
                points@.len(),
            ),
            final(self).sum@ == add_claims(
                old(self).sum@,
                combination_randomness@,
                evaluations@,
                points@.len(),
            ),
    {
        let mut i: usize = 0;
        while i < points.len()
            invariant
                self.wf(),
                i <= points@.len(),
                combination_randomness@.len() == points@.len(),
                self.evaluation_of_p == old(self).evaluation_of_p,
                self.weights.num_variables == old(self).weights.num_variables,
                forall|j: int|
                    0 <= j < points@.len() ==> (#[trigger] points@[j]).0@.len()
                        == old(self).weights.num_variables,
                vals(self.weights.evals@) == add_equalities(
                    vals(old(self).weights.evals@),
                    points@,
                    combination_randomness@,
                    i as nat,
                ),
                self.sum == old(self).sum,
            decreases points@.len() - i,
        {
            crate::poly::eval_eq(&points[i].0, &mut self.weights.evals, combination_randomness[i]);
            i = i + 1;
        }
        let mut j: usize = 0;
        while j < evaluations.len()
            invariant
                self.wf(),
                j <= evaluations@.len(),
                combination_randomness@.len() == evaluations@.len(),
                self.evaluation_of_p == old(self).evaluation_of_p,
                self.weights.num_variables == old(self).weights.num_variables,
                vals(self.weights.evals@) == add_equalities(
                    vals(old(self).weights.evals@),
                    points@,
                    combination_randomness@,
                    points@.len(),
                ),
                self.sum@ == add_claims(
                    old(self).sum@,
                    combination_randomness@,
                    evaluations@,
                    j as nat,
                ),
            decreases evaluations@.len() - j,
        {
            self.sum = self.sum.add(combination_randomness[j].mul(evaluations[j]));
            j = j + 1;
        }
    }

    /// The round polynomial `S(X) = sum_b p(X, b) w(X, b)`, by its values at
    /// `0, 1, 2`; its middle coefficient comes from `S(0) + S(1) = sum`.
    pub fn compute_sumcheck_polynomial(&self) -> (r: SumcheckPolynomial)
        requires
            self.wf(),
            self.evaluation_of_p.num_variables >= 1,
        ensures
            vals(r.evaluations@) == self.round_evals(),
            r.n_variables == 1,
    {
        proof {
            vstd::arithmetic::power2::lemma_pow2_unfold(self.evaluation_of_p.num_variables as nat);
        }
        let (c0, c2) = par_pair_sums(self.evaluation_of_p.evals.as_slice(), self.weights.evals.as_slice());
        let c1 = self.sum.sub(c0.double()).sub(c2);
        let eval_0 = c0;
        let eval_1 = c0.add(c1).add(c2);
        let eval_2 = eval_1.add(c1).add(c2).add(c2.double());
        let evaluations = vec![eval_0, eval_1, eval_2];
        proof {
            assert(vals(evaluations@) =~= self.round_evals());
        }
        SumcheckPolynomial::new(evaluations, 1)
    }
}

} // verus!
