//! Constraints on a multilinear polynomial, and their aggregation into one
//! weight table and one claimed sum.
use crate::field::{modp, FieldElement};
use crate::poly::{
    add_window, eval_eq, lemma_scaled_eq_len, scaled_eq, vals, EvaluationsList, MultilinearPoint,
};
use vstd::arithmetic::power2::pow2;
use vstd::prelude::*;

verus! {

/// How a constraint weighs the polynomial's evaluations over the hypercube.
#[derive(Debug, Clone, PartialEq, Eq)]
pub enum Weights {
    /// The polynomial's value at a point: the weights are the point's
    /// equality indicator.
    Evaluation { point: MultilinearPoint },
    /// An arbitrary linear combination of the evaluations.
    Linear { weight: EvaluationsList },
}

impl Weights {
    /// The weight table of this constraint, scaled by `s`.
    pub open spec fn scaled_table(&self, s: int) -> Seq<int> {
        match self {
            Weights::Evaluation { point } => scaled_eq(vals(point.0@), s),
            Weights::Linear { weight } => Seq::new(
                weight.evals@.len(),
                |i: int| modp(weight.evals@[i]@ * s),
            ),
        }
    }

    pub open spec fn spec_num_variables(&self) -> nat {
        match self {
            Weights::Evaluation { point } => point.0@.len(),
            Weights::Linear { weight } => weight.num_variables as nat,
        }
    }

    pub open spec fn wf(&self) -> bool {
        match self {
            Weights::Evaluation { point } => true,
            Weights::Linear { weight } => weight.wf(),
        }
    }

    /// A constraint on the value at `point`.
    pub fn evaluation(point: MultilinearPoint) -> (r: Self)
        ensures
            r == (Weights::Evaluation { point }),
    {
        Weights::Evaluation { point }
    }

    /// A constraint on the linear combination with the given weights.
    pub fn linear(weight: EvaluationsList) -> (r: Self)
        ensures
            r == (Weights::Linear { weight }),
    {
        Weights::Linear { weight }
    }

    pub fn num_variables(&self) -> (r: usize)
        ensures
            r == self.spec_num_variables(),
    {
        match self {
            Weights::Evaluation { point } => point.0.len(),
            Weights::Linear { weight } => weight.num_variables,
        }
    }

    /// Adds this constraint's weights, scaled by `factor`, into `out`.
    pub fn accumulate(&self, out: &mut EvaluationsList, factor: FieldElement)
        requires
            self.wf(),
            old(out).wf(),
            self.spec_num_variables() == old(out).num_variables,
        ensures
            final(out).wf(),
            final(out).num_variables == old(out).num_variables,
            vals(final(out).evals@) == add_window(
                vals(old(out).evals@),
                0,
                self.scaled_table(factor@),
            ),
    {
        match self {
            Weights::Evaluation { point } => {
                eval_eq(&point.0, &mut out.evals, factor);
            },
            Weights::Linear { weight } => {
                let n = out.evals.len();
                let ghost base = vals(out.evals@);
                let ghost t = self.scaled_table(factor@);
                let mut i: usize = 0;
                while i < n
                    invariant
                        i <= n,
                        n == out.evals@.len(),
                        n == weight.evals@.len(),
                        out.wf(),
                        out.num_variables == old(out).num_variables,
                        t.len() == n,
                        forall|j: int| 0 <= j < n ==> #[trigger] t[j] == modp(weight.evals@[j]@ * factor@),
                        forall|j: int|
                            0 <= j < n ==> #[trigger] vals(out.evals@)[j] == if j < i {
                                modp(base[j] + t[j])
                            } else {
                                base[j]
                            },
                    decreases n - i,
                {
                    let v = out.evals[i].add(weight.evals[i].mul(factor));
                    let ghost prev = vals(out.evals@);
                    out.evals.set(i, v);
                    proof {
                        assert(vals(out.evals@) =~= prev.update(i as int, v@));
                        assert(prev[i as int] == base[i as int]);
                    }
                    i = i + 1;
                }
                proof {
                    assert(vals(out.evals@) =~= add_window(base, 0, t));
                }
            },
        }
    }
}

/// A list of constraints `(weights, claimed value)` on a polynomial in
/// `num_variables` variables.
#[derive(Debug, Clone)]
pub struct Statement {
    pub num_variables: usize,
    pub constraints: Vec<(Weights, FieldElement)>,
}

/// After the first `k` constraints of `cs`, with the `i`-th weighed by
/// `r^i`: the weight table, the claimed sum and the next power of `r`.
pub open spec fn combine_prefix(
    cs: Seq<(Weights, FieldElement)>,
    r: int,
    n: nat,
    k: nat,
) -> (Seq<int>, int, int)
    decreases k,
{
    if k == 0 {
        (Seq::new(pow2(n), |i: int| 0int), 0int, 1int)
    } else {
        let (t, s, g) = combine_prefix(cs, r, n, (k - 1) as nat);
        let c = cs[k - 1];
        (add_window(t, 0, c.0.scaled_table(g)), modp(s + modp(c.1@ * g)), modp(g * r))
    }
}

impl Statement {
    /// Every constraint is over the statement's number of variables.
    pub open spec fn wf(&self) -> bool {
        forall|i: int|
            0 <= i < self.constraints@.len() ==> {
                &&& (#[trigger] self.constraints@[i]).0.wf()
                &&& self.constraints@[i].0.spec_num_variables() == self.num_variables
            }
    }

    /// The aggregated weight table and claimed sum under combination
    /// randomness `r`.
    pub open spec fn combined(&self, r: int) -> (Seq<int>, int) {
        let (t, s, g) = combine_prefix(
            self.constraints@,
            r,
            self.num_variables as nat,
            self.constraints@.len(),
        );
        (t, s)
    }

    /// A statement with no constraints.
    pub fn new(num_variables: usize) -> (r: Self)
        ensures
            r.wf(),
            r.num_variables == num_variables,
            r.constraints@.len() == 0,
    {
        Statement { num_variables, constraints: Vec::new() }
    }

    pub fn num_variables(&self) -> (r: usize)
        ensures
            r == self.num_variables,
    {
        self.num_variables
    }

    /// Appends the constraint that the weighted sum is `sum`.
    pub fn add_constraint(&mut self, weights: Weights, sum: FieldElement)
        requires
            old(self).wf(),
            weights.wf(),
            weights.spec_num_variables() == old(self).num_variables,
        ensures
            final(self).wf(),
            final(self).num_variables == old(self).num_variables,
            final(self).constraints@ == old(self).constraints@.push((weights, sum)),
    {
        self.constraints.push((weights, sum));
    }

    /// Combines the constraints, the `i`-th weighed by `r^i`, into one weight
    /// table over the hypercube and one claimed sum.
    pub fn combine(&self, r: FieldElement) -> (res: (EvaluationsList, FieldElement))
        requires
            self.wf(),
            pow2(self.num_variables as nat) <= usize::MAX,
        ensures
            res.0.wf(),
            res.0.num_variables == self.num_variables,
            vals(res.0.evals@) == self.combined(r@).0,
            res.1@ == self.combined(r@).1,
    {
        let n = self.num_variables;
        let mut size: usize = 1;
        let mut i: usize = 0;
        proof {
            vstd::arithmetic::power2::lemma2_to64();
        }
        while i < n
            invariant
                i <= n,
                size == pow2(i as nat),
                pow2(n as nat) <= usize::MAX,
            decreases n - i,
        {
            proof {
                vstd::arithmetic::power2::lemma_pow2_unfold((i + 1) as nat);
                if i + 1 < n {
                    vstd::arithmetic::power2::lemma_pow2_strictly_increases(
                        (i + 1) as nat,
                        n as nat,
                    );
                }
            }
            size = size * 2;
            i = i + 1;
        }
        let mut evals: Vec<FieldElement> = Vec::new();
        while evals.len() < size
            invariant
                evals@.len() <= size,
                forall|j: int| 0 <= j < evals@.len() ==> (#[trigger] evals@[j])@ == 0,
            decreases size - evals@.len(),
        {
            evals.push(FieldElement::zero());
        }
        let mut combined = EvaluationsList { evals, num_variables: n };
        let mut sum = FieldElement::zero();
        let mut gamma = FieldElement::one();
        let ghost cs = self.constraints@;
        proof {
            assert(vals(combined.evals@) =~= combine_prefix(cs, r@, n as nat, 0).0);
        }
        let mut k: usize = 0;
        while k < self.constraints.len()
            invariant
                self.wf(),
                cs == self.constraints@,
                n == self.num_variables,
                k <= cs.len(),
                combined.wf(),
                combined.num_variables == n,
                vals(combined.evals@) == combine_prefix(cs, r@, n as nat, k as nat).0,
                sum@ == combine_prefix(cs, r@, n as nat, k as nat).1,
                gamma@ == combine_prefix(cs, r@, n as nat, k as nat).2,
            decreases cs.len() - k,
        {
            let c = &self.constraints[k];
            proof {
                assert(c.0.wf());
            }
            c.0.accumulate(&mut combined, gamma);
            sum = sum.add(c.1.mul(gamma));
            gamma = gamma.mul(r);
            k = k + 1;
        }
        proof {
            assert(cs.len() == k);
        }
        (combined, sum)
    }
}

} // verus!
