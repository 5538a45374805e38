//! Multilinear polynomials over the field: points, the coefficient and the
//! evaluation representation, and the equality-indicator table.
use crate::field::{modp, FieldElement};
use vstd::arithmetic::power2::{is_pow2, lemma_pow2_unfold, pow2};
use vstd::prelude::*;

verus! {

/// The values of a sequence of field elements.
pub open spec fn vals(s: Seq<FieldElement>) -> Seq<int> {
    s.map_values(|x: FieldElement| x@)
}

/// The change of basis from monomial coefficients to evaluations over the
/// Boolean hypercube. The top index bit is the first variable: the evaluations
/// with it at `0` are those of the low half of the coefficients, and those with
/// it at `1` add the transform of the high half.
pub open spec fn wavelet(c: Seq<int>) -> Seq<int>
    decreases c.len(),
{
    if c.len() <= 1 {
        c
    } else {
        let m = c.len() / 2;
        let l = wavelet(c.subrange(0, m as int));
        let h = wavelet(c.subrange(m as int, c.len() as int));
        l + Seq::new(m, |i: int| modp(l[i] + h[i]))
    }
}

/// The equality indicator of the point `z`, scaled by `s`, over the Boolean
/// hypercube: the entry at a vertex `b` is `s * prod_i (b_i z_i + (1 - b_i)(1 - z_i))`,
/// with `z[0]` matched against the top index bit.
pub open spec fn scaled_eq(z: Seq<int>, s: int) -> Seq<int>
    decreases z.len(),
{
    if z.len() == 0 {
        seq![s]
    } else {
        let s1 = modp(s * z[0]);
        let s0 = modp(s - s1);
        scaled_eq(z.drop_first(), s0) + scaled_eq(z.drop_first(), s1)
    }
}

/// `base` with `t` added, entry by entry, to the window that starts at `start`.
pub open spec fn add_window(base: Seq<int>, start: int, t: Seq<int>) -> Seq<int> {
    Seq::new(
        base.len(),
        |j: int|
            if start <= j < start + t.len() {
                modp(base[j] + t[j - start])
            } else {
                base[j]
            },
    )
}

pub proof fn lemma_wavelet_len(c: Seq<int>, k: nat)
    requires
        c.len() == pow2(k),
    ensures
        wavelet(c).len() == c.len(),
    decreases k,
{
    if k > 0 {
        lemma_pow2_unfold(k);
        let m = c.len() / 2;
        lemma_wavelet_len(c.subrange(0, m as int), (k - 1) as nat);
        lemma_wavelet_len(c.subrange(m as int, c.len() as int), (k - 1) as nat);
    } else {
        vstd::arithmetic::power2::lemma2_to64();
    }
}

pub proof fn lemma_scaled_eq_len(z: Seq<int>, s: int)
    ensures
        scaled_eq(z, s).len() == pow2(z.len()),
    decreases z.len(),
{
    if z.len() == 0 {
        vstd::arithmetic::power2::lemma2_to64();
    } else {
        lemma_pow2_unfold(z.len());
        lemma_scaled_eq_len(z.drop_first(), modp(s - modp(s * z[0])));
        lemma_scaled_eq_len(z.drop_first(), modp(s * z[0]));
    }
}

/// A point of the `k`-dimensional field space.
#[derive(Debug, Clone, PartialEq, Eq)]
pub struct MultilinearPoint(pub Vec<FieldElement>);

impl MultilinearPoint {
    /// The number of coordinates.
    pub fn num_variables(&self) -> (r: usize)
        ensures
            r == self.0@.len(),
    {
        self.0.len()
    }
}

/// A multilinear polynomial by its `2^num_variables` monomial coefficients;
/// the coefficient of `prod_{i in S} X_i` stands at the index whose set bits
/// are `S`.
#[derive(Debug, Clone, PartialEq, Eq)]
pub struct CoefficientList {
    pub coeffs: Vec<FieldElement>,
    pub num_variables: usize,
}

/// A multilinear polynomial by its `2^num_variables` evaluations over the
/// Boolean hypercube.
#[derive(Debug, Clone, PartialEq, Eq)]
pub struct EvaluationsList {
    pub evals: Vec<FieldElement>,
    pub num_variables: usize,
}

/// The exponent `k` of a power of two `n == 2^k`.
fn log2_strict(n: usize) -> (k: usize)
    requires
        is_pow2(n as int),
    ensures
        n == pow2(k as nat),
{
    let mut m: usize = n;
    let mut k: usize = 0;
    proof {
        vstd::arithmetic::power2::lemma2_to64();
        reveal(is_pow2);
    }
    while m > 1
        invariant
            is_pow2(m as int),
            n == m * pow2(k as nat),
            k < 64,
            pow2(64) == 0x10000000000000000,
            m >= 1,
        decreases m,
    {
        proof {
            lemma_pow2_unfold((k + 1) as nat);
            reveal(is_pow2);
            assert(m % 2 == 0);
            assert(pow2((k + 1) as nat) <= n) by (nonlinear_arith)
                requires
                    n == m * pow2(k as nat),
                    m >= 2,
                    pow2((k + 1) as nat) == 2 * pow2(k as nat),
            ;
            if k + 1 >= 64 {
                if k + 1 > 64 {
                    vstd::arithmetic::power2::lemma_pow2_strictly_increases(64, (k + 1) as nat);
                }
                assert(false);
            }
            assert(n == (m / 2) * pow2((k + 1) as nat)) by (nonlinear_arith)
                requires
                    n == m * pow2(k as nat),
                    m % 2 == 0,
                    pow2((k + 1) as nat) == 2 * pow2(k as nat),
            ;
        }
        m = m / 2;
        k = k + 1;
    }
    k
}

impl CoefficientList {
    pub open spec fn wf(&self) -> bool {
        self.coeffs@.len() == pow2(self.num_variables as nat)
    }

    /// The polynomial with the given coefficients, whose number must be a
    /// power of two.
    pub fn new(coeffs: Vec<FieldElement>) -> (r: Self)
        requires
            is_pow2(coeffs@.len() as int),
        ensures
            r.wf(),
            r.coeffs@ == coeffs@,
    {
        let num_variables = log2_strict(coeffs.len());
        CoefficientList { coeffs, num_variables }
    }

    pub fn coeffs(&self) -> (r: &[FieldElement])
        ensures
            r@ == self.coeffs@,
    {
        self.coeffs.as_slice()
    }

    pub fn num_variables(&self) -> (r: usize)
        ensures
            r == self.num_variables,
    {
        self.num_variables
    }
}

/// The transform of the window of `c` of length `2^log` that starts at `start`.
fn wavelet_window(c: &Vec<FieldElement>, start: usize, len: usize, log: usize) -> (r: Vec<
    FieldElement,
>)
    requires
        start + len <= c@.len(),
        len == pow2(log as nat),
    ensures
        vals(r@) == wavelet(vals(c@.subrange(start as int, start + len))),
        r@.len() == len,
    decreases log,
{
    let ghost w = vals(c@.subrange(start as int, start + len));
    if log == 0 {
        proof {
            vstd::arithmetic::power2::lemma2_to64();
        }
        let mut r: Vec<FieldElement> = Vec::new();
        r.push(c[start]);
        proof {
            assert(vals(r@) =~= w);
        }
        r
    } else {
        proof {
            lemma_pow2_unfold(log as nat);
        }
        let m = len / 2;
        let l = wavelet_window(c, start, m, log - 1);
        let clen = c.len();
        let h = wavelet_window(c, start + m, m, log - 1);
        proof {
            assert(w.subrange(0, m as int) =~= vals(c@.subrange(start as int, start + m)));
            assert(w.subrange(m as int, len as int) =~= vals(
                c@.subrange((start + m) as int, start + m + m),
            ));
        }
        let ghost lw = vals(l@);
        let ghost hw = vals(h@);
        let mut out = l;
        let mut i: usize = 0;
        while i < m
            invariant
                i <= m,
                m == h@.len(),
                m == len / 2,
                lw.len() == m,
                hw == vals(h@),
                out@.len() == m + i,
                vals(out@) =~= lw + Seq::new(i as nat, |j: int| modp(lw[j] + hw[j])),
            decreases m - i,
        {
            proof {
                assert(vals(out@)[i as int] == lw[i as int]);
                assert(vals(h@)[i as int] == hw[i as int]);
            }
            let s = out[i].add(h[i]);
            let ghost prev = vals(out@);
            out.push(s);
            i = i + 1;
            proof {
                assert(vals(out@) =~= prev.push(s@));
                assert(s@ == modp(lw[i - 1] + hw[i - 1]));
                assert(vals(out@) =~= lw + Seq::new(i as nat, |j: int| modp(lw[j] + hw[j])));
            }
        }
        out
    }
}

impl EvaluationsList {
    pub open spec fn wf(&self) -> bool {
        self.evals@.len() == pow2(self.num_variables as nat)
    }

    /// The evaluations over the hypercube of the polynomial with the given
    /// coefficients.
    pub fn from_coefficients(p: CoefficientList) -> (r: Self)
        requires
            p.wf(),
        ensures
            r.wf(),
            r.num_variables == p.num_variables,
            vals(r.evals@) == wavelet(vals(p.coeffs@)),
    {
        let n = p.coeffs.len();
        let evals = wavelet_window(&p.coeffs, 0, n, p.num_variables);
        proof {
            assert(p.coeffs@.subrange(0, n as int) =~= p.coeffs@);
        }
        EvaluationsList { evals, num_variables: p.num_variables }
    }

    pub fn evals(&self) -> (r: &[FieldElement])
        ensures
            r@ == self.evals@,
    {
        self.evals.as_slice()
    }

    pub fn num_variables(&self) -> (r: usize)
        ensures
            r == self.num_variables,
    {
        self.num_variables
    }
}

/// Adds `scalar * eq_z` over the hypercube of `z[zi..]` into the window of
/// `out` that starts at `start`.
fn eval_eq_window(
    z: &Vec<FieldElement>,
    zi: usize,
    out: &mut Vec<FieldElement>,
    start: usize,
    len: usize,
    scalar: FieldElement,
)
    requires
        zi <= z@.len(),
        len == pow2((z@.len() - zi) as nat),
        start + len <= old(out)@.len(),
    ensures
        final(out)@.len() == old(out)@.len(),
        vals(final(out)@) == add_window(
            vals(old(out)@),
            start as int,
            scaled_eq(vals(z@).subrange(zi as int, z@.len() as int), scalar@),
        ),
    decreases z@.len() - zi,
{
    let ghost zs = vals(z@).subrange(zi as int, z@.len() as int);
    proof {
        lemma_scaled_eq_len(zs, scalar@);
    }
    if zi == z.len() {
        let s = out[start].add(scalar);
        out.set(start, s);
        proof {
            assert(zs.len() == 0);
            assert(vals(out@) =~= add_window(vals(old(out)@), start as int, scaled_eq(zs, scalar@)));
        }
    } else {
        proof {
            lemma_pow2_unfold((z@.len() - zi) as nat);
            assert(zs.drop_first() =~= vals(z@).subrange(zi + 1, z@.len() as int));
        }
        let half = len / 2;
        let olen = out.len();
        let s1 = scalar.mul(z[zi]);
        let s0 = scalar.sub(s1);
        let ghost o0 = vals(out@);
        eval_eq_window(z, zi + 1, out, start, half, s0);
        let ghost o1 = vals(out@);
        eval_eq_window(z, zi + 1, out, start + half, half, s1);
        proof {
            let a = scaled_eq(zs.drop_first(), s0@);
            let b = scaled_eq(zs.drop_first(), s1@);
            lemma_scaled_eq_len(zs.drop_first(), s0@);
            lemma_scaled_eq_len(zs.drop_first(), s1@);
            assert(scaled_eq(zs, scalar@) == a + b);
            assert(vals(out@) =~= add_window(o0, start as int, a + b));
        }
    }
}

/// Adds `scalar * eq_z(b)` to entry `b` of `out` for every vertex `b` of the
/// hypercube of dimension `z.len()`.
pub fn eval_eq(z: &Vec<FieldElement>, out: &mut Vec<FieldElement>, scalar: FieldElement)
    requires
        old(out)@.len() == pow2(z@.len() as nat),
    ensures
        final(out)@.len() == old(out)@.len(),
        vals(final(out)@) == add_window(vals(old(out)@), 0, scaled_eq(vals(z@), scalar@)),
{
    let n = out.len();
    proof {
        assert(vals(z@).subrange(0, z@.len() as int) =~= vals(z@));
    }
    eval_eq_window(z, 0, out, 0, n, scalar);
}

} // verus!
