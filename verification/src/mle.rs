//! Multilinear extensions: a polynomial of degree at most one in each of `s`
//! variables, determined by its values on the boolean hypercube. Index `i` of
//! the evaluation vector corresponds to the assignment where variable `j`
//! takes bit `j` of `i` (little endian), and `evaluate` follows the same
//! convention.
use vstd::prelude::*;

use crate::field::{f_add, f_mul, f_sub, scalar_modulus, scalar_val, Scalar};
use vstd::arithmetic::div_mod::{lemma_mod_multiples_vanish, lemma_mod_self_0, lemma_small_mod};

verus! {

pub open spec fn pow2(n: nat) -> nat
    decreases n,
{
    if n == 0 {
        1nat
    } else {
        2 * pow2((n - 1) as nat)
    }
}

pub proof fn lemma_pow2_pos(n: nat)
    ensures
        pow2(n) >= 1,
    decreases n,
{
    if n > 0 {
        lemma_pow2_pos((n - 1) as nat);
    }
}

pub proof fn lemma_pow2_monotone(a: nat, b: nat)
    requires
        a <= b,
    ensures
        pow2(a) <= pow2(b),
    decreases b,
{
    lemma_pow2_pos(a);
    if a < b {
        lemma_pow2_monotone(a, (b - 1) as nat);
    }
}

pub proof fn lemma_pow2_31()
    ensures
        pow2(31) == 0x80000000nat,
{
    reveal_with_fuel(pow2, 32);
}

/// The integers a sequence of scalars stands for.
pub open spec fn seq_vals(s: Seq<Scalar>) -> Seq<nat> {
    s.map_values(|x: Scalar| scalar_val(x))
}

pub open spec fn all_canonical(s: Seq<nat>) -> bool {
    forall|i: int| 0 <= i < s.len() ==> s[i] < scalar_modulus()
}

pub open spec fn all_boolean(s: Seq<nat>) -> bool {
    forall|i: int| 0 <= i < s.len() ==> s[i] == 0 || s[i] == 1
}

/// One step of multilinear evaluation: fixing variable 0 to `r` blends each
/// even entry with its odd neighbour.
pub open spec fn fix_first(evals: Seq<nat>, r: nat) -> Seq<nat> {
    Seq::new((evals.len() / 2) as nat, |j: int| f_add(
        f_mul(evals[2 * j], f_sub(1, r)),
        f_mul(evals[2 * j + 1], r),
    ))
}

/// The value of the multilinear extension with the given hypercube values at
/// the given point, fixing variables in index order.
pub open spec fn mle_eval(evals: Seq<nat>, point: Seq<nat>) -> nat
    decreases point.len(),
{
    if point.len() == 0 {
        if evals.len() > 0 {
            evals[0]
        } else {
            0
        }
    } else {
        mle_eval(fix_first(evals, point[0]), point.subrange(1, point.len() as int))
    }
}

/// The storage index of a boolean point, little endian: bit `j` of the index
/// is the value of variable `j`.
pub open spec fn pt_index(point: Seq<nat>) -> nat
    decreases point.len(),
{
    if point.len() == 0 {
        0
    } else {
        (point[0] + 2 * pt_index(point.subrange(1, point.len() as int))) as nat
    }
}

/// Evaluating at a boolean point returns the stored hypercube value at that
/// point's index.
pub proof fn lemma_eval_boolean(evals: Seq<nat>, point: Seq<nat>)
    requires
        evals.len() == pow2(point.len()),
        all_canonical(evals),
        all_boolean(point),
    ensures
        pt_index(point) < evals.len(),
        mle_eval(evals, point) == evals[pt_index(point) as int],
    decreases point.len(),
{
    if point.len() == 0 {
    } else {
        let b = point[0];
        let rest = point.subrange(1, point.len() as int);
        let fixed = fix_first(evals, b);
        assert forall|j: int| 0 <= j < fixed.len() implies fixed[j] == evals[2 * j + b]
            && fixed[j] < scalar_modulus() by {
            let e0 = evals[2 * j];
            let e1 = evals[2 * j + 1];
            let q = scalar_modulus();
            lemma_small_mod(1, q);
            lemma_small_mod(0, q);
            lemma_small_mod(e0, q);
            lemma_small_mod(e1, q);
            lemma_mod_self_0(q as int);
            lemma_mod_multiples_vanish(1, 1, q as int);
            if b == 0 {
                assert(f_sub(1, 0) == 1);
                assert(f_mul(e0, 1) == e0);
                assert(f_mul(e1, 0) == 0);
                assert(f_add(e0, 0) == e0);
            } else {
                assert(f_sub(1, 1) == 0);
                assert(f_mul(e0, 0) == 0);
                assert(f_mul(e1, 1) == e1);
                assert(f_add(0, e1) == e1);
            }
        }
        assert(fixed.len() == pow2(rest.len()));
        lemma_eval_boolean(fixed, rest);
        assert(mle_eval(evals, point) == mle_eval(fixed, rest));
        assert(fixed[pt_index(rest) as int] == evals[2 * pt_index(rest) as int + b]);
        assert(pt_index(point) == b + 2 * pt_index(rest));
    }
}

/// A multilinear extension over `num_vars` variables, as its `2^num_vars`
/// hypercube values.
pub struct Mle {
    num_vars: usize,
    evals: Vec<Scalar>,
}

impl Mle {
    /// Number of variables.
    pub closed spec fn num_vars_spec(self) -> nat {
        self.num_vars as nat
    }

    /// The integers stored on the hypercube.
    pub closed spec fn values(self) -> Seq<nat> {
        seq_vals(self.evals@)
    }

    pub open spec fn wf(self) -> bool {
        self.num_vars_spec() <= 31 && self.values().len() == pow2(self.num_vars_spec())
            && all_canonical(self.values())
    }

    pub fn num_vars(&self) -> (r: usize)
        ensures
            r == self.num_vars_spec(),
    {
        self.num_vars
    }

    pub fn len(&self) -> (r: usize)
        ensures
            r == self.values().len(),
    {
        self.evals.len()
    }

    /// The stored value at a hypercube index.
    pub fn evaluation(&self, i: usize) -> (r: Scalar)
        requires
            i < self.values().len(),
        ensures
            r@ == self.values()[i as int],
            self.wf() ==> r.wf(),
    {
        self.evals[i]
    }

    /// Builds an extension from an evaluation vector; refuses a vector whose
    /// length is not `2^num_vars` and a variable count over the supported
    /// bound.
    pub fn new(num_vars: usize, evals: Vec<Scalar>) -> (r: Option<Mle>)
        requires
            forall|i: int| 0 <= i < evals@.len() ==> #[trigger] evals@[i].wf(),
        ensures
            r is Some <==> (num_vars <= 31 && evals@.len() == pow2(num_vars as nat)),
            r is Some ==> r->0.wf() && r->0.num_vars_spec() == num_vars
                && r->0.values() == seq_vals(evals@),
    {
        if num_vars <= 31 {
            let expected = pow2_exec(num_vars);
            if evals.len() == expected {
                let m = Mle { num_vars, evals };
                proof {
                    assert(m.values() =~= seq_vals(m.evals@));
                    assert forall|i: int| 0 <= i < m.values().len() implies m.values()[i]
                        < scalar_modulus() by {
                        assert(m.evals@[i].wf());
                    }
                }
                return Some(m);
            }
            return None;
        }
        None
    }

    /// Evaluates the extension at a point of field elements, fixing variable
    /// 0 first.
    pub fn evaluate(&self, point: &Vec<Scalar>) -> (r: Scalar)
        requires
            self.wf(),
            point@.len() == self.num_vars_spec(),
            forall|i: int| 0 <= i < point@.len() ==> #[trigger] point@[i].wf(),
        ensures
            r.wf(),
            r@ == mle_eval(self.values(), seq_vals(point@)),
    {
        let n = self.num_vars;
        let ghost ptv = seq_vals(point@);
        let mut cur: Vec<Scalar> = Vec::new();
        let mut i: usize = 0;
        while i < self.evals.len()
            invariant
                i <= self.evals@.len(),
                cur@ =~= self.evals@.take(i as int),
            decreases self.evals@.len() - i,
        {
            cur.push(self.evals[i]);
            i += 1;
        }
        assert(cur@ =~= self.evals@);
        let mut k: usize = 0;
        proof {
            assert(seq_vals(cur@) =~= self.values());
            assert(ptv.subrange(0, n as int) =~= ptv);
            assert forall|t: int| 0 <= t < cur@.len() implies #[trigger] cur@[t].wf() by {
                assert(self.values()[t] < scalar_modulus());
            }
            lemma_pow2_monotone(n as nat, 31);
            lemma_pow2_31();
        }
        while k < n
            invariant
                self.wf(),
                point@.len() == n,
                n == self.num_vars_spec(),
                ptv == seq_vals(point@),
                forall|t: int| 0 <= t < point@.len() ==> #[trigger] point@[t].wf(),
                k <= n,
                cur@.len() == pow2((n - k) as nat),
                cur@.len() <= 0x80000000nat,
                forall|t: int| 0 <= t < cur@.len() ==> #[trigger] cur@[t].wf(),
                mle_eval(seq_vals(cur@), ptv.subrange(k as int, n as int)) == mle_eval(
                    self.values(),
                    ptv,
                ),
            decreases n - k,
        {
            let half = cur.len() / 2;
            assert(pow2((n - k) as nat) == 2 * pow2((n - k - 1) as nat));
            let r = point[k];
            let one = Scalar::from_u64(1);
            let omr = one.sub_mod(&r);
            let ghost cvals = seq_vals(cur@);
            let mut next: Vec<Scalar> = Vec::new();
            let mut j: usize = 0;
            while j < half
                invariant
                    half == cur@.len() / 2,
                    cur@.len() == 2 * half,
                    cur@.len() <= 0x80000000nat,
                    forall|t: int| 0 <= t < cur@.len() ==> #[trigger] cur@[t].wf(),
                    r.wf(),
                    omr.wf(),
                    omr@ == f_sub(1, r@),
                    cvals == seq_vals(cur@),
                    j <= half,
                    next@.len() == j,
                    forall|t: int| 0 <= t < j ==> (#[trigger] next@[t]).wf() && next@[t]@
                        == fix_first(cvals, r@)[t],
                decreases half - j,
            {
                let a = cur[2 * j].mul_mod(&omr);
                let b = cur[2 * j + 1].mul_mod(&r);
                let e = a.add_mod(&b);
                next.push(e);
                j += 1;
            }
            proof {
                assert(seq_vals(next@) =~= fix_first(cvals, r@));
                let sub = ptv.subrange(k as int, n as int);
                assert(sub[0] == ptv[k as int]);
                assert(sub.subrange(1, sub.len() as int) =~= ptv.subrange(k as int + 1, n as int));
                assert(mle_eval(cvals, sub) == mle_eval(
                    fix_first(cvals, ptv[k as int]),
                    ptv.subrange(k as int + 1, n as int),
                ));
            }
            cur = next;
            k += 1;
        }
        proof {
            assert(ptv.subrange(n as int, n as int) =~= Seq::<nat>::empty());
            assert(cur@.len() == 1);
        }
        cur[0]
    }
}

/// `2^n` as a machine integer.
pub fn pow2_exec(n: usize) -> (r: usize)
    requires
        n <= 31,
    ensures
        r == pow2(n as nat),
{
    proof {
        lemma_pow2_31();
    }
    let mut r: usize = 1;
    let mut i: usize = 0;
    while i < n
        invariant
            i <= n,
            n <= 31,
            r == pow2(i as nat),
        decreases n - i,
    {
        proof {
            lemma_pow2_monotone(i as nat + 1, 31);
            lemma_pow2_31();
        }
        r = r * 2;
        i += 1;
    }
    r
}

} // verus!
