//! The product-tree encoding: from an `s`-variable extension `V`, build the
//! `(s+1)`-variable extension `F` with `F(0, x) = V(x)` and
//! `F(1, x) = F(x, 0) * F(x, 1)`, together with the equality indicator and
//! the consistency polynomial whose hypercube values all vanish when `F` is
//! built correctly.
use vstd::prelude::*;

use crate::field::{f_add, f_mul, f_sub, scalar_modulus, scalar_val, Scalar};
use crate::mle::{
    fix_first,
    all_boolean, all_canonical, lemma_pow2_monotone, lemma_pow2_pos, mle_eval, pow2, pow2_exec,
    pt_index, seq_vals, Mle,
};
use vstd::arithmetic::div_mod::{
    lemma_fundamental_div_mod, lemma_fundamental_div_mod_converse, lemma_mod_bound,
    lemma_mod_multiples_vanish, lemma_mod_self_0, lemma_mul_mod_noop_general, lemma_small_mod,
};
use vstd::arithmetic::mul::{lemma_mul_inequality, lemma_mul_is_distributive_add_other_way};

verus! {

/// `2^a * 2^b == 2^(a+b)`.
pub proof fn lemma_pow2_adds(a: nat, b: nat)
    ensures
        pow2(a + b) == pow2(a) * pow2(b),
    decreases a,
{
    if a == 0 {
        assert(pow2(0) == 1);
        assert(pow2(a + b) == 1 * pow2(b));
    } else {
        lemma_pow2_adds((a - 1) as nat, b);
        assert((a + b - 1) as nat == (a - 1) as nat + b);
        assert(pow2(a + b) == 2 * pow2((a - 1) as nat + b));
        assert(pow2(a) == 2 * pow2((a - 1) as nat));
        assert(2 * (pow2((a - 1) as nat) * pow2(b)) == (2 * pow2((a - 1) as nat)) * pow2(b))
            by (nonlinear_arith);
        assert(pow2(a + b) == (2 * pow2((a - 1) as nat)) * pow2(b));
    }
}

/// The number of trailing one bits of an index: the level of the product
/// tree that the index belongs to.
pub open spec fn lz(i: nat) -> nat
    decreases i,
{
    if i % 2 == 0 {
        0
    } else {
        1 + lz(((i - 1) / 2) as nat)
    }
}

/// An index has `l` trailing ones exactly when its remainder modulo
/// `2^(l+1)` is `2^l - 1`.
pub proof fn lemma_lz_mod(i: nat, l: nat)
    ensures
        lz(i) == l <==> i % pow2(l + 1) == pow2(l) - 1,
    decreases l,
{
    lemma_pow2_pos(l);
    if l == 0 {
        assert(pow2(1) == 2);
        assert(pow2(0) == 1);
    } else {
        let p = pow2(l);
        let p2 = pow2(l + 1);
        let ph = pow2((l - 1) as nat);
        assert(p == 2 * ph);
        assert(p2 == 2 * p);
        lemma_pow2_pos((l - 1) as nat);
        if i % 2 == 1 {
            let j = ((i - 1) / 2) as nat;
            assert(i == 2 * j + 1);
            lemma_lz_mod(j, (l - 1) as nat);
            // relate j % p to i % p2
            lemma_fundamental_div_mod(j as int, p as int);
            let a = j as int / p as int;
            let r = j as int % p as int;
            lemma_mod_bound(j as int, p as int);
            assert(j == p * a + r);
            assert(i == p2 * a + (2 * r + 1)) by (nonlinear_arith)
                requires
                    i == 2 * j + 1,
                    j == p * a + r,
                    p2 == 2 * p,
            ;
            lemma_fundamental_div_mod_converse(i as int, p2 as int, a, 2 * r + 1);
            assert(i % p2 == 2 * r + 1);
            assert(lz(i) == 1 + lz(j));
            assert((i % p2 == p - 1) <==> (r == ph - 1));
        } else {
            assert(lz(i) == 0);
            // i even: its remainder modulo an even modulus is even, p - 1 is odd
            lemma_fundamental_div_mod(i as int, p2 as int);
            let b = i as int / p2 as int;
            let r = i as int % p2 as int;
            lemma_mod_bound(i as int, p2 as int);
            if r == p - 1 {
                assert(i == p2 * b + p - 1);
                assert(i as int == 2 * (p * b + ph - 1) + 1) by (nonlinear_arith)
                    requires
                        i == p2 * b + p - 1,
                        p2 == 2 * p,
                        p == 2 * ph,
                ;
                assert(p * b + ph - 1 >= 0) by (nonlinear_arith)
                    requires
                        b >= 0,
                        p >= 1,
                        ph >= 1,
                ;
                lemma_fundamental_div_mod_converse(i as int, 2, p * b + ph - 1, 1);
                assert(false);
            }
        }
    }
}

/// Indices of the form `q * 2^(l+1) + 2^l - 1` have exactly `l` trailing
/// ones.
pub proof fn lemma_lz_form(q: nat, l: nat)
    ensures
        lz((pow2(l + 1) * q + pow2(l) - 1) as nat) == l,
{
    lemma_pow2_pos(l);
    lemma_pow2_pos(l + 1);
    assert(pow2(l + 1) == 2 * pow2(l));
    let i = (pow2(l + 1) * q + pow2(l) - 1) as nat;
    lemma_fundamental_div_mod_converse(i as int, pow2(l + 1) as int, q as int, pow2(l) as int - 1);
    lemma_lz_mod(i, l);
}

/// An odd index with `l` trailing ones decomposes as
/// `(i / 2^(l+1)) * 2^(l+1) + 2^l - 1`.
pub proof fn lemma_lz_decompose(i: nat, l: nat)
    requires
        lz(i) == l,
    ensures
        i == pow2(l + 1) * (i / pow2(l + 1)) + pow2(l) - 1,
    decreases l,
{
    lemma_pow2_pos(l + 1);
    lemma_lz_mod(i, l);
    lemma_fundamental_div_mod(i as int, pow2(l + 1) as int);
}

/// Adding a multiple of a higher power of two does not change the trailing
/// ones of an index below it.
pub proof fn lemma_lz_plus_pow2(j: nat, s: nat)
    requires
        lz(j) < s,
    ensures
        lz(j + pow2(s)) == lz(j),
{
    let l = lz(j);
    lemma_pow2_pos(l + 1);
    lemma_lz_mod(j, l);
    lemma_pow2_adds(l + 1, (s - l - 1) as nat);
    let c = pow2((s - l - 1) as nat);
    assert(pow2(s) == pow2(l + 1) * c);
    lemma_mod_multiples_vanish(c as int, j as int, pow2(l + 1) as int);
    assert((pow2(l + 1) * c + j) as int % (pow2(l + 1) as int) == j as int % (pow2(l + 1) as int));
    lemma_lz_mod(j + pow2(s), l);
}

/// What `compute_f` promises of its output: even entries copy the source,
/// odd entries are the product of the two halves the index reaches by moving
/// the flag bit to the back, and the self-referential all-ones entry is
/// pinned (to the source value when there are no other variables, else to
/// zero).
pub open spec fn encodes_product_tree(vv: Seq<nat>, s: nat, fv: Seq<nat>) -> bool {
    &&& fv.len() == 2 * pow2(s)
    &&& (forall|x: int| 0 <= x < pow2(s) ==> #[trigger] fv[2 * x] == vv[x])
    &&& (s == 0 ==> fv[1] == vv[0])
    &&& (s >= 1 ==> (forall|x: int|
        0 <= x < pow2(s) ==> #[trigger] fv[2 * x + 1] == f_mul(fv[x], fv[x + pow2(s)])) && fv[2
        * pow2(s) - 1] == 0)
}

/// Builds the product-tree encoding `F` of `v` and extracts the claimed
/// grand product, stored at the index of the point with the flag set and
/// every original variable but the last fixed to one.
pub fn compute_f(v: &Mle) -> (r: (Mle, Scalar))
    requires
        v.wf(),
        v.num_vars_spec() <= 30,
    ensures
        r.0.wf(),
        r.0.num_vars_spec() == v.num_vars_spec() + 1,
        encodes_product_tree(v.values(), v.num_vars_spec(), r.0.values()),
        r.1.wf(),
        r.1@ == r.0.values()[pow2(v.num_vars_spec()) as int - 1],
{
    let ghost vv = v.values();
    let ghost sg = v.num_vars_spec();
    let s = v.num_vars();
    let n = v.len();
    proof {
        lemma_pow2_monotone(sg, 30);
        crate::mle::lemma_pow2_31();
        assert(pow2(31) == 2 * pow2(30));
    }
    let total = 2 * n;
    let zero = Scalar::from_u64(0);
    let mut evals: Vec<Scalar> = Vec::new();
    let mut t: usize = 0;
    while t < total
        invariant
            t <= total,
            zero.wf(),
            zero@ == 0,
            evals@.len() == t,
            forall|u: int| 0 <= u < t ==> (#[trigger] evals@[u]).wf() && scalar_val(evals@[u])
                == 0,
        decreases total - t,
    {
        evals.push(zero);
        t += 1;
    }
    // even entries copy the source
    let mut x: usize = 0;
    while x < n
        invariant
            v.wf(),
            n == pow2(sg),
            n <= 0x40000000,
            sg == v.num_vars_spec(),
            vv == v.values(),
            x <= n,
            evals@.len() == 2 * n,
            forall|u: int| 0 <= u < evals@.len() ==> (#[trigger] evals@[u]).wf(),
            forall|u: int| 0 <= u < x ==> scalar_val(#[trigger] evals@[2 * u]) == vv[u],
            forall|u: int| 0 <= u < evals@.len() && u % 2 == 1 ==> scalar_val(
                #[trigger] evals@[u],
            ) == 0,
        decreases n - x,
    {
        let val = v.evaluation(x);
        evals.set(2 * x, val);
        x += 1;
    }
    // odd entries, level by level of the product tree
    let mut level: usize = 1;
    while level <= s
        invariant
            v.wf(),
            n == pow2(sg),
            n <= 0x40000000,
            sg <= 30,
            sg == v.num_vars_spec(),
            vv == v.values(),
            1 <= level <= s + 1,
            s == sg,
            evals@.len() == 2 * n,
            forall|u: int| 0 <= u < evals@.len() ==> (#[trigger] evals@[u]).wf(),
            forall|u: int| 0 <= u < n ==> scalar_val(#[trigger] evals@[2 * u]) == vv[u],
            forall|u: int| 0 <= u < evals@.len() && u % 2 == 1 && lz(u as nat) < level
                ==> scalar_val(#[trigger] evals@[u]) == f_mul(
                scalar_val(evals@[(u - 1) / 2]),
                scalar_val(evals@[(u - 1) / 2 + n]),
            ),
            forall|u: int| 0 <= u < evals@.len() && u % 2 == 1 && lz(u as nat) >= level
                ==> scalar_val(#[trigger] evals@[u]) == 0,
        decreases s + 1 - level,
    {
        let stride = pow2_exec(level + 1);
        proof {
            lemma_pow2_pos(level as nat);
            assert(pow2((level + 1) as nat) == 2 * pow2(level as nat));
        }
        let offset = pow2_exec(level) - 1;
        let bound = pow2_exec(s - level);
        proof {
            lemma_pow2_adds((level + 1) as nat, (sg - level) as nat);
            assert(pow2((level + 1) as nat) * pow2((sg - level) as nat) == 2 * n);
        }
        let mut m: usize = 0;
        while m < bound
            invariant
                v.wf(),
                n == pow2(sg),
                n <= 0x40000000,
                sg <= 30,
                sg == v.num_vars_spec(),
                vv == v.values(),
                1 <= level <= s,
                s == sg,
                stride == pow2((level + 1) as nat),
                stride == 2 * pow2(level as nat),
                offset == pow2(level as nat) - 1,
                bound == pow2((sg - level) as nat),
                stride * bound == 2 * n,
                m <= bound,
                evals@.len() == 2 * n,
                forall|u: int| 0 <= u < evals@.len() ==> (#[trigger] evals@[u]).wf(),
                forall|u: int| 0 <= u < n ==> scalar_val(#[trigger] evals@[2 * u]) == vv[u],
                forall|u: int| 0 <= u < evals@.len() && u % 2 == 1 && (lz(u as nat) < level || (
                lz(u as nat) == level && u < m * stride)) ==> scalar_val(#[trigger] evals@[u])
                    == f_mul(
                    scalar_val(evals@[(u - 1) / 2]),
                    scalar_val(evals@[(u - 1) / 2 + n]),
                ),
                forall|u: int| 0 <= u < evals@.len() && u % 2 == 1 && (lz(u as nat) > level || (
                lz(u as nat) == level && u >= m * stride)) ==> scalar_val(#[trigger] evals@[u])
                    == 0,
            decreases bound - m,
        {
            proof {
                lemma_mul_inequality(m + 1, bound as int, stride as int);
                lemma_mul_is_distributive_add_other_way(stride as int, m as int, 1);
                lemma_pow2_pos(level as nat);
                lemma_pow2_pos((level - 1) as nat);
            }
            let i = m * stride + offset;
            let j = i / 2;
            proof {
                let lv = level as nat;
                assert(pow2(lv) == 2 * pow2((lv - 1) as nat));
                assert(i == pow2(lv + 1) * m + pow2(lv) - 1);
                lemma_lz_form(m as nat, lv);
                let w = pow2(lv) * (m as int) + pow2((lv - 1) as nat) - 1;
                assert(i == 2 * w + 1) by (nonlinear_arith)
                    requires
                        i == pow2(lv + 1) * (m as int) + pow2(lv) - 1,
                        pow2(lv + 1) == 2 * pow2(lv),
                        pow2(lv) == 2 * pow2((lv - 1) as nat),
                        w == pow2(lv) * (m as int) + pow2((lv - 1) as nat) - 1,
                ;
                assert(w >= 0) by (nonlinear_arith)
                    requires
                        w == pow2(lv) * (m as int) + pow2((lv - 1) as nat) - 1,
                        m >= 0,
                        pow2(lv) >= 1,
                        pow2((lv - 1) as nat) >= 1,
                ;
                lemma_fundamental_div_mod_converse(i as int, 2, w, 1);
                assert(j == w);
                assert(j == (i - 1) / 2);
                lemma_lz_form(m as nat, (lv - 1) as nat);
                assert(lz(j as nat) == lv - 1);
                lemma_pow2_adds(lv, (sg - lv) as nat);
                lemma_mul_inequality(m as int, bound as int - 1, pow2(lv) as int);
                assert(j < n) by (nonlinear_arith)
                    requires
                        j == pow2(lv) * (m as int) + pow2((lv - 1) as nat) - 1,
                        m <= bound - 1,
                        pow2(lv) * (m as int) <= pow2(lv) * (bound as int - 1),
                        n == pow2(lv) * (bound as int),
                        pow2(lv) == 2 * pow2((lv - 1) as nat),
                        pow2((lv - 1) as nat) >= 1,
                ;
                lemma_lz_plus_pow2(j as nat, sg);
                assert(lz((j + n) as nat) == lv - 1);
            }
            let a = evals[j];
            let b = evals[j + n];
            let prod = a.mul_mod(&b);
            let ghost old_evals = evals@;
            evals.set(i, prod);
            proof {
                let lv = level as nat;
                assert forall|u: int|
                    0 <= u < evals@.len() && u % 2 == 1 && (lz(u as nat) < level || (lz(u as nat)
                        == level && u < (m + 1) * stride)) implies scalar_val(
                    #[trigger] evals@[u],
                ) == f_mul(scalar_val(evals@[(u - 1) / 2]), scalar_val(evals@[(u - 1) / 2 + n]))
                    by {
                    let ju = (u - 1) / 2;
                    assert(lz(ju as nat) == lz(u as nat) - 1);
                    if lz(ju as nat) < sg {
                        lemma_lz_plus_pow2(ju as nat, sg);
                    }
                    if u == i {
                    } else {
                        // untouched entry; its children are below the level
                        // being written, hence also untouched
                        assert(lz(u as nat) <= level);
                        if lz(u as nat) == level && u < (m + 1) * stride && u >= m * stride {
                            lemma_lz_mod(u as nat, lv);
                            lemma_fundamental_div_mod_converse(
                                u,
                                stride as int,
                                m as int,
                                u - m * stride,
                            );
                            assert(u as nat % pow2(lv + 1) == pow2(lv) - 1);
                            assert(u == i);
                            assert(false);
                        }
                        assert(evals@[u] == old_evals[u]);
                        assert(ju != i && ju + n != i);
                    }
                }
                assert forall|u: int|
                    0 <= u < evals@.len() && u % 2 == 1 && (lz(u as nat) > level || (lz(u as nat)
                        == level && u >= (m + 1) * stride)) implies scalar_val(
                    #[trigger] evals@[u],
                ) == 0 by {
                    assert(u != i) by {
                        if u == i {
                            assert(lz(u as nat) == lv);
                            assert(i < (m + 1) * stride);
                        }
                    }
                }
            }
            m += 1;
        }
        proof {
            // every index with exactly `level` trailing ones was written
            assert forall|u: int| #![trigger evals@[u]]
                0 <= u < evals@.len() && u % 2 == 1 && lz(u as nat) == level implies u < bound
                * stride by {
                let lv = level as nat;
                lemma_lz_decompose(u as nat, lv);
                let mu = (u as nat) / pow2(lv + 1);
                assert(u == pow2(lv + 1) * mu + pow2(lv) - 1);
                lemma_pow2_pos(lv);
                if mu >= bound {
                    lemma_mul_inequality(bound as int, mu as int, stride as int);
                    assert(u >= bound * stride) by (nonlinear_arith)
                        requires
                            u == pow2(lv + 1) * mu + pow2(lv) - 1,
                            stride == pow2(lv + 1),
                            (bound as int) * stride <= (mu as int) * stride,
                            pow2(lv) >= 1,
                    ;
                    assert((bound as int) * stride == (stride as int) * bound)
                        by (nonlinear_arith);
                    assert(false);
                }
                assert(mu < bound);
                lemma_mul_inequality(mu as int + 1, bound as int, stride as int);
                lemma_mul_is_distributive_add_other_way(stride as int, mu as int, 1);
                assert(u < stride * (bound as int));
                assert(bound * stride == stride * (bound as int)) by (nonlinear_arith);
            }
            assert(bound * stride == stride * (bound as int)) by (nonlinear_arith);
        }
        level += 1;
    }
    if s == 0 {
        let val = v.evaluation(0);
        evals.set(1, val);
    }
    proof {
        lemma_pow2_pos(sg);
    }
    let ghost fin = evals@;
    let p = evals[n - 1];
    proof {
        assert(pow2(sg + 1) == 2 * pow2(sg));
    }
    let f = Mle::new(s + 1, evals).unwrap();
    proof {
        let fv = f.values();
        assert(fv =~= seq_vals(fin));
        assert forall|u: int| 0 <= u < fin.len() implies #[trigger] fv[u] == scalar_val(fin[u])
            by {}
        assert(fv.len() == 2 * pow2(sg));
        if sg >= 1 {
            assert forall|u: int| 0 <= u < pow2(sg) implies #[trigger] fv[2 * u + 1] == f_mul(
                fv[u],
                fv[u + pow2(sg)],
            ) by {
                let t2 = 2 * u + 1;
                assert(t2 % 2 == 1);
                if lz(t2 as nat) < sg + 1 {
                    assert((t2 - 1) / 2 == u);
                    assert(scalar_val(fin[t2]) == f_mul(
                        scalar_val(fin[u]),
                        scalar_val(fin[u + n]),
                    ));
                } else {
                    // only the all-ones index has more trailing ones
                    let lt = lz(t2 as nat);
                    lemma_lz_decompose(t2 as nat, lt);
                    let mt = (t2 as nat) / pow2(lt + 1);
                    lemma_pow2_pos(lt + 1);
                    assert(t2 == pow2(lt + 1) * mt + pow2(lt) - 1);
                    lemma_pow2_monotone(sg + 2, lt + 1);
                    if mt >= 1 {
                        lemma_mul_inequality(1, mt as int, pow2(lt + 1) as int);
                        assert(pow2(lt + 1) * 1 <= pow2(lt + 1) * (mt as int)) by (nonlinear_arith)
                            requires
                                1 <= mt,
                                pow2(lt + 1) >= 1,
                        ;
                        assert(false);
                    }
                    assert(t2 == pow2(lt) - 1);
                    lemma_pow2_monotone(sg + 1, lt);
                    assert(t2 == 2 * pow2(sg) - 1);
                    // the all-ones entry: both sides are zero
                    assert(scalar_val(fin[t2]) == 0);
                    let q = scalar_modulus();
                    lemma_small_mod(0, q);
                    assert(fv[u] * 0 == 0);
                    assert(f_mul(fv[u], 0) == 0);
                    assert(u + pow2(sg) == t2);
                }
            }
            assert(lz((2 * pow2(sg) - 1) as nat) >= sg + 1) by {
                let lt = lz((2 * pow2(sg) - 1) as nat);
                if lt <= sg {
                    lemma_lz_mod((2 * pow2(sg) - 1) as nat, lt);
                    lemma_pow2_monotone(lt + 1, sg + 1);
                    lemma_pow2_pos(lt + 1);
                    lemma_pow2_pos((sg - lt) as nat);
                    lemma_pow2_adds(lt + 1, (sg - lt) as nat);
                    lemma_mod_multiples_vanish(
                        pow2((sg - lt) as nat) as int - 1,
                        pow2(lt + 1) as int - 1,
                        pow2(lt + 1) as int,
                    );
                    lemma_small_mod((pow2(lt + 1) - 1) as nat, pow2(lt + 1));
                    assert((2 * pow2(sg) - 1) % (pow2(lt + 1) as int) == pow2(lt + 1) - 1)
                        by (nonlinear_arith)
                        requires
                            pow2(sg + 1) == pow2(lt + 1) * pow2((sg - lt) as nat),
                            pow2(lt + 1) >= 2,
                            2 * pow2(sg) == pow2(sg + 1),
                            pow2((sg - lt) as nat) >= 1,
                            (pow2(lt + 1) * (pow2((sg - lt) as nat) - 1) + (pow2(lt + 1) - 1)) % (
                            pow2(lt + 1) as int) == (pow2(lt + 1) - 1) % (pow2(lt + 1) as int),
                            (pow2(lt + 1) - 1) % (pow2(lt + 1) as int) == pow2(lt + 1) - 1,
                    ;
                    assert(pow2(lt) - 1 < pow2(lt + 1) - 1);
                    assert(false);
                }
            }
            assert(scalar_val(fin[2 * pow2(sg) as int - 1]) == 0);
        }
        assert(encodes_product_tree(vv, sg, fv));
    }
    (f, p)
}

/// The multilinear equality indicator `eq(t, .)` evaluated at the boolean
/// point whose storage index is `i`: the product over the coordinates of
/// `t_j x_j + (1 - t_j)(1 - x_j)` with `x_j` bit `j` of `i`.
pub open spec fn eq_at(t: Seq<nat>, i: nat) -> nat
    decreases t.len(),
{
    if t.len() == 0 {
        1
    } else {
        f_mul(
            if i % 2 == 1 {
                t[0] % scalar_modulus()
            } else {
                f_sub(1, t[0])
            },
            eq_at(t.subrange(1, t.len() as int), i / 2),
        )
    }
}

/// Builds the equality indicator extension for challenge vector `t` over `s`
/// variables.
pub fn compute_mle_eq(t: &Vec<Scalar>, s: usize) -> (r: Mle)
    requires
        t@.len() == s,
        s <= 31,
        forall|u: int| 0 <= u < t@.len() ==> #[trigger] t@[u].wf(),
    ensures
        r.wf(),
        r.num_vars_spec() == s,
        forall|i: int| 0 <= i < pow2(s as nat) ==> #[trigger] r.values()[i] == eq_at(
            seq_vals(t@),
            i as nat,
        ),
{
    let ghost tv = seq_vals(t@);
    let n = pow2_exec(s);
    let mut out: Vec<Scalar> = Vec::new();
    let mut i: usize = 0;
    while i < n
        invariant
            i <= n,
            n == pow2(s as nat),
            s <= 31,
            t@.len() == s,
            tv == seq_vals(t@),
            forall|u: int| 0 <= u < t@.len() ==> #[trigger] t@[u].wf(),
            out@.len() == i,
            forall|u: int| 0 <= u < i ==> (#[trigger] out@[u]).wf() && scalar_val(out@[u])
                == eq_at(tv, u as nat),
        decreases n - i,
    {
        let one = Scalar::from_u64(1);
        let mut acc = Scalar::from_u64(1);
        let mut j: usize = s;
        proof {
            assert(tv.skip(s as int) =~= Seq::<nat>::empty());
        }
        while j > 0
            invariant
                j <= s,
                s <= 31,
                t@.len() == s,
                tv == seq_vals(t@),
                forall|u: int| 0 <= u < t@.len() ==> #[trigger] t@[u].wf(),
                one.wf(),
                one@ == 1,
                acc.wf(),
                acc@ == eq_at(tv.skip(j as int), (i as nat) / pow2(j as nat)),
            decreases j,
        {
            j -= 1;
            let pj = pow2_exec(j);
            proof {
                lemma_pow2_pos(j as nat);
            }
            let quo = i / pj;
            let bit = quo % 2;
            let term = if bit == 1 {
                t[j]
            } else {
                one.sub_mod(&t[j])
            };
            proof {
                let q = scalar_modulus();
                let sj = tv.skip(j as int);
                assert(sj[0] == tv[j as int]);
                assert(sj.subrange(1, sj.len() as int) =~= tv.skip(j as int + 1));
                lemma_pow2_pos(j as nat);
                vstd::arithmetic::div_mod::lemma_div_denominator(
                    i as int,
                    pow2(j as nat) as int,
                    2,
                );
                assert(pow2(j as nat + 1) == 2 * pow2(j as nat));
                assert(pow2(j as nat) * 2 == 2 * pow2(j as nat));
                assert(((i as nat) / pow2(j as nat)) / 2 == (i as nat) / pow2(j as nat + 1));
                assert(tv[j as int] == scalar_val(t@[j as int]));
                assert(tv[j as int] < q) by {
                    assert(t@[j as int].wf());
                }
                lemma_small_mod(tv[j as int], q);
            }
            acc = term.mul_mod(&acc);
        }
        proof {
            assert(tv.skip(0) =~= tv);
            assert(pow2(0) == 1);
            vstd::arithmetic::div_mod::lemma_div_basics(i as int);
            assert((i as nat) / pow2(0) == i as nat);
        }
        out.push(acc);
        i += 1;
    }
    Mle::new(s, out).unwrap()
}

/// Builds the consistency polynomial `G_t` of an encoding `f`:
/// `G_t(x) = eq(t, x) * (F(1, x) - F(x, 0) * F(x, 1))` on every hypercube
/// point.
#[allow(non_snake_case)]
pub fn compute_G(f: &Mle, t: &Vec<Scalar>) -> (r: Mle)
    requires
        f.wf(),
        1 <= f.num_vars_spec(),
        t@.len() == f.num_vars_spec() - 1,
        forall|u: int| 0 <= u < t@.len() ==> #[trigger] t@[u].wf(),
    ensures
        r.wf(),
        r.num_vars_spec() == f.num_vars_spec() - 1,
        forall|i: int| 0 <= i < pow2((f.num_vars_spec() - 1) as nat) ==> #[trigger] r.values()[i]
            == f_mul(
            eq_at(seq_vals(t@), i as nat),
            f_sub(
                f.values()[2 * i + 1],
                f_mul(f.values()[i], f.values()[i + pow2((f.num_vars_spec() - 1) as nat)]),
            ),
        ),
{
    let ghost sg = (f.num_vars_spec() - 1) as nat;
    let s = f.num_vars() - 1;
    let eq = compute_mle_eq(t, s);
    let n = eq.len();
    proof {
        assert(pow2(sg + 1) == 2 * pow2(sg));
        crate::mle::lemma_pow2_31();
        lemma_pow2_monotone(sg, 30);
        assert(pow2(31) == 2 * pow2(30));
    }
    let mut out: Vec<Scalar> = Vec::new();
    let mut i: usize = 0;
    while i < n
        invariant
            i <= n,
            n == pow2(sg),
            n <= 0x40000000,
            s == sg,
            sg + 1 == f.num_vars_spec(),
            f.wf(),
            f.values().len() == 2 * n,
            eq.wf(),
            eq.num_vars_spec() == sg,
            eq.values().len() == n,
            t@.len() == sg,
            forall|u: int| 0 <= u < t@.len() ==> #[trigger] t@[u].wf(),
            forall|u: int| 0 <= u < pow2(sg) ==> #[trigger] eq.values()[u] == eq_at(
                seq_vals(t@),
                u as nat,
            ),
            out@.len() == i,
            forall|u: int| 0 <= u < i ==> (#[trigger] out@[u]).wf() && scalar_val(out@[u])
                == f_mul(
                eq_at(seq_vals(t@), u as nat),
                f_sub(
                    f.values()[2 * u + 1],
                    f_mul(f.values()[u], f.values()[u + pow2(sg)]),
                ),
            ),
        decreases n - i,
    {
        let a = f.evaluation(i);
        let b = f.evaluation(i + n);
        let prod = a.mul_mod(&b);
        let top = f.evaluation(2 * i + 1);
        let diff = top.sub_mod(&prod);
        let gi = eq.evaluation(i).mul_mod(&diff);
        out.push(gi);
        i += 1;
    }
    Mle::new(s, out).unwrap()
}

/// Every stored value of a correct encoding is canonical.
pub proof fn lemma_encoding_canonical(vv: Seq<nat>, s: nat, fv: Seq<nat>)
    requires
        encodes_product_tree(vv, s, fv),
        all_canonical(vv),
        vv.len() == pow2(s),
    ensures
        all_canonical(fv),
{
    let q = scalar_modulus();
    assert forall|u: int| 0 <= u < fv.len() implies fv[u] < q by {
        if u % 2 == 0 {
            assert(fv[2 * (u / 2)] == vv[u / 2]);
        } else {
            if s == 0 {
                assert(u == 1);
            } else {
                let x = (u - 1) / 2;
                assert(fv[2 * x + 1] == f_mul(fv[x], fv[x + pow2(s)]));
                lemma_mod_bound((fv[x] * fv[x + pow2(s)]) as int, q as int);
            }
        }
    }
}

/// Law: fixing the flag variable to zero recovers the source extension —
/// `F(0, r) == V(r)` at every point `r`, boolean or not.
pub proof fn lemma_source_embedding(vv: Seq<nat>, s: nat, fv: Seq<nat>, r: Seq<nat>)
    requires
        encodes_product_tree(vv, s, fv),
        all_canonical(vv),
        vv.len() == pow2(s),
        r.len() == s,
    ensures
        mle_eval(fv, seq![0nat] + r) == mle_eval(vv, r),
{
    let q = scalar_modulus();
    let p = seq![0nat] + r;
    assert(p[0] == 0);
    assert(p.len() == s + 1);
    let fixed = fix_first(fv, 0);
    assert(fv.len() == 2 * pow2(s));
    assert forall|j: int| 0 <= j < fixed.len() implies fixed[j] == vv[j] by {
        assert(fv[2 * j] == vv[j]);
        lemma_small_mod(1, q);
        lemma_small_mod(0, q);
        lemma_small_mod(vv[j], q);
        lemma_mod_self_0(q as int);
        lemma_mod_multiples_vanish(1, 1, q as int);
        assert(f_sub(1, 0) == 1);
        assert(f_mul(fv[2 * j], 1) == vv[j]);
        assert(fv[2 * j + 1] * 0 == 0);
        assert(f_mul(fv[2 * j + 1], 0) == 0);
        assert(f_add(vv[j], 0) == vv[j]);
    }
    assert(fixed =~= vv);
    assert(p.subrange(1, p.len() as int) =~= r);
    assert(mle_eval(fv, p) == mle_eval(fixed, r));
}

proof fn lemma_ones_zero_index(s: nat)
    ensures
        pt_index(Seq::new(s, |i: int| 1nat).push(0nat)) == pow2(s) - 1,
    decreases s,
{
    let p = Seq::new(s, |i: int| 1nat).push(0nat);
    assert(p.len() == s + 1);
    if s == 0 {
        assert(p.subrange(1, 1) =~= Seq::<nat>::empty());
        assert(pt_index(Seq::<nat>::empty()) == 0);
        assert(p[0] == 0);
        assert(pt_index(p) == 0 + 2 * pt_index(p.subrange(1, 1)));
        assert(pow2(0) == 1);
    } else {
        lemma_ones_zero_index((s - 1) as nat);
        let rest = Seq::new((s - 1) as nat, |i: int| 1nat).push(0nat);
        assert(p.subrange(1, p.len() as int) =~= rest);
        assert(p[0] == 1);
        assert(pt_index(p) == 1 + 2 * pt_index(rest));
        assert(pt_index(rest) == pow2((s - 1) as nat) - 1);
        assert(pow2(s) == 2 * pow2((s - 1) as nat));
    }
}

/// Law: the claimed product sits at the evaluation of `F` at the point with
/// the flag set, every original variable but the innermost at one and the
/// innermost at zero.
pub proof fn lemma_claim_point(vv: Seq<nat>, s: nat, fv: Seq<nat>)
    requires
        encodes_product_tree(vv, s, fv),
        all_canonical(vv),
        vv.len() == pow2(s),
    ensures
        mle_eval(fv, Seq::new(s, |i: int| 1nat).push(0nat)) == fv[pow2(s) as int - 1],
{
    lemma_encoding_canonical(vv, s, fv);
    let p = Seq::new(s, |i: int| 1nat).push(0nat);
    assert(p.len() == s + 1);
    assert(pow2(s + 1) == 2 * pow2(s));
    crate::mle::lemma_eval_boolean(fv, p);
    lemma_ones_zero_index(s);
    lemma_pow2_pos(s);
}

proof fn lemma_pt_index_bound(x: Seq<nat>)
    requires
        all_boolean(x),
    ensures
        pt_index(x) < pow2(x.len()),
    decreases x.len(),
{
    if x.len() > 0 {
        let rest = x.subrange(1, x.len() as int);
        lemma_pt_index_bound(rest);
        assert(pow2(x.len()) == 2 * pow2(rest.len()));
    }
}

proof fn lemma_index_push(x: Seq<nat>, b: nat)
    requires
        all_boolean(x),
        b == 0 || b == 1,
    ensures
        pt_index(x.push(b)) == pt_index(x) + b * pow2(x.len()),
    decreases x.len(),
{
    let p = x.push(b);
    if x.len() == 0 {
        assert(p.subrange(1, 1) =~= Seq::<nat>::empty());
        assert(pt_index(Seq::<nat>::empty()) == 0);
        assert(p[0] == b);
        assert(pt_index(p) == b + 2 * pt_index(p.subrange(1, 1)));
        assert(pow2(0) == 1);
        assert(pt_index(x) == 0);
    } else {
        let rest = x.subrange(1, x.len() as int);
        lemma_index_push(rest, b);
        assert(p.subrange(1, p.len() as int) =~= rest.push(b));
        assert(p[0] == x[0]);
        assert(pt_index(p) == x[0] + 2 * pt_index(rest.push(b)));
        assert(pt_index(rest.push(b)) == pt_index(rest) + b * pow2(rest.len()));
        assert(pt_index(x) == x[0] + 2 * pt_index(rest));
        assert(pow2(x.len()) == 2 * pow2(rest.len()));
        assert(b * pow2(x.len()) == 2 * (b * pow2(rest.len()))) by (nonlinear_arith)
            requires
                pow2(x.len()) == 2 * pow2(rest.len()),
        ;
    }
}

/// Law: at every boolean point `x`, the encoding satisfies
/// `F(1, x) == F(x, 0) * F(x, 1)`.
pub proof fn lemma_flag_product(vv: Seq<nat>, s: nat, fv: Seq<nat>, x: Seq<nat>)
    requires
        encodes_product_tree(vv, s, fv),
        s >= 1,
        all_canonical(vv),
        vv.len() == pow2(s),
        x.len() == s,
        all_boolean(x),
    ensures
        mle_eval(fv, seq![1nat] + x) == f_mul(
            mle_eval(fv, x.push(0nat)),
            mle_eval(fv, x.push(1nat)),
        ),
{
    lemma_encoding_canonical(vv, s, fv);
    let ix = pt_index(x);
    lemma_pt_index_bound(x);
    assert(pow2(s + 1) == 2 * pow2(s));
    let pa = seq![1nat] + x;
    assert(pa.len() == s + 1);
    assert(pa[0] == 1);
    assert(pa.subrange(1, pa.len() as int) =~= x);
    crate::mle::lemma_eval_boolean(fv, pa);
    assert(pt_index(pa) == 1 + 2 * ix);
    let p0 = x.push(0nat);
    let p1 = x.push(1nat);
    crate::mle::lemma_eval_boolean(fv, p0);
    crate::mle::lemma_eval_boolean(fv, p1);
    lemma_index_push(x, 0);
    lemma_index_push(x, 1);
    assert(pt_index(p0) == ix);
    assert(pt_index(p1) == ix + pow2(s));
    assert(fv[2 * (ix as int) + 1] == f_mul(fv[ix as int], fv[ix as int + pow2(s)]));
}

/// Law: the equality indicator is one at its own index and zero at every
/// other boolean index.
pub proof fn lemma_eq_indicator(t: Seq<nat>, j: nat)
    requires
        all_boolean(t),
        j < pow2(t.len()),
    ensures
        j == pt_index(t) ==> eq_at(t, j) == 1,
        j != pt_index(t) ==> eq_at(t, j) == 0,
    decreases t.len(),
{
    let q = scalar_modulus();
    lemma_small_mod(0, q);
    lemma_small_mod(1, q);
    if t.len() == 0 {
    } else {
        let b = t[0];
        let rest = t.subrange(1, t.len() as int);
        let jr = j / 2;
        assert(pow2(t.len()) == 2 * pow2(rest.len()));
        assert(jr < pow2(rest.len()));
        lemma_eq_indicator(rest, jr);
        let e = eq_at(rest, jr);
        assert(e == 0 || e == 1);
        lemma_small_mod(e, q);
        assert(pt_index(t) == b + 2 * pt_index(rest));
        lemma_mod_self_0(q as int);
        lemma_mod_multiples_vanish(1, 1, q as int);
        if j % 2 == 1 && b == 1 {
            assert(eq_at(t, j) == f_mul(1, e));
            assert(1 * e == e);
        } else if j % 2 == 0 && b == 0 {
            assert(f_sub(1, 0) == 1);
            assert(eq_at(t, j) == f_mul(1, e));
            assert(1 * e == e);
        } else if j % 2 == 1 && b == 0 {
            assert(eq_at(t, j) == f_mul(0, e));
            assert(0 * e == 0);
        } else {
            assert(f_sub(1, 1) == 0);
            assert(eq_at(t, j) == f_mul(0, e));
            assert(0 * e == 0);
        }
        assert(j == 2 * jr + j % 2);
    }
}

/// Law: the consistency polynomial of a correctly built encoding vanishes at
/// every hypercube point.
pub proof fn lemma_consistency_vanishes(
    vv: Seq<nat>,
    s: nat,
    fv: Seq<nat>,
    tv: Seq<nat>,
    gv: Seq<nat>,
)
    requires
        s >= 1,
        encodes_product_tree(vv, s, fv),
        all_canonical(vv),
        vv.len() == pow2(s),
        tv.len() == s,
        gv.len() == pow2(s),
        forall|i: int| 0 <= i < pow2(s) ==> #[trigger] gv[i] == f_mul(
            eq_at(tv, i as nat),
            f_sub(fv[2 * i + 1], f_mul(fv[i], fv[i + pow2(s)])),
        ),
    ensures
        forall|i: int| 0 <= i < gv.len() ==> gv[i] == 0,
{
    let q = scalar_modulus();
    assert forall|i: int| 0 <= i < gv.len() implies gv[i] == 0 by {
        assert(gv[i] == f_mul(eq_at(tv, i as nat), f_sub(fv[2 * i + 1], f_mul(fv[i], fv[i + pow2(
            s,
        )]))));
        assert(fv[2 * i + 1] == f_mul(fv[i], fv[i + pow2(s)]));
        let m = f_mul(fv[i], fv[i + pow2(s)]);
        lemma_mod_bound((fv[i] * fv[i + pow2(s)]) as int, q as int);
        lemma_small_mod(m, q);
        lemma_mod_self_0(q as int);
        assert(f_sub(m, m) == 0);
        assert(eq_at(tv, i as nat) * 0 == 0);
        lemma_small_mod(0, q);
        assert(f_mul(eq_at(tv, i as nat), 0) == 0);
    }
}

/// The hypercube sum of a sequence of field values.
pub open spec fn f_sum(s: Seq<nat>) -> nat
    decreases s.len(),
{
    if s.len() == 0 {
        0
    } else {
        f_add(s[0], f_sum(s.subrange(1, s.len() as int)))
    }
}

/// Law: a sequence of vanishing hypercube values sums to zero, so the
/// sum-check claim of the consistency polynomial is zero.
pub proof fn lemma_zero_sum(g: Seq<nat>)
    requires
        forall|i: int| 0 <= i < g.len() ==> g[i] == 0,
    ensures
        f_sum(g) == 0,
    decreases g.len(),
{
    let q = scalar_modulus();
    lemma_small_mod(0, q);
    if g.len() > 0 {
        lemma_zero_sum(g.subrange(1, g.len() as int));
    }
}

/// The product, modulo the field order, of `count` values of `v` starting at
/// `start` and taken at the given stride.
pub open spec fn stride_product(v: Seq<nat>, start: int, stride: int, count: nat) -> nat
    decreases count,
{
    if count == 0 {
        1
    } else {
        f_mul(v[start], stride_product(v, start + stride, stride, (count - 1) as nat))
    }
}

proof fn lemma_f_mul_one(x: nat)
    requires
        x < scalar_modulus(),
    ensures
        f_mul(x, 1) == x,
{
    lemma_small_mod(x, scalar_modulus());
}

proof fn lemma_f_mul_assoc(a: nat, b: nat, c: nat)
    ensures
        f_mul(a, f_mul(b, c)) == f_mul(f_mul(a, b), c),
{
    let q = scalar_modulus();
    lemma_mul_mod_noop_general(a as int, (b * c) as int, q as int);
    lemma_mul_mod_noop_general((a * b) as int, c as int, q as int);
    assert(a * (b * c) == (a * b) * c) by (nonlinear_arith);
}

proof fn lemma_f_mul_comm(a: nat, b: nat)
    ensures
        f_mul(a, b) == f_mul(b, a),
{
    assert(a * b == b * a) by (nonlinear_arith);
}

/// A product over an arithmetic progression splits into the interleaved
/// products over the even and odd positions.
#[verifier::rlimit(50)]
proof fn lemma_stride_split(v: Seq<nat>, start: int, st: int, c: nat)
    requires
        c >= 1,
    ensures
        stride_product(v, start, st, 2 * c) == f_mul(
            stride_product(v, start, 2 * st, c),
            stride_product(v, start + st, 2 * st, c),
        ),
    decreases c,
{
    let q = scalar_modulus();
    let x = v[start];
    let y = v[start + st];
    if c == 1 {
        assert(stride_product(v, start + st + st, st, 0) == 1);
        assert(stride_product(v, start + 2 * st, 2 * st, 0) == 1);
        assert(stride_product(v, start + st + 2 * st, 2 * st, 0) == 1);
        assert(stride_product(v, start + st, st, 1) == f_mul(y, 1));
        assert(stride_product(v, start, st, 2) == f_mul(x, f_mul(y, 1)));
        assert(stride_product(v, start, 2 * st, 1) == f_mul(x, 1));
        assert(stride_product(v, start + st, 2 * st, 1) == f_mul(y, 1));
        assert(x * 1 == x);
        assert(y * 1 == y);
        assert(f_mul(x, 1) == x % q);
        assert(f_mul(y, 1) == y % q);
        lemma_mul_mod_noop_general(x as int, y as int, q as int);
        assert(f_mul(x % q, y % q) == f_mul(x, y));
        assert(f_mul(x, y % q) == f_mul(x, y));
    } else {
        lemma_stride_split(v, start + 2 * st, st, (c - 1) as nat);
        let a = stride_product(v, start + 2 * st, 2 * st, (c - 1) as nat);
        let b = stride_product(v, start + st + 2 * st, 2 * st, (c - 1) as nat);
        assert(stride_product(v, start, st, 2 * c) == f_mul(x, f_mul(y, f_mul(a, b)))) by {
            assert(2 * c - 2 == 2 * ((c - 1) as nat));
            assert(stride_product(v, start + st + st, st, (2 * c - 2) as nat) == f_mul(a, b));
            assert(stride_product(v, start + st, st, (2 * c - 1) as nat) == f_mul(
                y,
                stride_product(v, start + st + st, st, (2 * c - 2) as nat),
            ));
            assert(stride_product(v, start, st, 2 * c) == f_mul(
                x,
                stride_product(v, start + st, st, (2 * c - 1) as nat),
            ));
        }
        assert(stride_product(v, start, 2 * st, c) == f_mul(x, a));
        assert(stride_product(v, start + st, 2 * st, c) == f_mul(y, b));
        // rearrange x * (y * (a * b)) into (x * a) * (y * b)
        lemma_f_mul_assoc(y, a, b);
        assert(f_mul(x, f_mul(y, f_mul(a, b))) == f_mul(x, f_mul(f_mul(y, a), b)));
        lemma_f_mul_comm(y, a);
        lemma_f_mul_assoc(a, y, b);
        assert(f_mul(x, f_mul(f_mul(y, a), b)) == f_mul(x, f_mul(a, f_mul(y, b))));
        lemma_f_mul_assoc(x, a, f_mul(y, b));
    }
}

/// Each entry of the product tree at a given level multiplies the source
/// values of its subcube: the entry at `m * 2^(l+1) + 2^l - 1` is the
/// product of `2^l` source values starting at `m` with stride `2^(s-l)`.
proof fn lemma_tree_level(vv: Seq<nat>, s: nat, fv: Seq<nat>, l: nat, m: nat)
    requires
        encodes_product_tree(vv, s, fv),
        all_canonical(vv),
        vv.len() == pow2(s),
        1 <= l <= s,
        m < pow2((s - l) as nat),
    ensures
        fv[pow2(l + 1) as int * m + pow2(l) as int - 1] == stride_product(
            vv,
            m as int,
            pow2((s - l) as nat) as int,
            pow2(l),
        ),
    decreases l,
{
    lemma_encoding_canonical(vv, s, fv);
    lemma_pow2_pos(l);
    lemma_pow2_pos((l - 1) as nat);
    lemma_pow2_pos((s - l) as nat);
    assert(pow2(l + 1) == 2 * pow2(l));
    assert(pow2(l) == 2 * pow2((l - 1) as nat));
    let i = pow2(l + 1) as int * m + pow2(l) as int - 1;
    let j = pow2(l) as int * m + pow2((l - 1) as nat) as int - 1;
    assert(i == 2 * j + 1) by (nonlinear_arith)
        requires
            i == pow2(l + 1) as int * m + pow2(l) as int - 1,
            j == pow2(l) as int * m + pow2((l - 1) as nat) as int - 1,
            pow2(l + 1) == 2 * pow2(l),
            pow2(l) == 2 * pow2((l - 1) as nat),
    ;
    lemma_pow2_adds(l, (s - l) as nat);
    lemma_mul_inequality(m as int, pow2((s - l) as nat) as int - 1, pow2(l) as int);
    assert(j < pow2(s)) by (nonlinear_arith)
        requires
            j == pow2(l) as int * m + pow2((l - 1) as nat) as int - 1,
            m <= pow2((s - l) as nat) - 1,
            pow2(l) as int * (m as int) <= pow2(l) as int * (pow2((s - l) as nat) as int - 1),
            pow2(s) == pow2(l) * pow2((s - l) as nat),
            pow2(l) == 2 * pow2((l - 1) as nat),
            pow2((l - 1) as nat) >= 1,
    ;
    assert(j >= 0);
    assert(fv[2 * j + 1] == f_mul(fv[j], fv[j + pow2(s)]));
    let stw = pow2((s - l) as nat) as int;
    if l == 1 {
        assert(j == 2 * m);
        assert(fv[2 * (m as int)] == vv[m as int]);
        assert(pow2(s) == 2 * pow2((s - 1) as nat));
        assert(j + pow2(s) == 2 * (m + pow2((s - 1) as nat)));
        assert(m + pow2((s - 1) as nat) < pow2(s));
        assert(fv[2 * (m as int + pow2((s - 1) as nat))] == vv[m as int + pow2((s - 1) as nat)]);
        let y = vv[m as int + stw];
        assert(stride_product(vv, m as int + stw + stw, stw, 0) == 1);
        assert(stride_product(vv, m as int + stw, stw, 1) == f_mul(y, 1));
        assert(stride_product(vv, m as int, stw, 2) == f_mul(vv[m as int], f_mul(y, 1)));
        lemma_f_mul_one(y);
        assert((s - 1) as nat == (s - l) as nat);
    } else {
        lemma_tree_level(vv, s, fv, (l - 1) as nat, m);
        lemma_tree_level(vv, s, fv, (l - 1) as nat, m + pow2((s - l) as nat));
        assert((s - (l - 1)) as nat == (s - l) as nat + 1);
        assert(pow2((s - l) as nat + 1) == 2 * pow2((s - l) as nat));
        // the two children sit at the indices of level l - 1 for m and for
        // m + 2^(s-l)
        assert(j == pow2((l - 1) as nat + 1) as int * m + pow2((l - 1) as nat) as int - 1);
        assert(j + pow2(s) == pow2((l - 1) as nat + 1) as int * (m + pow2((s - l) as nat)) + pow2(
            (l - 1) as nat,
        ) as int - 1) by (nonlinear_arith)
            requires
                j == pow2(l) as int * m + pow2((l - 1) as nat) as int - 1,
                pow2(l) == pow2((l - 1) as nat + 1),
                pow2(s) == pow2(l) * pow2((s - l) as nat),
        ;
        assert(m + pow2((s - l) as nat) < pow2((s - (l - 1)) as nat));
        assert(fv[j] == stride_product(vv, m as int, 2 * stw, pow2((l - 1) as nat)));
        assert(fv[j + pow2(s)] == stride_product(
            vv,
            m as int + stw,
            2 * stw,
            pow2((l - 1) as nat),
        ));
        lemma_stride_split(vv, m as int, stw, pow2((l - 1) as nat));
        assert(2 * pow2((l - 1) as nat) == pow2(l));
    }
}

/// Law: the designated entry of a correct encoding is the grand product of
/// all source values over the boolean hypercube, so the claimed value of a
/// proof is that product.
pub proof fn lemma_grand_product(vv: Seq<nat>, s: nat, fv: Seq<nat>)
    requires
        encodes_product_tree(vv, s, fv),
        all_canonical(vv),
        vv.len() == pow2(s),
    ensures
        fv[pow2(s) as int - 1] == stride_product(vv, 0, 1, pow2(s)),
{
    if s == 0 {
        assert(fv[2 * 0int] == vv[0]);
        assert(stride_product(vv, 1, 1, 0) == 1);
        assert(stride_product(vv, 0, 1, 1) == f_mul(vv[0], 1));
        lemma_f_mul_one(vv[0]);
    } else {
        lemma_tree_level(vv, s, fv, s, 0);
        assert(pow2((s - s) as nat) == 1);
        assert(pow2(s + 1) as int * 0 + pow2(s) as int - 1 == pow2(s) as int - 1);
    }
}

} // verus!
