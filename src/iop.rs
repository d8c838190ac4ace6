//! The constraint polynomial of a MinRoot trace: the per-step recurrence turned
//! into one polynomial identity over a radix-2 domain, checked through its
//! quotient by the domain's vanishing polynomial.

use crate::field::{
    eqm, finv, fadd, fmul, fpow, fsub, lemma_eqm_mul, lemma_eqm_pow, lemma_eqm_refl,
    lemma_eqm_sub, lemma_mod_range, lemma_modulus_gt_one, lemma_pow5, modulus,
    FieldElement,
};
use crate::fold::in_field;
use crate::minroot::{all_wf, is_minroot_trace, lemma_relation_eqm, relation_value, vals, ALPHA};
use crate::poly::{
    coset_fft, coset_fft_of, coset_ifft, coset_ifft_of, coset_point, ifft_of, degree, domain_point, domain_size, ifft,
    next_power_of_two, poly_degree, poly_eval, MAX_DOMAIN_SIZE,
};
use vstd::arithmetic::div_mod::lemma_small_mod;
use vstd::prelude::*;

verus! {

/// Why no constraint polynomial was built.
#[derive(Clone, Copy, Debug, PartialEq, Eq, Structural)]
pub enum IopError {
    /// The trace has at most two entries.
    DomainTooSmall,
    /// The quotient's degree reaches `domain size * (ALPHA - 1)`.
    DegreeBoundExceeded,
    /// The vanishing polynomial is zero at a point of the evaluation coset.
    CosetMeetsDomain,
    /// The field has no power-of-two subgroup as large as the coset domain needs.
    DomainTooLarge,
}

/// The polynomials built for one trace, in coefficient form: the three views
/// of the padded trace, the selector, the constraint polynomial `h` and the
/// quotient `t`.
pub struct ConstraintPolynomials {
    pub witness: Vec<FieldElement>,
    pub witness_shift1: Vec<FieldElement>,
    pub witness_shift2: Vec<FieldElement>,
    pub selector: Vec<FieldElement>,
    pub h: Vec<FieldElement>,
    pub t: Vec<FieldElement>,
}

/// The trace behind two zero rows.
pub open spec fn padded(x: Seq<int>) -> Seq<int> {
    seq![0int, 0int] + x
}

/// The selector's values on the trace's rows: `x0^5`, `x1^5 - x0`, then `1, 2, ...`.
pub open spec fn selector_values(x: Seq<int>) -> Seq<int> {
    Seq::new(
        x.len(),
        |i: int|
            if i == 0 {
                fpow(x[0], 5)
            } else if i == 1 {
                fsub(fpow(x[1], 5), x[0])
            } else {
                i - 1
            },
    )
}

/// Row `i` of the padded trace shifted by `s`; zero past the trace's rows.
pub open spec fn shifted_column(x: Seq<int>, s: int, i: int) -> int {
    if 0 <= i < x.len() {
        padded(x)[i + s]
    } else {
        0
    }
}

/// Row `i` of the selector; zero past the trace's rows.
pub open spec fn selector_column(x: Seq<int>, i: int) -> int {
    if 0 <= i < x.len() {
        selector_values(x)[i]
    } else {
        0
    }
}

/// The constraint `W + W1 - W2^5 + Q` on row `i` of the domain.
pub open spec fn constraint_row(x: Seq<int>, i: int) -> int {
    relation_value(
        shifted_column(x, 0, i),
        shifted_column(x, 1, i),
        shifted_column(x, 2, i),
        selector_column(x, i),
    )
}

/// The coefficients of `X^n - 1`.
pub open spec fn vanishing_coeffs(n: int) -> Seq<int> {
    Seq::new(
        (n + 1) as nat,
        |k: int|
            if k == 0 {
                modulus() - 1
            } else if k == n {
                1
            } else {
                0
            },
    )
}

/// The size of the coset domain for a base domain of size `n`.
pub open spec fn coset_size(n: int) -> int {
    domain_size(ALPHA * n)
}

/// The field has subgroups for the base domain of a trace of `len` entries
/// (`len + 2` points) and for its coset domain (`ALPHA` times as many, rounded up).
pub open spec fn domains_fit(len: int) -> bool {
    len + 2 <= MAX_DOMAIN_SIZE && domain_size(len + 2) <= MAX_DOMAIN_SIZE / 8
}

/// The coefficients of the column that interpolates the padded trace
/// shifted by `s` over the domain of size `n`.
pub open spec fn witness_column(x: Seq<int>, n: int, s: int) -> Seq<int> {
    ifft_of(n, padded(x).subrange(s, s + x.len()))
}

/// The coefficients of the selector over the domain of size `n`.
pub open spec fn selector_column_coeffs(x: Seq<int>, n: int) -> Seq<int> {
    ifft_of(n, selector_values(x))
}

/// The values of `W + W1 - W2^5 + Q` on the coset of size `m`.
pub open spec fn h_coset_values(x: Seq<int>, n: int, m: int) -> Seq<int> {
    let wc = coset_fft_of(m, witness_column(x, n, 0));
    let w1c = coset_fft_of(m, witness_column(x, n, 1));
    let w2c = coset_fft_of(m, witness_column(x, n, 2));
    let qc = coset_fft_of(m, selector_column_coeffs(x, n));
    Seq::new(m as nat, |j: int| relation_value(wc[j], w1c[j], w2c[j], qc[j]))
}

/// The values of the vanishing polynomial `X^n - 1` on the coset of size `m`.
pub open spec fn z_coset_values(n: int, m: int) -> Seq<int> {
    coset_fft_of(m, vanishing_coeffs(n))
}

/// The vanishing polynomial is zero somewhere on the coset.
pub open spec fn coset_meets_domain(n: int, m: int) -> bool {
    exists|j: int| 0 <= j < m && #[trigger] z_coset_values(n, m)[j] == 0
}

/// The quotient's values `h_j / z_j` on the coset of size `m`.
pub open spec fn t_coset_values(x: Seq<int>, n: int, m: int) -> Seq<int> {
    Seq::new(m as nat, |j: int| fmul(h_coset_values(x, n, m)[j], finv(z_coset_values(n, m)[j])))
}

/// The coefficients of `h`.
pub open spec fn h_coeffs(x: Seq<int>, n: int, m: int) -> Seq<int> {
    coset_ifft_of(m, h_coset_values(x, n, m))
}

/// The coefficients of the quotient `t`.
pub open spec fn t_coeffs(x: Seq<int>, n: int, m: int) -> Seq<int> {
    coset_ifft_of(m, t_coset_values(x, n, m))
}

impl ConstraintPolynomials {
    /// `W(X) + W1(X) - W2(X)^5 + Q(X)` at `x`.
    pub open spec fn constraint_at(&self, x: int) -> int {
        relation_value(
            poly_eval(vals(self.witness@), x),
            poly_eval(vals(self.witness_shift1@), x),
            poly_eval(vals(self.witness_shift2@), x),
            poly_eval(vals(self.selector@), x),
        )
    }

    /// The four columns interpolate the padded trace, its two shifts and the
    /// selector over the domain of size `n`.
    pub open spec fn interpolates(&self, x: Seq<int>, n: int) -> bool {
        forall|i: int|
            0 <= i < n ==> {
                &&& poly_eval(vals(self.witness@), #[trigger] domain_point(n, i))
                    == shifted_column(x, 0, i)
                &&& poly_eval(vals(self.witness_shift1@), domain_point(n, i))
                    == shifted_column(x, 1, i)
                &&& poly_eval(vals(self.witness_shift2@), domain_point(n, i))
                    == shifted_column(x, 2, i)
                &&& poly_eval(vals(self.selector@), domain_point(n, i)) == selector_column(x, i)
            }
    }

    /// The result of building on trace `x` over a base domain of size `n` and
    /// its coset of size `m`: `h` takes the constraint's value at every coset
    /// point, `t * Z == h` there, and `t` has degree below `n * (ALPHA - 1)`.
    pub open spec fn built_from(&self, x: Seq<int>, n: int, m: int) -> bool {
        &&& self.witness@.len() == n
        &&& self.witness_shift1@.len() == n
        &&& self.witness_shift2@.len() == n
        &&& self.selector@.len() == n
        &&& self.h@.len() == m
        &&& self.t@.len() == m
        &&& all_wf(self.h@)
        &&& all_wf(self.t@)
        &&& self.interpolates(x, n)
        &&& forall|j: int|
            0 <= j < m ==> poly_eval(vals(self.h@), #[trigger] coset_point(m, j))
                == self.constraint_at(coset_point(m, j))
        &&& forall|j: int|
            0 <= j < m ==> fmul(
                poly_eval(vals(self.t@), #[trigger] coset_point(m, j)),
                poly_eval(vanishing_coeffs(n), coset_point(m, j)),
            ) == poly_eval(vals(self.h@), coset_point(m, j))
        &&& degree(vals(self.t@)) < n * (ALPHA - 1)
    }
}

/// The `len` entries of `v` from `start` on.
fn window(v: &Vec<FieldElement>, start: usize, len: usize) -> (r: Vec<FieldElement>)
    requires
        start + len <= v@.len(),
    ensures
        r@ == v@.subrange(start as int, start + len),
{
    let mut r: Vec<FieldElement> = Vec::new();
    let vl = v.len();
    for i in 0..len
        invariant
            vl == v@.len(),
            start + len <= v@.len(),
            r@ == v@.subrange(start as int, start + i),
    {
        r.push(v[start + i]);
        assert(r@ =~= v@.subrange(start as int, start + i + 1));
    }
    r
}

/// The trace behind two zero rows.
fn pad_trace(x: &Vec<FieldElement>) -> (r: Vec<FieldElement>)
    requires
        all_wf(x@),
    ensures
        all_wf(r@),
        r@.len() == x@.len() + 2,
        vals(r@) == padded(vals(x@)),
{
    let mut r: Vec<FieldElement> = Vec::new();
    r.push(FieldElement::zero());
    r.push(FieldElement::zero());
    for i in 0..x.len()
        invariant
            all_wf(x@),
            all_wf(r@),
            vals(r@) == padded(vals(x@).subrange(0, i as int)),
            r@.len() == i + 2,
    {
        let ghost before = r@;
        r.push(x[i]);
        assert(vals(r@) =~= vals(before).push(x@[i as int]@));
        assert(vals(x@).subrange(0, i + 1) =~= vals(x@).subrange(0, i as int).push(x@[i as int]@));
        assert(vals(r@) =~= padded(vals(x@).subrange(0, i + 1)));
    }
    assert(vals(x@).subrange(0, x@.len() as int) =~= vals(x@));
    r
}

/// The selector's values on the trace's rows.
fn selector_entries(x: &Vec<FieldElement>) -> (r: Vec<FieldElement>)
    requires
        all_wf(x@),
        x@.len() >= 2,
    ensures
        all_wf(r@),
        r@.len() == x@.len(),
        vals(r@) == selector_values(vals(x@)),
{
    let n = x.len();
    let mut r: Vec<FieldElement> = Vec::new();
    r.push(x[0].pow(ALPHA));
    r.push(x[1].pow(ALPHA).minus(&x[0]));
    for i in 2..n
        invariant
            n == x@.len(),
            all_wf(x@),
            all_wf(r@),
            r@.len() == i,
            forall|j: int| 0 <= j < i ==> (#[trigger] r@[j])@ == selector_values(vals(x@))[j],
    {
        proof {
            lemma_modulus_gt_one();
            crate::field::lemma_modulus_value();
        }
        r.push(FieldElement::from_u64((i - 1) as u64));
    }
    assert(vals(r@) =~= selector_values(vals(x@)));
    r
}

/// The coefficients of `X^n - 1`.
fn vanishing_polynomial(n: usize) -> (r: Vec<FieldElement>)
    requires
        1 <= n < usize::MAX,
    ensures
        all_wf(r@),
        r@.len() == n + 1,
        vals(r@) == vanishing_coeffs(n as int),
{
    let minus_one = FieldElement::zero().minus(&FieldElement::from_u64(1));
    proof {
        lemma_modulus_gt_one();
        lemma_small_mod((modulus() - 1) as nat, modulus() as nat);
        vstd::arithmetic::div_mod::lemma_mod_add_multiples_vanish(-1, modulus());
        assert(fsub(0, 1) == modulus() - 1);
    }
    let mut r: Vec<FieldElement> = Vec::new();
    r.push(minus_one);
    for k in 1..n
        invariant
            all_wf(r@),
            r@.len() == k,
            minus_one.wf(),
            minus_one@ == fsub(0, 1),
            forall|j: int| 0 <= j < k ==> (#[trigger] r@[j])@ == vanishing_coeffs(n as int)[j],
    {
        r.push(FieldElement::zero());
    }
    r.push(FieldElement::from_u64(1));
    assert(vals(r@) =~= vanishing_coeffs(n as int));
    r
}

/// Dividing by `z` through an inverse `iz` of `z` and multiplying back returns `h`.
proof fn lemma_cancel(h: int, iz: int, z: int)
    requires
        0 <= h < modulus(),
        fmul(iz, z) == 1,
    ensures
        fmul(fmul(h, iz), z) == h,
{
    lemma_eqm_refl(h * iz);
    lemma_eqm_mul(fmul(h, iz), z, h * iz, z);
    lemma_eqm_refl(fmul(h, iz) * z);
    lemma_eqm_refl(iz * z);
    assert(h * iz * z == h * (iz * z)) by (nonlinear_arith);
    lemma_eqm_mul(h, iz * z, h, fmul(iz, z));
    assert(h * 1 == h);
    lemma_modulus_gt_one();
    lemma_small_mod(h as nat, modulus() as nat);
}

/// The constraint `W + W1 - W2^5 + Q` on each of the trace's rows of the base
/// domain, from the trace itself (the rows after it are zero by construction).
pub fn constraint_rows(x_i: &Vec<FieldElement>) -> (r: Vec<FieldElement>)
    requires
        all_wf(x_i@),
        x_i@.len() >= 2,
    ensures
        all_wf(r@),
        r@.len() == x_i@.len(),
        forall|i: int| 0 <= i < r@.len() ==> (#[trigger] r@[i])@ == constraint_row(vals(x_i@), i),
{
    let n = x_i.len();
    let xp = pad_trace(x_i);
    let q = selector_entries(x_i);
    let mut r: Vec<FieldElement> = Vec::new();
    for i in 0..n
        invariant
            n == x_i@.len(),
            xp@.len() == n + 2,
            q@.len() == n,
            all_wf(xp@),
            all_wf(q@),
            vals(xp@) == padded(vals(x_i@)),
            vals(q@) == selector_values(vals(x_i@)),
            all_wf(r@),
            r@.len() == i,
            forall|j: int| 0 <= j < i ==> (#[trigger] r@[j])@ == constraint_row(vals(x_i@), j),
    {
        r.push(xp[i].plus(&xp[i + 1]).minus(&xp[i + 2].pow(ALPHA)).plus(&q[i]));
        assert(vals(xp@)[i as int] == xp@[i as int]@);
    }
    r
}

/// From the values of the four columns and of the vanishing polynomial on the
/// coset, the constraint's values `h_j = W + W1 - W2^5 + Q` and the quotient's
/// values `t_j = h_j / z_j`; fails where some `z_j` is zero.
pub fn quotient_on_coset(
    wc: &Vec<FieldElement>,
    w1c: &Vec<FieldElement>,
    w2c: &Vec<FieldElement>,
    qc: &Vec<FieldElement>,
    zc: &Vec<FieldElement>,
) -> (res: Result<(Vec<FieldElement>, Vec<FieldElement>), IopError>)
    requires
        w1c@.len() == wc@.len(),
        w2c@.len() == wc@.len(),
        qc@.len() == wc@.len(),
        zc@.len() == wc@.len(),
        all_wf(wc@),
        all_wf(w1c@),
        all_wf(w2c@),
        all_wf(qc@),
        all_wf(zc@),
    ensures
        res is Err <==> exists|j: int| 0 <= j < zc@.len() && (#[trigger] zc@[j])@ == 0,
        res matches Err(e) ==> e == IopError::CosetMeetsDomain,
        res matches Ok((h, t)) ==> {
            &&& h@.len() == wc@.len()
            &&& t@.len() == wc@.len()
            &&& all_wf(h@)
            &&& all_wf(t@)
            &&& forall|j: int|
                0 <= j < h@.len() ==> (#[trigger] h@[j])@ == relation_value(
                    wc@[j]@,
                    w1c@[j]@,
                    w2c@[j]@,
                    qc@[j]@,
                )
            &&& forall|j: int| 0 <= j < t@.len() ==> fmul((#[trigger] t@[j])@, zc@[j]@) == h@[j]@
            &&& forall|j: int| 0 <= j < t@.len() ==> (#[trigger] t@[j])@ == fmul(h@[j]@, finv(zc@[j]@))
        },
{
    let m = wc.len();
    let mut h_evals: Vec<FieldElement> = Vec::new();
    let mut t_evals: Vec<FieldElement> = Vec::new();
    for j in 0..m
        invariant
            m == wc@.len(),
            w1c@.len() == m,
            w2c@.len() == m,
            qc@.len() == m,
            zc@.len() == m,
            all_wf(wc@),
            all_wf(w1c@),
            all_wf(w2c@),
            all_wf(qc@),
            all_wf(zc@),
            h_evals@.len() == j,
            t_evals@.len() == j,
            all_wf(h_evals@),
            all_wf(t_evals@),
            forall|k: int| 0 <= k < j ==> (#[trigger] zc@[k])@ != 0,
            forall|k: int|
                0 <= k < j ==> (#[trigger] h_evals@[k])@ == relation_value(
                    wc@[k]@,
                    w1c@[k]@,
                    w2c@[k]@,
                    qc@[k]@,
                ),
            forall|k: int| 0 <= k < j ==> fmul((#[trigger] t_evals@[k])@, zc@[k]@) == h_evals@[k]@,
            forall|k: int|
                0 <= k < j ==> (#[trigger] t_evals@[k])@ == fmul(h_evals@[k]@, finv(zc@[k]@)),
    {
        let h_j = wc[j].plus(&w1c[j]).minus(&w2c[j].pow(ALPHA)).plus(&qc[j]);
        let t_j = match zc[j].inverse() {
            Some(iz) => {
                proof {
                    lemma_cancel(h_j@, iz@, zc@[j as int]@);
                }
                h_j.times(&iz)
            },
            None => {
                return Err(IopError::CosetMeetsDomain);
            },
        };
        h_evals.push(h_j);
        t_evals.push(t_j);
    }
    Ok((h_evals, t_evals))
}

/// Builds the constraint polynomial `h = W + W1 - W2^5 + Q` of the trace `x_i`
/// over the smallest radix-2 domain with `len + 2` points, evaluated on a coset
/// `ALPHA` times larger, and its quotient `t` by the domain's vanishing
/// polynomial; fails when `t` reaches degree `n * (ALPHA - 1)`.
pub fn compute_polynomial_h(x_i: &Vec<FieldElement>) -> (res: Result<ConstraintPolynomials, IopError>)
    requires
        all_wf(x_i@),
    ensures
        ({
            let len = x_i@.len() as int;
            let n = domain_size(len + 2);
            &&& (res matches Err(IopError::DomainTooSmall)) <==> len <= 2
            &&& (res matches Err(IopError::DomainTooLarge)) <==> len > 2 && !domains_fit(len)
            &&& (res matches Err(IopError::CosetMeetsDomain)) <==> len > 2 && domains_fit(len)
                && coset_meets_domain(n, coset_size(n))
            &&& (res matches Err(IopError::DegreeBoundExceeded)) <==> len > 2 && domains_fit(len)
                && !coset_meets_domain(n, coset_size(n)) && degree(
                t_coeffs(vals(x_i@), n, coset_size(n)),
            ) >= n * (ALPHA - 1)
            &&& (res is Ok) <==> len > 2 && domains_fit(len) && !coset_meets_domain(
                n,
                coset_size(n),
            ) && degree(t_coeffs(vals(x_i@), n, coset_size(n))) < n * (ALPHA - 1)
            &&& (res matches Ok(p) ==> {
                let x = vals(x_i@);
                let m = coset_size(n);
                &&& p.built_from(x, n, m)
                &&& vals(p.witness@) == witness_column(x, n, 0)
                &&& vals(p.witness_shift1@) == witness_column(x, n, 1)
                &&& vals(p.witness_shift2@) == witness_column(x, n, 2)
                &&& vals(p.selector@) == selector_column_coeffs(x, n)
                &&& vals(p.h@) == h_coeffs(x, n, m)
                &&& vals(p.t@) == t_coeffs(x, n, m)
            })
        }),
{
    let num_constraints = x_i.len();
    if num_constraints <= 2 {
        return Err(IopError::DomainTooSmall);
    }
    if num_constraints > MAX_DOMAIN_SIZE - 2 {
        return Err(IopError::DomainTooLarge);
    }
    let n = next_power_of_two(num_constraints + 2);
    if n > MAX_DOMAIN_SIZE / 8 {
        return Err(IopError::DomainTooLarge);
    }
    let m = next_power_of_two(ALPHA as usize * n);
    let ghost x = vals(x_i@);
    let padded_trace = pad_trace(x_i);
    let w = window(&padded_trace, 0, num_constraints);
    let w1 = window(&padded_trace, 1, num_constraints);
    let w2 = window(&padded_trace, 2, num_constraints);
    let q = selector_entries(x_i);
    // the four columns in coefficient form over the base domain
    let witness = ifft(n, &w);
    let witness_shift1 = ifft(n, &w1);
    let witness_shift2 = ifft(n, &w2);
    let selector = ifft(n, &q);
    // and their values on the coset
    let wc = coset_fft(m, &witness);
    let w1c = coset_fft(m, &witness_shift1);
    let w2c = coset_fft(m, &witness_shift2);
    let qc = coset_fft(m, &selector);
    let z = vanishing_polynomial(n);
    let zc = coset_fft(m, &z);
    proof {
        let nn = num_constraints as int;
        assert(vals(w@) =~= padded(x).subrange(0, nn));
        assert(vals(w1@) =~= padded(x).subrange(1, 1 + nn));
        assert(vals(w2@) =~= padded(x).subrange(2, 2 + nn));
        assert(vals(zc@) == z_coset_values(n as int, m as int));
    }
    let (h_evals, t_evals) = match quotient_on_coset(&wc, &w1c, &w2c, &qc, &zc) {
        Ok(e) => e,
        Err(e) => {
            proof {
                let j = choose|j: int| 0 <= j < zc@.len() && (#[trigger] zc@[j])@ == 0;
                assert(z_coset_values(n as int, m as int)[j] == 0);
            }
            return Err(e);
        },
    };
    proof {
        assert(vals(h_evals@) =~= h_coset_values(x, n as int, m as int));
        assert forall|j: int| 0 <= j < m implies (#[trigger] zc@[j])@ != 0 by {
            if zc@[j]@ == 0 {
                assert(z_coset_values(n as int, m as int)[j] == 0);
            }
        }
        if coset_meets_domain(n as int, m as int) {
            let j = choose|j: int| 0 <= j < m && #[trigger] z_coset_values(n as int, m as int)[j] == 0;
            assert(zc@[j]@ == 0);
        }
        assert(vals(t_evals@) =~= t_coset_values(x, n as int, m as int));
    }
    let h = coset_ifft(m, &h_evals);
    let t = coset_ifft(m, &t_evals);
    assert(ALPHA as usize - 1 == 4);
    assert(n * 4 <= MAX_DOMAIN_SIZE) by (nonlinear_arith)
        requires
            n <= MAX_DOMAIN_SIZE / 8,
    ;
    let bound: usize = n * (ALPHA as usize - 1);
    if poly_degree(&t) >= bound {
        return Err(IopError::DegreeBoundExceeded);
    }
    let p = ConstraintPolynomials { witness, witness_shift1, witness_shift2, selector, h, t };
    proof {
        assert forall|i: int| 0 <= i < n implies {
            &&& poly_eval(vals(p.witness@), #[trigger] domain_point(n as int, i))
                == shifted_column(x, 0, i)
            &&& poly_eval(vals(p.witness_shift1@), domain_point(n as int, i))
                == shifted_column(x, 1, i)
            &&& poly_eval(vals(p.witness_shift2@), domain_point(n as int, i))
                == shifted_column(x, 2, i)
            &&& poly_eval(vals(p.selector@), domain_point(n as int, i)) == selector_column(x, i)
        } by {
            if i < num_constraints {
                assert(w@[i]@ == padded(x)[i]);
                assert(w1@[i]@ == padded(x)[i + 1]);
                assert(w2@[i]@ == padded(x)[i + 2]);
                assert(q@[i]@ == selector_values(x)[i]);
            }
        }
        assert forall|j: int| 0 <= j < m implies poly_eval(
            vals(p.h@),
            #[trigger] coset_point(m as int, j),
        ) == p.constraint_at(coset_point(m as int, j)) by {
            assert(h_evals@[j]@ == relation_value(wc@[j]@, w1c@[j]@, w2c@[j]@, qc@[j]@));
        }
        assert forall|j: int| 0 <= j < m implies fmul(
            poly_eval(vals(p.t@), #[trigger] coset_point(m as int, j)),
            poly_eval(vanishing_coeffs(n as int), coset_point(m as int, j)),
        ) == poly_eval(vals(p.h@), coset_point(m as int, j)) by {
            assert(fmul(t_evals@[j]@, zc@[j]@) == h_evals@[j]@);
        }
    }
    Ok(p)
}

/// The relation value is zero wherever its integer expression is.
proof fn lemma_relation_zero(x: int, y: int, z: int, e: int, xx: int, yy: int, zz: int, ee: int)
    requires
        eqm(x, xx),
        eqm(y, yy),
        eqm(z, zz),
        eqm(e, ee),
        xx + yy - zz * zz * zz * zz * zz + ee == 0,
    ensures
        relation_value(x, y, z, e) == 0,
{
    lemma_relation_eqm(x, y, z, e, xx, yy, zz, ee);
    lemma_mod_range(fsub(fadd(x, y), fpow(z, 5)) + e);
    lemma_modulus_gt_one();
    lemma_small_mod(relation_value(x, y, z, e) as nat, modulus() as nat);
    lemma_small_mod(0, modulus() as nat);
}

/// On every row of the domain the constraint of a MinRoot trace is zero: the
/// two padding rows by the selector's boundary values, the others by the
/// recurrence, and the rows past the trace because every column is zero there.
pub proof fn lemma_constraint_row_vanishes(x: Seq<int>, i: int)
    requires
        is_minroot_trace(x),
        in_field(x),
        x.len() >= 2,
        0 <= i,
    ensures
        constraint_row(x, i) == 0,
{
    let n = x.len() as int;
    if i >= n {
        lemma_eqm_refl(0);
        lemma_eqm_pow(0, 0, 5);
        lemma_pow5(0);
        lemma_relation_zero(0, 0, 0, 0, 0, 0, 0, 0);
    } else if i == 0 {
        let x0 = x[0];
        lemma_eqm_pow(x0, x0, 5);
        lemma_pow5(x0);
        lemma_relation_zero(0, 0, x0, fpow(x0, 5), 0, 0, x0, x0 * x0 * x0 * x0 * x0);
    } else if i == 1 {
        let (x0, x1) = (x[0], x[1]);
        let x1_5 = x1 * x1 * x1 * x1 * x1;
        lemma_eqm_pow(x1, x1, 5);
        lemma_pow5(x1);
        lemma_eqm_sub(fpow(x1, 5), x0, x1_5, x0);
        lemma_eqm_refl(fpow(x1, 5) - x0);
        lemma_relation_zero(0, x0, x1, fsub(fpow(x1, 5), x0), 0, x0, x1, x1_5 - x0);
    } else {
        let j = i - 2;
        assert(relation_value(x[j], x[j + 1], x[j + 2], j + 1) == 0);
        assert(padded(x)[i] == x[j] && padded(x)[i + 1] == x[j + 1] && padded(x)[i + 2] == x[j + 2]);
    }
}

impl ConstraintPolynomials {
    /// Completeness on the base domain: for a MinRoot trace, the constraint
    /// `W + W1 - W2^5 + Q` of interpolating columns is zero at every domain point.
    pub proof fn lemma_constraint_vanishes_on_domain(&self, x: Seq<int>, n: int)
        requires
            is_minroot_trace(x),
            in_field(x),
            x.len() >= 2,
            self.interpolates(x, n),
        ensures
            forall|i: int| 0 <= i < n ==> #[trigger] self.constraint_at(domain_point(n, i)) == 0,
    {
        assert forall|i: int| 0 <= i < n implies #[trigger] self.constraint_at(domain_point(n, i))
            == 0 by {
            lemma_constraint_row_vanishes(x, i);
        }
    }
}

/// Changing one entry `k` with `k + 2 < x.len()` of a MinRoot trace makes the
/// constraint nonzero on domain row `k + 2`, where that entry enters linearly.
pub proof fn lemma_mutation_breaks_row(x: Seq<int>, k: int, v: int)
    requires
        is_minroot_trace(x),
        in_field(x),
        0 <= k,
        k + 2 < x.len(),
        0 <= v < modulus(),
        v != x[k],
    ensures
        constraint_row(x.update(k, v), k + 2) != 0,
{
    let y = x.update(k, v);
    let (a, b, c) = (x[k], x[k + 1], x[k + 2]);
    let c5 = c * c * c * c * c;
    assert(relation_value(a, b, c, k + 1) == 0);
    assert(constraint_row(y, k + 2) == relation_value(v, b, c, k + 1));
    lemma_eqm_refl(0);
    lemma_relation_eqm(a, b, c, k + 1, a, b, c, k + 1);
    lemma_relation_eqm(v, b, c, k + 1, v, b, c, k + 1);
    if relation_value(v, b, c, k + 1) == 0 {
        // both (a + b - c^5 + k + 1) and (v + b - c^5 + k + 1) are multiples of the modulus
        lemma_eqm_sub(v + b - c5 + (k + 1), a + b - c5 + (k + 1), 0, 0);
        assert(v + b - c5 + (k + 1) - (a + b - c5 + (k + 1)) == v - a);
        let d = v - a;
        let pm = modulus();
        lemma_modulus_gt_one();
        vstd::arithmetic::div_mod::lemma_fundamental_div_mod(d, pm);
        lemma_small_mod(0, pm as nat);
        let q = d / pm;
        assert(d == pm * q);
        assert(d == 0) by (nonlinear_arith)
            requires
                d == pm * q,
                -pm < d < pm,
                pm > 0,
        ;
    }
}

} // verus!
