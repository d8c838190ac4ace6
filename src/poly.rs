//! Polynomials in coefficient form over the BN254 scalar field, radix-2
//! evaluation domains, and the (coset) FFTs that move between coefficients and
//! evaluations.

use crate::field::{fadd, fmul, fpow, FieldElement};
use crate::minroot::{all_wf, vals};
use ark_ff::{BigInteger256, PrimeField};
use ark_poly::{EvaluationDomain, Radix2EvaluationDomain};
use vstd::prelude::*;

verus! {

/// The largest power-of-two subgroup order of the field: `2^28`.
pub const MAX_DOMAIN_SIZE: usize = 0x1000_0000;

/// The value at `x` of the polynomial with coefficients `c` (lowest first).
pub open spec fn poly_eval(c: Seq<int>, x: int) -> int
    decreases c.len(),
{
    if c.len() == 0 {
        0
    } else {
        fadd(c[0], fmul(x, poly_eval(c.drop_first(), x)))
    }
}

pub open spec fn is_pow2(n: int) -> bool
    decreases n,
{
    if n <= 1 {
        n == 1
    } else {
        n % 2 == 0 && is_pow2(n / 2)
    }
}

/// `n` is the order of a multiplicative subgroup that the field has.
pub open spec fn is_domain_size(n: int) -> bool {
    is_pow2(n) && n <= MAX_DOMAIN_SIZE
}

/// The generator of the subgroup of order `n` that the domain of that size uses.
pub uninterp spec fn root_of_unity(n: int) -> int;

/// The coefficients that `ifft` computes from the values `v` on the domain of size `n`.
pub uninterp spec fn ifft_of(n: int, v: Seq<int>) -> Seq<int>;

/// The values that `coset_fft` computes from the coefficients `c` on the coset of size `m`.
pub uninterp spec fn coset_fft_of(m: int, c: Seq<int>) -> Seq<int>;

/// The coefficients that `coset_ifft` computes from the values `e` on the coset of size `m`.
pub uninterp spec fn coset_ifft_of(m: int, e: Seq<int>) -> Seq<int>;

/// The offset of every coset domain: the field's multiplicative generator, 5.
pub open spec fn coset_offset() -> int {
    5
}

/// The `i`-th point of the domain of size `n`.
pub open spec fn domain_point(n: int, i: int) -> int {
    fpow(root_of_unity(n), i as nat)
}

/// The `j`-th point of the coset of the domain of size `m`.
pub open spec fn coset_point(m: int, j: int) -> int {
    fmul(coset_offset(), fpow(root_of_unity(m), j as nat))
}

/// Relies on `EvaluationDomain::ifft` of `ark_poly`'s radix-2 domain of size
/// `n`: the `n` coefficients of the polynomial that takes the value `v[i]` at
/// the `i`-th domain point (`v` is padded with zeros to length `n`).
#[verifier::external_body]
pub(crate) fn ifft(n: usize, v: &Vec<FieldElement>) -> (r: Vec<FieldElement>)
    requires
        is_domain_size(n as int),
        v@.len() <= n,
        all_wf(v@),
    ensures
        r@.len() == n,
        all_wf(r@),
        vals(r@) == ifft_of(n as int, vals(v@)),
        forall|i: int|
            0 <= i < n ==> #[trigger] poly_eval(vals(r@), fpow(root_of_unity(n as int), i as nat)) == if i
                < v@.len() {
                v@[i]@
            } else {
                0
            },
{
    let d = Radix2EvaluationDomain::<ark_bn254::Fr>::new(n).unwrap();
    let xs: Vec<ark_bn254::Fr> = v.iter().map(|a| ark_bn254::Fr::from_repr(BigInteger256([a.l0, a.l1, a.l2, a.l3])).unwrap()).collect();
    d.ifft(&xs).iter().map(|x| x.into_repr().0).map(|s| FieldElement { l0: s[0], l1: s[1], l2: s[2], l3: s[3] }).collect()
}

/// Relies on `EvaluationDomain::coset_fft` of `ark_poly`'s radix-2 domain of
/// size `m`: the values of the polynomial `c` at the `m` points of the coset.
#[verifier::external_body]
pub(crate) fn coset_fft(m: usize, c: &Vec<FieldElement>) -> (r: Vec<FieldElement>)
    requires
        is_domain_size(m as int),
        c@.len() <= m,
        all_wf(c@),
    ensures
        r@.len() == m,
        all_wf(r@),
        vals(r@) == coset_fft_of(m as int, vals(c@)),
        forall|j: int| 0 <= j < m ==> (#[trigger] r@[j])@ == poly_eval(vals(c@), fmul(coset_offset(), fpow(root_of_unity(m as int), j as nat))),
{
    let d = Radix2EvaluationDomain::<ark_bn254::Fr>::new(m).unwrap();
    let xs: Vec<ark_bn254::Fr> = c.iter().map(|a| ark_bn254::Fr::from_repr(BigInteger256([a.l0, a.l1, a.l2, a.l3])).unwrap()).collect();
    d.coset_fft(&xs).iter().map(|x| x.into_repr().0).map(|s| FieldElement { l0: s[0], l1: s[1], l2: s[2], l3: s[3] }).collect()
}

/// Relies on `EvaluationDomain::coset_ifft` of `ark_poly`'s radix-2 domain of
/// size `m`: the `m` coefficients of the polynomial that takes the value `e[j]`
/// at the `j`-th point of the coset.
#[verifier::external_body]
pub(crate) fn coset_ifft(m: usize, e: &Vec<FieldElement>) -> (r: Vec<FieldElement>)
    requires
        is_domain_size(m as int),
        e@.len() == m,
        all_wf(e@),
    ensures
        r@.len() == m,
        all_wf(r@),
        vals(r@) == coset_ifft_of(m as int, vals(e@)),
        forall|j: int| 0 <= j < m ==> #[trigger] poly_eval(vals(r@), fmul(coset_offset(), fpow(root_of_unity(m as int), j as nat))) == e@[j]@,
{
    let d = Radix2EvaluationDomain::<ark_bn254::Fr>::new(m).unwrap();
    let xs: Vec<ark_bn254::Fr> = e.iter().map(|a| ark_bn254::Fr::from_repr(BigInteger256([a.l0, a.l1, a.l2, a.l3])).unwrap()).collect();
    d.coset_ifft(&xs).iter().map(|x| x.into_repr().0).map(|s| FieldElement { l0: s[0], l1: s[1], l2: s[2], l3: s[3] }).collect()
}

/// The degree of the polynomial `c`: the index of its last nonzero
/// coefficient, 0 for the zero polynomial.
pub open spec fn degree(c: Seq<int>) -> nat
    decreases c.len(),
{
    if c.len() == 0 {
        0
    } else if c.last() != 0 {
        (c.len() - 1) as nat
    } else {
        degree(c.drop_last())
    }
}

/// The degree of the polynomial with coefficients `c`.
pub fn poly_degree(c: &Vec<FieldElement>) -> (d: usize)
    ensures
        d == degree(vals(c@)),
{
    let mut k = c.len();
    assert(vals(c@).subrange(0, k as int) =~= vals(c@));
    while k > 0
        invariant
            k <= c@.len(),
            degree(vals(c@)) == degree(vals(c@).subrange(0, k as int)),
        decreases k,
    {
        let ghost s = vals(c@).subrange(0, k as int);
        if !c[k - 1].is_zero() {
            return k - 1;
        }
        assert(s.drop_last() =~= vals(c@).subrange(0, k - 1));
        k = k - 1;
    }
    0
}

/// The first of `n, 2n, 4n, ...` that is at least `k`.
pub open spec fn pow2_at_least(n: int, k: int) -> int
    decreases (if n < k { k - n } else { 0 }),
{
    if n >= k || n < 1 {
        n
    } else {
        pow2_at_least(2 * n, k)
    }
}

/// The size of the smallest radix-2 domain with at least `k` points.
pub open spec fn domain_size(k: int) -> int {
    pow2_at_least(1, k)
}

/// The smallest power of two that is at least `k`.
pub fn next_power_of_two(k: usize) -> (n: usize)
    requires
        k <= MAX_DOMAIN_SIZE,
    ensures
        is_pow2(n as int),
        n >= k,
        n == 1 || n / 2 < k,
        n <= MAX_DOMAIN_SIZE,
        n == domain_size(k as int),
{
    let mut n: usize = 1;
    while n < k
        invariant
            is_pow2(n as int),
            n == 1 || n / 2 < k,
            n <= MAX_DOMAIN_SIZE,
            k <= MAX_DOMAIN_SIZE,
            domain_size(k as int) == pow2_at_least(n as int, k as int),
        decreases MAX_DOMAIN_SIZE - n,
    {
        proof {
            lemma_max_domain_size_pow2();
            lemma_pow2_step(n as int, MAX_DOMAIN_SIZE as int);
        }
        n = n * 2;
    }
    n
}

proof fn lemma_max_domain_size_pow2()
    ensures
        is_pow2(MAX_DOMAIN_SIZE as int),
{
    reveal_with_fuel(is_pow2, 30);
}

/// Doubling a power of two below a power-of-two bound stays within the bound.
proof fn lemma_pow2_step(n: int, b: int)
    requires
        is_pow2(n),
        is_pow2(b),
        n < b,
    ensures
        is_pow2(2 * n),
        2 * n <= b,
    decreases b,
{
    assert((2 * n) / 2 == n);
    reveal_with_fuel(is_pow2, 2);
    if n > 1 {
        lemma_pow2_step(n / 2, b / 2);
    }
}

} // verus!
