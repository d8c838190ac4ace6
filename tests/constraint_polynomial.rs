use ark_bn254::Fr;
use ark_ff::{BigInteger256, PrimeField, UniformRand, Zero};
use ark_poly::univariate::DensePolynomial;
use ark_poly::{EvaluationDomain, Polynomial, Radix2EvaluationDomain, UVPolynomial};
use ark_std::rand::RngCore;
use ark_std::test_rng;
use minroot::field::FieldElement;
use minroot::iop::{compute_polynomial_h, constraint_rows, quotient_on_coset, IopError};
use minroot::minroot::MinRootHasher;
use minroot::poly::{next_power_of_two, poly_degree};

fn fe(x: Fr) -> FieldElement {
    FieldElement::from_limbs(x.into_repr().0).unwrap()
}

fn fr(a: &FieldElement) -> Fr {
    Fr::from_repr(BigInteger256([a.l0, a.l1, a.l2, a.l3])).unwrap()
}

fn dense(c: &[FieldElement]) -> DensePolynomial<Fr> {
    DensePolynomial::from_coefficients_vec(c.iter().map(fr).collect())
}

#[test]
fn test_polynomial_h() {
    let mut rng = test_rng();
    for _ in 0..10 {
        let iter = rng.next_u32() % 100 + 10;
        let x = fe(Fr::rand(&mut rng));
        let y = fe(Fr::rand(&mut rng));

        let mut hasher = MinRootHasher::new();
        let _res = hasher.hash(&x, &y, iter as usize);

        let domain_size = iter + 2;
        let domain = Radix2EvaluationDomain::<Fr>::new(domain_size as usize).unwrap();

        let h = dense(&compute_polynomial_h(&hasher.vec_x).unwrap().h);
        for i in 0..domain.size() {
            assert_eq!(h.evaluate(&domain.element(i as usize)), Fr::zero())
        }
    }
}

#[test]
fn ten_iterations_from_one_and_two() {
    let mut hasher = MinRootHasher::new();
    hasher.hash(&FieldElement::from_u64(1), &FieldElement::from_u64(2), 10);
    assert_eq!(hasher.vec_x.len(), 11);
    assert_eq!(next_power_of_two(11 + 2), 16);
    let p = compute_polynomial_h(&hasher.vec_x).unwrap();
    assert_eq!(p.witness.len(), 16);
    assert_eq!(p.h.len(), 128);
    let domain = Radix2EvaluationDomain::<Fr>::new(16).unwrap();
    let h = dense(&p.h);
    for i in 0..16 {
        assert_eq!(h.evaluate(&domain.element(i)), Fr::zero());
    }
    // the interpolated columns hold the padded trace on the domain
    let w = dense(&p.witness);
    assert_eq!(w.evaluate(&domain.element(0)), Fr::zero());
    assert_eq!(w.evaluate(&domain.element(1)), Fr::zero());
    assert_eq!(w.evaluate(&domain.element(2)), Fr::from(1u64));
    let q = dense(&p.selector);
    assert_eq!(q.evaluate(&domain.element(2)), Fr::from(1u64));
    assert_eq!(q.evaluate(&domain.element(5)), Fr::from(4u64));
}

#[test]
fn quotient_degree_bound_holds_for_a_genuine_trace() {
    let mut hasher = MinRootHasher::new();
    hasher.hash(&FieldElement::from_u64(8), &FieldElement::from_u64(9), 20);
    let p = compute_polynomial_h(&hasher.vec_x).unwrap();
    // 21 rows: domain of 32 points, bound 32 * 4
    assert!(poly_degree(&p.t) < 128);
    assert_eq!(p.t.len(), 256);
    // h = t * Z on the whole plane: check at a point off both domains
    let z = Fr::from(123456789u64);
    let zn = {
        let mut v = Fr::from(1u64);
        for _ in 0..32 {
            v *= z;
        }
        v - Fr::from(1u64)
    };
    assert_eq!(dense(&p.h).evaluate(&z), dense(&p.t).evaluate(&z) * zn);
}

#[test]
fn corrupted_trace_exceeds_the_degree_bound() {
    let mut hasher = MinRootHasher::new();
    hasher.hash(&FieldElement::from_u64(8), &FieldElement::from_u64(9), 20);
    let mut x = hasher.vec_x.clone();
    x[7] = FieldElement::from_u64(1000);
    assert_eq!(compute_polynomial_h(&x).err(), Some(IopError::DegreeBoundExceeded));
}

#[test]
fn mutated_entry_breaks_its_row() {
    let mut hasher = MinRootHasher::new();
    hasher.hash(&FieldElement::from_u64(2), &FieldElement::from_u64(3), 12);
    let rows = constraint_rows(&hasher.vec_x);
    assert!(rows.iter().all(|r| r.is_zero()));
    for k in 0..11 {
        let mut x = hasher.vec_x.clone();
        x[k] = FieldElement::from_u64(77);
        let rows = constraint_rows(&x);
        assert!(!rows[k + 2].is_zero());
    }
}

#[test]
fn short_traces_are_rejected() {
    let two = vec![FieldElement::from_u64(1), FieldElement::from_u64(2)];
    assert_eq!(compute_polynomial_h(&two).err(), Some(IopError::DomainTooSmall));
    assert_eq!(compute_polynomial_h(&Vec::new()).err(), Some(IopError::DomainTooSmall));
}

#[test]
fn next_power_of_two_values() {
    assert_eq!(next_power_of_two(0), 1);
    assert_eq!(next_power_of_two(1), 1);
    assert_eq!(next_power_of_two(5), 8);
    assert_eq!(next_power_of_two(64), 64);
    assert_eq!(next_power_of_two(65), 128);
}

#[test]
fn degree_skips_trailing_zeros() {
    let c = vec![
        FieldElement::from_u64(1),
        FieldElement::from_u64(2),
        FieldElement::zero(),
        FieldElement::zero(),
    ];
    assert_eq!(poly_degree(&c), 1);
    assert_eq!(poly_degree(&vec![FieldElement::zero()]), 0);
    assert_eq!(poly_degree(&Vec::new()), 0);
}

#[test]
fn quotient_on_coset_divides_pointwise() {
    let v = |k: u64| FieldElement::from_u64(k);
    let wc = vec![v(1), v(2)];
    let w1c = vec![v(3), v(4)];
    let w2c = vec![v(1), v(2)];
    let qc = vec![v(5), v(100)];
    let zc = vec![v(2), v(7)];
    let (h, t) = quotient_on_coset(&wc, &w1c, &w2c, &qc, &zc).unwrap();
    // 1 + 3 - 1 + 5 = 8 and 2 + 4 - 32 + 100 = 74
    assert_eq!(h, vec![v(8), v(74)]);
    assert_eq!(fr(&t[0]), Fr::from(4u64));
    assert_eq!(fr(&t[1]) * Fr::from(7u64), Fr::from(74u64));
    let zc = vec![v(2), FieldElement::zero()];
    assert_eq!(quotient_on_coset(&wc, &w1c, &w2c, &qc, &zc), Err(IopError::CosetMeetsDomain));
}
