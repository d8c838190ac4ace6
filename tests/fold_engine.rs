use ark_bn254::Fr;
use ark_ff::{BigInteger256, Field, PrimeField, UniformRand};
use ark_std::rand::RngCore;
use ark_std::test_rng;
use minroot::field::FieldElement;
use minroot::fold::{compute_delta, compute_delta_new, fold, FoldError};
use minroot::minroot::MinRootHasher;

fn fe(x: Fr) -> FieldElement {
    FieldElement::from_limbs(x.into_repr().0).unwrap()
}

fn fr(a: &FieldElement) -> Fr {
    Fr::from_repr(BigInteger256([a.l0, a.l1, a.l2, a.l3])).unwrap()
}

fn instance(x: u64, y: u64, iter: usize) -> (Vec<FieldElement>, Vec<FieldElement>) {
    let mut hasher = MinRootHasher::new();
    hasher.hash(&FieldElement::from_u64(x), &FieldElement::from_u64(y), iter);
    (hasher.vec_x[..iter].to_vec(), hasher.vec_indexer[..iter].to_vec())
}

#[test]
fn test_fold() {
    let mut rng = test_rng();
    let randomizer = FieldElement::from_u64(2);
    for _ in 0..10 {
        let iter = rng.next_u32() as usize % 100 + 10;
        let x1 = fe(Fr::rand(&mut rng));
        let y1 = fe(Fr::rand(&mut rng));
        let x2 = fe(Fr::rand(&mut rng));
        let y2 = fe(Fr::rand(&mut rng));
        let x3 = fe(Fr::rand(&mut rng));
        let y3 = fe(Fr::rand(&mut rng));
        let x4 = fe(Fr::rand(&mut rng));
        let y4 = fe(Fr::rand(&mut rng));

        let mut hasher1 = MinRootHasher::new();
        let mut hasher2 = MinRootHasher::new();
        let mut hasher3 = MinRootHasher::new();
        let mut hasher4 = MinRootHasher::new();
        let _res = hasher1.hash(&x1, &y1, iter);
        let _res = hasher2.hash(&x2, &y2, iter);
        let _res = hasher3.hash(&x3, &y3, iter);
        let _res = hasher4.hash(&x4, &y4, iter);
        let (x12, e12) = fold(
            &hasher1.vec_x[..iter].to_vec(),
            &hasher1.vec_indexer[..iter].to_vec(),
            &hasher2.vec_x[..iter].to_vec(),
            &hasher2.vec_indexer[..iter].to_vec(),
            &randomizer,
        )
        .unwrap();
        assert!(MinRootHasher::check(&x12, &e12));
        let (x34, e34) = fold(
            &hasher1.vec_x[..iter].to_vec(),
            &hasher1.vec_indexer[..iter].to_vec(),
            &hasher2.vec_x[..iter].to_vec(),
            &hasher2.vec_indexer[..iter].to_vec(),
            &randomizer,
        )
        .unwrap();
        assert!(MinRootHasher::check(&x34, &e34));
        let (x1234, e1234) = fold(&x12, &e12, &x34, &e34, &randomizer).unwrap();
        assert!(MinRootHasher::check(&x1234, &e1234));
    }
}

#[test]
fn fold_of_self_then_together_stays_relaxed() {
    let mut rng = test_rng();
    let (w, e) = instance(9, 4, 20);
    let r1 = fe(Fr::rand(&mut rng));
    let r2 = fe(Fr::rand(&mut rng));
    let r3 = fe(Fr::rand(&mut rng));
    let (wa, ea) = fold(&w, &e, &w, &e, &r1).unwrap();
    let (wb, eb) = fold(&w, &e, &w, &e, &r2).unwrap();
    let (wc, ec) = fold(&wa, &ea, &wb, &eb, &r3).unwrap();
    assert!(MinRootHasher::check(&wc, &ec));
}

#[test]
fn fold_four_distinct_instances() {
    let mut rng = test_rng();
    let (w1, e1) = instance(1, 2, 15);
    let (w2, e2) = instance(3, 4, 15);
    let (w3, e3) = instance(5, 6, 15);
    let (w4, e4) = instance(7, 8, 15);
    let r = fe(Fr::rand(&mut rng));
    let (a, ea) = fold(&w1, &e1, &w2, &e2, &r).unwrap();
    let (b, eb) = fold(&w3, &e3, &w4, &e4, &r).unwrap();
    let (c, ec) = fold(&a, &ea, &b, &eb, &r).unwrap();
    assert!(MinRootHasher::check(&c, &ec));
}

#[test]
fn fold_values_follow_the_formulas() {
    let (w1, e1) = instance(1, 2, 6);
    let (w2, e2) = instance(3, 5, 6);
    let r = FieldElement::from_u64(3);
    let (w3, e3) = fold(&w1, &e1, &w2, &e2, &r).unwrap();
    let rr = Fr::from(3u64);
    assert_eq!(w3.len(), 6);
    assert_eq!(e3.len(), 6);
    for i in 0..6 {
        assert_eq!(fr(&w3[i]), rr * fr(&w1[i]) + fr(&w2[i]));
    }
    for i in 0..4 {
        let a = rr * fr(&w1[i + 2]);
        let b = fr(&w2[i + 2]);
        let delta = (a + b).pow(&[5u64]) - a.pow(&[5u64]) - b.pow(&[5u64]);
        let expected = rr * fr(&e1[i])
            + fr(&e2[i])
            + delta
            + (rr.pow(&[5u64]) - rr) * fr(&w1[i + 2]).pow(&[5u64]);
        assert_eq!(fr(&e3[i]), expected);
    }
    assert!(e3[4].is_zero());
    assert!(e3[5].is_zero());
}

#[test]
fn fold_rejects_unequal_lengths() {
    let (w1, e1) = instance(1, 2, 6);
    let (w2, e2) = instance(3, 5, 7);
    let r = FieldElement::from_u64(2);
    assert_eq!(fold(&w1, &e1, &w2, &e2, &r), Err(FoldError::LengthMismatch));
    assert_eq!(fold(&w1, &e1[..5].to_vec(), &w1, &e1, &r), Err(FoldError::LengthMismatch));
}

#[test]
fn fold_rejects_an_invalid_instance() {
    let (w1, e1) = instance(1, 2, 6);
    let (mut w2, e2) = instance(3, 5, 6);
    w2[3] = FieldElement::from_u64(42);
    let r = FieldElement::from_u64(2);
    assert_eq!(fold(&w1, &e1, &w2, &e2, &r), Err(FoldError::RelationViolated));
    assert_eq!(fold(&w2, &e2, &w1, &e1, &r), Err(FoldError::RelationViolated));
}

#[test]
fn delta_is_the_binomial_cross_terms() {
    let a = Fr::from(3u64);
    let b = Fr::from(7u64);
    // 5*81*7 + 10*27*49 + 10*9*343 + 5*3*2401 = 2835 + 13230 + 30870 + 36015
    assert_eq!(fr(&compute_delta(&fe(a), &fe(b))), Fr::from(82950u64));
    let r = Fr::from(2u64);
    // delta(6, 7) = 13^5 - 6^5 - 7^5 = 371293 - 7776 - 16807
    assert_eq!(fr(&compute_delta_new(&fe(a), &fe(b), &fe(r))), Fr::from(346710u64));
}

#[test]
fn fold_short_unequal_inputs_is_a_length_mismatch() {
    let (w2, e2) = instance(3, 5, 6);
    let w1 = vec![FieldElement::from_u64(1), FieldElement::from_u64(2)];
    let e1 = vec![FieldElement::zero(), FieldElement::zero()];
    let r = FieldElement::from_u64(2);
    assert_eq!(fold(&w1, &e1, &w2, &e2, &r), Err(FoldError::LengthMismatch));
}
