use ark_bn254::Fr;
use ark_ff::{BigInteger256, Field, PrimeField, UniformRand};
use ark_std::test_rng;
use minroot::field::FieldElement;
use minroot::minroot::{MinRootHasher, ALPHA};

fn fe(x: Fr) -> FieldElement {
    FieldElement::from_limbs(x.into_repr().0).unwrap()
}

fn fr(a: &FieldElement) -> Fr {
    Fr::from_repr(BigInteger256([a.l0, a.l1, a.l2, a.l3])).unwrap()
}

#[test]
fn test_alpha_inv() {
    // one step from (tmp^5, 0) lands on the fifth root of tmp^5, which is tmp
    let mut rng = test_rng();
    for _ in 0..10 {
        let tmp = Fr::rand(&mut rng);
        let mut hasher = MinRootHasher::new();
        let _res = hasher.hash(&fe(tmp.pow(&[ALPHA])), &FieldElement::zero(), 1);
        assert_eq!(fr(&hasher.vec_x[1]), tmp);
    }
}

#[test]
fn test_min_root_hash() {
    let x = FieldElement::from_u64(1);
    let y = FieldElement::from_u64(2);
    let mut hasher = MinRootHasher::new();
    let res = hasher.hash(&x, &y, 10);
    assert_eq!(hasher.vec_x.len(), 11);
    assert_eq!(hasher.vec_y.len(), 11);
    assert_eq!(hasher.vec_indexer.len(), 11);
    assert_eq!(hasher.vec_indexer[10], FieldElement::from_u64(11));
    assert_eq!(res, (hasher.vec_x[10], hasher.vec_y[10]));
}

#[test]
fn hash_steps_follow_the_minroot_map() {
    let mut rng = test_rng();
    let x0 = Fr::rand(&mut rng);
    let y0 = Fr::rand(&mut rng);
    let mut hasher = MinRootHasher::new();
    hasher.hash(&fe(x0), &fe(y0), 5);
    for k in 0..5 {
        let x = fr(&hasher.vec_x[k]);
        let y = fr(&hasher.vec_y[k]);
        let nx = fr(&hasher.vec_x[k + 1]);
        let ny = fr(&hasher.vec_y[k + 1]);
        assert_eq!(nx.pow(&[5u64]), x + y);
        assert_eq!(ny, x + Fr::from((k + 1) as u64));
        assert_eq!(fr(&hasher.vec_indexer[k]), Fr::from((k + 1) as u64));
    }
}

#[test]
fn genuine_trace_satisfies_relation_with_offsets() {
    let mut hasher = MinRootHasher::new();
    hasher.hash(&FieldElement::from_u64(3), &FieldElement::from_u64(4), 12);
    assert_eq!(hasher.vec_indexer.len(), 13);
    assert!(MinRootHasher::check(&hasher.vec_x, &hasher.vec_indexer));
    let x = hasher.vec_x.clone();
    // with a zero error term the relation fails
    let zeros = vec![FieldElement::zero(); 13];
    assert!(!MinRootHasher::check(&x, &zeros));
}

#[test]
fn check_rejects_unequal_lengths() {
    let mut hasher = MinRootHasher::new();
    hasher.hash(&FieldElement::from_u64(1), &FieldElement::from_u64(2), 6);
    let x = hasher.vec_x[..6].to_vec();
    assert!(!MinRootHasher::check(&x, &hasher.vec_indexer));
}

#[test]
fn second_run_appends_to_the_trace() {
    let mut hasher = MinRootHasher::new();
    hasher.hash(&FieldElement::from_u64(1), &FieldElement::from_u64(2), 3);
    let first = hasher.vec_x.clone();
    hasher.hash(&FieldElement::from_u64(5), &FieldElement::from_u64(6), 2);
    assert_eq!(hasher.vec_x.len(), 7);
    assert_eq!(hasher.vec_indexer.len(), 7);
    assert_eq!(hasher.vec_x[..4].to_vec(), first);
    assert_eq!(hasher.vec_x[4], FieldElement::from_u64(5));
}

#[test]
fn from_limbs_accepts_exactly_the_canonical_values() {
    let p = [
        4891460686036598785u64,
        2896914383306846353,
        13281191951274694749,
        3486998266802970665,
    ];
    assert!(FieldElement::from_limbs(p).is_none());
    let mut below = p;
    below[0] -= 1;
    let v = FieldElement::from_limbs(below).unwrap();
    assert_eq!(fr(&v), -Fr::from(1u64));
    assert!(FieldElement::from_limbs([0, 0, 0, u64::MAX]).is_none());
    assert_eq!(FieldElement::from_limbs([7, 0, 0, 0]), Some(FieldElement::from_u64(7)));
    assert!(FieldElement::zero().is_zero());
    assert!(!FieldElement::from_u64(1).is_zero());
}

#[test]
fn offsets_run_from_one_to_iterations_plus_one() {
    let mut hasher = MinRootHasher::new();
    hasher.hash(&FieldElement::from_u64(4), &FieldElement::from_u64(9), 7);
    assert_eq!(hasher.vec_x.len(), 8);
    assert_eq!(hasher.vec_indexer.len(), 8);
    for k in 0..8 {
        assert_eq!(hasher.vec_indexer[k], FieldElement::from_u64(k as u64 + 1));
    }
    let mut empty = MinRootHasher::new();
    empty.hash(&FieldElement::from_u64(4), &FieldElement::from_u64(9), 0);
    assert_eq!(empty.vec_x.len(), 1);
    assert_eq!(empty.vec_indexer, vec![FieldElement::from_u64(1)]);
}
