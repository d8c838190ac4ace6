//! Folding of two relaxed MinRoot instances into one by a random linear
//! combination, with the error term that keeps the relation exact.

use crate::field::{
    eqm, fadd, fmul, fpow, fsub, lemma_eqm_add, lemma_eqm_mul, lemma_eqm_pow, lemma_eqm_refl,
    lemma_eqm_sub, lemma_mod_range, lemma_pow5, modulus, FieldElement,
};
use crate::minroot::{
    all_wf, lemma_relation_eqm, relation_value, row_holds, satisfies_relation, vals, MinRootHasher,
    ALPHA,
};
use vstd::arithmetic::div_mod::lemma_small_mod;
use vstd::prelude::*;

verus! {

/// The cross terms of the binomial expansion: `(a + b)^5 - a^5 - b^5`.
pub open spec fn delta(a: int, b: int) -> int {
    fsub(fsub(fpow(fadd(a, b), 5), fpow(a, 5)), fpow(b, 5))
}

/// Why a fold was refused.
#[derive(Clone, Copy, Debug, PartialEq, Eq, Structural)]
pub enum FoldError {
    /// The four sequences do not all have the witness's length.
    LengthMismatch,
    /// An input pair does not satisfy the relaxed relation.
    RelationViolated,
}

/// The folded witness: `r * w1[i] + w2[i]`.
pub open spec fn fold_witness(w1: Seq<int>, w2: Seq<int>, r: int) -> Seq<int> {
    Seq::new(w1.len(), |i: int| fadd(fmul(r, w1[i]), w2[i]))
}

/// The folded error: `r * e1[i] + e2[i] + delta(r * w1[i+2], w2[i+2]) + (r^5 - r) * w1[i+2]^5`
/// on every row of the relation, zero on the last two entries.
pub open spec fn fold_error(w1: Seq<int>, e1: Seq<int>, w2: Seq<int>, e2: Seq<int>, r: int) -> Seq<
    int,
> {
    Seq::new(
        w1.len(),
        |i: int|
            if i < w1.len() - 2 {
                fadd(
                    fadd(fadd(fmul(r, e1[i]), e2[i]), delta(fmul(r, w1[i + 2]), w2[i + 2])),
                    fmul(fsub(fpow(r, 5), r), fpow(w1[i + 2], 5)),
                )
            } else {
                0
            },
    )
}

/// Every entry lies in `[0, modulus())`.
pub open spec fn in_field(s: Seq<int>) -> bool {
    forall|i: int| 0 <= i < s.len() ==> 0 <= #[trigger] s[i] < modulus()
}

/// Two values in `[0, modulus())` that are congruent are equal.
proof fn lemma_eqm_canonical(x: int, y: int)
    requires
        0 <= x < modulus(),
        0 <= y < modulus(),
        eqm(x, y),
    ensures
        x == y,
{
    lemma_small_mod(x as nat, modulus() as nat);
    lemma_small_mod(y as nat, modulus() as nat);
}

/// `delta(a, b)` is congruent to the integer `(a + b)^5 - a^5 - b^5` over
/// congruent arguments.
proof fn lemma_delta_eqm(a: int, b: int, aa: int, bb: int)
    requires
        eqm(a, aa),
        eqm(b, bb),
    ensures
        eqm(
            delta(a, b),
            (aa + bb) * (aa + bb) * (aa + bb) * (aa + bb) * (aa + bb) - aa * aa * aa * aa * aa - bb
                * bb * bb * bb * bb,
        ),
{
    let s = aa + bb;
    lemma_eqm_refl(a + b);
    lemma_eqm_add(a, b, aa, bb);
    lemma_eqm_pow(fadd(a, b), s, 5);
    lemma_pow5(s);
    lemma_eqm_pow(a, aa, 5);
    lemma_pow5(aa);
    lemma_eqm_pow(b, bb, 5);
    lemma_pow5(bb);
    let sum5 = s * s * s * s * s;
    let a5 = aa * aa * aa * aa * aa;
    let b5 = bb * bb * bb * bb * bb;
    lemma_eqm_sub(fpow(fadd(a, b), 5), fpow(a, 5), sum5, a5);
    lemma_eqm_refl(fpow(fadd(a, b), 5) - fpow(a, 5));
    let d1 = fsub(fpow(fadd(a, b), 5), fpow(a, 5));
    lemma_eqm_sub(d1, fpow(b, 5), sum5 - a5, b5);
    lemma_eqm_refl(d1 - fpow(b, 5));
}

/// The folded pair satisfies the relation at row `i` whenever both inputs do.
proof fn lemma_fold_row(w1: Seq<int>, e1: Seq<int>, w2: Seq<int>, e2: Seq<int>, r: int, i: int)
    requires
        w1.len() == e1.len(),
        w1.len() == w2.len(),
        w1.len() == e2.len(),
        0 <= i < w1.len() - 2,
        row_holds(w1, e1, i),
        row_holds(w2, e2, i),
    ensures
        row_holds(fold_witness(w1, w2, r), fold_error(w1, e1, w2, e2, r), i),
{
    let w3 = fold_witness(w1, w2, r);
    let e3 = fold_error(w1, e1, w2, e2, r);
    let (x1, y1, a, f1) = (w1[i], w1[i + 1], w1[i + 2], e1[i]);
    let (x2, y2, b, f2) = (w2[i], w2[i + 1], w2[i + 2], e2[i]);
    // the folded witness entries
    lemma_eqm_refl(fmul(r, x1) + x2);
    lemma_eqm_refl(r * x1);
    lemma_eqm_add(fmul(r, x1), x2, r * x1, x2);
    lemma_eqm_refl(fmul(r, y1) + y2);
    lemma_eqm_refl(r * y1);
    lemma_eqm_add(fmul(r, y1), y2, r * y1, y2);
    lemma_eqm_refl(fmul(r, a) + b);
    lemma_eqm_refl(r * a);
    lemma_eqm_add(fmul(r, a), b, r * a, b);
    // the folded error entry
    let ra = r * a;
    let a5 = a * a * a * a * a;
    let r5 = r * r * r * r * r;
    let dd = (ra + b) * (ra + b) * (ra + b) * (ra + b) * (ra + b) - ra * ra * ra * ra * ra - b * b
        * b * b * b;
    lemma_delta_eqm(fmul(r, a), b, ra, b);
    lemma_eqm_refl(r * f1);
    lemma_eqm_add(fmul(r, f1), f2, r * f1, f2);
    lemma_eqm_refl(fmul(r, f1) + f2);
    let g1 = fadd(fmul(r, f1), f2);
    lemma_eqm_add(g1, delta(fmul(r, a), b), r * f1 + f2, dd);
    lemma_eqm_refl(g1 + delta(fmul(r, a), b));
    let g2 = fadd(g1, delta(fmul(r, a), b));
    lemma_eqm_pow(r, r, 5);
    lemma_pow5(r);
    lemma_eqm_sub(fpow(r, 5), r, r5, r);
    lemma_eqm_refl(fpow(r, 5) - r);
    lemma_eqm_pow(a, a, 5);
    lemma_pow5(a);
    lemma_eqm_mul(fsub(fpow(r, 5), r), fpow(a, 5), r5 - r, a5);
    lemma_eqm_refl(fsub(fpow(r, 5), r) * fpow(a, 5));
    let g3 = fmul(fsub(fpow(r, 5), r), fpow(a, 5));
    lemma_eqm_add(g2, g3, r * f1 + f2 + dd, (r5 - r) * a5);
    lemma_eqm_refl(g2 + g3);
    let ee = r * f1 + f2 + dd + (r5 - r) * a5;
    assert(e3[i] == fadd(g2, g3));
    // the row of the folded pair
    let z = ra + b;
    lemma_relation_eqm(w3[i], w3[i + 1], w3[i + 2], e3[i], r * x1 + x2, r * y1 + y2, z, ee);
    let k1 = x1 + y1 - a5 + f1;
    let k2 = x2 + y2 - b * b * b * b * b + f2;
    let z5 = z * z * z * z * z;
    let ra5 = ra * ra * ra * ra * ra;
    let b5 = b * b * b * b * b;
    assert(ra5 == r5 * a5) by (nonlinear_arith)
        requires
            ra == r * a,
            ra5 == ra * ra * ra * ra * ra,
            a5 == a * a * a * a * a,
            r5 == r * r * r * r * r,
    ;
    assert((r * x1 + x2) + (r * y1 + y2) - z5 + ee == r * k1 + k2) by (nonlinear_arith)
        requires
            ra5 == r5 * a5,
            dd == z5 - ra5 - b5,
            ee == r * f1 + f2 + dd + (r5 - r) * a5,
            k1 == x1 + y1 - a5 + f1,
            k2 == x2 + y2 - b5 + f2,
    ;
    // both inputs hold their rows
    lemma_relation_eqm(x1, y1, a, f1, x1, y1, a, f1);
    lemma_relation_eqm(x2, y2, b, f2, x2, y2, b, f2);
    lemma_eqm_refl(0);
    lemma_eqm_mul(r, k1, r, 0);
    lemma_eqm_add(r * k1, k2, r * 0, 0);
    let v = relation_value(w3[i], w3[i + 1], w3[i + 2], e3[i]);
    lemma_mod_range(fsub(fadd(w3[i], w3[i + 1]), fpow(w3[i + 2], 5)) + e3[i]);
    crate::field::lemma_modulus_gt_one();
    lemma_eqm_canonical(v, 0);
}

/// Folding preserves the relaxed relation: if `(w1, e1)` and `(w2, e2)` are
/// relaxed instances of one length, so is their fold, for every randomizer.
pub proof fn lemma_fold_satisfies_relation(
    w1: Seq<int>,
    e1: Seq<int>,
    w2: Seq<int>,
    e2: Seq<int>,
    r: int,
)
    requires
        w1.len() == w2.len(),
        satisfies_relation(w1, e1),
        satisfies_relation(w2, e2),
    ensures
        satisfies_relation(fold_witness(w1, w2, r), fold_error(w1, e1, w2, e2, r)),
{
    let w3 = fold_witness(w1, w2, r);
    let e3 = fold_error(w1, e1, w2, e2, r);
    assert forall|i: int| 0 <= i < w3.len() - 2 implies #[trigger] row_holds(w3, e3, i) by {
        lemma_fold_row(w1, e1, w2, e2, r, i);
    }
}

/// Folding composes: fold `(w, e)` with itself under `r1` and under `r2`, then
/// fold the two results under `r3`; the outcome is still a relaxed instance.
pub proof fn lemma_fold_self_twice(w: Seq<int>, e: Seq<int>, r1: int, r2: int, r3: int)
    requires
        satisfies_relation(w, e),
    ensures
        satisfies_relation(
            fold_witness(fold_witness(w, w, r1), fold_witness(w, w, r2), r3),
            fold_error(
                fold_witness(w, w, r1),
                fold_error(w, e, w, e, r1),
                fold_witness(w, w, r2),
                fold_error(w, e, w, e, r2),
                r3,
            ),
        ),
{
    lemma_fold_satisfies_relation(w, e, w, e, r1);
    lemma_fold_satisfies_relation(w, e, w, e, r2);
    lemma_fold_satisfies_relation(
        fold_witness(w, w, r1),
        fold_error(w, e, w, e, r1),
        fold_witness(w, w, r2),
        fold_error(w, e, w, e, r2),
        r3,
    );
}

/// Repeated pairwise folding of four relaxed instances of one length yields a
/// relaxed instance.
pub proof fn lemma_fold_tree(
    wa: Seq<int>,
    ea: Seq<int>,
    wb: Seq<int>,
    eb: Seq<int>,
    wc: Seq<int>,
    ec: Seq<int>,
    wd: Seq<int>,
    ed: Seq<int>,
    r1: int,
    r2: int,
    r3: int,
)
    requires
        wb.len() == wa.len(),
        wc.len() == wa.len(),
        wd.len() == wa.len(),
        satisfies_relation(wa, ea),
        satisfies_relation(wb, eb),
        satisfies_relation(wc, ec),
        satisfies_relation(wd, ed),
    ensures
        satisfies_relation(
            fold_witness(fold_witness(wa, wb, r1), fold_witness(wc, wd, r2), r3),
            fold_error(
                fold_witness(wa, wb, r1),
                fold_error(wa, ea, wb, eb, r1),
                fold_witness(wc, wd, r2),
                fold_error(wc, ec, wd, ed, r2),
                r3,
            ),
        ),
{
    lemma_fold_satisfies_relation(wa, ea, wb, eb, r1);
    lemma_fold_satisfies_relation(wc, ec, wd, ed, r2);
    lemma_fold_satisfies_relation(
        fold_witness(wa, wb, r1),
        fold_error(wa, ea, wb, eb, r1),
        fold_witness(wc, wd, r2),
        fold_error(wc, ec, wd, ed, r2),
        r3,
    );
}

/// The cross terms of the binomial expansion of `(w1 + w2)^5`.
pub fn compute_delta(w1: &FieldElement, w2: &FieldElement) -> (r: FieldElement)
    requires
        w1.wf(),
        w2.wf(),
    ensures
        r.wf(),
        r@ == delta(w1@, w2@),
{
    w1.plus(w2).pow(ALPHA).minus(&w1.pow(ALPHA)).minus(&w2.pow(ALPHA))
}

/// The cross terms for the scaled first argument: `delta(r * w1, w2)`.
pub fn compute_delta_new(w1: &FieldElement, w2: &FieldElement, r: &FieldElement) -> (d:
    FieldElement)
    requires
        w1.wf(),
        w2.wf(),
        r.wf(),
    ensures
        d.wf(),
        d@ == delta(fmul(r@, w1@), w2@),
{
    let w1 = r.times(w1);
    compute_delta(&w1, w2)
}

/// Folds the relaxed instances `(witness_1, error_1)` and `(witness_2, error_2)`
/// with the challenge `randomizer` into one relaxed instance.
pub fn fold(
    witness_1: &Vec<FieldElement>,
    error_1: &Vec<FieldElement>,
    witness_2: &Vec<FieldElement>,
    error_2: &Vec<FieldElement>,
    randomizer: &FieldElement,
) -> (res: Result<(Vec<FieldElement>, Vec<FieldElement>), FoldError>)
    requires
        error_1@.len() == witness_1@.len() && witness_2@.len() == witness_1@.len()
            && error_2@.len() == witness_1@.len() ==> witness_1@.len() >= 3,
        all_wf(witness_1@),
        all_wf(error_1@),
        all_wf(witness_2@),
        all_wf(error_2@),
        randomizer.wf(),
    ensures
        ({
            let (w1, e1, w2, e2) = (vals(witness_1@), vals(error_1@), vals(witness_2@), vals(error_2@));
            let lengths_agree = e1.len() == w1.len() && w2.len() == w1.len() && e2.len() == w1.len();
            let valid = satisfies_relation(w1, e1) && satisfies_relation(w2, e2);
            &&& (res matches Err(FoldError::LengthMismatch) <==> !lengths_agree)
            &&& (res matches Err(FoldError::RelationViolated) <==> lengths_agree && !valid)
            &&& (res is Ok <==> lengths_agree && valid)
            &&& (res matches Ok((w3, e3)) ==> {
                &&& all_wf(w3@)
                &&& all_wf(e3@)
                &&& vals(w3@) == fold_witness(w1, w2, randomizer@)
                &&& vals(e3@) == fold_error(w1, e1, w2, e2, randomizer@)
                &&& satisfies_relation(vals(w3@), vals(e3@))
            })
        }),
{
    let n = witness_1.len();
    if error_1.len() != n || witness_2.len() != n || error_2.len() != n {
        return Err(FoldError::LengthMismatch);
    }
    if !MinRootHasher::check(witness_1, error_1) || !MinRootHasher::check(witness_2, error_2) {
        return Err(FoldError::RelationViolated);
    }
    let ghost w1 = vals(witness_1@);
    let ghost e1 = vals(error_1@);
    let ghost w2 = vals(witness_2@);
    let ghost e2 = vals(error_2@);
    let ghost r = randomizer@;
    let mut witness_res: Vec<FieldElement> = Vec::new();
    for i in 0..n
        invariant
            n == witness_1.len(),
            n == witness_2.len(),
            all_wf(witness_1@),
            all_wf(witness_2@),
            randomizer.wf(),
            r == randomizer@,
            witness_res@.len() == i,
            all_wf(witness_res@),
            forall|j: int|
                0 <= j < i ==> (#[trigger] witness_res@[j])@ == fadd(
                    fmul(r, witness_1@[j]@),
                    witness_2@[j]@,
                ),
    {
        witness_res.push(randomizer.times(&witness_1[i]).plus(&witness_2[i]));
    }
    let mut error_res: Vec<FieldElement> = Vec::new();
    let ghost e3 = fold_error(w1, e1, w2, e2, r);
    let r5 = randomizer.pow(ALPHA).minus(randomizer);
    for i in 0..n - 2
        invariant
            n == witness_1.len(),
            n == witness_2.len(),
            n == error_1.len(),
            n == error_2.len(),
            n >= 3,
            w1 == vals(witness_1@),
            e1 == vals(error_1@),
            w2 == vals(witness_2@),
            e2 == vals(error_2@),
            e3 == fold_error(w1, e1, w2, e2, r),
            r == randomizer@,
            r5.wf(),
            r5@ == fsub(fpow(r, 5), r),
            all_wf(witness_1@),
            all_wf(witness_2@),
            all_wf(error_1@),
            all_wf(error_2@),
            randomizer.wf(),
            error_res@.len() == i,
            all_wf(error_res@),
            forall|j: int| 0 <= j < i ==> (#[trigger] error_res@[j])@ == e3[j],
    {
        let delta = compute_delta_new(&witness_1[i + 2], &witness_2[i + 2], randomizer);
        let e = randomizer.times(&error_1[i]).plus(&error_2[i]).plus(&delta).plus(
            &r5.times(&witness_1[i + 2].pow(ALPHA)),
        );
        error_res.push(e);
    }
    // the relation does not reach the last two rows
    error_res.push(FieldElement::zero());
    error_res.push(FieldElement::zero());
    proof {
        assert(vals(witness_res@) =~= fold_witness(w1, w2, r));
        assert(vals(error_res@) =~= e3);
        lemma_fold_satisfies_relation(w1, e1, w2, e2, r);
    }
    Ok((witness_res, error_res))
}

} // verus!
