//! The MinRoot trace generator and the relation its traces satisfy.

use crate::field::{
    alpha_inv, eqm, fadd, fpow, fsub, lemma_eqm_add, lemma_eqm_pow, lemma_eqm_refl, lemma_eqm_sub, lemma_mod_range, lemma_pow5,
    modulus,
    FieldElement,
};
use vstd::arithmetic::div_mod::lemma_small_mod;
use vstd::prelude::*;

verus! {

/// The exponent of one MinRoot step.
pub const ALPHA: u64 = 5;

/// The values of a sequence of field elements.
pub open spec fn vals(v: Seq<FieldElement>) -> Seq<int> {
    v.map_values(|x: FieldElement| x@)
}

/// Every element is in canonical form.
pub open spec fn all_wf(v: Seq<FieldElement>) -> bool {
    forall|i: int| 0 <= i < v.len() ==> #[trigger] v[i].wf()
}

/// `x + y - z^5 + e` computed in the field.
pub open spec fn relation_value(x: int, y: int, z: int, e: int) -> int {
    fadd(fsub(fadd(x, y), fpow(z, 5)), e)
}

/// The relaxed MinRoot relation at row `i`: `w[i] + w[i+1] - w[i+2]^5 + e[i] == 0`.
pub open spec fn row_holds(w: Seq<int>, e: Seq<int>, i: int) -> bool {
    relation_value(w[i], w[i + 1], w[i + 2], e[i]) == 0
}

/// The pair `(w, e)` is a relaxed instance: equal lengths and the relation at
/// every row `i` in `[0, len - 2)`.
pub open spec fn satisfies_relation(w: Seq<int>, e: Seq<int>) -> bool {
    &&& w.len() == e.len()
    &&& forall|i: int| 0 <= i < w.len() - 2 ==> #[trigger] row_holds(w, e, i)
}

/// The relation value is congruent to its integer expression over any
/// congruent arguments.
pub proof fn lemma_relation_eqm(x: int, y: int, z: int, e: int, xx: int, yy: int, zz: int, ee: int)
    requires
        eqm(x, xx),
        eqm(y, yy),
        eqm(z, zz),
        eqm(e, ee),
    ensures
        eqm(relation_value(x, y, z, e), xx + yy - zz * zz * zz * zz * zz + ee),
{
    lemma_eqm_refl(x + y);
    lemma_eqm_add(x, y, xx, yy);
    lemma_eqm_pow(z, zz, 5);
    lemma_pow5(zz);
    lemma_eqm_refl(fadd(x, y) - fpow(z, 5));
    lemma_eqm_sub(fadd(x, y), fpow(z, 5), xx + yy, zz * zz * zz * zz * zz);
    lemma_eqm_refl(fsub(fadd(x, y), fpow(z, 5)) + e);
    lemma_eqm_add(fsub(fadd(x, y), fpow(z, 5)), e, xx + yy - zz * zz * zz * zz * zz, ee);
}

/// `x` is a MinRoot trace: `x[i] + x[i+1] - x[i+2]^5 + (i + 1) == 0` at every row.
pub open spec fn is_minroot_trace(x: Seq<int>) -> bool {
    forall|i: int|
        0 <= i && i + 2 < x.len() ==> #[trigger] relation_value(x[i], x[i + 1], x[i + 2], i + 1)
            == 0
}

/// One step's output satisfies the relation: if `z^5 == y + (x + e)` then
/// `x + y - z^5 + e == 0`.
pub proof fn lemma_step_row(x: int, y: int, z: int, e: int)
    requires
        fpow(z, 5) == fadd(y, fadd(x, e)),
    ensures
        relation_value(x, y, z, e) == 0,
{
    lemma_eqm_refl(x + e);
    lemma_eqm_add(y, fadd(x, e), y, x + e);
    lemma_eqm_refl(y + fadd(x, e));
    lemma_eqm_refl(x + y);
    lemma_eqm_sub(fadd(x, y), fpow(z, 5), x + y, y + (x + e));
    lemma_eqm_refl(fadd(x, y) - fpow(z, 5));
    lemma_eqm_add(fsub(fadd(x, y), fpow(z, 5)), e, x + y - (y + (x + e)), e);
    lemma_eqm_refl(fsub(fadd(x, y), fpow(z, 5)) + e);
    assert(x + y - (y + (x + e)) + e == 0);
    lemma_mod_range(fsub(fadd(x, y), fpow(z, 5)) + e);
    lemma_eqm_refl(0);
    assert(eqm(relation_value(x, y, z, e), 0));
    lemma_small_mod(relation_value(x, y, z, e) as nat, modulus() as nat);
    lemma_small_mod(0, modulus() as nat);
}

/// Step `j` of a run whose states start at `ox` and offsets at `oi`:
/// `x' = (x + y)^(1/5)` (so `x'^5 == x + y`), `y' = x + (j + 1)`, offset `j + 1`.
pub open spec fn step_recorded(
    xs: Seq<FieldElement>,
    ys: Seq<FieldElement>,
    ks: Seq<FieldElement>,
    ox: int,
    oi: int,
    j: int,
) -> bool {
    &&& xs[ox + j + 1]@ == fpow(fadd(xs[ox + j]@, ys[ox + j]@), alpha_inv())
    &&& fpow(xs[ox + j + 1]@, 5) == fadd(xs[ox + j]@, ys[ox + j]@)
    &&& ys[ox + j + 1]@ == fadd(xs[ox + j]@, j + 1)
    &&& ks[oi + j]@ == j + 1
}

/// Generator of MinRoot traces: `vec_x` and `vec_y` hold the state after each
/// step, `vec_indexer` the step offsets `1, 2, ...`.
pub struct MinRootHasher {
    pub vec_x: Vec<FieldElement>,
    pub vec_y: Vec<FieldElement>,
    pub vec_indexer: Vec<FieldElement>,
}

impl MinRootHasher {
    /// All three sequences hold canonical field elements, and there is one
    /// `y` for each `x`.
    pub open spec fn wf(&self) -> bool {
        &&& self.vec_x@.len() == self.vec_y@.len()
        &&& all_wf(self.vec_x@)
        &&& all_wf(self.vec_y@)
        &&& all_wf(self.vec_indexer@)
    }

    pub fn new() -> (r: MinRootHasher)
        ensures
            r.wf(),
            r.vec_x@.len() == 0,
            r.vec_y@.len() == 0,
            r.vec_indexer@.len() == 0,
    {
        MinRootHasher { vec_x: Vec::new(), vec_y: Vec::new(), vec_indexer: Vec::new() }
    }

    /// One step from `(x, y)` with offset `indexer`: `x' = (x + y)^(1/5)`,
    /// `y' = x + indexer`; the new state and the offset are recorded.
    fn iterate_once(&mut self, cur_x: &FieldElement, cur_y: &FieldElement, indexer: usize) -> (r: (
        FieldElement,
        FieldElement,
    ))
        requires
            old(self).wf(),
            cur_x.wf(),
            cur_y.wf(),
        ensures
            final(self).wf(),
            r.0.wf(),
            r.1.wf(),
            r.0@ == fpow(fadd(cur_x@, cur_y@), alpha_inv()),
            fpow(r.0@, 5) == fadd(cur_x@, cur_y@),
            r.1@ == fadd(cur_x@, indexer as int),
            final(self).vec_x@ == old(self).vec_x@.push(r.0),
            final(self).vec_y@ == old(self).vec_y@.push(r.1),
            final(self).vec_indexer@ == old(self).vec_indexer@.push(
                FieldElement::from_u64_spec(indexer as u64),
            ),
    {
        let indexer = FieldElement::from_u64(indexer as u64);
        let next_x = cur_x.plus(cur_y).fifth_root();
        let next_y = cur_x.plus(&indexer);
        self.vec_x.push(next_x);
        self.vec_y.push(next_y);
        self.vec_indexer.push(indexer);
        (next_x, next_y)
    }

    /// Runs `iteration` MinRoot steps from the seed `(x0, y0)`, appending the
    /// seed and every state to the trace and the offsets `1, ..., iteration + 1`
    /// to the offset sequence (the last one is the offset of the step that
    /// would follow); returns the final state.
    pub fn hash(&mut self, x0: &FieldElement, y0: &FieldElement, iteration: usize) -> (r: (
        FieldElement,
        FieldElement,
    ))
        requires
            old(self).wf(),
            x0.wf(),
            y0.wf(),
            iteration < usize::MAX,
        ensures
            final(self).wf(),
            ({
                let ox = old(self).vec_x@.len() as int;
                let oi = old(self).vec_indexer@.len() as int;
                let xs = final(self).vec_x@;
                let ys = final(self).vec_y@;
                let ks = final(self).vec_indexer@;
                &&& xs.len() == ox + iteration + 1
                &&& ys.len() == ox + iteration + 1
                &&& ks.len() == oi + iteration + 1
                &&& ks[oi + iteration]@ == iteration + 1
                &&& xs.subrange(0, ox) == old(self).vec_x@
                &&& ys.subrange(0, ox) == old(self).vec_y@
                &&& ks.subrange(0, oi) == old(self).vec_indexer@
                &&& xs[ox] == *x0
                &&& ys[ox] == *y0
                &&& forall|k: int|
                    0 <= k < iteration ==> #[trigger] step_recorded(xs, ys, ks, ox, oi, k)
                &&& is_minroot_trace(vals(xs.subrange(ox, ox + iteration + 1)))
                &&& r == (xs[ox + iteration], ys[ox + iteration])
            }),
            old(self).vec_x@.len() == 0 && old(self).vec_indexer@.len() == 0 ==> satisfies_relation(
                vals(final(self).vec_x@),
                vals(final(self).vec_indexer@),
            ),
    {
        let ghost ox = self.vec_x@.len() as int;
        let ghost oi = self.vec_indexer@.len() as int;
        let ghost old_x = self.vec_x@;
        let ghost old_y = self.vec_y@;
        let ghost old_k = self.vec_indexer@;
        let mut cur_x = *x0;
        let mut cur_y = *y0;
        self.vec_x.push(cur_x);
        self.vec_y.push(cur_y);
        for k in 0..iteration
            invariant
                self.wf(),
                cur_x.wf(),
                cur_y.wf(),
                self.vec_x@.len() == ox + k + 1,
                self.vec_y@.len() == ox + k + 1,
                self.vec_indexer@.len() == oi + k,
                old_x.len() == ox,
                old_y.len() == ox,
                forall|j: int| 0 <= j < ox ==> self.vec_x@[j] == old_x[j],
                forall|j: int| 0 <= j < ox ==> self.vec_y@[j] == old_y[j],
                old_k.len() == oi,
                forall|j: int| 0 <= j < oi ==> self.vec_indexer@[j] == old_k[j],
                self.vec_x@[ox] == *x0,
                self.vec_y@[ox] == *y0,
                cur_x == self.vec_x@[ox + k],
                cur_y == self.vec_y@[ox + k],
                forall|j: int|
                    0 <= j < k ==> #[trigger] step_recorded(
                        self.vec_x@,
                        self.vec_y@,
                        self.vec_indexer@,
                        ox,
                        oi,
                        j,
                    ),
        {
            let ghost px = self.vec_x@;
            let ghost py = self.vec_y@;
            let ghost pk = self.vec_indexer@;
            let (nx, ny) = self.iterate_once(&cur_x, &cur_y, k + 1);
            assert(self.vec_x@ == px.push(nx));
            assert(self.vec_y@ == py.push(ny));
            assert(self.vec_indexer@ == pk.push(FieldElement::from_u64_spec((k + 1) as u64)));
            assert(step_recorded(self.vec_x@, self.vec_y@, self.vec_indexer@, ox, oi, k as int));
            assert forall|j: int| 0 <= j < k + 1 implies #[trigger] step_recorded(
                self.vec_x@,
                self.vec_y@,
                self.vec_indexer@,
                ox,
                oi,
                j,
            ) by {
                if j < k {
                    assert(step_recorded(px, py, pk, ox, oi, j));
                }
            }
            cur_x = nx;
            cur_y = ny;
        }
        proof {
            assert(self.vec_x@.subrange(0, ox) =~= old_x);
            assert(self.vec_y@.subrange(0, ox) =~= old_y);
            assert(self.vec_indexer@.subrange(0, oi) =~= old_k);
            let xs = self.vec_x@;
            let ys = self.vec_y@;
            let t = vals(xs.subrange(ox, ox + iteration + 1));
            assert forall|i: int| 0 <= i && i + 2 < t.len() implies #[trigger] relation_value(
                t[i],
                t[i + 1],
                t[i + 2],
                i + 1,
            ) == 0 by {
                assert(step_recorded(xs, ys, self.vec_indexer@, ox, oi, i));
                assert(step_recorded(xs, ys, self.vec_indexer@, ox, oi, i + 1));
                lemma_step_row(xs[ox + i]@, xs[ox + i + 1]@, xs[ox + i + 2]@, i + 1);
            }
        }
        let ghost before = self.vec_indexer@;
        self.vec_indexer.push(FieldElement::from_u64((iteration + 1) as u64));
        proof {
            let ks = self.vec_indexer@;
            assert(ks.subrange(0, oi) =~= old_k);
            assert forall|k: int| 0 <= k < iteration implies #[trigger] step_recorded(
                self.vec_x@,
                self.vec_y@,
                ks,
                ox,
                oi,
                k,
            ) by {
                assert(step_recorded(self.vec_x@, self.vec_y@, before, ox, oi, k));
                assert(ks[oi + k] == before[oi + k]);
            }
            if ox == 0 && oi == 0 {
                let w = vals(self.vec_x@);
                let e = vals(ks);
                assert(self.vec_x@.subrange(0, iteration + 1) =~= self.vec_x@);
                assert forall|i: int| 0 <= i < w.len() - 2 implies #[trigger] row_holds(w, e, i) by {
                    assert(step_recorded(self.vec_x@, self.vec_y@, ks, ox, oi, i));
                    let t = vals(self.vec_x@.subrange(ox, ox + iteration + 1));
                    assert(relation_value(t[i], t[i + 1], t[i + 2], i + 1) == 0);
                }
            }
        }
        (cur_x, cur_y)
    }

    /// Whether `(witness, error)` satisfies the relaxed MinRoot relation.
    pub fn check(witness: &Vec<FieldElement>, error: &Vec<FieldElement>) -> (r: bool)
        requires
            all_wf(witness@),
            all_wf(error@),
        ensures
            r == satisfies_relation(vals(witness@), vals(error@)),
    {
        if witness.len() != error.len() {
            return false;
        }
        if witness.len() < 3 {
            return true;
        }
        let n = witness.len() - 2;
        let ghost w = vals(witness@);
        let ghost e = vals(error@);
        for i in 0..n
            invariant
                n == witness.len() - 2,
                witness.len() == error.len(),
                w == vals(witness@),
                e == vals(error@),
                all_wf(witness@),
                all_wf(error@),
                forall|j: int| 0 <= j < i ==> #[trigger] row_holds(w, e, j),
        {
            let v = witness[i].plus(&witness[i + 1]).minus(&witness[i + 2].pow(ALPHA)).plus(
                &error[i],
            );
            if !v.is_zero() {
                assert(!row_holds(w, e, i as int));
                return false;
            }
        }
        true
    }
}

} // verus!
