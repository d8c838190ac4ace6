//! Elements of the BN254 scalar field, held as canonical little-endian limbs,
//! with their arithmetic modelled over `int` modulo the field's prime.

use ark_ff::{BigInteger256, Field, PrimeField};
use vstd::arithmetic::div_mod::*;
use vstd::arithmetic::power::pow;
use vstd::prelude::*;

verus! {

/// The prime order of the BN254 scalar field.
#[verifier::opaque]
pub open spec fn modulus() -> int {
    21888242871839275222246405745257275088548364400416034343698204186575808495617int
}

pub proof fn lemma_modulus_gt_one()
    ensures
        modulus() > 1,
{
    reveal(modulus);
}

/// The modulus exceeds every `u64`.
pub proof fn lemma_modulus_value()
    ensures
        modulus() > 0xffff_ffff_ffff_ffff,
{
    reveal(modulus);
}

/// The modulus's limbs, least significant first.
pub const MODULUS_LIMBS: [u64; 4] = [
    4891460686036598785,
    2896914383306846353,
    13281191951274694749,
    3486998266802970665,
];

proof fn lemma_modulus_limbs()
    ensures
        modulus() == limbs_value(
            MODULUS_LIMBS[0],
            MODULUS_LIMBS[1],
            MODULUS_LIMBS[2],
            MODULUS_LIMBS[3],
        ),
{
    reveal(modulus);
}

/// Numbers written with a low digit below `limb_base()` compare by their high
/// part first, then by the low digit.
proof fn lemma_lex(a0: int, a1: int, b0: int, b1: int)
    requires
        0 <= a0 < limb_base(),
        0 <= b0 < limb_base(),
        0 <= a1,
        0 <= b1,
    ensures
        (a0 + limb_base() * a1 < b0 + limb_base() * b1) == (a1 < b1 || (a1 == b1 && a0 < b0)),
        (a0 + limb_base() * a1 == b0 + limb_base() * b1) == (a1 == b1 && a0 == b0),
        0 <= a0 + limb_base() * a1,
{
    let b = limb_base();
    if a1 < b1 {
        assert(a0 + b * a1 < b0 + b * b1) by (nonlinear_arith)
            requires 0 <= a0 < b, 0 <= b0, a1 < b1, b > 0;
    } else if a1 > b1 {
        assert(a0 + b * a1 > b0 + b * b1) by (nonlinear_arith)
            requires 0 <= b0 < b, 0 <= a0, a1 > b1, b > 0;
    }
    assert(0 <= a0 + b * a1) by (nonlinear_arith)
        requires 0 <= a0, 0 <= a1, b > 0;
}

pub open spec fn limb_base() -> int {
    0x1_0000_0000_0000_0000int
}

/// The value of four little-endian 64-bit limbs.
pub open spec fn limbs_value(l0: u64, l1: u64, l2: u64, l3: u64) -> int {
    l0 + limb_base() * (l1 + limb_base() * (l2 + limb_base() * l3))
}

pub open spec fn fadd(a: int, b: int) -> int {
    (a + b) % modulus()
}

pub open spec fn fsub(a: int, b: int) -> int {
    (a - b) % modulus()
}

pub open spec fn fmul(a: int, b: int) -> int {
    (a * b) % modulus()
}

/// `a` raised to the power `e` in the field.
pub open spec fn fpow(a: int, e: nat) -> int
    decreases e,
{
    if e == 0 {
        1
    } else {
        fmul(a, fpow(a, (e - 1) as nat))
    }
}

/// The multiplicative inverse of a nonzero `a`, by Fermat's little theorem.
pub open spec fn finv(a: int) -> int {
    fpow(a, (modulus() - 2) as nat)
}

/// Congruence modulo the field's prime.
pub open spec fn eqm(x: int, y: int) -> bool {
    x % modulus() == y % modulus()
}

/// A field element: the integer `limbs_value(l0, l1, l2, l3)`, below the modulus.
#[derive(Clone, Copy, Debug, PartialEq, Eq, Structural)]
pub struct FieldElement {
    pub l0: u64,
    pub l1: u64,
    pub l2: u64,
    pub l3: u64,
}

impl View for FieldElement {
    type V = int;

    open spec fn view(&self) -> int {
        limbs_value(self.l0, self.l1, self.l2, self.l3)
    }
}

impl FieldElement {
    /// Canonical form: the value lies below the modulus.
    pub open spec fn wf(&self) -> bool {
        self@ < modulus()
    }

    pub fn zero() -> (r: FieldElement)
        ensures
            r.wf(),
            r@ == 0,
    {
        proof {
            lemma_modulus_gt_one();
        }
        FieldElement { l0: 0, l1: 0, l2: 0, l3: 0 }
    }

    /// The element with limbs `l` (least significant first), if their value
    /// lies below the modulus.
    pub fn from_limbs(l: [u64; 4]) -> (r: Option<FieldElement>)
        ensures
            r is Some <==> limbs_value(l[0], l[1], l[2], l[3]) < modulus(),
            r matches Some(v) ==> v.l0 == l[0] && v.l1 == l[1] && v.l2 == l[2] && v.l3 == l[3],
    {
        let (l0, l1, l2, l3) = (l[0], l[1], l[2], l[3]);
        let (m0, m1, m2, m3) = (MODULUS_LIMBS[0], MODULUS_LIMBS[1], MODULUS_LIMBS[2], MODULUS_LIMBS[3]);
        proof {
            lemma_modulus_limbs();
            let b = limb_base();
            lemma_lex(l2 as int, l3 as int, m2 as int, m3 as int);
            let (v1, w1) = (l2 + b * l3, m2 + b * m3);
            lemma_lex(l1 as int, v1, m1 as int, w1);
            let (v2, w2) = (l1 + b * v1, m1 + b * w1);
            lemma_lex(l0 as int, v2, m0 as int, w2);
        }
        let below = if l3 != m3 {
            l3 < m3
        } else if l2 != m2 {
            l2 < m2
        } else if l1 != m1 {
            l1 < m1
        } else {
            l0 < m0
        };
        if below {
            Some(FieldElement { l0, l1, l2, l3 })
        } else {
            None
        }
    }

    /// Whether the element is the additive identity.
    pub fn is_zero(&self) -> (r: bool)
        ensures
            r == (self@ == 0),
    {
        proof {
            let b = limb_base();
            let (l0, l1, l2, l3) = (self.l0 as int, self.l1 as int, self.l2 as int, self.l3 as int);
            assert(l2 + b * l3 >= l2 && l2 + b * l3 >= l3) by (nonlinear_arith)
                requires l2 >= 0, l3 >= 0, b > 1;
            let u = l2 + b * l3;
            assert(l1 + b * u >= l1 && l1 + b * u >= u) by (nonlinear_arith)
                requires l1 >= 0, u >= 0, b > 1;
            let v = l1 + b * u;
            assert(l0 + b * v >= l0 && l0 + b * v >= v) by (nonlinear_arith)
                requires l0 >= 0, v >= 0, b > 1;
        }
        self.l0 == 0 && self.l1 == 0 && self.l2 == 0 && self.l3 == 0
    }

    pub open spec fn from_u64_spec(k: u64) -> FieldElement {
        FieldElement { l0: k, l1: 0, l2: 0, l3: 0 }
    }

    /// The element `k` (every `u64` lies below the modulus).
    pub fn from_u64(k: u64) -> (r: FieldElement)
        ensures
            r.wf(),
            r@ == k as int,
            r == FieldElement::from_u64_spec(k),
    {
        proof {
            reveal(modulus);
        }
        FieldElement { l0: k, l1: 0, l2: 0, l3: 0 }
    }
}


/// The limbs of `alpha_inv()`, least significant first.
pub const ALPHA_INV: [u64; 4] = [
    0xcfe7f7a98ccccccd,
    0x535cb9d394945a0d,
    0x93736af8679aad17,
    0x26b6a528b427b354,
];

/// The exponent `1/5 mod (modulus() - 1)`; raising to it inverts raising to the fifth power.
pub open spec fn alpha_inv() -> nat {
    17510594297471420177797124596205820070838691520332827474958563349260646796493nat
}

/// `ALPHA_INV` holds `alpha_inv()`.
pub proof fn lemma_alpha_inv_limbs()
    ensures
        limbs_value(ALPHA_INV[0], ALPHA_INV[1], ALPHA_INV[2], ALPHA_INV[3]) == alpha_inv(),
{
}

pub proof fn lemma_eqm_refl(x: int)
    ensures
        eqm(x % modulus(), x),
{
    lemma_modulus_gt_one();
    lemma_mod_twice(x, modulus());
}

pub proof fn lemma_eqm_add(x: int, y: int, xx: int, yy: int)
    requires
        eqm(x, xx),
        eqm(y, yy),
    ensures
        eqm(x + y, xx + yy),
{
    lemma_modulus_gt_one();
    lemma_add_mod_noop(x, y, modulus());
    lemma_add_mod_noop(xx, yy, modulus());
}

pub proof fn lemma_eqm_sub(x: int, y: int, xx: int, yy: int)
    requires
        eqm(x, xx),
        eqm(y, yy),
    ensures
        eqm(x - y, xx - yy),
{
    lemma_modulus_gt_one();
    lemma_sub_mod_noop(x, y, modulus());
    lemma_sub_mod_noop(xx, yy, modulus());
}

pub proof fn lemma_eqm_mul(x: int, y: int, xx: int, yy: int)
    requires
        eqm(x, xx),
        eqm(y, yy),
    ensures
        eqm(x * y, xx * yy),
{
    lemma_modulus_gt_one();
    lemma_mul_mod_noop(x, y, modulus());
    lemma_mul_mod_noop(xx, yy, modulus());
}

/// A field power is congruent to the integer power of any congruent base.
pub proof fn lemma_eqm_pow(x: int, xx: int, e: nat)
    requires
        eqm(x, xx),
    ensures
        eqm(fpow(x, e), pow(xx, e)),
    decreases e,
{
    reveal(pow);
    if e > 0 {
        lemma_eqm_pow(x, xx, (e - 1) as nat);
        lemma_eqm_mul(x, fpow(x, (e - 1) as nat), xx, pow(xx, (e - 1) as nat));
        lemma_eqm_refl(x * fpow(x, (e - 1) as nat));
    }
}

pub proof fn lemma_pow5(x: int)
    ensures
        pow(x, 5) == x * x * x * x * x,
{
    reveal_with_fuel(pow, 6);
    let x4 = pow(x, 4);
    assert(pow(x, 5) == x * x4);
    assert(x4 == x * (x * (x * x)));
    assert(x * (x * (x * (x * x))) == x * x * x * x * x) by (nonlinear_arith);
}

pub proof fn lemma_mod_range(x: int)
    ensures
        0 <= x % modulus() < modulus(),
{
    lemma_modulus_gt_one();
    lemma_mod_bound(x, modulus());
}

impl FieldElement {
    /// Relies on `Add` of `ark_bn254::Fr`: the sum modulo the field's prime.
    #[verifier::external_body]
    pub(crate) fn plus(&self, o: &FieldElement) -> (r: FieldElement)
        requires
            self.wf(),
            o.wf(),
        ensures
            r.wf(),
            r@ == fadd(self@, o@),
    {
        let x = ark_bn254::Fr::from_repr(BigInteger256([self.l0, self.l1, self.l2, self.l3])).unwrap();
        let y = ark_bn254::Fr::from_repr(BigInteger256([o.l0, o.l1, o.l2, o.l3])).unwrap();
        let s = (x + y).into_repr().0;
        FieldElement { l0: s[0], l1: s[1], l2: s[2], l3: s[3] }
    }

    /// Relies on `Sub` of `ark_bn254::Fr`: the difference modulo the field's prime.
    #[verifier::external_body]
    pub(crate) fn minus(&self, o: &FieldElement) -> (r: FieldElement)
        requires
            self.wf(),
            o.wf(),
        ensures
            r.wf(),
            r@ == fsub(self@, o@),
    {
        let x = ark_bn254::Fr::from_repr(BigInteger256([self.l0, self.l1, self.l2, self.l3])).unwrap();
        let y = ark_bn254::Fr::from_repr(BigInteger256([o.l0, o.l1, o.l2, o.l3])).unwrap();
        let s = (x - y).into_repr().0;
        FieldElement { l0: s[0], l1: s[1], l2: s[2], l3: s[3] }
    }

    /// Relies on `Mul` of `ark_bn254::Fr`: the product modulo the field's prime.
    #[verifier::external_body]
    pub(crate) fn times(&self, o: &FieldElement) -> (r: FieldElement)
        requires
            self.wf(),
            o.wf(),
        ensures
            r.wf(),
            r@ == fmul(self@, o@),
    {
        let x = ark_bn254::Fr::from_repr(BigInteger256([self.l0, self.l1, self.l2, self.l3])).unwrap();
        let y = ark_bn254::Fr::from_repr(BigInteger256([o.l0, o.l1, o.l2, o.l3])).unwrap();
        let s = (x * y).into_repr().0;
        FieldElement { l0: s[0], l1: s[1], l2: s[2], l3: s[3] }
    }

    /// Relies on `Field::pow` of `ark_bn254::Fr` with a one-limb exponent:
    /// `self` raised to `e` in the field.
    #[verifier::external_body]
    pub(crate) fn pow(&self, e: u64) -> (r: FieldElement)
        requires
            self.wf(),
        ensures
            r.wf(),
            r@ == fpow(self@, e as nat),
    {
        let x = ark_bn254::Fr::from_repr(BigInteger256([self.l0, self.l1, self.l2, self.l3])).unwrap();
        let s = x.pow([e]).into_repr().0;
        FieldElement { l0: s[0], l1: s[1], l2: s[2], l3: s[3] }
    }

    /// Relies on `Field::pow` of `ark_bn254::Fr` with the four-limb exponent
    /// `ALPHA_INV`, whose value is `alpha_inv()`. As `5 * alpha_inv() == 1 mod (modulus() - 1)`, Fermat's
    /// little theorem makes the result a fifth root of `self`.
    #[verifier::external_body]
    pub(crate) fn fifth_root(&self) -> (r: FieldElement)
        requires
            self.wf(),
        ensures
            r.wf(),
            r@ == fpow(self@, alpha_inv()),
            fpow(r@, 5) == self@,
    {
        let x = ark_bn254::Fr::from_repr(BigInteger256([self.l0, self.l1, self.l2, self.l3])).unwrap();
        let s = x.pow(ALPHA_INV).into_repr().0;
        FieldElement { l0: s[0], l1: s[1], l2: s[2], l3: s[3] }
    }

    /// Relies on `Field::inverse` of `ark_bn254::Fr`: `None` for zero, else the
    /// multiplicative inverse, which in a prime field is `self^(modulus() - 2)`.
    #[verifier::external_body]
    pub(crate) fn inverse(&self) -> (r: Option<FieldElement>)
        requires
            self.wf(),
        ensures
            r.is_none() <==> self@ == 0,
            r matches Some(v) ==> v.wf() && fmul(v@, self@) == 1,
            r matches Some(v) ==> v@ == finv(self@),
    {
        let x = ark_bn254::Fr::from_repr(BigInteger256([self.l0, self.l1, self.l2, self.l3])).unwrap();
        x.inverse().map(|v| {
            let s = v.into_repr().0;
            FieldElement { l0: s[0], l1: s[1], l2: s[2], l3: s[3] }
        })
    }
}

} // verus!
