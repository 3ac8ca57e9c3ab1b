//! x-only points `(X : Z)` of a Montgomery curve: doubling, differential addition, the
//! Montgomery ladder and the enumeration of consecutive multiples.
use crate::congruence::{
    lemma_congruent_residue, lemma_fadd_congruent, lemma_fmul_congruent, lemma_fsub_congruent,
};
use crate::field::{finv, fmul, has_inverse, FieldElement};
use crate::integer::{
    lemma_bit_length_bounds, lemma_bit_prefix, lemma_top_bit, uint_bit, uint_bits, uint_eq,
    uint_from_u64, uint_sub, uint_value,
};
use crate::montgomery_curve::MontgomeryCurve;
use crate::xonly::{
    xz_diff_add, xz_double, xz_ladder, xz_mul, xz_next_multiple, xz_next_previous, xz_reduced,
    xz_same_point, XZ,
};
use vstd::arithmetic::power2::pow2;
use vstd::pervasive::unreached;
use vstd::prelude::*;
use vstd::std_specs::cmp::PartialEqSpecImpl;

verus! {

/// A point of a Montgomery curve in projective x-only coordinates. It carries the constant
/// `a24` of its curve, so that its arithmetic needs nothing else.
#[allow(non_snake_case)]
#[derive(Clone, Copy, Debug)]
pub struct MontgomeryPoint {
    a24: FieldElement,
    X: FieldElement,
    Z: FieldElement,
}

impl MontgomeryPoint {
    /// The coordinates `(X : Z)`.
    pub closed spec fn xz(&self) -> XZ {
        XZ { x: self.X@, z: self.Z@ }
    }

    /// The constant `a24` of the curve that the point lies on.
    pub closed spec fn a24_value(&self) -> nat {
        self.a24@
    }

    /// The modulus `p` of the field of definition.
    pub closed spec fn modulus(&self) -> nat {
        self.X.modulus()
    }

    /// The coordinates and the curve constant are reduced residues of one odd modulus.
    pub closed spec fn wf(&self) -> bool {
        &&& self.X.wf()
        &&& self.Z.wf()
        &&& self.a24.wf()
        &&& self.X.same_field(&self.Z)
        &&& self.X.same_field(&self.a24)
    }

    /// A well-formed point has reduced coordinates, over an odd modulus of at least 3.
    pub proof fn lemma_wf(&self)
        requires
            self.wf(),
        ensures
            xz_reduced(self.xz(), self.modulus()),
            self.a24_value() < self.modulus(),
            self.modulus() >= 3,
            self.modulus() % 2 == 1,
    {
    }

    /// The point carries the constants of `curve`.
    pub open spec fn on(&self, curve: &MontgomeryCurve) -> bool {
        self.a24_value() == curve.a24_value() && self.modulus() == curve.modulus()
    }

    /// `self` and `other` belong to one curve.
    pub open spec fn same_curve(&self, other: &MontgomeryPoint) -> bool {
        self.a24_value() == other.a24_value() && self.modulus() == other.modulus()
    }

    /// The affine point `(X : 1)` of `curve`.
    #[allow(non_snake_case)]
    pub fn new_reduced(curve: &MontgomeryCurve, X: FieldElement) -> (r: Self)
        requires
            curve.wf(),
            X.wf(),
            X.modulus() == curve.modulus(),
        ensures
            r.wf(),
            r.on(curve),
            r.xz() == (XZ { x: X@, z: 1 }),
    {
        let one = X.small(1);
        proof {
            vstd::arithmetic::div_mod::lemma_small_mod(1, X.modulus());
        }
        MontgomeryPoint { a24: curve.a24(), X, Z: one }
    }

    /// The point `(X : Z)` of `curve`.
    #[allow(non_snake_case)]
    pub fn new(curve: &MontgomeryCurve, X: FieldElement, Z: FieldElement) -> (r: Self)
        requires
            curve.wf(),
            X.wf(),
            Z.wf(),
            X.modulus() == curve.modulus(),
            Z.modulus() == curve.modulus(),
        ensures
            r.wf(),
            r.on(curve),
            r.xz() == (XZ { x: X@, z: Z@ }),
    {
        MontgomeryPoint { a24: curve.a24(), X, Z }
    }

    /// The point at infinity of `curve`, written `(1 : 0)`.
    pub fn infinity(curve: &MontgomeryCurve) -> (r: Self)
        requires
            curve.wf(),
        ensures
            r.wf(),
            r.on(curve),
            r.xz() == (XZ { x: 1, z: 0 }),
    {
        let a24 = curve.a24();
        let one = a24.small(1);
        let zero = a24.small(0);
        proof {
            vstd::arithmetic::div_mod::lemma_small_mod(1, a24.modulus());
            vstd::arithmetic::div_mod::lemma_small_mod(0, a24.modulus());
        }
        MontgomeryPoint { a24, X: one, Z: zero }
    }

    /// Whether the point is the point at infinity: `Z = 0`.
    pub fn is_infinity(&self) -> (r: bool)
        ensures
            r == (self.xz().z == 0),
    {
        self.Z.is_zero()
    }

    /// The coordinate `X`.
    #[allow(non_snake_case)]
    pub fn X(&self) -> (r: FieldElement)
        requires
            self.wf(),
        ensures
            r.wf(),
            r@ == self.xz().x,
            r.modulus() == self.modulus(),
    {
        self.X
    }

    /// The coordinate `Z`.
    #[allow(non_snake_case)]
    pub fn Z(&self) -> (r: FieldElement)
        requires
            self.wf(),
        ensures
            r.wf(),
            r@ == self.xz().z,
            r.modulus() == self.modulus(),
    {
        self.Z
    }

    /// `self + other`, given their difference `self - other`, which must not be infinity (nor
    /// the point with `X = 0`) for the result to be the sum. Where `self` is `other`, use
    /// [`MontgomeryPoint::double`].
    pub fn differential_add(
        &self,
        other: &MontgomeryPoint,
        self_minus_other: &MontgomeryPoint,
    ) -> (r: Self)
        requires
            self.wf(),
            other.wf(),
            self_minus_other.wf(),
            self.same_curve(other),
            self.same_curve(self_minus_other),
        ensures
            r.wf(),
            r.same_curve(self),
            r.xz() == xz_diff_add(self.xz(), other.xz(), self_minus_other.xz(), self.modulus()),
    {
        let ghost p = self.modulus();
        let ghost (x1, z1) = (self.X@ as int, self.Z@ as int);
        let ghost (x2, z2) = (other.X@ as int, other.Z@ as int);
        let ghost (x3, z3) = (self_minus_other.X@ as int, self_minus_other.Z@ as int);

        let a = other.X.add(&other.Z);
        let b = other.X.sub(&other.Z);
        let c = self.X.add(&self.Z);
        let d = self.X.sub(&self.Z);
        let da = d.mul(&a);
        let cb = c.mul(&b);
        let sum = da.add(&cb);
        let dif = da.sub(&cb);
        let sum2 = sum.square();
        let dif2 = dif.square();
        let x5 = self_minus_other.Z.mul(&sum2);
        let z5 = self_minus_other.X.mul(&dif2);
        proof {
            let s = 2 * (x1 * x2 - z1 * z2);
            let t = 2 * (x1 * z2 - z1 * x2);
            lemma_fadd_congruent(other.X@, other.Z@, x2, z2, p);
            lemma_fsub_congruent(other.X@, other.Z@, x2, z2, p);
            lemma_fadd_congruent(self.X@, self.Z@, x1, z1, p);
            lemma_fsub_congruent(self.X@, self.Z@, x1, z1, p);
            lemma_fmul_congruent(d@, a@, x1 - z1, x2 + z2, p);
            lemma_fmul_congruent(c@, b@, x1 + z1, x2 - z2, p);
            lemma_fadd_congruent(da@, cb@, (x1 - z1) * (x2 + z2), (x1 + z1) * (x2 - z2), p);
            lemma_fsub_congruent(da@, cb@, (x1 - z1) * (x2 + z2), (x1 + z1) * (x2 - z2), p);
            assert((x1 - z1) * (x2 + z2) + (x1 + z1) * (x2 - z2) == s) by (nonlinear_arith)
                requires
                    s == 2 * (x1 * x2 - z1 * z2),
            ;
            assert((x1 - z1) * (x2 + z2) - (x1 + z1) * (x2 - z2) == t) by (nonlinear_arith)
                requires
                    t == 2 * (x1 * z2 - z1 * x2),
            ;
            lemma_fmul_congruent(sum@, sum@, s, s, p);
            lemma_fmul_congruent(dif@, dif@, t, t, p);
            lemma_fmul_congruent(self_minus_other.Z@, sum2@, z3, s * s, p);
            lemma_fmul_congruent(self_minus_other.X@, dif2@, x3, t * t, p);
            assert(z3 * (s * s) == 4 * z3 * ((x1 * x2 - z1 * z2) * (x1 * x2 - z1 * z2)))
                by (nonlinear_arith)
                requires
                    s == 2 * (x1 * x2 - z1 * z2),
            ;
            assert(x3 * (t * t) == 4 * x3 * ((x1 * z2 - z1 * x2) * (x1 * z2 - z1 * x2)))
                by (nonlinear_arith)
                requires
                    t == 2 * (x1 * z2 - z1 * x2),
            ;
            lemma_congruent_residue(x5@, z3 * (s * s), p);
            lemma_congruent_residue(z5@, x3 * (t * t), p);
        }
        MontgomeryPoint { a24: self.a24, X: x5, Z: z5 }
    }

    /// `2 * self`.
    pub fn double(&self) -> (r: Self)
        requires
            self.wf(),
        ensures
            r.wf(),
            r.same_curve(self),
            r.xz() == xz_double(self.xz(), self.a24_value(), self.modulus()),
    {
        let ghost p = self.modulus();
        let ghost (x, z, k) = (self.X@ as int, self.Z@ as int, self.a24@ as int);

        let a = self.X.add(&self.Z);
        let aa = a.square();
        let b = self.X.sub(&self.Z);
        let bb = b.square();
        let c = aa.sub(&bb);
        let x3 = aa.mul(&bb);
        let kc = self.a24.mul(&c);
        let inner = bb.add(&kc);
        let z3 = c.mul(&inner);
        proof {
            let cc = 4 * x * z;
            lemma_fadd_congruent(self.X@, self.Z@, x, z, p);
            lemma_fmul_congruent(a@, a@, x + z, x + z, p);
            lemma_fsub_congruent(self.X@, self.Z@, x, z, p);
            lemma_fmul_congruent(b@, b@, x - z, x - z, p);
            lemma_fsub_congruent(aa@, bb@, (x + z) * (x + z), (x - z) * (x - z), p);
            assert((x + z) * (x + z) - (x - z) * (x - z) == cc) by (nonlinear_arith)
                requires
                    cc == 4 * x * z,
            ;
            lemma_fmul_congruent(aa@, bb@, (x + z) * (x + z), (x - z) * (x - z), p);
            lemma_fmul_congruent(self.a24@, c@, k, cc, p);
            lemma_fadd_congruent(bb@, kc@, (x - z) * (x - z), k * cc, p);
            lemma_fmul_congruent(c@, inner@, cc, (x - z) * (x - z) + k * cc, p);
            lemma_congruent_residue(x3@, (x + z) * (x + z) * ((x - z) * (x - z)), p);
            lemma_congruent_residue(z3@, cc * ((x - z) * (x - z) + k * cc), p);
        }
        MontgomeryPoint { a24: self.a24, X: x3, Z: z3 }
    }

    /// `(self + other, 2 * self)`, given the difference `self - other`: one step of the
    /// Montgomery ladder, with the sums and differences of the coordinates of `self` shared
    /// between the two results.
    pub fn differential_add_and_double(
        &self,
        other: &MontgomeryPoint,
        self_minus_other: &MontgomeryPoint,
    ) -> (r: (Self, Self))
        requires
            self.wf(),
            other.wf(),
            self_minus_other.wf(),
            self.same_curve(other),
            self.same_curve(self_minus_other),
        ensures
            r.0.wf(),
            r.1.wf(),
            r.0.same_curve(self),
            r.1.same_curve(self),
            r.0.xz() == xz_diff_add(self.xz(), other.xz(), self_minus_other.xz(), self.modulus()),
            r.1.xz() == xz_double(self.xz(), self.a24_value(), self.modulus()),
    {
        let ghost p = self.modulus();
        let ghost (x1, z1, k) = (self.X@ as int, self.Z@ as int, self.a24@ as int);
        let ghost (x2, z2) = (other.X@ as int, other.Z@ as int);
        let ghost (x3, z3) = (self_minus_other.X@ as int, self_minus_other.Z@ as int);

        let a = self.X.add(&self.Z);
        let b = self.X.sub(&self.Z);
        let c = other.X.add(&other.Z);
        let d = other.X.sub(&other.Z);
        let bc = b.mul(&c);
        let ad = a.mul(&d);
        let sum = bc.add(&ad);
        let dif = bc.sub(&ad);
        let sum2 = sum.square();
        let dif2 = dif.square();
        let x5 = self_minus_other.Z.mul(&sum2);
        let z5 = self_minus_other.X.mul(&dif2);
        proof {
            let s = 2 * (x1 * x2 - z1 * z2);
            let t = 2 * (x1 * z2 - z1 * x2);
            lemma_fadd_congruent(self.X@, self.Z@, x1, z1, p);
            lemma_fsub_congruent(self.X@, self.Z@, x1, z1, p);
            lemma_fadd_congruent(other.X@, other.Z@, x2, z2, p);
            lemma_fsub_congruent(other.X@, other.Z@, x2, z2, p);
            lemma_fmul_congruent(b@, c@, x1 - z1, x2 + z2, p);
            lemma_fmul_congruent(a@, d@, x1 + z1, x2 - z2, p);
            lemma_fadd_congruent(bc@, ad@, (x1 - z1) * (x2 + z2), (x1 + z1) * (x2 - z2), p);
            lemma_fsub_congruent(bc@, ad@, (x1 - z1) * (x2 + z2), (x1 + z1) * (x2 - z2), p);
            assert((x1 - z1) * (x2 + z2) + (x1 + z1) * (x2 - z2) == s) by (nonlinear_arith)
                requires
                    s == 2 * (x1 * x2 - z1 * z2),
            ;
            assert((x1 - z1) * (x2 + z2) - (x1 + z1) * (x2 - z2) == t) by (nonlinear_arith)
                requires
                    t == 2 * (x1 * z2 - z1 * x2),
            ;
            lemma_fmul_congruent(sum@, sum@, s, s, p);
            lemma_fmul_congruent(dif@, dif@, t, t, p);
            lemma_fmul_congruent(self_minus_other.Z@, sum2@, z3, s * s, p);
            lemma_fmul_congruent(self_minus_other.X@, dif2@, x3, t * t, p);
            assert(z3 * (s * s) == 4 * z3 * ((x1 * x2 - z1 * z2) * (x1 * x2 - z1 * z2)))
                by (nonlinear_arith)
                requires
                    s == 2 * (x1 * x2 - z1 * z2),
            ;
            assert(x3 * (t * t) == 4 * x3 * ((x1 * z2 - z1 * x2) * (x1 * z2 - z1 * x2)))
                by (nonlinear_arith)
                requires
                    t == 2 * (x1 * z2 - z1 * x2),
            ;
            lemma_congruent_residue(x5@, z3 * (s * s), p);
            lemma_congruent_residue(z5@, x3 * (t * t), p);
        }
        let self_plus_other = MontgomeryPoint { a24: self.a24, X: x5, Z: z5 };

        let aa = a.square();
        let bb = b.square();
        let e = aa.sub(&bb);
        let x4 = aa.mul(&bb);
        let ke = self.a24.mul(&e);
        let inner = bb.add(&ke);
        let z4 = e.mul(&inner);
        proof {
            let cc = 4 * x1 * z1;
            lemma_fmul_congruent(a@, a@, x1 + z1, x1 + z1, p);
            lemma_fmul_congruent(b@, b@, x1 - z1, x1 - z1, p);
            lemma_fsub_congruent(aa@, bb@, (x1 + z1) * (x1 + z1), (x1 - z1) * (x1 - z1), p);
            assert((x1 + z1) * (x1 + z1) - (x1 - z1) * (x1 - z1) == cc) by (nonlinear_arith)
                requires
                    cc == 4 * x1 * z1,
            ;
            lemma_fmul_congruent(aa@, bb@, (x1 + z1) * (x1 + z1), (x1 - z1) * (x1 - z1), p);
            lemma_fmul_congruent(self.a24@, e@, k, cc, p);
            lemma_fadd_congruent(bb@, ke@, (x1 - z1) * (x1 - z1), k * cc, p);
            lemma_fmul_congruent(e@, inner@, cc, (x1 - z1) * (x1 - z1) + k * cc, p);
            lemma_congruent_residue(x4@, (x1 + z1) * (x1 + z1) * ((x1 - z1) * (x1 - z1)), p);
            lemma_congruent_residue(z4@, cc * ((x1 - z1) * (x1 - z1) + k * cc), p);
        }
        let double_self = MontgomeryPoint { a24: self.a24, X: x4, Z: z4 };

        (self_plus_other, double_self)
    }
}

impl MontgomeryPoint {
    /// `k * self` for `k >= 1`, by the Montgomery ladder: it starts from `(P, 2P)` and takes
    /// the bits of `k` below the top one, from the highest down, doubling one of the pair and
    /// adding the two at each bit.
    pub fn mul(&self, k: &crypto_bigint::Uint<8>) -> (r: Self)
        requires
            self.wf(),
            uint_value(*k) >= 1,
        ensures
            r.wf(),
            r.same_curve(self),
            r.xz() == xz_mul(self.xz(), uint_value(*k), self.a24_value(), self.modulus()),
    {
        let ghost n = uint_value(*k);
        let bits = uint_bits(k);
        proof {
            lemma_bit_length_bounds(n);
            lemma_top_bit(n);
        }
        let mut x0 = *self;
        let mut x1 = self.double();
        let mut j: u32 = bits - 1;
        while j > 0
            invariant
                self.wf(),
                x0.wf(),
                x1.wf(),
                x0.same_curve(self),
                x1.same_curve(self),
                n == uint_value(*k),
                n / pow2(j as nat) >= 1,
                (x0.xz(), x1.xz()) == xz_ladder(
                    self.xz(),
                    n / pow2(j as nat),
                    self.a24_value(),
                    self.modulus(),
                ),
            decreases j,
        {
            j = j - 1;
            let bit = uint_bit(k, j);
            proof {
                lemma_bit_prefix(n, j as nat);
            }
            if !bit {
                let (sum, twice) = x0.differential_add_and_double(&x1, self);
                x1 = sum;
                x0 = twice;
            } else {
                let (sum, twice) = x1.differential_add_and_double(&x0, self);
                x0 = sum;
                x1 = twice;
            }
        }
        proof {
            vstd::arithmetic::power2::lemma2_to64();
            assert(pow2(j as nat) == 1);
            assert((n as int) / 1 == n);
            assert(n / pow2(j as nat) == n);
        }
        x0
    }

    /// The affine x-coordinate `X / Z`, for a point whose `Z` has an inverse.
    pub fn x(&self) -> (r: FieldElement)
        requires
            self.wf(),
            has_inverse(self.xz().z, self.modulus()),
        ensures
            r.wf(),
            r.modulus() == self.modulus(),
            r@ == fmul(self.xz().x, finv(self.xz().z, self.modulus()), self.modulus()),
    {
        match self.Z.inv() {
            Some(z_inverse) => self.X.mul(&z_inverse),
            None => unreached(),
        }
    }

    /// The enumeration `self, 2 * self, ..., d * self`.
    pub fn multiples(self, d: crypto_bigint::Uint<8>) -> (r: PointMultiples)
        requires
            self.wf(),
        ensures
            r.wf(),
            r.base() == self.xz(),
            r.a24_value() == self.a24_value(),
            r.modulus() == self.modulus(),
            r.current() == (XZ { x: 1, z: 0 }),
            r.previous() == (XZ { x: 1, z: 0 }),
            r.remaining() == uint_value(d),
    {
        PointMultiples::new(self, d)
    }

    /// The point at infinity of the curve of `self`.
    fn infinity_beside(&self) -> (r: Self)
        requires
            self.wf(),
        ensures
            r.wf(),
            r.same_curve(self),
            r.xz() == (XZ { x: 1, z: 0 }),
    {
        let one = self.a24.small(1);
        let zero = self.a24.small(0);
        proof {
            vstd::arithmetic::div_mod::lemma_small_mod(1, self.a24.modulus());
            vstd::arithmetic::div_mod::lemma_small_mod(0, self.a24.modulus());
        }
        MontgomeryPoint { a24: self.a24, X: one, Z: zero }
    }
}

/// The consecutive multiples `P, 2P, 3P, ...` of a point, one per call of
/// [`PointMultiples::next`], until the count given at the start is used up. It keeps the
/// last multiple and the one before it, whose difference is `P`.
#[derive(Debug)]
pub struct PointMultiples {
    n_times_p: MontgomeryPoint,
    p: MontgomeryPoint,
    n_minus_1_times_p: MontgomeryPoint,
    left: crypto_bigint::Uint<8>,
}

impl PointMultiples {
    /// The point `P` whose multiples are enumerated.
    pub closed spec fn base(&self) -> XZ {
        self.p.xz()
    }

    /// The multiple handed out last; infinity before the first.
    pub closed spec fn current(&self) -> XZ {
        self.n_times_p.xz()
    }

    /// The multiple handed out before the last.
    pub closed spec fn previous(&self) -> XZ {
        self.n_minus_1_times_p.xz()
    }

    /// How many multiples are still to come.
    pub closed spec fn remaining(&self) -> nat {
        uint_value(self.left)
    }

    /// The constant `a24` of the curve.
    pub closed spec fn a24_value(&self) -> nat {
        self.p.a24_value()
    }

    /// The modulus `p` of the field of definition.
    pub closed spec fn modulus(&self) -> nat {
        self.p.modulus()
    }

    /// The three points are well-formed points of one curve.
    pub closed spec fn wf(&self) -> bool {
        &&& self.p.wf()
        &&& self.n_times_p.wf()
        &&& self.n_minus_1_times_p.wf()
        &&& self.n_times_p.same_curve(&self.p)
        &&& self.n_minus_1_times_p.same_curve(&self.p)
    }

    fn new(p: MontgomeryPoint, d: crypto_bigint::Uint<8>) -> (r: Self)
        requires
            p.wf(),
        ensures
            r.wf(),
            r.base() == p.xz(),
            r.a24_value() == p.a24_value(),
            r.modulus() == p.modulus(),
            r.current() == (XZ { x: 1, z: 0 }),
            r.previous() == (XZ { x: 1, z: 0 }),
            r.remaining() == uint_value(d),
    {
        PointMultiples {
            n_times_p: p.infinity_beside(),
            p,
            n_minus_1_times_p: p.infinity_beside(),
            left: d,
        }
    }

    /// The next multiple, or nothing once the count is used up.
    pub fn next(&mut self) -> (r: Option<MontgomeryPoint>)
        requires
            old(self).wf(),
        ensures
            final(self).wf(),
            final(self).base() == old(self).base(),
            final(self).a24_value() == old(self).a24_value(),
            final(self).modulus() == old(self).modulus(),
            old(self).remaining() == 0 ==> r is None && final(self).remaining() == 0,
            old(self).remaining() == 0 ==> final(self).current() == old(self).current(),
            old(self).remaining() == 0 ==> final(self).previous() == old(self).previous(),
            old(self).remaining() > 0 ==> final(self).remaining() == old(self).remaining() - 1,
            old(self).remaining() > 0 ==> final(self).current() == xz_next_multiple(
                old(self).current(),
                old(self).previous(),
                old(self).base(),
                old(self).a24_value(),
                old(self).modulus(),
            ),
            old(self).remaining() > 0 ==> final(self).previous() == xz_next_previous(
                old(self).current(),
                old(self).previous(),
            ),
            old(self).remaining() > 0 ==> r is Some,
            r matches Some(m) ==> m.wf() && m.xz() == final(self).current(),
            r matches Some(m) ==> m.a24_value() == old(self).a24_value(),
            r matches Some(m) ==> m.modulus() == old(self).modulus(),
    {
        let zero = uint_from_u64(0);
        let one = uint_from_u64(1);
        if uint_eq(&self.left, &zero) {
            return None;
        }
        if self.n_times_p.is_infinity() {
            self.n_times_p = self.p;
            self.left = uint_sub(&self.left, &one);
            return Some(self.p);
        }
        let x1 = self.n_times_p.X;
        let x2 = self.p.X;

        let n_plus_1_times_p = if x1 == x2 {
            self.p.double()
        } else {
            self.n_times_p.differential_add(&self.p, &self.n_minus_1_times_p)
        };

        self.n_minus_1_times_p = self.n_times_p;
        self.n_times_p = n_plus_1_times_p;
        self.left = uint_sub(&self.left, &one);
        Some(n_plus_1_times_p)
    }
}

impl MontgomeryPoint {
    /// What `==` decides: both points are at infinity, or neither is and the cross products
    /// `X_1 Z_2` and `Z_1 X_2` are the same element of one field.
    pub closed spec fn same_point(&self, other: &MontgomeryPoint) -> bool {
        if self.Z@ == 0 && other.Z@ == 0 {
            true
        } else if self.Z@ == 0 || other.Z@ == 0 {
            false
        } else {
            &&& self.X.same_field(&other.Z)
            &&& self.Z.same_field(&other.X)
            &&& self.X.same_field(&self.Z)
            &&& fmul(self.X@, other.Z@, self.X.modulus()) == fmul(
                self.Z@,
                other.X@,
                self.X.modulus(),
            )
        }
    }

    /// On well-formed points of one field, `==` is equality of projective points.
    pub proof fn lemma_same_point(&self, other: &MontgomeryPoint)
        requires
            self.wf(),
            other.wf(),
            self.modulus() == other.modulus(),
        ensures
            self.same_point(other) == xz_same_point(self.xz(), other.xz(), self.modulus()),
    {
    }
}

impl PartialEq for MontgomeryPoint {
    /// Projective equality: both points are at infinity, or neither is and
    /// `X_1 Z_2 = Z_1 X_2`.
    fn eq(&self, other: &Self) -> (r: bool) {
        if self.Z.is_zero() && other.Z.is_zero() {
            true
        } else if self.Z.is_zero() || other.Z.is_zero() {
            false
        } else if self.X.shares_field(&other.Z) && self.Z.shares_field(&other.X)
            && self.X.shares_field(&self.Z) {
            self.X.mul(&other.Z) == self.Z.mul(&other.X)
        } else {
            false
        }
    }
}

impl PartialEqSpecImpl for MontgomeryPoint {
    open spec fn obeys_eq_spec() -> bool {
        true
    }

    open spec fn eq_spec(&self, other: &Self) -> bool {
        self.same_point(other)
    }
}

} // verus!
