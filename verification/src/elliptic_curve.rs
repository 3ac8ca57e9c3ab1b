//! Points with both coordinates on the curves `y^2 = x^3 + A x^2 + x`, and the group law by
//! chord and tangent. The walk does without the y-coordinate; this is the arithmetic that
//! the x-only formulas stand for (see `group_law`).
use crate::congruence::{lemma_congruent_residue, lemma_fadd_congruent, lemma_fmul_congruent};
use crate::csidh_params::{
    all_positive, lemma_product_prefix, lemma_product_take, product, CsidhParams,
};
use crate::field::{
    fadd, finv, fmul, fpow, fsub, has_inverse, is_inverse, lemma_finv, FieldElement,
};
use crate::group_law::{
    chord_sum_x, lemma_chord_on_curve, lemma_tangent_on_curve, on_curve, tangent_double_x,
    tangent_slope,
};
use crate::integer::{
    bit_length, lemma_bit_prefix, lemma_prefix_of_all_bits, lemma_prefix_positive, uint_bit,
    uint_bits, uint_eq, uint_from_u64, uint_limit, uint_lt, uint_value, uint_wrapping_mul,
};
use crate::montgomery_curve::{curve_rhs, supersingular_verdict, MontgomeryCurve, Verdict};
use crate::number_theory::{
    is_prime, is_quadratic_residue, lemma_euclid, lemma_euler_criterion,
    lemma_nonzero_invertible,
};
use vstd::arithmetic::div_mod::{lemma_mul_mod_noop_right, lemma_small_mod};
use vstd::arithmetic::power2::pow2;
use vstd::prelude::*;
use vstd::std_specs::cmp::PartialEqSpecImpl;

verus! {

/// A point of the curve in affine coordinates, or the point at infinity.
pub enum Affine {
    Infinity,
    Finite { x: nat, y: nat },
}

/// The slope of the chord through `(x1, y1)` and `(x2, y2)`: `(y2 - y1) / (x2 - x1)`.
pub open spec fn chord_slope(x1: nat, y1: nat, x2: nat, y2: nat, p: nat) -> nat {
    fmul(fsub(y2, y1, p), finv(fsub(x2, x1, p), p), p)
}

/// The y-coordinate of the third point of a line with slope `slope` through `(x1, y1)`,
/// mirrored: `slope * x1 - (slope * x3 + y1)`.
pub open spec fn third_y(slope: nat, x1: nat, y1: nat, x3: nat, p: nat) -> nat {
    fsub(fmul(slope, x1, p), fadd(fmul(slope, x3, p), y1, p), p)
}

/// The sum of two points by chord and tangent. Infinity is the neutral element; points with
/// the same `x` and opposite `y` add up to infinity; a point is doubled along its tangent;
/// two other points are added along their chord. There is no sum where the slope has no
/// value because its denominator has no inverse.
pub open spec fn affine_add(pt: Affine, qt: Affine, a: nat, p: nat) -> Option<Affine> {
    match (pt, qt) {
        (Affine::Infinity, _) => Some(qt),
        (_, Affine::Infinity) => Some(pt),
        (Affine::Finite { x: x1, y: y1 }, Affine::Finite { x: x2, y: y2 }) => {
            if x1 == x2 && y1 == fsub(0, y2, p) {
                Some(Affine::Infinity)
            } else if x1 == x2 && y1 == y2 {
                if has_inverse(fmul(2, y1, p), p) {
                    let x3 = tangent_double_x(x1, y1, a, p);
                    Some(
                        Affine::Finite {
                            x: x3,
                            y: third_y(tangent_slope(x1, y1, a, p), x1, y1, x3, p),
                        },
                    )
                } else {
                    None
                }
            } else {
                if has_inverse(fsub(x2, x1, p), p) {
                    let x3 = chord_sum_x(x1, y1, x2, y2, a, p);
                    Some(
                        Affine::Finite {
                            x: x3,
                            y: third_y(chord_slope(x1, y1, x2, y2, p), x1, y1, x3, p),
                        },
                    )
                } else {
                    None
                }
            }
        },
    }
}

/// The pair `(k P, (k + 1) P)` by the ladder on the bits of `k`, from the top bit down: a
/// set bit takes `(S, R)` to `(S + R, R + R)`, a clear bit to `(S + S, R + S)`.
pub open spec fn affine_ladder(pt: Affine, k: nat, a: nat, p: nat) -> Option<(Affine, Affine)>
    decreases k,
{
    if k == 0 {
        Some((Affine::Infinity, pt))
    } else {
        match affine_ladder(pt, k / 2, a, p) {
            None => None,
            Some((s, r)) => if k % 2 == 1 {
                match (affine_add(s, r, a, p), affine_add(r, r, a, p)) {
                    (Some(s2), Some(r2)) => Some((s2, r2)),
                    _ => None,
                }
            } else {
                match (affine_add(r, s, a, p), affine_add(s, s, a, p)) {
                    (Some(r2), Some(s2)) => Some((s2, r2)),
                    _ => None,
                }
            },
        }
    }
}

/// `k P` by the ladder.
pub open spec fn affine_mul(pt: Affine, k: nat, a: nat, p: nat) -> Option<Affine> {
    match affine_ladder(pt, k, a, p) {
        Some((s, _)) => Some(s),
        None => None,
    }
}

/// The point with x-coordinate `x` whose y-coordinate is the power `e` of the right-hand
/// side `n` of the curve equation, if that is a square root of `n`.
pub open spec fn affine_lift(a: nat, x: nat, e: nat, p: nat) -> Option<Affine> {
    let n = curve_rhs(a, x, p);
    let r = fpow(n, e, p);
    if fmul(r, r, p) == n {
        Some(Affine::Finite { x, y: r })
    } else {
        None
    }
}

/// The first of the candidates `draws`, each reduced modulo `p`, that lifts.
pub open spec fn first_affine_lift(
    a: nat,
    draws: Seq<crypto_bigint::Uint<8>>,
    e: nat,
    p: nat,
) -> Option<Affine>
    decreases draws.len(),
{
    if draws.len() == 0 {
        None
    } else {
        match affine_lift(a, uint_value(draws[0]) % p, e, p) {
            Some(pt) => Some(pt),
            None => first_affine_lift(a, draws.drop_first(), e, p),
        }
    }
}

/// An elliptic curve `y^2 = x^3 + A x^2 + x`, with the exponent `(p + 1) / 4` that takes
/// squares to their square roots.
#[derive(Clone, Copy, Debug)]
pub struct CsidhEllipticCurve {
    a2: FieldElement,
    root_exponent: crypto_bigint::Uint<8>,
}

/// A point of such a curve in projective coordinates `(X : Y : Z)`, where `Z` is 1, or 0 at
/// infinity.
#[derive(Clone, Copy, Debug)]
pub struct Point {
    a2: FieldElement,
    proj_x: FieldElement,
    proj_y: FieldElement,
    proj_z: FieldElement,
}

impl CsidhEllipticCurve {
    /// The coefficient `A`.
    pub closed spec fn coefficient(&self) -> nat {
        self.a2@
    }

    /// The modulus `p` of the field of definition.
    pub closed spec fn modulus(&self) -> nat {
        self.a2.modulus()
    }

    /// The exponent that `lift` raises to.
    pub closed spec fn root_exponent(&self) -> nat {
        uint_value(self.root_exponent)
    }

    /// The coefficient is a reduced residue of an odd modulus.
    pub closed spec fn wf(&self) -> bool {
        self.a2.wf()
    }

    /// The characteristic `p` of the field of definition.
    pub fn field_characteristic(&self) -> (r: crypto_bigint::Uint<8>)
        ensures
            uint_value(r) == self.modulus(),
    {
        self.a2.modulus_value()
    }

    /// The coefficient `A`.
    pub fn a2(&self) -> (r: FieldElement)
        requires
            self.wf(),
        ensures
            r.wf(),
            r@ == self.coefficient(),
            r.modulus() == self.modulus(),
    {
        self.a2
    }

    /// The curve with coefficient `a`, over the field of `params`.
    pub fn new(params: &CsidhParams, a: FieldElement) -> (r: Self)
        requires
            params.valid(),
            a.wf(),
            a.modulus() == params.modulus(),
        ensures
            r.wf(),
            r.coefficient() == a@,
            r.modulus() == params.modulus(),
            r.root_exponent() == product(params.primes()),
            4 * r.root_exponent() == r.modulus() + 1,
    {
        let lis = params.lis();
        let mut exponent = uint_from_u64(1);
        let mut i: usize = 0;
        proof {
            assert(all_positive(lis@));
            assert(lis@.take(0) =~= Seq::<u64>::empty());
        }
        while i < lis.len()
            invariant
                i <= lis.len(),
                lis@ == params.primes(),
                params.valid(),
                all_positive(lis@),
                uint_value(exponent) == product(lis@.take(i as int)),
            decreases lis.len() - i,
        {
            proof {
                lemma_product_take(lis@, i as int);
                lemma_product_prefix(lis@, i + 1);
                lemma_small_mod(product(lis@.take(i + 1)), uint_limit());
            }
            exponent = uint_wrapping_mul(&exponent, &uint_from_u64(lis[i]));
            i = i + 1;
        }
        proof {
            assert(lis@.take(lis.len() as int) =~= lis@);
        }
        CsidhEllipticCurve { a2: a, root_exponent: exponent }
    }

    /// The point `(x, y)` with `y` the power `(p + 1) / 4` of `x^3 + A x^2 + x`, if that is a
    /// square root of it: then the point lies on the curve. Otherwise `x` belongs to the
    /// quadratic twist and nothing is returned.
    pub fn lift(&self, x: FieldElement) -> (r: Option<Point>)
        requires
            self.wf(),
            x.wf(),
            x.modulus() == self.modulus(),
        ensures
            r is Some <==> affine_lift(self.coefficient(), x@, self.root_exponent(), self.modulus())
                is Some,
            r matches Some(pt) ==> pt.wf() && pt.on(self) && Some(pt.affine()) == affine_lift(
                self.coefficient(),
                x@,
                self.root_exponent(),
                self.modulus(),
            ),
            r matches Some(pt) ==> pt.affine() matches Affine::Finite { x: px, y: py } && on_curve(
                px,
                py,
                self.coefficient(),
                self.modulus(),
            ),
    {
        let ghost p = self.modulus();
        let ghost (xi, ai) = (x@ as int, self.a2@ as int);
        let x_square = x.square();
        let cube = x.mul(&x_square);
        let quad = self.a2.mul(&x_square);
        let partial = cube.add(&quad);
        let n = partial.add(&x);
        proof {
            lemma_fmul_congruent(x@, x@, xi, xi, p);
            lemma_fmul_congruent(x@, x_square@, xi, xi * xi, p);
            lemma_fmul_congruent(self.a2@, x_square@, ai, xi * xi, p);
            lemma_fadd_congruent(cube@, quad@, xi * (xi * xi), ai * (xi * xi), p);
            lemma_fadd_congruent(partial@, x@, xi * (xi * xi) + ai * (xi * xi), xi, p);
            lemma_congruent_residue(n@, xi * (xi * xi) + ai * (xi * xi) + xi, p);
            assert(n@ == curve_rhs(self.a2@, x@, p));
        }
        let r = n.pow(&self.root_exponent);
        if r.square() == n {
            Some(Point::new_aff(self, x, r))
        } else {
            None
        }
    }

    /// The point of the first of the candidates `draws`, each reduced modulo `p`, that
    /// lifts to this curve.
    pub fn random_point(&self, draws: &Vec<crypto_bigint::Uint<8>>) -> (r: Option<Point>)
        requires
            self.wf(),
        ensures
            r is Some <==> first_affine_lift(
                self.coefficient(),
                draws@,
                self.root_exponent(),
                self.modulus(),
            ) is Some,
            r matches Some(pt) ==> pt.wf() && pt.on(self) && Some(pt.affine())
                == first_affine_lift(
                self.coefficient(),
                draws@,
                self.root_exponent(),
                self.modulus(),
            ),
    {
        let mut i: usize = 0;
        proof {
            assert(draws@.skip(0) =~= draws@);
        }
        while i < draws.len()
            invariant
                i <= draws.len(),
                self.wf(),
                first_affine_lift(
                    self.coefficient(),
                    draws@,
                    self.root_exponent(),
                    self.modulus(),
                ) == first_affine_lift(
                    self.coefficient(),
                    draws@.skip(i as int),
                    self.root_exponent(),
                    self.modulus(),
                ),
            decreases draws.len() - i,
        {
            let x = self.a2.reduce(&draws[i]);
            proof {
                assert(draws@.skip(i as int)[0] == draws@[i as int]);
                assert(draws@.skip(i as int).drop_first() =~= draws@.skip(i + 1));
            }
            match self.lift(x) {
                Some(point) => {
                    return Some(point);
                },
                None => {},
            }
            i = i + 1;
        }
        None
    }

    /// Whether the curve is supersingular, by the order of points lifted from the candidates
    /// `draws`: the verdict of [`MontgomeryCurve::is_supersingular`] on the same curve.
    pub fn is_supersingular(&self, params: &CsidhParams, draws: &Vec<crypto_bigint::Uint<8>>) -> (r:
        Verdict)
        requires
            self.wf(),
            params.valid(),
            self.modulus() == params.modulus(),
        ensures
            r == supersingular_verdict(self.coefficient(), draws@, *params),
    {
        MontgomeryCurve::new(params, self.a2).is_supersingular(params, draws)
    }
}

impl PartialEq for CsidhEllipticCurve {
    /// Curves are equal when their coefficients are equal in the same field.
    fn eq(&self, other: &Self) -> (r: bool) {
        self.a2 == other.a2
    }
}

impl PartialEqSpecImpl for CsidhEllipticCurve {
    open spec fn obeys_eq_spec() -> bool {
        true
    }

    open spec fn eq_spec(&self, other: &Self) -> bool {
        self.coefficient() == other.coefficient() && self.modulus() == other.modulus()
    }
}

impl Point {
    /// The point in affine coordinates.
    pub closed spec fn affine(&self) -> Affine {
        if self.proj_z@ == 0 {
            Affine::Infinity
        } else {
            Affine::Finite { x: self.proj_x@, y: self.proj_y@ }
        }
    }

    /// The coefficient `A` of the curve that the point belongs to.
    pub closed spec fn coefficient(&self) -> nat {
        self.a2@
    }

    /// The modulus `p` of the field of definition.
    pub closed spec fn modulus(&self) -> nat {
        self.a2.modulus()
    }

    /// The coordinates and the coefficient are reduced residues of one odd modulus, and `Z` is
    /// 0 or 1.
    pub closed spec fn wf(&self) -> bool {
        &&& self.a2.wf()
        &&& self.proj_x.wf()
        &&& self.proj_y.wf()
        &&& self.proj_z.wf()
        &&& self.a2.same_field(&self.proj_x)
        &&& self.a2.same_field(&self.proj_y)
        &&& self.a2.same_field(&self.proj_z)
        &&& (self.proj_z@ == 0 || self.proj_z@ == 1)
    }

    /// The point belongs to `curve`.
    pub open spec fn on(&self, curve: &CsidhEllipticCurve) -> bool {
        self.coefficient() == curve.coefficient() && self.modulus() == curve.modulus()
    }

    /// `self` and `other` belong to one curve.
    pub open spec fn same_curve(&self, other: &Point) -> bool {
        self.coefficient() == other.coefficient() && self.modulus() == other.modulus()
    }

    /// The point `(x, y)` of `curve`.
    pub fn new_aff(curve: &CsidhEllipticCurve, x: FieldElement, y: FieldElement) -> (r: Self)
        requires
            curve.wf(),
            x.wf(),
            y.wf(),
            x.modulus() == curve.modulus(),
            y.modulus() == curve.modulus(),
        ensures
            r.wf(),
            r.on(curve),
            r.affine() == (Affine::Finite { x: x@, y: y@ }),
    {
        let one = x.small(1);
        proof {
            lemma_small_mod(1, x.modulus());
        }
        Point { a2: curve.a2(), proj_x: x, proj_y: y, proj_z: one }
    }

    /// The point at infinity of `curve`.
    pub fn infinity(curve: &CsidhEllipticCurve) -> (r: Self)
        requires
            curve.wf(),
        ensures
            r.wf(),
            r.on(curve),
            r.affine() == Affine::Infinity,
    {
        let a2 = curve.a2();
        let zero = a2.small(0);
        proof {
            lemma_small_mod(0, a2.modulus());
        }
        Point { a2, proj_x: zero, proj_y: zero, proj_z: zero }
    }

    /// The point `(x, y)` of the curve of `self`.
    fn beside(&self, x: FieldElement, y: FieldElement) -> (r: Self)
        requires
            self.wf(),
            x.wf(),
            y.wf(),
            x.modulus() == self.modulus(),
            y.modulus() == self.modulus(),
        ensures
            r.wf(),
            r.same_curve(self),
            r.affine() == (Affine::Finite { x: x@, y: y@ }),
    {
        let one = x.small(1);
        proof {
            lemma_small_mod(1, x.modulus());
        }
        Point { a2: self.a2, proj_x: x, proj_y: y, proj_z: one }
    }

    /// The point at infinity of the curve of `self`.
    fn infinity_beside(&self) -> (r: Self)
        requires
            self.wf(),
        ensures
            r.wf(),
            r.same_curve(self),
            r.affine() == Affine::Infinity,
    {
        let zero = self.a2.small(0);
        proof {
            lemma_small_mod(0, self.a2.modulus());
        }
        Point { a2: self.a2, proj_x: zero, proj_y: zero, proj_z: zero }
    }

    /// Whether the point is the point at infinity.
    pub fn is_infinity(&self) -> (r: bool)
        ensures
            r == (self.affine() is Infinity),
    {
        self.proj_z.is_zero()
    }

    /// The affine x-coordinate, unless the point is at infinity.
    pub fn x(&self) -> (r: Option<FieldElement>)
        requires
            self.wf(),
        ensures
            match self.affine() {
                Affine::Infinity => r is None,
                Affine::Finite { x, y } => r matches Some(v) && v@ == x && v.wf() && v.modulus()
                    == self.modulus(),
            },
    {
        if self.proj_z.is_zero() {
            None
        } else {
            proof {
                let p = self.modulus();
                lemma_small_mod(1, p);
                assert(is_inverse(1, 1, p));
                lemma_finv(1, 1, p);
                lemma_small_mod(self.proj_x@, p);
                assert(self.proj_x@ * 1 == self.proj_x@);
            }
            match self.proj_z.inv() {
                Some(z_inverse) => Some(self.proj_x.mul(&z_inverse)),
                None => None,
            }
        }
    }

    /// The affine y-coordinate, unless the point is at infinity.
    pub fn y(&self) -> (r: Option<FieldElement>)
        requires
            self.wf(),
        ensures
            match self.affine() {
                Affine::Infinity => r is None,
                Affine::Finite { x, y } => r matches Some(v) && v@ == y && v.wf() && v.modulus()
                    == self.modulus(),
            },
    {
        if self.proj_z.is_zero() {
            None
        } else {
            proof {
                let p = self.modulus();
                lemma_small_mod(1, p);
                assert(is_inverse(1, 1, p));
                lemma_finv(1, 1, p);
                lemma_small_mod(self.proj_y@, p);
                assert(self.proj_y@ * 1 == self.proj_y@);
            }
            match self.proj_z.inv() {
                Some(z_inverse) => Some(self.proj_y.mul(&z_inverse)),
                None => None,
            }
        }
    }
}

impl Point {
    /// `self + other` by chord and tangent (see [`affine_add`]), or nothing where the slope
    /// has no value.
    pub fn add(&self, other: &Point) -> (r: Option<Point>)
        requires
            self.wf(),
            other.wf(),
            self.same_curve(other),
        ensures
            r is Some <==> affine_add(
                self.affine(),
                other.affine(),
                self.coefficient(),
                self.modulus(),
            ) is Some,
            r matches Some(sum) ==> sum.wf() && sum.same_curve(self) && Some(sum.affine())
                == affine_add(self.affine(), other.affine(), self.coefficient(), self.modulus()),
    {
        if self.is_infinity() {
            return Some(*other);
        }
        if other.is_infinity() {
            return Some(*self);
        }
        let ghost p = self.modulus();
        let x1 = self.x().unwrap();
        let y1 = self.y().unwrap();
        let x2 = other.x().unwrap();
        let y2 = other.y().unwrap();
        if x1 == x2 && y1 == y2.neg() {
            return Some(self.infinity_beside());
        }
        let a2 = self.a2;
        let one = a2.small(1);
        let two = a2.small(2);
        let three = a2.small(3);
        proof {
            lemma_small_mod(1, p);
            lemma_small_mod(2, p);
        }
        let lambda = if x1 == x2 && y1 == y2 {
            let square = x1.square();
            let triple = three.mul(&square);
            let twice = two.mul(&a2);
            let linear = twice.mul(&x1);
            let partial = triple.add(&linear);
            let lambda_top = partial.add(&one);
            let lambda_bottom = two.mul(&y1);
            proof {
                let (xi, ai) = (x1@ as int, a2@ as int);
                lemma_fmul_congruent(x1@, x1@, xi, xi, p);
                vstd::arithmetic::div_mod::lemma_mod_twice(3, p as int);
                lemma_fmul_congruent(three@, square@, 3, xi * xi, p);
                lemma_fmul_congruent(two@, a2@, 2, ai, p);
                lemma_fmul_congruent(twice@, x1@, 2 * ai, xi, p);
                assert((2 * ai) * xi == 2 * (ai * xi)) by (nonlinear_arith);
                lemma_fadd_congruent(triple@, linear@, 3 * (xi * xi), 2 * (ai * xi), p);
                lemma_fadd_congruent(partial@, one@, 3 * (xi * xi) + 2 * (ai * xi), 1, p);
                lemma_congruent_residue(lambda_top@, 3 * (xi * xi) + 2 * (ai * xi) + 1, p);
            }
            match lambda_bottom.inv() {
                Some(inverse) => lambda_top.mul(&inverse),
                None => {
                    return None;
                },
            }
        } else {
            let lambda_top = y2.sub(&y1);
            let lambda_bottom = x2.sub(&x1);
            match lambda_bottom.inv() {
                Some(inverse) => lambda_top.mul(&inverse),
                None => {
                    return None;
                },
            }
        };
        let x3_plus = lambda.square();
        let x3_minus = if x1 == x2 && y1 == y2 {
            a2.add(&two.mul(&x1))
        } else {
            a2.add(&x1).add(&x2)
        };
        let x3 = x3_plus.sub(&x3_minus);
        let y3_plus = lambda.mul(&x1);
        let y3_minus = lambda.mul(&x3).add(&y1);
        let y3 = y3_plus.sub(&y3_minus);
        Some(self.beside(x3, y3))
    }

    /// `other * self` by the ladder (see [`affine_ladder`]), or nothing where an addition on
    /// the way has no value.
    pub fn mul(&self, other: &crypto_bigint::Uint<8>) -> (r: Option<Point>)
        requires
            self.wf(),
        ensures
            r is Some <==> affine_mul(
                self.affine(),
                uint_value(*other),
                self.coefficient(),
                self.modulus(),
            ) is Some,
            r matches Some(multiple) ==> multiple.wf() && multiple.same_curve(self) && Some(
                multiple.affine(),
            ) == affine_mul(
                self.affine(),
                uint_value(*other),
                self.coefficient(),
                self.modulus(),
            ),
    {
        let ghost k = uint_value(*other);
        let ghost a = self.coefficient();
        let ghost p = self.modulus();
        let ghost pt = self.affine();
        let bits = uint_bits(other);
        let mut r = *self;
        let mut s = self.infinity_beside();
        let mut index: u32 = 0;
        proof {
            lemma_prefix_of_all_bits(k);
        }
        while index < bits
            invariant
                index <= bits,
                bits == bit_length(k),
                k == uint_value(*other),
                self.wf(),
                r.wf(),
                s.wf(),
                r.same_curve(self),
                s.same_curve(self),
                a == self.coefficient(),
                p == self.modulus(),
                pt == self.affine(),
                affine_ladder(pt, k / pow2((bits - index) as nat), a, p) == Some(
                    (s.affine(), r.affine()),
                ),
            decreases bits - index,
        {
            let bit = uint_bit(other, bits - index - 1);
            proof {
                lemma_bit_prefix(k, (bits - index - 1) as nat);
                lemma_prefix_positive(k, (bits - index - 1) as nat);
            }
            if bit {
                s = match s.add(&r) {
                    Some(sum) => sum,
                    None => {
                        proof {
                            lemma_ladder_stays_none(pt, k, (bits - index - 1) as nat, a, p);
                        }
                        return None;
                    },
                };
                r = match r.add(&r) {
                    Some(sum) => sum,
                    None => {
                        proof {
                            lemma_ladder_stays_none(pt, k, (bits - index - 1) as nat, a, p);
                        }
                        return None;
                    },
                };
            } else {
                r = match r.add(&s) {
                    Some(sum) => sum,
                    None => {
                        proof {
                            lemma_ladder_stays_none(pt, k, (bits - index - 1) as nat, a, p);
                        }
                        return None;
                    },
                };
                s = match s.add(&s) {
                    Some(sum) => sum,
                    None => {
                        proof {
                            lemma_ladder_stays_none(pt, k, (bits - index - 1) as nat, a, p);
                        }
                        return None;
                    },
                };
            }
            index = index + 1;
        }
        proof {
            vstd::arithmetic::power2::lemma2_to64();
            assert(pow2((bits - index) as nat) == 1);
            assert((k as int) / 1 == k);
        }
        Some(s)
    }

    /// `other * self`, for a small factor.
    pub fn mul_u64(&self, other: u64) -> (r: Option<Point>)
        requires
            self.wf(),
        ensures
            r is Some <==> affine_mul(
                self.affine(),
                other as nat,
                self.coefficient(),
                self.modulus(),
            ) is Some,
            r matches Some(multiple) ==> multiple.wf() && multiple.same_curve(self) && Some(
                multiple.affine(),
            ) == affine_mul(self.affine(), other as nat, self.coefficient(), self.modulus()),
    {
        self.mul(&uint_from_u64(other))
    }

    /// What `==` decides: both points are at infinity, or neither is and both coordinates
    /// agree in one field.
    pub closed spec fn same_point(&self, other: &Point) -> bool {
        if self.proj_z@ == 0 && other.proj_z@ == 0 {
            true
        } else if self.proj_z@ == 0 || other.proj_z@ == 0 {
            false
        } else {
            &&& self.wf()
            &&& other.wf()
            &&& self.proj_x@ == other.proj_x@
            &&& self.proj_y@ == other.proj_y@
            &&& self.proj_x.same_field(&other.proj_x)
        }
    }

    /// On well-formed points of one field, `==` is equality of affine points.
    pub proof fn lemma_same_point(&self, other: &Point)
        requires
            self.wf(),
            other.wf(),
            self.modulus() == other.modulus(),
        ensures
            self.same_point(other) == (self.affine() == other.affine()),
    {
    }

    /// Whether the fields of the point are what every point of the library has: reduced
    /// residues of one odd modulus, with `Z` equal to 0 or 1.
    fn well_formed(&self) -> (r: bool)
        ensures
            r == self.wf(),
    {
        let modulus = self.a2.modulus_value();
        let three = uint_from_u64(3);
        let one = uint_from_u64(1);
        let reduced = uint_lt(&self.a2.retrieve(), &modulus)
            && uint_lt(&self.proj_x.retrieve(), &modulus)
            && uint_lt(&self.proj_y.retrieve(), &modulus)
            && uint_lt(&self.proj_z.retrieve(), &modulus);
        let odd = uint_bit(&modulus, 0) && !uint_lt(&modulus, &three);
        proof {
            vstd::arithmetic::power2::lemma2_to64();
            assert((uint_value(modulus) as int) / 1 == uint_value(modulus));
        }
        reduced && odd && self.a2.shares_field(&self.proj_x) && self.a2.shares_field(&self.proj_y)
            && self.a2.shares_field(&self.proj_z) && (self.proj_z.is_zero()
            || uint_eq(&self.proj_z.retrieve(), &one))
    }
}

impl PartialEq for Point {
    /// Points are equal when both are at infinity, or neither is and their affine coordinates
    /// agree.
    fn eq(&self, other: &Self) -> (r: bool) {
        if self.proj_z.is_zero() && other.proj_z.is_zero() {
            true
        } else if self.proj_z.is_zero() || other.proj_z.is_zero() {
            false
        } else if self.well_formed() && other.well_formed() {
            let (x1, y1) = (self.x().unwrap(), self.y().unwrap());
            let (x2, y2) = (other.x().unwrap(), other.y().unwrap());
            x1 == x2 && y1 == y2
        } else {
            false
        }
    }
}

impl PartialEqSpecImpl for Point {
    open spec fn obeys_eq_spec() -> bool {
        true
    }

    open spec fn eq_spec(&self, other: &Self) -> bool {
        self.same_point(other)
    }
}

/// Once the ladder has no value it never regains one.
pub proof fn lemma_ladder_stays_none(pt: Affine, k: nat, j: nat, a: nat, p: nat)
    requires
        affine_ladder(pt, k / pow2(j), a, p) is None,
    ensures
        affine_ladder(pt, k, a, p) is None,
    decreases j,
{
    vstd::arithmetic::power2::lemma2_to64();
    if j == 0 {
        assert((k as int) / 1 == k);
    } else {
        let m = k / pow2((j - 1) as nat);
        lemma_bit_prefix(k, (j - 1) as nat);
        if m != 0 {
            assert(m / 2 == k / pow2(j));
        } else {
            assert(k / pow2(j) == 0);
        }
        lemma_ladder_stays_none(pt, k, (j - 1) as nat, a, p);
    }
}

/// The point is at infinity, or it has reduced coordinates and lies on the curve.
pub open spec fn affine_on_curve(pt: Affine, a: nat, p: nat) -> bool {
    match pt {
        Affine::Infinity => true,
        Affine::Finite { x, y } => x < p && y < p && on_curve(x, y, a, p),
    }
}

/// Over a prime field with odd characteristic any two points of a curve have a sum: the
/// slope of the tangent is taken only where `y` is not zero, and that of the chord only
/// where the x-coordinates differ.
pub proof fn lemma_add_is_defined(pt: Affine, qt: Affine, a: nat, p: nat)
    requires
        is_prime(p),
        p % 2 == 1,
        affine_on_curve(pt, a, p),
        affine_on_curve(qt, a, p),
    ensures
        affine_add(pt, qt, a, p) is Some,
{
    let pi = p as int;
    match (pt, qt) {
        (Affine::Finite { x: x1, y: y1 }, Affine::Finite { x: x2, y: y2 }) => {
            let (y1i, y2i) = (y1 as int, y2 as int);
            lemma_small_mod(0, p);
            lemma_small_mod(y1, p);
            lemma_small_mod(y2, p);
            if x1 == x2 && y1 == fsub(0, y2, p) {
            } else if x1 == x2 && y1 == y2 {
                // 2 y = 0 would make y = 0, its own negative
                if fmul(2, y1, p) == 0 {
                    lemma_euclid(2, y1i, p);
                    lemma_small_mod(2, p);
                    assert(y1 == 0);
                    assert(fsub(0, 0, p) == 0);
                }
                lemma_small_mod(fmul(2, y1, p), p);
                vstd::arithmetic::div_mod::lemma_mod_bound(2 * y1i, pi);
                lemma_nonzero_invertible(fmul(2, y1, p), p);
            } else {
                let d = fsub(x2, x1, p);
                vstd::arithmetic::div_mod::lemma_mod_bound(x2 - x1, pi);
                if d == 0 {
                    // the same x: then y1^2 = y2^2, so y1 is y2 or its negative
                    if x1 < x2 {
                        lemma_small_mod((x2 - x1) as nat, p);
                    } else if x2 < x1 {
                        vstd::arithmetic::div_mod::lemma_mod_add_multiples_vanish(x2 - x1, pi);
                        lemma_small_mod((x2 - x1 + p) as nat, p);
                    }
                    assert(x1 == x2);
                    assert((y1i - y2i) * (y1i + y2i) == y1i * y1i - y2i * y2i)
                        by (nonlinear_arith);
                    vstd::arithmetic::div_mod::lemma_sub_mod_noop(y1i * y1i, y2i * y2i, pi);
                    lemma_euclid(y1i - y2i, y1i + y2i, p);
                    if (y1i - y2i) % pi == 0 {
                        if y2 <= y1 {
                            lemma_small_mod((y1 - y2) as nat, p);
                        } else {
                            vstd::arithmetic::div_mod::lemma_mod_add_multiples_vanish(
                                y1i - y2i,
                                pi,
                            );
                            lemma_small_mod((y1 - y2 + p) as nat, p);
                        }
                        assert(y1 == y2);
                    } else {
                        // y1 + y2 = 0 or p
                        if y1 + y2 != 0 {
                            vstd::arithmetic::div_mod::lemma_mod_sub_multiples_vanish(
                                y1i + y2i,
                                pi,
                            );
                            if y1 + y2 < p {
                                lemma_small_mod(y1 + y2, p);
                            } else {
                                lemma_small_mod((y1 + y2 - p) as nat, p);
                            }
                            assert(y1 + y2 == p);
                            vstd::arithmetic::div_mod::lemma_mod_add_multiples_vanish(
                                0 - y2i,
                                pi,
                            );
                        }
                        assert(y1 == fsub(0, y2, p));
                    }
                    assert(false);
                }
                lemma_small_mod(d, p);
                lemma_nonzero_invertible(d, p);
            }
        },
        _ => {},
    }
}

/// The group law stays on the curve: over a prime field with odd characteristic the sum of
/// two points of a curve is a point of the curve.
pub proof fn lemma_add_on_curve(pt: Affine, qt: Affine, a: nat, p: nat)
    requires
        is_prime(p),
        p % 2 == 1,
        affine_on_curve(pt, a, p),
        affine_on_curve(qt, a, p),
    ensures
        affine_add(pt, qt, a, p) matches Some(sum) && affine_on_curve(sum, a, p),
{
    lemma_add_is_defined(pt, qt, a, p);
    let pi = p as int;
    match (pt, qt) {
        (Affine::Finite { x: x1, y: y1 }, Affine::Finite { x: x2, y: y2 }) => {
            if x1 == x2 && y1 == fsub(0, y2, p) {
            } else if x1 == x2 && y1 == y2 {
                lemma_tangent_on_curve(x1, y1, a, p);
                let slope = tangent_slope(x1, y1, a, p);
                let x3 = tangent_double_x(x1, y1, a, p);
                vstd::arithmetic::div_mod::lemma_mod_bound(
                    fmul(slope, slope, p) - fadd(a, fmul(2, x1, p), p),
                    pi,
                );
                vstd::arithmetic::div_mod::lemma_mod_bound(
                    fmul(slope, x1, p) - fadd(fmul(slope, x3, p), y1, p),
                    pi,
                );
            } else {
                lemma_chord_on_curve(x1, y1, x2, y2, a, p);
                let slope = chord_slope(x1, y1, x2, y2, p);
                let x3 = chord_sum_x(x1, y1, x2, y2, a, p);
                vstd::arithmetic::div_mod::lemma_mod_bound(
                    fmul(slope, slope, p) - fadd(fadd(a, x1, p), x2, p),
                    pi,
                );
                vstd::arithmetic::div_mod::lemma_mod_bound(
                    fmul(slope, x1, p) - fadd(fmul(slope, x3, p), y1, p),
                    pi,
                );
            }
        },
        _ => {},
    }
}

/// Multiples are defined and stay on the curve: over a prime field with odd characteristic
/// the ladder has a value for every point of a curve and every factor, and both points of
/// it are points of the curve.
pub proof fn lemma_mul_on_curve(pt: Affine, k: nat, a: nat, p: nat)
    requires
        is_prime(p),
        p % 2 == 1,
        affine_on_curve(pt, a, p),
    ensures
        affine_ladder(pt, k, a, p) matches Some((s, r)) && affine_on_curve(s, a, p)
            && affine_on_curve(r, a, p),
        affine_mul(pt, k, a, p) matches Some(multiple) && affine_on_curve(multiple, a, p),
    decreases k,
{
    if k > 0 {
        lemma_mul_on_curve(pt, k / 2, a, p);
        let (s, r) = affine_ladder(pt, k / 2, a, p)->Some_0;
        lemma_add_on_curve(s, r, a, p);
        lemma_add_on_curve(r, r, a, p);
        lemma_add_on_curve(r, s, a, p);
        lemma_add_on_curve(s, s, a, p);
    }
}

/// Where `p` is a prime that is 3 modulo 4 and `4 e = p + 1`, the power `e` finds a square
/// root of every square: `lift` accepts `x` exactly when `x^3 + A x^2 + x` is a square
/// modulo `p`, zero included.
pub proof fn lemma_lift_iff_square(a: nat, x: nat, e: nat, p: nat)
    requires
        is_prime(p),
        4 * e == p + 1,
    ensures
        affine_lift(a, x, e, p) is Some <==> exists|r: nat|
            #[trigger] fmul(r, r, p) == curve_rhs(a, x, p),
{
    let pi = p as int;
    let n = curve_rhs(a, x, p);
    let ni = n as int;
    let root = fpow(n, e, p);
    let half = ((p - 1) / 2) as nat;
    vstd::arithmetic::div_mod::lemma_mod_bound(
        (x * (x * x) + a * (x * x) + x) as int,
        pi,
    );
    lemma_small_mod(n, p);
    if exists|r: nat| #[trigger] fmul(r, r, p) == n {
        // root^2 = n^(2 e) = n * n^((p - 1) / 2)
        vstd::arithmetic::power::lemma_pow_adds(ni, e, e);
        vstd::arithmetic::power::lemma_pow_adds(ni, 1, half);
        vstd::arithmetic::power::lemma_pow1(ni);
        vstd::arithmetic::div_mod::lemma_mul_mod_noop(
            vstd::arithmetic::power::pow(ni, e),
            vstd::arithmetic::power::pow(ni, e),
            pi,
        );
        assert(e + e == 1 + half);
        if n == 0 {
            vstd::arithmetic::power::lemma0_pow(e);
            lemma_small_mod(0, p);
            assert(0int * 0int == 0);
        } else {
            let r = choose|r: nat| #[trigger] fmul(r, r, p) == n;
            assert(is_quadratic_residue(n, p));
            lemma_euler_criterion(n, p);
            lemma_mul_mod_noop_right(ni, vstd::arithmetic::power::pow(ni, half), pi);
            assert(ni * 1 == ni);
        }
        assert(fmul(root, root, p) == n);
    }
    if affine_lift(a, x, e, p) is Some {
        assert(fmul(root, root, p) == n);
    }
}

} // verus!
