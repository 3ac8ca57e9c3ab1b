//! Montgomery curves `E_A: y^2 = x^3 + A x^2 + x` over F_p, known by their coefficient `A`.
use crate::congruence::{lemma_congruent_residue, lemma_fadd_congruent, lemma_fmul_congruent};
use crate::csidh_params::{
    all_positive, lemma_product_between_bound, lemma_product_prefix, lemma_product_take, product,
    product_between, CsidhParams,
};
use crate::field::{fadd, fmul, fpow, FieldElement};
use crate::integer::{uint_from_u64, uint_limit, uint_lt, uint_value, uint_wrapping_mul};
use crate::montgomery_point::MontgomeryPoint;
use crate::number_theory::{is_quadratic_residue, lemma_euler_criterion};
use crate::xonly::{xz_mul, XZ};
use vstd::arithmetic::div_mod::lemma_small_mod;
use vstd::prelude::*;
use vstd::std_specs::cmp::PartialEqSpecImpl;

verus! {

/// The right-hand side of the curve equation at `x`: `x^3 + A x^2 + x` in F_p.
pub open spec fn curve_rhs(a: nat, x: nat, p: nat) -> nat {
    ((x * (x * x) + a * (x * x) + x) % p) as nat
}

/// Whether `lift` accepts `x` on the curve with coefficient `a`: the right-hand side of the
/// curve equation, raised to `half`, is 1.
pub open spec fn lifts(a: nat, x: nat, half: nat, p: nat) -> bool {
    fpow(curve_rhs(a, x, p), half, p) == 1
}

/// The constant `(A + 2) / 4` of the curve with coefficient `a`.
pub open spec fn a24_of(a: nat, params: CsidhParams) -> nat {
    let p = params.modulus();
    fmul(fadd(a, 2nat % p, p), params.quarter(), p)
}

/// For valid parameters `a24` is what its name says: `4 * a24 = A + 2`.
pub proof fn lemma_a24(a: nat, params: CsidhParams)
    requires
        params.valid(),
    ensures
        fmul(4, a24_of(a, params), params.modulus()) == fadd(a, 2, params.modulus()),
{
    let p = params.modulus();
    let pi = p as int;
    let q = params.quarter() as int;
    let ai = a as int;
    lemma_small_mod(2, p);
    lemma_small_mod(1, p);
    lemma_fadd_congruent(a, 2, ai, 2, p);
    lemma_fmul_congruent(fadd(a, 2, p), params.quarter(), ai + 2, q, p);
    lemma_fmul_congruent(4, a24_of(a, params), 4, (ai + 2) * q, p);
    assert(4 * ((ai + 2) * q) == (ai + 2) * (4 * q)) by (nonlinear_arith);
    crate::congruence::lemma_congruent_mul(ai + 2, ai + 2, 4 * q, 1, pi);
    assert((ai + 2) * 1 == ai + 2);
    lemma_congruent_residue(fmul(4, a24_of(a, params), p), ai + 2, p);
}

/// What one point says of the order of a curve: that it is `p + 1`, that it is not, or
/// nothing.
#[derive(Clone, Copy, Debug, PartialEq, Eq, Structural)]
pub enum Verdict {
    Supersingular,
    Ordinary,
    Undecided,
}

/// Marks the primes other than `l_i`.
pub open spec fn other_primes(lis: Seq<u64>, i: int) -> Seq<bool> {
    Seq::new(lis.len(), |j: int| lis[j] != lis[i])
}

/// The cofactor `(p + 1) / l_i`: 4 times the product of the primes other than `l_i`.
pub open spec fn cofactor_without(lis: Seq<u64>, i: int) -> nat {
    4 * product_between(lis, other_primes(lis, i), 0, lis.len() as int)
}

/// What the point `pt` has shown after the first `n` primes, and the order `d` that it has
/// been found to have so far. For each prime `l_i`, with `Q = ((p + 1) / l_i) * pt`: if
/// `l_i * Q` is not infinity the order of the point does not divide `p + 1`, and the curve is
/// ordinary; if `Q` is not infinity `l_i` divides the order of the point; and once `d`
/// exceeds `4 * sqrt(p)` only `p + 1` is left in the Hasse interval for the order of the
/// curve.
pub open spec fn order_evidence(pt: XZ, n: nat, a24: nat, params: CsidhParams) -> (Verdict, nat)
    decreases n,
{
    if n == 0 {
        (Verdict::Undecided, 1nat)
    } else {
        let (verdict, d) = order_evidence(pt, (n - 1) as nat, a24, params);
        let p = params.modulus();
        let l = params.primes()[n - 1] as nat;
        let q = xz_mul(pt, cofactor_without(params.primes(), n - 1), a24, p);
        let grown = if q.z != 0 {
            d * l
        } else {
            d
        };
        if verdict != Verdict::Undecided {
            (verdict, d)
        } else if xz_mul(q, l, a24, p).z != 0 {
            (Verdict::Ordinary, d)
        } else if grown > params.sqrt_bound() {
            (Verdict::Supersingular, grown)
        } else {
            (Verdict::Undecided, grown)
        }
    }
}

/// The first of the candidates `draws`, each reduced modulo `p`, that lifts to the curve with
/// coefficient `a`.
pub open spec fn first_lift(
    a: nat,
    draws: Seq<crypto_bigint::Uint<8>>,
    half: nat,
    p: nat,
) -> Option<nat>
    decreases draws.len(),
{
    if draws.len() == 0 {
        None
    } else if lifts(a, uint_value(draws[0]) % p, half, p) {
        Some(uint_value(draws[0]) % p)
    } else {
        first_lift(a, draws.drop_first(), half, p)
    }
}

/// The verdict on the curve with coefficient `a` from the candidates `draws`: that of the
/// first lifted point that decides.
pub open spec fn supersingular_verdict(
    a: nat,
    draws: Seq<crypto_bigint::Uint<8>>,
    params: CsidhParams,
) -> Verdict
    decreases draws.len(),
{
    let p = params.modulus();
    if draws.len() == 0 {
        Verdict::Undecided
    } else {
        let x = uint_value(draws[0]) % p;
        let verdict = order_evidence(
            XZ { x, z: 1 },
            params.primes().len(),
            a24_of(a, params),
            params,
        ).0;
        if lifts(a, x, params.half_order(), p) && verdict != Verdict::Undecided {
            verdict
        } else {
            supersingular_verdict(a, draws.drop_first(), params)
        }
    }
}

/// A Montgomery curve, with the constant `a24 = (A + 2) / 4` that the point arithmetic uses
/// and the exponent `(p - 1) / 2` that tells squares from non-squares.
#[derive(Clone, Copy, Debug)]
pub struct MontgomeryCurve {
    a2: FieldElement,
    a24: FieldElement,
    half_order: crypto_bigint::Uint<8>,
}

impl MontgomeryCurve {
    /// The coefficient `A`.
    pub closed spec fn coefficient(&self) -> nat {
        self.a2@
    }

    /// The constant `(A + 2) / 4`.
    pub closed spec fn a24_value(&self) -> nat {
        self.a24@
    }

    /// The modulus `p` of the field of definition.
    pub closed spec fn modulus(&self) -> nat {
        self.a2.modulus()
    }

    /// The exponent `(p - 1) / 2`, as stored.
    pub closed spec fn half_order(&self) -> nat {
        uint_value(self.half_order)
    }

    /// Both constants are reduced residues of one odd modulus.
    pub closed spec fn wf(&self) -> bool {
        self.a2.wf() && self.a24.wf() && self.a2.same_field(&self.a24)
    }

    /// The curve was made with the constants of `params`.
    pub open spec fn over(&self, params: &CsidhParams) -> bool {
        &&& self.modulus() == params.modulus()
        &&& self.half_order() == params.half_order()
        &&& self.a24_value() == a24_of(self.coefficient(), *params)
    }

    /// The curve with coefficient `a2`, over the field of `params`.
    pub fn new(params: &CsidhParams, a2: FieldElement) -> (r: Self)
        requires
            a2.wf(),
            a2.modulus() == params.modulus(),
        ensures
            r.wf(),
            r.modulus() == params.modulus(),
            r.coefficient() == a2@,
            r.a24_value() == a24_of(a2@, *params),
            r.half_order() == params.half_order(),
            r.over(params),
    {
        let two = a2.small(2);
        let inverse_of_4 = params.inverse_of_4();
        let a24 = a2.add(&two).mul(&inverse_of_4);
        MontgomeryCurve { a2, a24, half_order: params.p_minus_1_over_2() }
    }

    /// The coefficient `A`.
    pub fn a2(&self) -> (r: FieldElement)
        requires
            self.wf(),
        ensures
            r.wf(),
            r@ == self.coefficient(),
            r.modulus() == self.modulus(),
    {
        self.a2
    }

    /// The constant `(A + 2) / 4`.
    pub fn a24(&self) -> (r: FieldElement)
        requires
            self.wf(),
        ensures
            r.wf(),
            r@ == self.a24_value(),
            r.modulus() == self.modulus(),
    {
        self.a24
    }

    /// The point `(x : 1)`, if `x` is the x-coordinate of a point of the curve over F_p: that
    /// is, if `x^3 + A x^2 + x` raised to `(p - 1) / 2` is 1. Otherwise `x` belongs to the
    /// quadratic twist (or to a point of order 2) and nothing is returned.
    pub fn lift(&self, x: FieldElement) -> (r: Option<MontgomeryPoint>)
        requires
            self.wf(),
            x.wf(),
            x.modulus() == self.modulus(),
        ensures
            r is Some <==> lifts(self.coefficient(), x@, self.half_order(), self.modulus()),
            r matches Some(pt) ==> pt.wf() && pt.on(self) && pt.xz() == (XZ { x: x@, z: 1 }),
    {
        let ghost p = self.modulus();
        let ghost (xi, ai) = (x@ as int, self.a2@ as int);
        let x_square = x.square();
        let cube = x.mul(&x_square);
        let quad = self.a2.mul(&x_square);
        let partial = cube.add(&quad);
        let n = partial.add(&x);
        proof {
            lemma_fmul_congruent(x@, x@, xi, xi, p);
            lemma_fmul_congruent(x@, x_square@, xi, xi * xi, p);
            lemma_fmul_congruent(self.a2@, x_square@, ai, xi * xi, p);
            lemma_fadd_congruent(cube@, quad@, xi * (xi * xi), ai * (xi * xi), p);
            lemma_fadd_congruent(
                partial@,
                x@,
                xi * (xi * xi) + ai * (xi * xi),
                xi,
                p,
            );
            lemma_congruent_residue(n@, xi * (xi * xi) + ai * (xi * xi) + xi, p);
        }
        let one = x.small(1);
        proof {
            vstd::arithmetic::div_mod::lemma_small_mod(1, p);
            assert(n@ == curve_rhs(self.a2@, x@, p));
        }
        if n.pow(&self.half_order) == one {
            Some(MontgomeryPoint::new_reduced(self, x))
        } else {
            None
        }
    }
}

impl MontgomeryCurve {
    /// The cofactor `(p + 1) / l_i`.
    fn cofactor(lis: &Vec<u64>, i: usize) -> (r: crypto_bigint::Uint<8>)
        requires
            all_positive(lis@),
            4 * product(lis@) < uint_limit(),
            i < lis.len(),
        ensures
            uint_value(r) == cofactor_without(lis@, i as int),
            uint_value(r) >= 4,
    {
        let ghost mask = other_primes(lis@, i as int);
        let li = lis[i];
        let mut value = uint_from_u64(4);
        let mut j: usize = 0;
        while j < lis.len()
            invariant
                all_positive(lis@),
                4 * product(lis@) < uint_limit(),
                i < lis.len(),
                li == lis[i as int],
                j <= lis.len(),
                mask == other_primes(lis@, i as int),
                uint_value(value) == 4 * product_between(lis@, mask, 0, j as int),
            decreases lis.len() - j,
        {
            let li_2 = lis[j];
            if li_2 != li {
                proof {
                    lemma_product_between_bound(lis@, mask, 0, j + 1);
                    let before = product_between(lis@, mask, 0, j as int);
                    assert(uint_value(value) * (li_2 as nat) == 4 * (before * (li_2 as nat)))
                        by (nonlinear_arith)
                        requires
                            uint_value(value) == 4 * before,
                    ;
                    lemma_small_mod(uint_value(value) * (li_2 as nat), uint_limit());
                }
                value = uint_wrapping_mul(&value, &uint_from_u64(li_2));
            }
            j = j + 1;
        }
        proof {
            lemma_product_between_bound(lis@, mask, 0, lis.len() as int);
        }
        value
    }

    /// What the point `point` of this curve says of its order: see [`order_evidence`].
    pub fn order_check(&self, params: &CsidhParams, point: &MontgomeryPoint) -> (r: Verdict)
        requires
            self.wf(),
            params.valid(),
            self.over(params),
            point.wf(),
            point.on(self),
        ensures
            r == order_evidence(
                point.xz(),
                params.primes().len(),
                self.a24_value(),
                *params,
            ).0,
    {
        let ghost a24 = self.a24_value();
        let ghost pt = point.xz();
        let lis = params.lis();
        let sqrt_of_p_times_4 = params.sqrt_of_p_times_4();
        let mut d = uint_from_u64(1);
        let mut i: usize = 0;
        proof {
            assert(all_positive(lis@));
            lemma_product_prefix(lis@, 0);
        }
        while i < lis.len()
            invariant
                i <= lis.len(),
                lis@ == params.primes(),
                params.valid(),
                all_positive(lis@),
                point.wf(),
                a24 == point.a24_value(),
                a24 == self.a24_value(),
                pt == point.xz(),
                point.modulus() == params.modulus(),
                uint_value(sqrt_of_p_times_4) == params.sqrt_bound(),
                1 <= uint_value(d) <= product(lis@.take(i as int)),
                order_evidence(pt, i as nat, a24, *params) == (
                    Verdict::Undecided,
                    uint_value(d),
                ),
            decreases lis.len() - i,
        {
            let li = lis[i];
            let value = Self::cofactor(lis, i);
            let qi = point.mul(&value);
            proof {
                assert(li >= 3);
                lemma_product_take(lis@, i as int);
                lemma_product_prefix(lis@, i + 1);
                let before = product(lis@.take(i as int));
                assert(uint_value(d) * (li as nat) <= before * (li as nat)) by (nonlinear_arith)
                    requires
                        uint_value(d) <= before,
                ;
                assert(uint_value(d) <= uint_value(d) * (li as nat)) by (nonlinear_arith)
                    requires
                        li >= 1,
                ;
                lemma_small_mod(uint_value(d) * (li as nat), uint_limit());
            }
            if !qi.mul(&uint_from_u64(li)).is_infinity() {
                proof {
                    lemma_verdict_stays(pt, (i + 1) as nat, lis.len() as nat, a24, *params);
                }
                return Verdict::Ordinary;
            }
            if !qi.is_infinity() {
                d = uint_wrapping_mul(&d, &uint_from_u64(li));
            }
            if uint_lt(&sqrt_of_p_times_4, &d) {
                proof {
                    lemma_verdict_stays(pt, (i + 1) as nat, lis.len() as nat, a24, *params);
                }
                return Verdict::Supersingular;
            }
            i = i + 1;
        }
        Verdict::Undecided
    }

    /// The point of the first of the candidates `draws`, each reduced modulo `p`, that
    /// lifts to this curve.
    pub fn random_point(&self, draws: &Vec<crypto_bigint::Uint<8>>) -> (r: Option<MontgomeryPoint>)
        requires
            self.wf(),
        ensures
            r is Some <==> first_lift(
                self.coefficient(),
                draws@,
                self.half_order(),
                self.modulus(),
            ) is Some,
            r matches Some(pt) ==> pt.wf() && pt.on(self) && Some(pt.xz().x) == first_lift(
                self.coefficient(),
                draws@,
                self.half_order(),
                self.modulus(),
            ) && pt.xz().z == 1,
    {
        let mut i: usize = 0;
        proof {
            assert(draws@.skip(0) =~= draws@);
        }
        while i < draws.len()
            invariant
                i <= draws.len(),
                self.wf(),
                first_lift(self.coefficient(), draws@, self.half_order(), self.modulus())
                    == first_lift(
                    self.coefficient(),
                    draws@.skip(i as int),
                    self.half_order(),
                    self.modulus(),
                ),
            decreases draws.len() - i,
        {
            let x = self.a2.reduce(&draws[i]);
            proof {
                assert(draws@.skip(i as int)[0] == draws@[i as int]);
                assert(draws@.skip(i as int).drop_first() =~= draws@.skip(i + 1));
            }
            match self.lift(x) {
                Some(point) => {
                    return Some(point);
                },
                None => {},
            }
            i = i + 1;
        }
        None
    }

    /// Whether the curve is supersingular, by the order of points: the candidates `draws`,
    /// each reduced modulo `p`, are lifted to the curve one after the other until a point
    /// decides. The answer is `Undecided` if none of them does.
    pub fn is_supersingular(
        &self,
        params: &CsidhParams,
        draws: &Vec<crypto_bigint::Uint<8>>,
    ) -> (r: Verdict)
        requires
            self.wf(),
            params.valid(),
            self.over(params),
        ensures
            r == supersingular_verdict(self.coefficient(), draws@, *params),
    {
        let mut i: usize = 0;
        proof {
            assert(draws@.skip(0) =~= draws@);
        }
        while i < draws.len()
            invariant
                i <= draws.len(),
                self.wf(),
                params.valid(),
                self.over(params),
                supersingular_verdict(self.coefficient(), draws@, *params)
                    == supersingular_verdict(
                    self.coefficient(),
                    draws@.skip(i as int),
                    *params,
                ),
            decreases draws.len() - i,
        {
            let x = self.a2.reduce(&draws[i]);
            proof {
                assert(draws@.skip(i as int)[0] == draws@[i as int]);
                assert(draws@.skip(i as int).drop_first() =~= draws@.skip(i + 1));
            }
            match self.lift(x) {
                Some(point) => {
                    let verdict = self.order_check(params, &point);
                    if verdict != Verdict::Undecided {
                        return verdict;
                    }
                },
                None => {},
            }
            i = i + 1;
        }
        Verdict::Undecided
    }
}

/// `lift` accepts `x` exactly when `x^3 + A x^2 + x` is a non-zero square modulo `p`, for
/// valid parameters whose modulus is prime.
pub proof fn lemma_lift_iff_quadratic_residue(a: nat, x: nat, params: CsidhParams)
    requires
        params.valid(),
        params.prime_field(),
    ensures
        lifts(a, x, params.half_order(), params.modulus()) <==> is_quadratic_residue(
            curve_rhs(a, x, params.modulus()),
            params.modulus(),
        ),
{
    let p = params.modulus();
    assert(p % 4 == 3);
    assert(params.half_order() == (p - 1) / 2);
    lemma_euler_criterion(curve_rhs(a, x, p), p);
}

/// Once a point has decided, further primes change nothing.
pub proof fn lemma_verdict_stays(pt: XZ, n: nat, m: nat, a24: nat, params: CsidhParams)
    requires
        n <= m,
        order_evidence(pt, n, a24, params).0 != Verdict::Undecided,
    ensures
        order_evidence(pt, m, a24, params).0 == order_evidence(pt, n, a24, params).0,
    decreases m,
{
    if n < m {
        lemma_verdict_stays(pt, n, (m - 1) as nat, a24, params);
    }
}

impl PartialEq for MontgomeryCurve {
    /// Curves are equal when their coefficients are equal in the same field.
    fn eq(&self, other: &Self) -> (r: bool) {
        self.a2 == other.a2
    }
}

impl PartialEqSpecImpl for MontgomeryCurve {
    open spec fn obeys_eq_spec() -> bool {
        true
    }

    open spec fn eq_spec(&self, other: &Self) -> bool {
        self.coefficient() == other.coefficient() && self.modulus() == other.modulus()
    }
}

} // verus!
