//! The isogeny of odd prime degree `l` with kernel generated by a point `K`: the coefficient
//! of the image curve, and the image of a further point, both from the multiples of `K`.
use crate::congruence::{
    congruent, lemma_congruent_add, lemma_congruent_mul, lemma_congruent_residue,
    lemma_congruent_sub, lemma_fadd_congruent, lemma_fmul_congruent, lemma_fsub_congruent,
};
use crate::field::{
    fadd, finv, fmul, fsub, has_inverse, is_inverse, lemma_factors_invertible, lemma_finv,
    lemma_inverse_of_inverse, lemma_inverse_of_product, FieldElement,
};
use crate::integer::uint_from_u64;
use crate::montgomery_curve::MontgomeryCurve;
use crate::montgomery_point::MontgomeryPoint;
use crate::xonly::{lemma_multiples_reduced, xz_multiple, xz_multiples, xz_reduced, XZ};
use vstd::prelude::*;

verus! {

/// The product `tau` of the affine x-coordinates `x_1, ..., x_n` of the first `n` multiples
/// of `K`, and the sum `sigma` of `x_i - 1 / x_i` over them. There is no value where a
/// multiple has no affine x-coordinate, or one without an inverse.
pub open spec fn velu_sums(k: XZ, n: nat, a24: nat, p: nat) -> Option<(nat, nat)>
    decreases n,
{
    if n == 0 {
        Some((1nat, 0nat))
    } else {
        match velu_sums(k, (n - 1) as nat, a24, p) {
            None => None,
            Some((tau, sigma)) => {
                let m = xz_multiple(k, n, a24, p);
                let x = fmul(m.x, finv(m.z, p), p);
                if !has_inverse(m.z, p) || !has_inverse(x, p) {
                    None
                } else {
                    Some((fmul(tau, x, p), fsub(fadd(sigma, x, p), finv(x, p), p)))
                }
            },
        }
    }
}

/// The coefficient of the image curve: `tau * (A - 3 * sigma)`.
pub open spec fn velu_coefficient(a: nat, tau: nat, sigma: nat, p: nat) -> nat {
    fmul(tau, fsub(a, fmul(sigma, 3nat % p, p), p), p)
}

/// The products `T_x` and `T_z` over the first `n` multiples `(X_i : Z_i)` of `K` of
/// `a_i + b_i` and of `a_i - b_i`, where `a_i = (X - Z)(X_i + Z_i)` and
/// `b_i = (X + Z)(X_i - Z_i)` for the point `(X : Z)` that is pushed through.
pub open spec fn image_products(pt: XZ, k: XZ, n: nat, a24: nat, p: nat) -> (nat, nat)
    decreases n,
{
    if n == 0 {
        (1nat, 1nat)
    } else {
        let (tx, tz) = image_products(pt, k, (n - 1) as nat, a24, p);
        let m = xz_multiple(k, n, a24, p);
        let a = fmul(fsub(pt.x, pt.z, p), fadd(m.x, m.z, p), p);
        let b = fmul(fadd(pt.x, pt.z, p), fsub(m.x, m.z, p), p);
        (fmul(tx, fadd(a, b, p), p), fmul(tz, fsub(a, b, p), p))
    }
}

/// The image of `(X : Z)` under the isogeny whose kernel `K` generates, from the first
/// `half = (l - 1) / 2` multiples of `K`: `(X * T_x^2 : Z * T_z^2)`.
pub open spec fn isogeny_image(pt: XZ, k: XZ, half: nat, a24: nat, p: nat) -> XZ {
    let (tx, tz) = image_products(pt, k, half, a24, p);
    XZ { x: fmul(pt.x, fmul(tx, tx, p), p), z: fmul(pt.z, fmul(tz, tz, p), p) }
}

/// The sums of [`velu_sums`] as fractions, which need no inverse along the way: after `n`
/// multiples `(X_i : Z_i)`, the products `X_1 ... X_n` and `Z_1 ... Z_n`, the numerator of
/// the sum of the `X_i / Z_i` over the second, and the numerator of the sum of the
/// `Z_i / X_i` over the first.
pub open spec fn velu_fractions(k: XZ, n: nat, a24: nat, p: nat) -> (nat, nat, nat, nat)
    decreases n,
{
    if n == 0 {
        (1nat, 1nat, 0nat, 0nat)
    } else {
        let (tx, tz, n1, n2) = velu_fractions(k, (n - 1) as nat, a24, p);
        let m = xz_multiple(k, n, a24, p);
        (
            fmul(tx, m.x, p),
            fmul(tz, m.z, p),
            fadd(fmul(n1, m.z, p), fmul(m.x, tz, p), p),
            fadd(fmul(n2, m.x, p), fmul(m.z, tx, p), p),
        )
    }
}

/// Adding `x / z` to the fraction `n / t`: with `t * it = 1` and `z * iz = 1` modulo `p`,
/// the new numerator over the new denominator is `n / t + x / z`.
proof fn lemma_fraction_step(n: int, z: int, x: int, t: int, it: int, iz: int, p: int)
    requires
        p > 0,
        congruent(z * iz, 1, p),
        congruent(t * it, 1, p),
    ensures
        congruent((n * z + x * t) * (it * iz), n * it + x * iz, p),
{
    let w = it * iz;
    assert((n * z + x * t) * w == (n * z) * w + (x * t) * w) by (nonlinear_arith);
    assert((n * z) * (it * iz) == (n * it) * (z * iz)) by (nonlinear_arith);
    assert((x * t) * (it * iz) == (x * iz) * (t * it)) by (nonlinear_arith);
    lemma_congruent_mul(n * it, n * it, z * iz, 1, p);
    lemma_congruent_mul(x * iz, x * iz, t * it, 1, p);
    lemma_congruent_add((n * it) * (z * iz), (n * it) * 1, (x * iz) * (t * it), (x * iz) * 1, p);
    assert((n * it) * 1 == n * it && (x * iz) * 1 == x * iz) by (nonlinear_arith);
}

/// One more factor `X / Z` of `tau`: `(tx / tz) * (X / Z) = (tx * X) / (tz * Z)`.
proof fn lemma_tau_step(tx: nat, itz: nat, x: nat, iz: nat, p: nat)
    requires
        p > 0,
    ensures
        fmul(fmul(tx, itz, p), fmul(x, iz, p), p) == fmul(fmul(tx, x, p), fmul(itz, iz, p), p),
{
    let (t, it, xi, izi) = (tx as int, itz as int, x as int, iz as int);
    lemma_fmul_congruent(tx, itz, t, it, p);
    lemma_fmul_congruent(x, iz, xi, izi, p);
    lemma_fmul_congruent(fmul(tx, itz, p), fmul(x, iz, p), t * it, xi * izi, p);
    lemma_fmul_congruent(tx, x, t, xi, p);
    lemma_fmul_congruent(itz, iz, it, izi, p);
    lemma_fmul_congruent(fmul(tx, x, p), fmul(itz, iz, p), t * xi, it * izi, p);
    assert((t * it) * (xi * izi) == (t * xi) * (it * izi)) by (nonlinear_arith);
    lemma_congruent_residue(
        fmul(fmul(tx, itz, p), fmul(x, iz, p), p),
        (t * it) * (xi * izi),
        p,
    );
    lemma_congruent_residue(
        fmul(fmul(tx, x, p), fmul(itz, iz, p), p),
        (t * it) * (xi * izi),
        p,
    );
}

/// One more term `X / Z - Z / X` of `sigma`, on the two fractions.
proof fn lemma_sigma_step(
    n1: nat,
    n2: nat,
    tx: nat,
    tz: nat,
    itx: nat,
    itz: nat,
    x: nat,
    z: nat,
    ix: nat,
    iz: nat,
    p: nat,
)
    requires
        p > 1,
        is_inverse(x, ix, p),
        is_inverse(z, iz, p),
        is_inverse(tx, itx, p),
        is_inverse(tz, itz, p),
    ensures
        fsub(
            fadd(fsub(fmul(n1, itz, p), fmul(n2, itx, p), p), fmul(x, iz, p), p),
            fmul(ix, z, p),
            p,
        ) == fsub(
            fmul(fadd(fmul(n1, z, p), fmul(x, tz, p), p), fmul(itz, iz, p), p),
            fmul(fadd(fmul(n2, x, p), fmul(z, tx, p), p), fmul(itx, ix, p), p),
            p,
        ),
{
    let (a1, a2, t1, t2) = (n1 as int, n2 as int, tx as int, tz as int);
    let (it1, it2) = (itx as int, itz as int);
    let (xi, zi, ixi, izi) = (x as int, z as int, ix as int, iz as int);
    let pi = p as int;
    vstd::arithmetic::div_mod::lemma_small_mod(1, p);
    // the left side, term by term
    lemma_fmul_congruent(n1, itz, a1, it2, p);
    lemma_fmul_congruent(n2, itx, a2, it1, p);
    let s0 = fsub(fmul(n1, itz, p), fmul(n2, itx, p), p);
    lemma_fsub_congruent(fmul(n1, itz, p), fmul(n2, itx, p), a1 * it2, a2 * it1, p);
    lemma_fmul_congruent(x, iz, xi, izi, p);
    let s1 = fadd(s0, fmul(x, iz, p), p);
    lemma_fadd_congruent(s0, fmul(x, iz, p), a1 * it2 - a2 * it1, xi * izi, p);
    lemma_fmul_congruent(ix, z, ixi, zi, p);
    let left = fsub(s1, fmul(ix, z, p), p);
    lemma_fsub_congruent(s1, fmul(ix, z, p), a1 * it2 - a2 * it1 + xi * izi, ixi * zi, p);
    // the right side, term by term
    lemma_fmul_congruent(n1, z, a1, zi, p);
    lemma_fmul_congruent(x, tz, xi, t2, p);
    let b1 = fadd(fmul(n1, z, p), fmul(x, tz, p), p);
    lemma_fadd_congruent(fmul(n1, z, p), fmul(x, tz, p), a1 * zi, xi * t2, p);
    lemma_fmul_congruent(itz, iz, it2, izi, p);
    let r1 = fmul(b1, fmul(itz, iz, p), p);
    lemma_fmul_congruent(b1, fmul(itz, iz, p), a1 * zi + xi * t2, it2 * izi, p);
    lemma_fmul_congruent(n2, x, a2, xi, p);
    lemma_fmul_congruent(z, tx, zi, t1, p);
    let b2 = fadd(fmul(n2, x, p), fmul(z, tx, p), p);
    lemma_fadd_congruent(fmul(n2, x, p), fmul(z, tx, p), a2 * xi, zi * t1, p);
    lemma_fmul_congruent(itx, ix, it1, ixi, p);
    let r2 = fmul(b2, fmul(itx, ix, p), p);
    lemma_fmul_congruent(b2, fmul(itx, ix, p), a2 * xi + zi * t1, it1 * ixi, p);
    let right = fsub(r1, r2, p);
    lemma_fsub_congruent(
        r1,
        r2,
        (a1 * zi + xi * t2) * (it2 * izi),
        (a2 * xi + zi * t1) * (it1 * ixi),
        p,
    );
    // the two fractions
    lemma_fraction_step(a1, zi, xi, t2, it2, izi, pi);
    lemma_fraction_step(a2, xi, zi, t1, it1, ixi, pi);
    lemma_congruent_sub(
        (a1 * zi + xi * t2) * (it2 * izi),
        a1 * it2 + xi * izi,
        (a2 * xi + zi * t1) * (it1 * ixi),
        a2 * it1 + zi * ixi,
        pi,
    );
    assert(zi * ixi == ixi * zi) by (nonlinear_arith);
    let value = a1 * it2 - a2 * it1 + xi * izi - ixi * zi;
    assert((a1 * it2 + xi * izi) - (a2 * it1 + zi * ixi) == value);
    lemma_congruent_residue(left, value, p);
    lemma_congruent_residue(right, value, p);
}

/// The fractions carry the sums: `tau` and `sigma` exist exactly when both products have an
/// inverse, and then `tau` is the quotient of the products, and `sigma` the difference of
/// the two fractions.
pub proof fn lemma_velu_fractions(k: XZ, n: nat, a24: nat, p: nat)
    requires
        p > 1,
        xz_reduced(k, p),
    ensures
        ({
            let (tx, tz, n1, n2) = velu_fractions(k, n, a24, p);
            &&& tx < p && tz < p && n1 < p && n2 < p
            &&& velu_sums(k, n, a24, p) is Some <==> has_inverse(tx, p) && has_inverse(tz, p)
            &&& velu_sums(k, n, a24, p) matches Some((tau, sigma)) ==> tau == fmul(
                tx,
                finv(tz, p),
                p,
            ) && sigma == fsub(fmul(n1, finv(tz, p), p), fmul(n2, finv(tx, p), p), p)
        }),
    decreases n,
{
    vstd::arithmetic::div_mod::lemma_small_mod(1, p);
    vstd::arithmetic::div_mod::lemma_small_mod(0, p);
    if n == 0 {
        assert(is_inverse(1, 1, p));
        lemma_finv(1, 1, p);
        assert(fmul(0, 1, p) == 0);
        assert(fsub(0, 0, p) == 0);
    } else {
        lemma_velu_fractions(k, (n - 1) as nat, a24, p);
        lemma_multiples_reduced(k, n, a24, p);
        let (tx, tz, n1, n2) = velu_fractions(k, (n - 1) as nat, a24, p);
        let (tx2, tz2, n12, n22) = velu_fractions(k, n, a24, p);
        let m = xz_multiple(k, n, a24, p);
        let (x, z) = (m.x, m.z);
        let pi = p as int;
        vstd::arithmetic::div_mod::lemma_mod_bound((tx * x) as int, pi);
        vstd::arithmetic::div_mod::lemma_mod_bound((tz * z) as int, pi);
        vstd::arithmetic::div_mod::lemma_mod_bound((fmul(n1, z, p) + fmul(x, tz, p)) as int, pi);
        vstd::arithmetic::div_mod::lemma_mod_bound((fmul(n2, x, p) + fmul(z, tx, p)) as int, pi);
        let (ix, iz, itx, itz) = (finv(x, p), finv(z, p), finv(tx, p), finv(tz, p));
        let q = fmul(x, iz, p);
        if has_inverse(tx2, p) && has_inverse(tz2, p) {
            lemma_factors_invertible(tx, x, p);
            lemma_factors_invertible(tz, z, p);
        }
        if velu_sums(k, n, a24, p) is Some {
            assert(velu_sums(k, (n - 1) as nat, a24, p) is Some);
            assert(has_inverse(z, p) && has_inverse(q, p));
            lemma_factors_invertible(x, iz, p);
        }
        if has_inverse(x, p) && has_inverse(z, p) && has_inverse(tx, p) && has_inverse(tz, p) {
            let (tau, sigma) = velu_sums(k, (n - 1) as nat, a24, p)->Some_0;
            lemma_inverse_of_inverse(z, iz, p);
            lemma_inverse_of_product(x, ix, iz, z, p);
            lemma_inverse_of_product(tx, itx, x, ix, p);
            lemma_inverse_of_product(tz, itz, z, iz, p);
            lemma_tau_step(tx, itz, x, iz, p);
            lemma_sigma_step(n1, n2, tx, tz, itx, itz, x, z, ix, iz, p);
        }
    }
}

/// `tau` and `sigma` over the multiples `K, 2K, ..., count * K`, or nothing where a multiple
/// has no affine x-coordinate or one that cannot be inverted.
///
/// The sums are carried along as fractions and divided out at the end, which takes two
/// inversions in all; [`lemma_velu_fractions`] shows that this is the same.
pub fn kernel_sums(point_k: &MontgomeryPoint, count: u64) -> (r: Option<
    (FieldElement, FieldElement),
>)
    requires
        point_k.wf(),
    ensures
        r is Some <==> velu_sums(
            point_k.xz(),
            count as nat,
            point_k.a24_value(),
            point_k.modulus(),
        ) is Some,
        r matches Some((tau, sigma)) ==> tau.wf() && sigma.wf() && tau.modulus()
            == point_k.modulus() && sigma.modulus() == point_k.modulus() && velu_sums(
            point_k.xz(),
            count as nat,
            point_k.a24_value(),
            point_k.modulus(),
        ) == Some((tau@, sigma@)),
{
    let ghost k = point_k.xz();
    let ghost a24 = point_k.a24_value();
    let ghost p = point_k.modulus();
    let seed = point_k.X();
    let mut tx = seed.small(1);
    let mut tz = seed.small(1);
    let mut n1 = seed.small(0);
    let mut n2 = seed.small(0);
    proof {
        vstd::arithmetic::div_mod::lemma_small_mod(1, p);
        vstd::arithmetic::div_mod::lemma_small_mod(0, p);
    }
    let mut multiples = point_k.multiples(uint_from_u64(count));
    let mut n: u64 = 0;
    while n < count
        invariant
            n <= count,
            multiples.wf(),
            multiples.base() == k,
            multiples.a24_value() == a24,
            multiples.modulus() == p,
            multiples.remaining() == count - n,
            (multiples.current(), multiples.previous()) == xz_multiples(k, n as nat, a24, p),
            tx.wf(),
            tz.wf(),
            n1.wf(),
            n2.wf(),
            tx.modulus() == p,
            tz.modulus() == p,
            n1.modulus() == p,
            n2.modulus() == p,
            velu_fractions(k, n as nat, a24, p) == (tx@, tz@, n1@, n2@),
        decreases count - n,
    {
        let multiple = multiples.next().unwrap();
        n = n + 1;
        let x = multiple.X();
        let z = multiple.Z();
        let sum_1 = n1.mul(&z).add(&x.mul(&tz));
        let sum_2 = n2.mul(&x).add(&z.mul(&tx));
        tx = tx.mul(&x);
        tz = tz.mul(&z);
        n1 = sum_1;
        n2 = sum_2;
    }
    proof {
        point_k.lemma_wf();
        lemma_velu_fractions(k, count as nat, a24, p);
    }
    let tz_inverse = match tz.inv() {
        Some(v) => v,
        None => {
            return None;
        },
    };
    let tx_inverse = match tx.inv() {
        Some(v) => v,
        None => {
            return None;
        },
    };
    let tau = tx.mul(&tz_inverse);
    let sigma = n1.mul(&tz_inverse).sub(&n2.mul(&tx_inverse));
    Some((tau, sigma))
}

/// The coefficient `tau * (A - 3 * sigma)` of the image curve.
pub fn image_coefficient(
    a2: &FieldElement,
    tau: &FieldElement,
    sigma: &FieldElement,
) -> (r: FieldElement)
    requires
        a2.wf(),
        tau.same_field(a2),
        sigma.same_field(a2),
    ensures
        r.wf(),
        r.same_field(a2),
        r@ == velu_coefficient(a2@, tau@, sigma@, a2.modulus()),
{
    let three = a2.small(3);
    let scaled = sigma.mul(&three);
    let inner = a2.sub(&scaled);
    let r = tau.mul(&inner);
    proof {
        vstd::arithmetic::div_mod::lemma_mod_bound(
            (tau@ * inner@) as int,
            a2.modulus() as int,
        );
    }
    r
}

/// The image of `point_p` on `image_curve` under the isogeny of degree `2 * half + 1` whose
/// kernel `point_k` generates.
pub fn push_through(
    point_p: &MontgomeryPoint,
    point_k: &MontgomeryPoint,
    half: u64,
    image_curve: &MontgomeryCurve,
) -> (r: MontgomeryPoint)
    requires
        point_p.wf(),
        point_k.wf(),
        point_k.same_curve(point_p),
        image_curve.wf(),
        image_curve.modulus() == point_p.modulus(),
    ensures
        r.wf(),
        r.on(image_curve),
        r.xz() == isogeny_image(
            point_p.xz(),
            point_k.xz(),
            half as nat,
            point_k.a24_value(),
            point_k.modulus(),
        ),
{
    let ghost pt = point_p.xz();
    let ghost k = point_k.xz();
    let ghost a24 = point_k.a24_value();
    let ghost p = point_k.modulus();
    let x = point_p.X();
    let z = point_p.Z();
    let x_plus_z = x.add(&z);
    let x_minus_z = x.sub(&z);

    let mut temp_x = x.small(1);
    let mut temp_z = x.small(1);
    proof {
        vstd::arithmetic::div_mod::lemma_small_mod(1, p);
    }
    let mut multiples = point_k.multiples(uint_from_u64(half));
    let mut n: u64 = 0;
    while n < half
        invariant
            n <= half,
            multiples.wf(),
            multiples.base() == k,
            multiples.a24_value() == a24,
            multiples.modulus() == p,
            multiples.remaining() == half - n,
            (multiples.current(), multiples.previous()) == xz_multiples(k, n as nat, a24, p),
            temp_x.wf(),
            temp_z.wf(),
            x_plus_z.wf(),
            x_minus_z.wf(),
            temp_x.modulus() == p,
            temp_z.modulus() == p,
            x_plus_z.modulus() == p,
            x_minus_z.modulus() == p,
            x_plus_z@ == fadd(pt.x, pt.z, p),
            x_minus_z@ == fsub(pt.x, pt.z, p),
            image_products(pt, k, n as nat, a24, p) == (temp_x@, temp_z@),
        decreases half - n,
    {
        let multiple = multiples.next().unwrap();
        n = n + 1;
        let xi = multiple.X();
        let zi = multiple.Z();

        let a = x_minus_z.mul(&xi.add(&zi));
        let b = x_plus_z.mul(&xi.sub(&zi));

        temp_x = temp_x.mul(&a.add(&b));
        temp_z = temp_z.mul(&a.sub(&b));
    }
    let x_prime = x.mul(&temp_x.square());
    let z_prime = z.mul(&temp_z.square());

    MontgomeryPoint::new(image_curve, x_prime, z_prime)
}

} // verus!
