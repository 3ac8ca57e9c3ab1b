//! The chord-and-tangent rule of the group law, in affine coordinates, and the proofs that
//! x-only doubling and differential addition compute it on points `(x : 1)`.
use crate::congruence::{
    congruent, lemma_congruent_add, lemma_congruent_mul, lemma_congruent_sub,
    lemma_fadd_congruent, lemma_fmul_congruent, lemma_fsub_congruent,
};
use crate::field::{fadd, finv, fmul, fsub, has_inverse, is_inverse};
use crate::montgomery_curve::curve_rhs;
use crate::xonly::{xz_diff_add, xz_double, XZ};
use vstd::arithmetic::div_mod::{lemma_mod_twice, lemma_small_mod};
use vstd::prelude::*;

verus! {

/// `(x, y)` is a point of the curve `y^2 = x^3 + A x^2 + x` over F_p.
pub open spec fn on_curve(x: nat, y: nat, a: nat, p: nat) -> bool {
    fmul(y, y, p) == curve_rhs(a, x, p)
}

/// The slope of the tangent at `(x, y)`: `(3 x^2 + 2 A x + 1) / (2 y)`.
pub open spec fn tangent_slope(x: nat, y: nat, a: nat, p: nat) -> nat {
    let numerator = (3 * (x * x) + 2 * (a * x) + 1) % p;
    fmul(numerator, finv(fmul(2, y, p), p), p)
}

/// The x-coordinate of the double of `(x, y)` by the tangent rule: `slope^2 - A - 2 x`.
pub open spec fn tangent_double_x(x: nat, y: nat, a: nat, p: nat) -> nat {
    let slope = tangent_slope(x, y, a, p);
    fsub(fmul(slope, slope, p), fadd(a, fmul(2, x, p), p), p)
}

/// x-only doubling is the tangent rule: for a point `(x, y)` of the curve where `2 y` has an
/// inverse, the double `(X' : Z')` of `(x : 1)` is the point with affine x-coordinate
/// `slope^2 - A - 2 x`, that is, `X' = (slope^2 - A - 2 x) * Z'`; and `Z'` is `(2 y)^2`.
pub proof fn lemma_double_is_tangent(x: nat, y: nat, a: nat, a24: nat, p: nat)
    requires
        p > 1,
        on_curve(x, y, a, p),
        has_inverse(fmul(2, y, p), p),
        fmul(4, a24, p) == fadd(a, 2, p),
    ensures
        ({
            let twice = xz_double(XZ { x, z: 1 }, a24, p);
            &&& twice.x == fmul(tangent_double_x(x, y, a, p), twice.z, p)
            &&& twice.z == fmul(fmul(2, y, p), fmul(2, y, p), p)
        }),
{
    let pi = p as int;
    let (xi, yi, ai, ki) = (x as int, y as int, a as int, a24 as int);
    let twice = xz_double(XZ { x, z: 1 }, a24, p);
    let tn = fmul(2, y, p);
    assert(is_inverse(tn, finv(tn, p), p));
    let t = tn as int;
    let it = finv(tn, p) as int;
    let n = 3 * (xi * xi) + 2 * (ai * xi) + 1;
    let w = 4 * (xi * (xi * xi) + ai * (xi * xi) + xi);
    lemma_small_mod(1, p);

    // Z' = 4 x ((x - 1)^2 + a24 * 4 x) = 4 (x^3 + A x^2 + x) = 4 y^2 = (2 y)^2
    let zpoly = 4 * xi * 1 * ((xi - 1) * (xi - 1) + ki * (4 * xi * 1));
    assert(zpoly == 4 * (xi * ((xi - 1) * (xi - 1))) + (4 * ki) * (4 * (xi * xi)))
        by (nonlinear_arith)
        requires
            zpoly == 4 * xi * 1 * ((xi - 1) * (xi - 1) + ki * (4 * xi * 1)),
    ;
    lemma_fmul_congruent(4, a24, 4, ki, p);
    lemma_fadd_congruent(a, 2, ai, 2, p);
    assert(congruent(4 * ki, ai + 2, pi));
    lemma_congruent_mul(4 * ki, ai + 2, 4 * (xi * xi), 4 * (xi * xi), pi);
    lemma_congruent_add(
        4 * (xi * ((xi - 1) * (xi - 1))),
        4 * (xi * ((xi - 1) * (xi - 1))),
        (4 * ki) * (4 * (xi * xi)),
        (ai + 2) * (4 * (xi * xi)),
        pi,
    );
    assert(4 * (xi * ((xi - 1) * (xi - 1))) + (ai + 2) * (4 * (xi * xi)) == w)
        by (nonlinear_arith)
        requires
            w == 4 * (xi * (xi * xi) + ai * (xi * xi) + xi),
    ;
    assert(congruent(zpoly, w, pi));
    // the curve equation
    lemma_fmul_congruent(y, y, yi, yi, p);
    lemma_mod_twice(xi * (xi * xi) + ai * (xi * xi) + xi, pi);
    assert(congruent(yi * yi, xi * (xi * xi) + ai * (xi * xi) + xi, pi));
    lemma_congruent_mul(4, 4, yi * yi, xi * (xi * xi) + ai * (xi * xi) + xi, pi);
    lemma_fmul_congruent(2, y, 2, yi, p);
    lemma_fmul_congruent(tn, tn, 2 * yi, 2 * yi, p);
    assert((2 * yi) * (2 * yi) == 4 * (yi * yi)) by (nonlinear_arith);
    assert(congruent(fmul(tn, tn, p) as int, w, pi));
    assert(twice.z == fmul(tn, tn, p)) by {
        lemma_small_mod(fmul(tn, tn, p), p);
    }

    // the slope: 2 y * slope = 3 x^2 + 2 A x + 1
    let slope = tangent_slope(x, y, a, p);
    lemma_mod_twice(n, pi);
    lemma_fmul_congruent((n % pi) as nat, it as nat, n, it, p);
    lemma_fmul_congruent(slope, slope, n * it, n * it, p);
    lemma_fmul_congruent(2, x, 2, xi, p);
    lemma_fadd_congruent(a, fmul(2, x, p), ai, 2 * xi, p);
    let dx = tangent_double_x(x, y, a, p);
    lemma_fsub_congruent(
        fmul(slope, slope, p),
        fadd(a, fmul(2, x, p), p),
        (n * it) * (n * it),
        ai + 2 * xi,
        p,
    );
    // dx * Z' = ((n / t)^2 - (A + 2 x)) * t^2 = n^2 - (A + 2 x) * w
    let tt = fmul(tn, tn, p) as int;
    lemma_fmul_congruent(dx, twice.z, (n * it) * (n * it) - (ai + 2 * xi), tt, p);
    assert(((n * it) * (n * it) - (ai + 2 * xi)) * tt == (n * n) * ((it * it) * tt) - (ai + 2
        * xi) * tt) by (nonlinear_arith);
    lemma_fmul_congruent(tn, tn, t, t, p);
    lemma_congruent_mul(it * it, it * it, tt, t * t, pi);
    assert((it * it) * (t * t) == (t * it) * (t * it)) by (nonlinear_arith);
    lemma_congruent_mul(t * it, 1, t * it, 1, pi);
    assert(congruent((it * it) * tt, 1, pi));
    lemma_congruent_mul(n * n, n * n, (it * it) * tt, 1, pi);
    lemma_congruent_mul(ai + 2 * xi, ai + 2 * xi, tt, w, pi);
    lemma_congruent_sub(
        (n * n) * ((it * it) * tt),
        (n * n) * 1,
        (ai + 2 * xi) * tt,
        (ai + 2 * xi) * w,
        pi,
    );
    // n^2 - (A + 2 x) * 4 x (x^2 + A x + 1) = (x^2 - 1)^2
    let core = xi * (xi * xi) + ai * (xi * xi) + xi;
    let sq = xi * xi;
    let c = ai * xi;
    assert(c * c == (ai * ai) * sq) by (nonlinear_arith)
        requires
            c == ai * xi,
            sq == xi * xi,
    ;
    assert(ai * core == c * sq + (ai * ai) * sq + c) by (nonlinear_arith)
        requires
            c == ai * xi,
            core == xi * sq + ai * sq + xi,
    ;
    assert(xi * core == sq * sq + c * sq + sq) by (nonlinear_arith)
        requires
            c == ai * xi,
            sq == xi * xi,
            core == xi * sq + ai * sq + xi,
    ;
    assert((ai + 2 * xi) * core == ai * core + 2 * (xi * core)) by (nonlinear_arith);
    assert(n * n == 9 * (sq * sq) + 4 * (c * c) + 1 + 12 * (c * sq) + 6 * sq + 4 * c)
        by (nonlinear_arith)
        requires
            n == 3 * sq + 2 * c + 1,
    ;
    assert((xi + 1) * (xi + 1) * ((xi - 1) * (xi - 1)) == sq * sq - 2 * sq + 1)
        by (nonlinear_arith)
        requires
            sq == xi * xi,
    ;
    assert((n * n) * 1 - (ai + 2 * xi) * w == (xi + 1) * (xi + 1) * ((xi - 1) * (xi - 1))) by {
        assert((ai + 2 * xi) * w == 4 * ((ai + 2 * xi) * core)) by (nonlinear_arith)
            requires
                w == 4 * core,
        ;
    }
    lemma_small_mod(fmul(dx, twice.z, p), p);
}

/// The x-coordinate of the sum of `(x1, y1)` and `(x2, y2)` by the chord rule:
/// `slope^2 - A - x1 - x2` with the slope `(y2 - y1) / (x2 - x1)`.
pub open spec fn chord_sum_x(x1: nat, y1: nat, x2: nat, y2: nat, a: nat, p: nat) -> nat {
    let slope = fmul(fsub(y2, y1, p), finv(fsub(x2, x1, p), p), p);
    fsub(fmul(slope, slope, p), fadd(fadd(a, x1, p), x2, p), p)
}

/// The x-coordinate of the difference of `(x1, y1)` and `(x2, y2)`: that of the sum of
/// `(x1, y1)` and `(x2, -y2)`, whose chord has the slope `-(y1 + y2) / (x2 - x1)`.
pub open spec fn chord_difference_x(x1: nat, y1: nat, x2: nat, y2: nat, a: nat, p: nat) -> nat {
    let slope = fmul(fadd(y1, y2, p), finv(fsub(x2, x1, p), p), p);
    fsub(fmul(slope, slope, p), fadd(fadd(a, x1, p), x2, p), p)
}

/// `f(x2) - f(x1) = (x2 - x1) g` for the right-hand side `f` of the curve equation, with
/// `g = x1^2 + x1 x2 + x2^2 + A (x1 + x2) + 1`.
proof fn lemma_chord_factor(x1: int, x2: int, a: int)
    ensures
        (x2 * (x2 * x2) + a * (x2 * x2) + x2) - (x1 * (x1 * x1) + a * (x1 * x1) + x1) == (x2 - x1)
            * (x1 * x1 + x1 * x2 + x2 * x2 + a * (x1 + x2) + 1),
{
    let (s1, s2, q) = (x1 * x1, x2 * x2, x1 * x2);
    let g = s1 + q + s2 + a * (x1 + x2) + 1;
    assert(x2 * s1 == x1 * q && x2 * q == x1 * s2) by (nonlinear_arith)
        requires
            s1 == x1 * x1,
            s2 == x2 * x2,
            q == x1 * x2,
    ;
    assert((x2 - x1) * (s1 + q + s2) == x2 * s1 + x2 * q + x2 * s2 - x1 * s1 - x1 * q - x1 * s2)
        by (nonlinear_arith);
    assert((x2 - x1) * (a * (x1 + x2)) == a * s2 - a * s1) by (nonlinear_arith)
        requires
            s1 == x1 * x1,
            s2 == x2 * x2,
    ;
    assert((x2 - x1) * g == (x2 - x1) * (s1 + q + s2) + (x2 - x1) * (a * (x1 + x2)) + (x2 - x1))
        by (nonlinear_arith)
        requires
            g == s1 + q + s2 + a * (x1 + x2) + 1,
    ;
}

/// The sum `f(x1) + f(x2)` in the symmetric functions `s = x1 + x2` and `q = x1 x2`, with
/// `c = A + s`: it is `s^2 c + s - q (2 c + s)`; and `g` of [`lemma_chord_factor`] is
/// `s c - q + 1`, and `(x2 - x1)^2` is `s^2 - 4 q`.
proof fn lemma_chord_symmetric(x1: int, x2: int, a: int)
    ensures
        ({
            let s = x1 + x2;
            let q = x1 * x2;
            let c = a + s;
            &&& (x1 * (x1 * x1) + a * (x1 * x1) + x1) + (x2 * (x2 * x2) + a * (x2 * x2) + x2) == (s
                * s) * c + s - q * (2 * c + s)
            &&& x1 * x1 + x1 * x2 + x2 * x2 + a * (x1 + x2) + 1 == s * c - q + 1
            &&& (x2 - x1) * (x2 - x1) == s * s - 4 * q
        }),
{
    let s = x1 + x2;
    let q = x1 * x2;
    let c = a + s;
    let (s1, s2) = (x1 * x1, x2 * x2);
    assert(s * s == s1 + 2 * q + s2 && (x2 - x1) * (x2 - x1) == s1 - 2 * q + s2)
        by (nonlinear_arith)
        requires
            s == x1 + x2,
            s1 == x1 * x1,
            s2 == x2 * x2,
            q == x1 * x2,
    ;
    assert(x2 * s1 == x1 * q && x1 * s2 == x2 * q) by (nonlinear_arith)
        requires
            s1 == x1 * x1,
            s2 == x2 * x2,
            q == x1 * x2,
    ;
    assert(s * s1 == x1 * s1 + x2 * s1 && s * s2 == x1 * s2 + x2 * s2 && s * q == x1 * q + x2 * q)
        by (nonlinear_arith)
        requires
            s == x1 + x2,
    ;
    let ss = s * s;
    assert(s * ss == s * s1 + 2 * (s * q) + s * s2) by (nonlinear_arith)
        requires
            ss == s1 + 2 * q + s2,
    ;
    assert(x1 * s1 + x2 * s2 == s * ss - 3 * (s * q));
    assert(ss * c == ss * a + s * ss && q * (2 * c + s) == 2 * (a * q) + 3 * (s * q) && s * c
        == a * s + ss) by (nonlinear_arith)
        requires
            c == a + s,
            ss == s * s,
    ;
    assert(ss * a == a * s1 + 2 * (a * q) + a * s2) by (nonlinear_arith)
        requires
            ss == s1 + 2 * q + s2,
    ;
    assert(a * (x1 + x2) == a * s);
}

/// The heart of the chord rule, in `s`, `q`, `c` alone, with `g = s c - q + 1`,
/// `f = s^2 c + s - q (2 c + s)` and `u = s^2 - 4 q`: `g^2 - 2 c f + c^2 u = (q - 1)^2`.
proof fn lemma_chord_core(s: int, q: int, c: int)
    ensures
        ({
            let g = s * c - q + 1;
            let f = (s * s) * c + s - q * (2 * c + s);
            let u = s * s - 4 * q;
            g * g - 2 * (c * f) + (c * c) * u == (q - 1) * (q - 1)
        }),
{
    let g = s * c - q + 1;
    let f = (s * s) * c + s - q * (2 * c + s);
    let u = s * s - 4 * q;
    let sc = s * c;
    let cc = c * c;
    assert(g * g == sc * sc + q * q + 1 - 2 * (sc * q) + 2 * sc - 2 * q) by (nonlinear_arith)
        requires
            g == sc - q + 1,
    ;
    assert(c * ((s * s) * c) == sc * sc && cc * (s * s) == sc * sc) by (nonlinear_arith)
        requires
            sc == s * c,
            cc == c * c,
    ;
    assert(c * (q * (2 * c + s)) == 2 * (cc * q) + sc * q) by (nonlinear_arith)
        requires
            sc == s * c,
            cc == c * c,
    ;
    assert(c * f == c * ((s * s) * c) + c * s - c * (q * (2 * c + s))) by (nonlinear_arith)
        requires
            f == (s * s) * c + s - q * (2 * c + s),
    ;
    assert(c * s == sc) by (nonlinear_arith)
        requires
            sc == s * c,
    ;
    assert(cc * u == cc * (s * s) - 4 * (cc * q)) by (nonlinear_arith)
        requires
            u == s * s - 4 * q,
    ;
    assert((q - 1) * (q - 1) == q * q - 2 * q + 1) by (nonlinear_arith);
}

/// With `y1^2` and `y2^2` in place of `f(x1)` and `f(x2)`:
/// `(y2^2 - y1^2)^2 - 2 c u (y1^2 + y2^2) + (c u)^2 = u (x1 x2 - 1)^2` modulo `p`, where
/// `c = A + x1 + x2` and `u = (x2 - x1)^2`.
proof fn lemma_chord_product(x1: int, x2: int, a: int, sq1: int, sq2: int, p: int)
    requires
        p > 0,
        congruent(sq1, x1 * (x1 * x1) + a * (x1 * x1) + x1, p),
        congruent(sq2, x2 * (x2 * x2) + a * (x2 * x2) + x2, p),
    ensures
        ({
            let k = (a + x1 + x2) * ((x2 - x1) * (x2 - x1));
            congruent(
                (sq2 - sq1) * (sq2 - sq1) - 2 * k * (sq1 + sq2) + k * k,
                ((x2 - x1) * (x2 - x1)) * ((x1 * x2 - 1) * (x1 * x2 - 1)),
                p,
            )
        }),
{
    let c = a + x1 + x2;
    let u = x2 - x1;
    let uu = u * u;
    let k = c * uu;
    let f1 = x1 * (x1 * x1) + a * (x1 * x1) + x1;
    let f2 = x2 * (x2 * x2) + a * (x2 * x2) + x2;
    let g = x1 * x1 + x1 * x2 + x2 * x2 + a * (x1 + x2) + 1;
    let f = f1 + f2;
    let q = x1 * x2;
    lemma_congruent_sub(sq2, f2, sq1, f1, p);
    lemma_congruent_mul(sq2 - sq1, f2 - f1, sq2 - sq1, f2 - f1, p);
    lemma_congruent_add(sq1, f1, sq2, f2, p);
    lemma_congruent_mul(2 * k, 2 * k, sq1 + sq2, f, p);
    lemma_congruent_sub(
        (sq2 - sq1) * (sq2 - sq1),
        (f2 - f1) * (f2 - f1),
        2 * k * (sq1 + sq2),
        2 * k * f,
        p,
    );
    lemma_congruent_add(
        (sq2 - sq1) * (sq2 - sq1) - 2 * k * (sq1 + sq2),
        (f2 - f1) * (f2 - f1) - 2 * k * f,
        k * k,
        k * k,
        p,
    );
    lemma_chord_factor(x1, x2, a);
    lemma_chord_symmetric(x1, x2, a);
    lemma_chord_core(x1 + x2, q, c);
    let core = g * g - 2 * (c * f) + (c * c) * uu;
    assert((f2 - f1) * (f2 - f1) == uu * (g * g)) by (nonlinear_arith)
        requires
            f2 - f1 == u * g,
            uu == u * u,
    ;
    assert(2 * k * f == uu * (2 * (c * f)) && k * k == uu * ((c * c) * uu)) by (nonlinear_arith)
        requires
            k == c * uu,
    ;
    assert(uu * (g * g) - uu * (2 * (c * f)) + uu * ((c * c) * uu) == uu * core)
        by (nonlinear_arith)
        requires
            core == g * g - 2 * (c * f) + (c * c) * uu,
    ;
}

/// A slope `m / u`, squared, less `c`, is `(m^2 - c u^2) / u^2`.
proof fn lemma_chord_slope(m: int, c: int, u: int, iu: int, p: int)
    requires
        p > 0,
        congruent(u * iu, 1, p),
    ensures
        congruent((m * iu) * (m * iu) - c, (m * m - c * (u * u)) * (iu * iu), p),
        congruent((u * u) * (iu * iu), 1, p),
{
    let uu = u * u;
    let ii = iu * iu;
    lemma_congruent_mul(u * iu, 1, u * iu, 1, p);
    assert(uu * ii == (u * iu) * (u * iu)) by (nonlinear_arith)
        requires
            uu == u * u,
            ii == iu * iu,
    ;
    lemma_congruent_mul(c, c, uu * ii, 1, p);
    lemma_congruent_sub((m * iu) * (m * iu), (m * iu) * (m * iu), c * 1, c * (uu * ii), p);
    assert((m * m - c * uu) * ii == (m * iu) * (m * iu) - c * (uu * ii)) by (nonlinear_arith)
        requires
            ii == iu * iu,
    ;
    assert(c * 1 == c);
}

/// The product of the two numerators of [`lemma_chord_slope`], for the slopes of the sum
/// and of the difference.
proof fn lemma_chord_numerators(y1: int, y2: int, k: int)
    ensures
        ((y2 - y1) * (y2 - y1) - k) * ((y1 + y2) * (y1 + y2) - k) == (y2 * y2 - y1 * y1) * (y2
            * y2 - y1 * y1) - 2 * k * (y1 * y1 + y2 * y2) + k * k,
{
    let (m, n) = (y2 - y1, y1 + y2);
    let (mm, nn) = (m * m, n * n);
    let (sq1, sq2) = (y1 * y1, y2 * y2);
    assert(m * n == sq2 - sq1 && mm + nn == 2 * (sq1 + sq2)) by (nonlinear_arith)
        requires
            m == y2 - y1,
            n == y1 + y2,
            mm == m * m,
            nn == n * n,
            sq1 == y1 * y1,
            sq2 == y2 * y2,
    ;
    assert(mm * nn == (m * n) * (m * n)) by (nonlinear_arith)
        requires
            mm == m * m,
            nn == n * n,
    ;
    assert((mm - k) * (nn - k) == mm * nn - k * (mm + nn) + k * k) by (nonlinear_arith);
    assert(k * (2 * (sq1 + sq2)) == 2 * k * (sq1 + sq2)) by (nonlinear_arith);
}

/// Putting the chord rule together: with `xs = ps / u^2` and `xd = pd / u^2`, where
/// `ps * pd = u^2 t`, the product `xs * (4 xd u^2)` is `4 t`.
proof fn lemma_chord_combine(ps: int, pd: int, uu: int, ii: int, t: int, p: int)
    requires
        p > 0,
        congruent(uu * ii, 1, p),
        congruent(ps * pd, uu * t, p),
    ensures
        congruent((ps * ii) * (4 * ((pd * ii) * uu)), 4 * t, p),
{
    assert((ps * ii) * (4 * ((pd * ii) * uu)) == (4 * (ps * pd)) * (ii * (uu * ii)))
        by (nonlinear_arith);
    lemma_congruent_mul(ii, ii, uu * ii, 1, p);
    lemma_congruent_mul(4, 4, ps * pd, uu * t, p);
    lemma_congruent_mul(4 * (ps * pd), 4 * (uu * t), ii * (uu * ii), ii * 1, p);
    assert((4 * (uu * t)) * (ii * 1) == (4 * t) * (uu * ii)) by (nonlinear_arith);
    lemma_congruent_mul(4 * t, 4 * t, uu * ii, 1, p);
    assert((4 * t) * 1 == 4 * t);
}

/// Differential addition is the chord rule: for points `(x1, y1)` and `(x2, y2)` of the
/// curve whose x-coordinates differ by an invertible amount, with `d` the x-coordinate of
/// their difference, the x-only sum `(X' : Z')` of `(x1 : 1)` and `(x2 : 1)` with difference
/// `(d : 1)` is the point with the affine x-coordinate of their sum: `X' = x(P + Q) * Z'`.
pub proof fn lemma_diff_add_is_chord(x1: nat, y1: nat, x2: nat, y2: nat, a: nat, p: nat)
    requires
        p > 1,
        on_curve(x1, y1, a, p),
        on_curve(x2, y2, a, p),
        has_inverse(fsub(x2, x1, p), p),
    ensures
        ({
            let d = chord_difference_x(x1, y1, x2, y2, a, p);
            let sum = xz_diff_add(XZ { x: x1, z: 1 }, XZ { x: x2, z: 1 }, XZ { x: d, z: 1 }, p);
            sum.x == fmul(chord_sum_x(x1, y1, x2, y2, a, p), sum.z, p)
        }),
{
    let pi = p as int;
    let (x1i, y1i, x2i, y2i, ai) = (x1 as int, y1 as int, x2 as int, y2 as int, a as int);
    let un = fsub(x2, x1, p);
    let iun = finv(un, p);
    assert(is_inverse(un, iun, p));
    let (u, iu) = (x2i - x1i, iun as int);
    let c = ai + x1i + x2i;
    let (uu, ii) = (u * u, iu * iu);
    let (m, n) = (y2i - y1i, y1i + y2i);
    let k = c * uu;
    let (ps, pd) = (m * m - k, n * n - k);
    let t = (x1i * x2i - 1) * (x1i * x2i - 1);
    lemma_small_mod(1, p);

    // u * iu = 1
    lemma_fsub_congruent(x2, x1, x2i, x1i, p);
    lemma_congruent_mul(un as int, u, iu, iu, pi);

    // the x-coordinates of the sum and of the difference
    let cn = fadd(fadd(a, x1, p), x2, p);
    lemma_fadd_congruent(a, x1, ai, x1i, p);
    lemma_fadd_congruent(fadd(a, x1, p), x2, ai + x1i, x2i, p);
    let slope = fmul(fsub(y2, y1, p), iun, p);
    lemma_fsub_congruent(y2, y1, y2i, y1i, p);
    lemma_fmul_congruent(fsub(y2, y1, p), iun, m, iu, p);
    lemma_fmul_congruent(slope, slope, m * iu, m * iu, p);
    let xs = chord_sum_x(x1, y1, x2, y2, a, p);
    lemma_fsub_congruent(fmul(slope, slope, p), cn, (m * iu) * (m * iu), c, p);
    lemma_chord_slope(m, c, u, iu, pi);
    let slope_d = fmul(fadd(y1, y2, p), iun, p);
    lemma_fadd_congruent(y1, y2, y1i, y2i, p);
    lemma_fmul_congruent(fadd(y1, y2, p), iun, n, iu, p);
    lemma_fmul_congruent(slope_d, slope_d, n * iu, n * iu, p);
    let xd = chord_difference_x(x1, y1, x2, y2, a, p);
    lemma_fsub_congruent(fmul(slope_d, slope_d, p), cn, (n * iu) * (n * iu), c, p);
    lemma_chord_slope(n, c, u, iu, pi);
    assert(congruent(xs as int, ps * ii, pi));
    assert(congruent(xd as int, pd * ii, pi));

    // the product of the numerators, on the curve
    lemma_chord_numerators(y1i, y2i, k);
    lemma_fmul_congruent(y1, y1, y1i, y1i, p);
    lemma_fmul_congruent(y2, y2, y2i, y2i, p);
    lemma_mod_twice(x1i * (x1i * x1i) + ai * (x1i * x1i) + x1i, pi);
    lemma_mod_twice(x2i * (x2i * x2i) + ai * (x2i * x2i) + x2i, pi);
    lemma_chord_product(x1i, x2i, ai, y1i * y1i, y2i * y2i, pi);
    assert(congruent(ps * pd, uu * t, pi));
    lemma_chord_combine(ps, pd, uu, ii, t, pi);

    // the x-only sum
    let sum = xz_diff_add(XZ { x: x1, z: 1 }, XZ { x: x2, z: 1 }, XZ { x: xd, z: 1 }, p);
    let xdi = xd as int;
    let zpoly = 4 * xdi * ((x1i * 1 - 1 * x2i) * (x1i * 1 - 1 * x2i));
    assert(zpoly == 4 * (xdi * uu)) by (nonlinear_arith)
        requires
            zpoly == 4 * xdi * ((x1i * 1 - 1 * x2i) * (x1i * 1 - 1 * x2i)),
            uu == (x2i - x1i) * (x2i - x1i),
    ;
    lemma_mod_twice(zpoly, pi);
    lemma_congruent_mul(xdi, pd * ii, uu, uu, pi);
    lemma_congruent_mul(4, 4, xdi * uu, (pd * ii) * uu, pi);
    lemma_fmul_congruent(xs, sum.z, ps * ii, 4 * ((pd * ii) * uu), p);
    assert(4 * 1 * ((x1i * x2i - 1 * 1) * (x1i * x2i - 1 * 1)) == 4 * t);
    lemma_small_mod(fmul(xs, sum.z, p), p);
}

/// The third point of a line. Let the line `y = l (x - x1) + y1` pass through the curve
/// point `(x1, y1)`, and let `h(x2) = 0` for
/// `h(x) = x^2 + x x1 + x1^2 + A (x + x1) + 1 - l^2 (x - x1) - 2 l y1`,
/// which says that the line meets the curve at `x2` as well (or touches it, where `x2` is
/// `x1`). Then it meets the curve a third time at `x3 = l^2 - A - x1 - x2`.
proof fn lemma_third_point(x1: int, y1: int, x2: int, l: int, a: int, p: int)
    requires
        p > 0,
        congruent(y1 * y1, x1 * (x1 * x1) + a * (x1 * x1) + x1, p),
        congruent(
            x1 * x1 + x1 * x2 + x2 * x2 + a * (x1 + x2) + 1 - (l * l) * (x2 - x1) - 2 * (l * y1),
            0,
            p,
        ),
    ensures
        ({
            let x3 = l * l - a - x1 - x2;
            let line = l * (x3 - x1) + y1;
            congruent(line * line, x3 * (x3 * x3) + a * (x3 * x3) + x3, p)
        }),
{
    let x3 = l * l - a - x1 - x2;
    let w = x3 - x1;
    let line = l * w + y1;
    let f1 = x1 * (x1 * x1) + a * (x1 * x1) + x1;
    let f3 = x3 * (x3 * x3) + a * (x3 * x3) + x3;
    let g2 = x1 * x1 + x1 * x2 + x2 * x2 + a * (x1 + x2) + 1;
    let g3 = x1 * x1 + x1 * x3 + x3 * x3 + a * (x1 + x3) + 1;
    let h2 = g2 - (l * l) * (x2 - x1) - 2 * (l * y1);
    let h3 = g3 - (l * l) * w - 2 * (l * y1);
    lemma_chord_factor(x1, x3, a);
    assert(f3 - f1 == w * g3);
    assert(line * line - y1 * y1 == w * ((l * l) * w + 2 * (l * y1))) by (nonlinear_arith)
        requires
            line == l * w + y1,
    ;
    assert(w * g3 - w * ((l * l) * w + 2 * (l * y1)) == w * h3) by (nonlinear_arith)
        requires
            h3 == g3 - (l * l) * w - 2 * (l * y1),
    ;
    // h3 = h2, because x3 + x2 + x1 + a = l^2
    let t = x3 + x2 + x1 + a;
    assert(x3 * x3 - x2 * x2 == (x3 - x2) * (x3 + x2)) by (nonlinear_arith);
    assert(x1 * x3 - x1 * x2 == (x3 - x2) * x1 && a * (x1 + x3) - a * (x1 + x2) == (x3 - x2) * a)
        by (nonlinear_arith);
    assert((x3 - x2) * (x3 + x2) + (x3 - x2) * x1 + (x3 - x2) * a == (x3 - x2) * t)
        by (nonlinear_arith)
        requires
            t == x3 + x2 + x1 + a,
    ;
    assert((l * l) * w - (l * l) * (x2 - x1) == (x3 - x2) * (l * l)) by (nonlinear_arith)
        requires
            w == x3 - x1,
    ;
    assert(h3 == h2);
    // f3 - line^2 = (f1 - y1^2) + w * h2 = 0
    assert(f3 - line * line == (f1 - y1 * y1) + w * h2);
    lemma_congruent_sub(f1, y1 * y1, y1 * y1, y1 * y1, p);
    lemma_congruent_mul(w, w, h2, 0, p);
    assert(w * 0 == 0);
    lemma_congruent_add(f1 - y1 * y1, 0, w * h2, 0, p);
    lemma_congruent_add(f3 - line * line, 0, line * line, line * line, p);
}

/// The right-hand side of the curve equation respects congruence.
proof fn lemma_rhs_congruent(x: int, x2: int, a: int, p: int)
    requires
        p > 0,
        congruent(x, x2, p),
    ensures
        congruent(x * (x * x) + a * (x * x) + x, x2 * (x2 * x2) + a * (x2 * x2) + x2, p),
{
    lemma_congruent_mul(x, x2, x, x2, p);
    lemma_congruent_mul(x, x2, x * x, x2 * x2, p);
    lemma_congruent_mul(a, a, x * x, x2 * x2, p);
    lemma_congruent_add(x * (x * x), x2 * (x2 * x2), a * (x * x), a * (x2 * x2), p);
    lemma_congruent_add(
        x * (x * x) + a * (x * x),
        x2 * (x2 * x2) + a * (x2 * x2),
        x,
        x2,
        p,
    );
}

/// The point that the chord and the tangent rule make of a slope `l`, from the x-coordinate
/// `x3 = l^2 - c` of the result: it lies on the curve if the line with that slope through
/// `(x1, y1)` meets the curve where [`lemma_third_point`] asks.
proof fn lemma_line_point_on_curve(
    x1: nat,
    y1: nat,
    x2: int,
    l: nat,
    c: nat,
    a: nat,
    p: nat,
)
    requires
        p > 0,
        on_curve(x1, y1, a, p),
        congruent(c as int, a + x1 + x2, p as int),
        congruent(
            x1 * x1 + x1 * x2 + x2 * x2 + a * (x1 + x2) + 1 - (l * l) * (x2 - x1) - 2 * (l * y1),
            0,
            p as int,
        ),
    ensures
        ({
            let x3 = fsub(fmul(l, l, p), c, p);
            let y3 = fsub(fmul(l, x1, p), fadd(fmul(l, x3, p), y1, p), p);
            on_curve(x3, y3, a, p)
        }),
{
    let pi = p as int;
    let (x1i, y1i, li, ai) = (x1 as int, y1 as int, l as int, a as int);
    let x3 = fsub(fmul(l, l, p), c, p);
    let y3 = fsub(fmul(l, x1, p), fadd(fmul(l, x3, p), y1, p), p);
    let x3i = li * li - ai - x1i - x2;
    let line = li * (x3i - x1i) + y1i;
    lemma_fmul_congruent(y1, y1, y1i, y1i, p);
    lemma_mod_twice(x1i * (x1i * x1i) + ai * (x1i * x1i) + x1i, pi);
    lemma_third_point(x1i, y1i, x2, li, ai, pi);
    // x3 and y3 as residues
    lemma_fmul_congruent(l, l, li, li, p);
    lemma_fsub_congruent(fmul(l, l, p), c, li * li, ai + x1i + x2, p);
    assert(congruent(x3 as int, x3i, pi));
    lemma_fmul_congruent(l, x1, li, x1i, p);
    lemma_fmul_congruent(l, x3, li, x3i, p);
    lemma_fadd_congruent(fmul(l, x3, p), y1, li * x3i, y1i, p);
    lemma_fsub_congruent(
        fmul(l, x1, p),
        fadd(fmul(l, x3, p), y1, p),
        li * x1i,
        li * x3i + y1i,
        p,
    );
    assert(li * x1i - (li * x3i + y1i) == -line) by (nonlinear_arith)
        requires
            line == li * (x3i - x1i) + y1i,
    ;
    assert(congruent(y3 as int, -line, pi));
    lemma_fmul_congruent(y3, y3, -line, -line, p);
    assert((-line) * (-line) == line * line) by (nonlinear_arith);
    let x3n = x3 as int;
    lemma_rhs_congruent(x3n, x3i, ai, pi);
    let rhs = x3n * (x3n * x3n) + ai * (x3n * x3n) + x3n;
    lemma_mod_twice(rhs, pi);
    assert(curve_rhs(a, x3, p) == rhs % pi);
    assert(congruent(fmul(y3, y3, p) as int, line * line, pi));
    assert(congruent(line * line, rhs, pi));
    lemma_small_mod(fmul(y3, y3, p), p);
    lemma_small_mod(curve_rhs(a, x3, p), p);
}

/// The chord rule stays on the curve: the sum of two curve points whose x-coordinates
/// differ by an invertible amount is a curve point.
pub proof fn lemma_chord_on_curve(x1: nat, y1: nat, x2: nat, y2: nat, a: nat, p: nat)
    requires
        p > 1,
        on_curve(x1, y1, a, p),
        on_curve(x2, y2, a, p),
        has_inverse(fsub(x2, x1, p), p),
    ensures
        ({
            let slope = fmul(fsub(y2, y1, p), finv(fsub(x2, x1, p), p), p);
            let x3 = chord_sum_x(x1, y1, x2, y2, a, p);
            let y3 = fsub(fmul(slope, x1, p), fadd(fmul(slope, x3, p), y1, p), p);
            on_curve(x3, y3, a, p)
        }),
{
    let pi = p as int;
    let (x1i, y1i, x2i, y2i, ai) = (x1 as int, y1 as int, x2 as int, y2 as int, a as int);
    let un = fsub(x2, x1, p);
    let iun = finv(un, p);
    assert(is_inverse(un, iun, p));
    let (u, iu) = (x2i - x1i, iun as int);
    let slope = fmul(fsub(y2, y1, p), iun, p);
    let l = slope as int;
    let f1 = x1i * (x1i * x1i) + ai * (x1i * x1i) + x1i;
    let f2 = x2i * (x2i * x2i) + ai * (x2i * x2i) + x2i;
    let g = x1i * x1i + x1i * x2i + x2i * x2i + ai * (x1i + x2i) + 1;
    let h = g - (l * l) * u - 2 * (l * y1i);
    lemma_small_mod(1, p);
    // l * u = y2 - y1
    lemma_fsub_congruent(x2, x1, x2i, x1i, p);
    lemma_congruent_mul(un as int, u, iu, iu, pi);
    lemma_fsub_congruent(y2, y1, y2i, y1i, p);
    lemma_fmul_congruent(fsub(y2, y1, p), iun, y2i - y1i, iu, p);
    lemma_congruent_mul(l, (y2i - y1i) * iu, u, u, pi);
    assert(((y2i - y1i) * iu) * u == (y2i - y1i) * (u * iu)) by (nonlinear_arith);
    lemma_congruent_mul(y2i - y1i, y2i - y1i, u * iu, 1, pi);
    assert((y2i - y1i) * 1 == y2i - y1i);
    assert(congruent(l * u, y2i - y1i, pi));
    // so the line passes through (x2, y2): u * h = (f2 - y2^2) - (f1 - y1^2) = 0
    let line2 = l * u + y1i;
    lemma_congruent_add(l * u, y2i - y1i, y1i, y1i, pi);
    lemma_congruent_mul(line2, y2i, line2, y2i, pi);
    lemma_fmul_congruent(y1, y1, y1i, y1i, p);
    lemma_fmul_congruent(y2, y2, y2i, y2i, p);
    lemma_mod_twice(f1, pi);
    lemma_mod_twice(f2, pi);
    lemma_chord_factor(x1i, x2i, ai);
    assert(line2 * line2 - y1i * y1i == u * ((l * l) * u + 2 * (l * y1i))) by (nonlinear_arith)
        requires
            line2 == l * u + y1i,
    ;
    assert(u * g - u * ((l * l) * u + 2 * (l * y1i)) == u * h) by (nonlinear_arith)
        requires
            h == g - (l * l) * u - 2 * (l * y1i),
    ;
    assert(u * h == (f2 - line2 * line2) - (f1 - y1i * y1i));
    lemma_congruent_sub(f2, y2i * y2i, line2 * line2, y2i * y2i, pi);
    lemma_congruent_sub(f1, y1i * y1i, y1i * y1i, y1i * y1i, pi);
    lemma_congruent_sub(f2 - line2 * line2, 0, f1 - y1i * y1i, 0, pi);
    assert(congruent(u * h, 0, pi));
    // and h = 0, as u has an inverse
    lemma_congruent_mul(u * h, 0, iu, iu, pi);
    assert((u * h) * iu == h * (u * iu)) by (nonlinear_arith);
    lemma_congruent_mul(h, h, u * iu, 1, pi);
    assert(h * 1 == h && 0 * iu == 0);
    assert(congruent(h, 0, pi));
    let cn = fadd(fadd(a, x1, p), x2, p);
    lemma_fadd_congruent(a, x1, ai, x1i, p);
    lemma_fadd_congruent(fadd(a, x1, p), x2, ai + x1i, x2i, p);
    lemma_line_point_on_curve(x1, y1, x2i, slope, cn, a, p);
}

/// The tangent rule stays on the curve: the double of a curve point `(x, y)` where `2 y`
/// has an inverse is a curve point.
pub proof fn lemma_tangent_on_curve(x: nat, y: nat, a: nat, p: nat)
    requires
        p > 1,
        on_curve(x, y, a, p),
        has_inverse(fmul(2, y, p), p),
    ensures
        ({
            let slope = tangent_slope(x, y, a, p);
            let x3 = tangent_double_x(x, y, a, p);
            let y3 = fsub(fmul(slope, x, p), fadd(fmul(slope, x3, p), y, p), p);
            on_curve(x3, y3, a, p)
        }),
{
    let pi = p as int;
    let (xi, yi, ai) = (x as int, y as int, a as int);
    let tn = fmul(2, y, p);
    let itn = finv(tn, p);
    assert(is_inverse(tn, itn, p));
    let (t, it) = (tn as int, itn as int);
    let slope = tangent_slope(x, y, a, p);
    let l = slope as int;
    let n = 3 * (xi * xi) + 2 * (ai * xi) + 1;
    lemma_small_mod(1, p);
    // l * 2 y = n
    lemma_mod_twice(n, pi);
    lemma_fmul_congruent((n % pi) as nat, itn, n, it, p);
    lemma_fmul_congruent(2, y, 2, yi, p);
    lemma_congruent_mul(l, n * it, t, t, pi);
    assert((n * it) * t == n * (t * it)) by (nonlinear_arith);
    lemma_congruent_mul(n, n, t * it, 1, pi);
    assert(n * 1 == n);
    lemma_congruent_mul(l, l, t, 2 * yi, pi);
    assert(l * (2 * yi) == 2 * (l * yi)) by (nonlinear_arith);
    assert(congruent(2 * (l * yi), n, pi));
    // h at x2 = x1
    let h = xi * xi + xi * xi + xi * xi + ai * (xi + xi) + 1 - (l * l) * (xi - xi) - 2 * (l
        * yi);
    assert(ai * (xi + xi) == 2 * (ai * xi) && (l * l) * (xi - xi) == 0) by (nonlinear_arith);
    lemma_congruent_sub(n, n, 2 * (l * yi), n, pi);
    lemma_small_mod(0, p);
    assert(h == n - 2 * (l * yi));
    assert(congruent(h, 0, pi));
    let cn = fadd(a, fmul(2, x, p), p);
    lemma_fmul_congruent(2, x, 2, xi, p);
    lemma_fadd_congruent(a, fmul(2, x, p), ai, 2 * xi, p);
    lemma_line_point_on_curve(x, y, xi, slope, cn, a, p);
}

} // verus!
