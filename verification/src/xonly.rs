//! The x-only arithmetic of a Montgomery curve, as mathematics.
//!
//! A point is a projective pair `(X : Z)` of residues modulo `p`; `Z = 0` is the point at
//! infinity. The curve enters only through `a24 = (A + 2) / 4`. These functions are what the
//! executable arithmetic of `montgomery_point` is proved to compute.
use vstd::prelude::*;

verus! {

/// A projective x-coordinate `(X : Z)`.
pub struct XZ {
    pub x: nat,
    pub z: nat,
}

/// The point at infinity, in the form the library writes it: `(1 : 0)`.
pub open spec fn xz_infinity(p: nat) -> XZ {
    XZ { x: 1nat % p, z: 0 }
}

/// Doubling: `X' = (X + Z)^2 (X - Z)^2`, `Z' = 4XZ ((X - Z)^2 + a24 * 4XZ)`.
pub open spec fn xz_double(pt: XZ, a24: nat, p: nat) -> XZ {
    let (x, z, a) = (pt.x as int, pt.z as int, a24 as int);
    XZ {
        x: (((x + z) * (x + z) * ((x - z) * (x - z))) % (p as int)) as nat,
        z: ((4 * x * z * ((x - z) * (x - z) + a * (4 * x * z))) % (p as int)) as nat,
    }
}

/// Differential addition: from `P`, `Q` and `P - Q` to `P + Q`:
/// `X' = 4 Z_d (X_p X_q - Z_p Z_q)^2`, `Z' = 4 X_d (X_p Z_q - Z_p X_q)^2`.
pub open spec fn xz_diff_add(pt: XZ, qt: XZ, diff: XZ, p: nat) -> XZ {
    let (x1, z1) = (pt.x as int, pt.z as int);
    let (x2, z2) = (qt.x as int, qt.z as int);
    let (x3, z3) = (diff.x as int, diff.z as int);
    XZ {
        x: ((4 * z3 * ((x1 * x2 - z1 * z2) * (x1 * x2 - z1 * z2))) % (p as int)) as nat,
        z: ((4 * x3 * ((x1 * z2 - z1 * x2) * (x1 * z2 - z1 * x2))) % (p as int)) as nat,
    }
}

/// The state of the Montgomery ladder after the bits of `k`: the pair that stands for
/// `(kP, (k + 1)P)`. It starts from `(P, 2P)` at `k = 1`; each further bit doubles one of the
/// two and adds them with difference `P`.
pub open spec fn xz_ladder(pt: XZ, k: nat, a24: nat, p: nat) -> (XZ, XZ)
    decreases k,
{
    if k <= 1 {
        (pt, xz_double(pt, a24, p))
    } else {
        let (r0, r1) = xz_ladder(pt, k / 2, a24, p);
        if k % 2 == 0 {
            (xz_double(r0, a24, p), xz_diff_add(r0, r1, pt, p))
        } else {
            (xz_diff_add(r1, r0, pt, p), xz_double(r1, a24, p))
        }
    }
}

/// Scalar multiplication `k * P` by the ladder, for `k >= 1`.
pub open spec fn xz_mul(pt: XZ, k: nat, a24: nat, p: nat) -> XZ {
    xz_ladder(pt, k, a24, p).0
}

/// The multiple that follows `cur` in the enumeration `P, 2P, 3P, ...`, where `prev` is the
/// multiple before `cur`. From infinity the enumeration starts over at `P`; where `cur` has
/// the `X` of `P` it doubles `P`; everywhere else it adds `P` to `cur` with difference `prev`.
pub open spec fn xz_next_multiple(cur: XZ, prev: XZ, pt: XZ, a24: nat, p: nat) -> XZ {
    if cur.z == 0 {
        pt
    } else if cur.x == pt.x {
        xz_double(pt, a24, p)
    } else {
        xz_diff_add(cur, pt, prev, p)
    }
}

/// The multiple that stands before the next one: `cur`, except that a restart from infinity
/// leaves `prev` as it is.
pub open spec fn xz_next_previous(cur: XZ, prev: XZ) -> XZ {
    if cur.z == 0 {
        prev
    } else {
        cur
    }
}

/// The enumeration after `n` steps, as the pair (`n`-th multiple, the one before it).
pub open spec fn xz_multiples(pt: XZ, n: nat, a24: nat, p: nat) -> (XZ, XZ)
    decreases n,
{
    if n == 0 {
        (xz_infinity(p), xz_infinity(p))
    } else {
        let (cur, prev) = xz_multiples(pt, (n - 1) as nat, a24, p);
        (xz_next_multiple(cur, prev, pt, a24, p), xz_next_previous(cur, prev))
    }
}

/// The `n`-th item of the enumeration of the multiples of `P`, counted from 1.
pub open spec fn xz_multiple(pt: XZ, n: nat, a24: nat, p: nat) -> XZ {
    xz_multiples(pt, n, a24, p).0
}

/// Equality of projective points: both at infinity, or neither and `X_p Z_q = Z_p X_q`.
pub open spec fn xz_same_point(pt: XZ, qt: XZ, p: nat) -> bool {
    if pt.z == 0 && qt.z == 0 {
        true
    } else if pt.z == 0 || qt.z == 0 {
        false
    } else {
        (pt.x * qt.z) % p == (pt.z * qt.x) % p
    }
}

/// Both coordinates are reduced residues.
pub open spec fn xz_reduced(pt: XZ, p: nat) -> bool {
    pt.x < p && pt.z < p
}

/// The multiples of a point with reduced coordinates have reduced coordinates.
pub proof fn lemma_multiples_reduced(pt: XZ, n: nat, a24: nat, p: nat)
    requires
        p > 1,
        xz_reduced(pt, p),
    ensures
        xz_reduced(xz_multiples(pt, n, a24, p).0, p),
        xz_reduced(xz_multiples(pt, n, a24, p).1, p),
    decreases n,
{
    if n == 0 {
        vstd::arithmetic::div_mod::lemma_small_mod(1, p);
    } else {
        lemma_multiples_reduced(pt, (n - 1) as nat, a24, p);
        let (cur, prev) = xz_multiples(pt, (n - 1) as nat, a24, p);
        let next = xz_next_multiple(cur, prev, pt, a24, p);
        let pi = p as int;
        let d = xz_double(pt, a24, p);
        let s = xz_diff_add(cur, pt, prev, p);
        assert(xz_reduced(d, p)) by {
            let (x, z, a) = (pt.x as int, pt.z as int, a24 as int);
            vstd::arithmetic::div_mod::lemma_mod_bound((x + z) * (x + z) * ((x - z) * (x - z)), pi);
            vstd::arithmetic::div_mod::lemma_mod_bound(
                4 * x * z * ((x - z) * (x - z) + a * (4 * x * z)),
                pi,
            );
        }
        assert(xz_reduced(s, p)) by {
            let (x1, z1) = (cur.x as int, cur.z as int);
            let (x2, z2) = (pt.x as int, pt.z as int);
            let (x3, z3) = (prev.x as int, prev.z as int);
            vstd::arithmetic::div_mod::lemma_mod_bound(
                4 * z3 * ((x1 * x2 - z1 * z2) * (x1 * x2 - z1 * z2)),
                pi,
            );
            vstd::arithmetic::div_mod::lemma_mod_bound(
                4 * x3 * ((x1 * z2 - z1 * x2) * (x1 * z2 - z1 * x2)),
                pi,
            );
        }
    }
}

/// The ladder and the enumeration agree on the first three multiples of a finite point:
/// always on `P` and `2P`, and on `3P` unless `2P` is infinity or has the `X` of `P`, where
/// the enumeration starts over or doubles again.
pub proof fn lemma_ladder_meets_multiples(pt: XZ, k: nat, a24: nat, p: nat)
    requires
        pt.z != 0,
        1 <= k <= 3,
        k == 3 ==> xz_double(pt, a24, p).z != 0 && xz_double(pt, a24, p).x != pt.x,
    ensures
        xz_mul(pt, k, a24, p) == xz_multiple(pt, k, a24, p),
{
    reveal_with_fuel(xz_ladder, 3);
    reveal_with_fuel(xz_multiples, 4);
}

} // verus!
