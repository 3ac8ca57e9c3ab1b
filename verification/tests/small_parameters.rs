use crypto_bigint::Uint;
use csidh::{
    csidh, CsidhParams, FieldElement, MontgomeryCurve, MontgomeryPoint, PrivateKey, PublicKey,
    SharedSecret, Verdict, Walk,
};

// p = 4 * 3 * 5 * 7 - 1 = 419
fn params() -> CsidhParams {
    let inverse_of_4 = FieldElement::new(&Uint::from(105u32), &Uint::from(419u32));
    CsidhParams::new(vec![3, 5, 7], Uint::from(209u32), inverse_of_4, Uint::from(82u32))
}

fn fe(n: u64) -> FieldElement {
    FieldElement::new(&Uint::from(n), &Uint::from(419u32))
}

fn numbers(list: &[u64]) -> Vec<Uint<8>> {
    list.iter().map(|n| Uint::from(*n)).collect()
}

const DRAWS: [u64; 47] = [
    197, 388, 215, 20, 132, 261, 248, 207, 401, 155, 244, 183, 298, 111, 258, 71, 144, 71, 386,
    48, 316, 409, 128, 272, 361, 414, 308, 75, 158, 50, 373, 37, 350, 169, 241, 286, 51, 181, 222,
    161, 312, 327, 104, 282, 244, 226, 266,
];

const OTHER_DRAWS: [u64; 52] = [
    28, 46, 43, 184, 86, 376, 414, 342, 157, 128, 310, 108, 310, 18, 297, 348, 81, 220, 326, 201,
    411, 370, 260, 190, 278, 227, 257, 137, 18, 14, 186, 238, 163, 194, 216, 269, 84, 286, 90,
    120, 118, 12, 90, 166, 88, 69, 261, 261, 184, 263, 345, 286,
];

fn affine(point: &MontgomeryPoint) -> FieldElement {
    point.Z().inv().map(|z| point.X().mul(&z)).unwrap()
}

#[test]
fn curve_constants() {
    let curve = MontgomeryCurve::new(&params(), fe(0));
    assert_eq!(curve.a2(), fe(0));
    assert_eq!(curve.a24(), fe(210));
    assert_eq!(MontgomeryCurve::new(&params(), fe(158)).a24(), fe(40));
    assert!(curve == MontgomeryCurve::new(&params(), fe(419)));
    assert!(curve != MontgomeryCurve::new(&params(), fe(158)));
}

#[test]
fn lifting_tells_the_curve_from_its_twist() {
    let curve = MontgomeryCurve::new(&params(), fe(0));
    assert_eq!(curve.lift(fe(193)), Some(MontgomeryPoint::new_reduced(&curve, fe(193))));
    assert_eq!(curve.lift(fe(132)), Some(MontgomeryPoint::new_reduced(&curve, fe(132))));
    assert!(curve.lift(fe(7)).is_none());
    // x = 0 is the point of order 2, where the right-hand side is zero
    assert!(curve.lift(fe(0)).is_none());
}

#[test]
fn doubling_and_ladder_on_a_small_curve() {
    let curve = MontgomeryCurve::new(&params(), fe(0));
    let point = MontgomeryPoint::new_reduced(&curve, fe(10));
    assert_eq!(affine(&point.double()), fe(295));
    assert_eq!(affine(&point.mul(&Uint::from(1u32))), fe(10));
    assert_eq!(affine(&point.mul(&Uint::from(2u32))), fe(295));
    assert_eq!(affine(&point.mul(&Uint::from(3u32))), fe(229));
    assert_eq!(affine(&point.mul(&Uint::from(5u32))), fe(143));
    assert_eq!(affine(&point.mul(&Uint::from(105u32))), fe(418));
    assert!(point.mul(&Uint::from(420u32)).is_infinity());
    assert_eq!(point.x(), fe(10));
    assert_eq!(point.double().x(), fe(295));
}

#[test]
fn ladder_agrees_with_the_enumeration() {
    let curve = MontgomeryCurve::new(&params(), fe(0));
    let point = MontgomeryPoint::new_reduced(&curve, fe(10));
    let expected = [10, 295, 229, 20, 143, 252];
    let mut enumeration = point.multiples(Uint::from(6u32));
    let mut k = 0u32;
    while let Some(multiple) = enumeration.next() {
        k += 1;
        assert_eq!(affine(&multiple), fe(expected[(k - 1) as usize]));
        assert!(multiple == point.mul(&Uint::from(k)));
    }
    assert_eq!(k, 6);
    assert!(enumeration.next().is_none());
}

#[test]
fn differential_addition() {
    let curve = MontgomeryCurve::new(&params(), fe(0));
    let point = MontgomeryPoint::new_reduced(&curve, fe(10));
    let twice = point.double();
    let thrice = twice.differential_add(&point, &point);
    assert_eq!(affine(&thrice), fe(229));
    let (sum, double) = twice.differential_add_and_double(&point, &point);
    assert!(sum == thrice);
    assert_eq!(affine(&double), fe(20));
}

#[test]
fn equality_is_projective() {
    let curve = MontgomeryCurve::new(&params(), fe(0));
    let point = MontgomeryPoint::new_reduced(&curve, fe(10));
    assert!(point == MontgomeryPoint::new(&curve, fe(20), fe(2)));
    assert!(point != MontgomeryPoint::new(&curve, fe(20), fe(3)));
    assert!(MontgomeryPoint::infinity(&curve) == MontgomeryPoint::new(&curve, fe(5), fe(0)));
    assert!(point != MontgomeryPoint::infinity(&curve));
    assert!(MontgomeryPoint::infinity(&curve).is_infinity());
    assert!(!point.is_infinity());
}

#[test]
fn order_two_point_where_ladder_and_enumeration_part() {
    let curve = MontgomeryCurve::new(&params(), fe(0));
    let point = MontgomeryPoint::new(&curve, fe(0), fe(1));
    assert!(point.double().is_infinity());
    // the enumeration starts over after infinity; the ladder degenerates
    let mut enumeration = point.multiples(Uint::from(3u32));
    enumeration.next();
    enumeration.next();
    assert!(enumeration.next().unwrap() == point);
    assert!(point.mul(&Uint::from(3u32)).is_infinity());
}

#[test]
fn action_of_single_primes() {
    let params = params();
    assert_eq!(csidh(&params, &vec![1, 0, 0], fe(0), &numbers(&OTHER_DRAWS)), Some(fe(158)));
    assert_eq!(csidh(&params, &vec![0, 1, 0], fe(0), &numbers(&DRAWS)), Some(fe(199)));
    assert_eq!(csidh(&params, &vec![0, 0, 1], fe(0), &numbers(&DRAWS)), Some(fe(75)));
}

#[test]
fn action_of_mixed_vectors() {
    let params = params();
    assert_eq!(csidh(&params, &vec![1, 1, 1], fe(0), &numbers(&DRAWS)), Some(fe(6)));
    assert_eq!(csidh(&params, &vec![2, 3, 1], fe(0), &numbers(&DRAWS)), Some(fe(295)));
    assert_eq!(csidh(&params, &vec![3, 0, 7], fe(0), &numbers(&DRAWS)), Some(fe(124)));
}

#[test]
fn full_exponents_take_no_dummy_step() {
    let params = params();
    assert_eq!(csidh(&params, &vec![10, 10, 10], fe(0), &numbers(&DRAWS)), Some(fe(6)));
}

#[test]
fn action_commutes() {
    let params = params();
    let draws = numbers(&DRAWS);
    let a = vec![4, 1, 2];
    let b = vec![2, 2, 5];
    let to_a = csidh(&params, &a, fe(0), &draws).unwrap();
    let to_b = csidh(&params, &b, fe(0), &draws).unwrap();
    assert_eq!(to_a, fe(261));
    assert_eq!(to_b, fe(51));
    assert_eq!(csidh(&params, &a, to_b, &draws), Some(fe(15)));
    assert_eq!(csidh(&params, &b, to_a, &draws), Some(fe(15)));
}

#[test]
fn draws_that_run_out() {
    let params = params();
    assert_eq!(csidh(&params, &vec![1, 1, 1], fe(0), &numbers(&DRAWS[..5])), None);
    assert_eq!(csidh(&params, &vec![1, 1, 1], fe(0), &Vec::new()), None);
    assert_eq!(csidh(&params, &vec![0, 0, 0], fe(9), &Vec::new()), Some(fe(9)));
}

#[test]
fn degenerate_kernel_point_ends_the_walk() {
    // in so small a field a multiple of a kernel point may lose its affine x-coordinate
    let params = params();
    assert_eq!(csidh(&params, &vec![1, 0, 0], fe(0), &numbers(&DRAWS[..12])), None);
}

#[test]
fn walk_round_by_round() {
    let params = params();
    let path = vec![2, 3, 1];
    let mut walk = Walk::new(&params, &path, fe(0));
    assert_eq!(walk.coefficient(), fe(0));
    assert!(!walk.finished());
    let mut used = 0;
    for x in DRAWS.iter() {
        if walk.finished() {
            break;
        }
        walk = walk.step(fe(*x)).unwrap();
        used += 1;
    }
    assert!(walk.finished());
    assert_eq!(used, 34);
    assert_eq!(walk.coefficient(), fe(295));
}

#[test]
fn candidate_on_the_twist_changes_nothing() {
    let params = params();
    let path = vec![1, 1, 1];
    let walk = Walk::new(&params, &path, fe(0));
    let walk = walk.step(fe(7)).unwrap();
    assert_eq!(walk.coefficient(), fe(0));
    assert!(!walk.finished());
}

#[test]
fn key_exchange() {
    let draws = numbers(&DRAWS);
    let alice = PrivateKey::new(params(), vec![4, 1, 2]);
    let bob = PrivateKey::new(params(), vec![2, 2, 5]);
    assert_eq!(alice.key(), &vec![4, 1, 2]);
    assert_eq!(alice.params().lis(), &vec![3, 5, 7]);
    let alice_public = PublicKey::from(&alice, &draws).unwrap();
    let bob_public = PublicKey::from(&bob, &draws).unwrap();
    assert_eq!(alice_public.key(), fe(261));
    assert_eq!(bob_public.key(), fe(51));
    let alice_secret = SharedSecret::from(bob_public, &alice, &draws).unwrap();
    let bob_secret = SharedSecret::from(alice_public, &bob, &draws).unwrap();
    assert_eq!(alice_secret, bob_secret);
    assert!(PublicKey::from(&alice, &Vec::new()).is_none());
    assert!(SharedSecret::from(bob_public, &alice, &Vec::new()).is_none());
}

#[test]
fn order_of_points_decides_supersingularity() {
    let params = params();
    let curve = MontgomeryCurve::new(&params, fe(0));
    let full = curve.lift(fe(10)).unwrap();
    assert_eq!(curve.order_check(&params, &full), Verdict::Supersingular);
    let small = curve.lift(fe(13)).unwrap();
    assert_eq!(curve.order_check(&params, &small), Verdict::Undecided);
    let ordinary = MontgomeryCurve::new(&params, fe(1));
    let point = ordinary.lift(fe(3)).unwrap();
    assert_eq!(ordinary.order_check(&params, &point), Verdict::Ordinary);
}

#[test]
fn supersingularity_from_candidates() {
    let params = params();
    let curve = MontgomeryCurve::new(&params, fe(158));
    // 1 and 2 do not lift, 3 to 12 do not decide, 13 does
    assert_eq!(curve.is_supersingular(&params, &numbers(&[1, 2, 3, 7, 8])), Verdict::Undecided);
    assert_eq!(
        curve.is_supersingular(&params, &numbers(&[1, 2, 3, 7, 8, 11, 12, 13])),
        Verdict::Supersingular
    );
    let ordinary = MontgomeryCurve::new(&params, fe(3));
    assert_eq!(ordinary.is_supersingular(&params, &numbers(&[1, 2, 4])), Verdict::Ordinary);
    assert_eq!(ordinary.is_supersingular(&params, &Vec::new()), Verdict::Undecided);
}

#[test]
fn first_candidate_that_lifts() {
    let params = params();
    let curve = MontgomeryCurve::new(&params, fe(0));
    let point = curve.random_point(&numbers(&[7, 0, 193, 132])).unwrap();
    assert!(point == MontgomeryPoint::new_reduced(&curve, fe(193)));
    assert!(curve.random_point(&numbers(&[7, 0])).is_none());
}

#[test]
fn validation_of_foreign_keys() {
    let params = params();
    let draws = numbers(&DRAWS);
    // the keys that the walk produced are accepted
    for key in [261u32, 51, 15, 158, 295] {
        let public = PublicKey::new(&params, Uint::from(key), &draws).unwrap();
        assert_eq!(public.key(), fe(key as u64));
    }
    // coefficients of ordinary curves are not
    assert!(PublicKey::new(&params, Uint::from(1u32), &draws).is_none());
    assert!(PublicKey::new(&params, Uint::from(3u32), &draws).is_none());
    // the key is reduced modulo p
    let public = PublicKey::new(&params, Uint::from(419u32 + 261), &draws).unwrap();
    assert_eq!(public.key(), fe(261));
    // nothing is accepted without evidence
    assert!(PublicKey::new(&params, Uint::from(261u32), &Vec::new()).is_none());
}

#[test]
fn parameters_that_fit_together() {
    assert!(params().is_valid());
    assert!(CsidhParams::csidh_512().is_valid());
    assert!(params() == params().clone());
    assert!(params() != CsidhParams::csidh_512());
}

#[test]
fn parameters_that_do_not_fit() {
    let quarter = fe(105);
    let make = |lis: Vec<u64>, half: u32, quarter: FieldElement, sqrt: u32| {
        CsidhParams::new(lis, Uint::from(half), quarter, Uint::from(sqrt))
    };
    assert!(make(vec![3, 5, 7], 209, quarter, 82).is_valid());
    // the product of the primes does not give the modulus
    assert!(!make(vec![3, 5, 11], 209, quarter, 82).is_valid());
    assert!(!make(vec![], 209, quarter, 82).is_valid());
    // a prime that is repeated, even, or too small
    assert!(!make(vec![3, 5, 7, 1], 209, quarter, 82).is_valid());
    assert!(!make(vec![105, 1], 209, quarter, 82).is_valid());
    // the constants
    assert!(!make(vec![3, 5, 7], 210, quarter, 82).is_valid());
    assert!(!make(vec![3, 5, 7], 208, quarter, 82).is_valid());
    assert!(!make(vec![3, 5, 7], 209, fe(104), 82).is_valid());
    assert!(!make(vec![3, 5, 7], 209, quarter, 81).is_valid());
    assert!(!make(vec![3, 5, 7], 209, quarter, 83).is_valid());
    assert!(!make(vec![3, 5, 7], 209, quarter, 0).is_valid());
    // another field
    let elsewhere = FieldElement::new(&Uint::from(105u32), &Uint::from(421u32));
    assert!(!make(vec![3, 5, 7], 209, elsewhere, 82).is_valid());
    // primes whose product does not fit into 512 bits
    let huge = vec![u64::MAX; 9];
    assert!(!make(huge, 209, quarter, 82).is_valid());
}

#[test]
fn exponent_vectors() {
    let params = params();
    assert!(PrivateKey::accepts(&params, &vec![0, 10, 5]));
    assert!(!PrivateKey::accepts(&params, &vec![0, 11, 5]));
    assert!(!PrivateKey::accepts(&params, &vec![0, 1]));
    assert!(!PrivateKey::accepts(&params, &vec![0, 1, 2, 3]));
}

#[test]
fn lift_accepts_exactly_the_non_zero_squares() {
    let params = params();
    let squares: Vec<u64> = (1..419u64).map(|r| r * r % 419).collect();
    for a in [0u64, 158, 295, 6] {
        let curve = MontgomeryCurve::new(&params, fe(a));
        for x in 0..419u64 {
            let n = (x * x * x + a * x * x + x) % 419;
            assert_eq!(curve.lift(fe(x)).is_some(), squares.contains(&n), "A = {a}, x = {x}");
        }
    }
}

#[test]
fn doubling_is_the_tangent_rule() {
    // (10, y) with y^2 = 10^3 + 10 on the curve with A = 0
    let y = (1..419u64).find(|y| y * y % 419 == 1010 % 419).unwrap();
    let slope = fe(3 * 10 * 10 + 1).mul(&fe(2 * y).inv().unwrap());
    let x3 = slope.square().sub(&fe(2 * 10));
    let curve = MontgomeryCurve::new(&params(), fe(0));
    let twice = MontgomeryPoint::new_reduced(&curve, fe(10)).double();
    assert_eq!(twice.X(), x3.mul(&twice.Z()));
    assert_eq!(x3, fe(295));
}
