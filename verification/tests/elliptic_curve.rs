use crypto_bigint::Uint;
use csidh::{CsidhEllipticCurve, CsidhParams, FieldElement, MontgomeryCurve, MontgomeryPoint, Point};

// p = 4 * 3 * 5 * 7 - 1 = 419
fn example_0() -> CsidhParams {
    let inverse_of_4 = FieldElement::new(&Uint::from(105u32), &Uint::from(419u32));
    CsidhParams::new(vec![3, 5, 7], Uint::from(209u32), inverse_of_4, Uint::from(82u32))
}

fn fe(n: u32) -> FieldElement {
    FieldElement::new(&Uint::from(n), &Uint::from(419u32))
}

#[test]
fn test_point_lifting() {
    let params = example_0();
    let e = CsidhEllipticCurve::new(&params, fe(0));

    let x = fe(193);
    let y = fe(116);
    let point = e.lift(x);
    assert!(point == Some(Point::new_aff(&e, x, y)));

    let x = fe(132);
    let y = fe(48);
    let point = e.lift(x);
    assert!(point == Some(Point::new_aff(&e, x, y)));

    let x = fe(7);
    let point = e.lift(x);
    assert!(point.is_none());
}

#[test]
fn test_point_addition() {
    let params = example_0();
    let e = CsidhEllipticCurve::new(&params, fe(0));

    let point_a = Point::new_aff(&e, fe(132), fe(48));
    let point_b = Point::new_aff(&e, fe(380), fe(130));
    let point_c = Point::new_aff(&e, fe(161), fe(331));
    assert!(point_a.add(&point_b).unwrap() == point_c);

    let point_d = Point::new_aff(&e, fe(74), fe(214));
    let point_e = Point::infinity(&e);
    assert!(point_d.add(&point_e).unwrap() == point_d);

    let point_f = Point::new_aff(&e, fe(417), fe(165));
    let point_g = Point::new_aff(&e, fe(417), fe(254));
    assert!(point_f.add(&point_g).unwrap() == point_e);
}

#[test]
fn test_point_doubling() {
    let params = example_0();
    let e = CsidhEllipticCurve::new(&params, fe(0));

    let point_a = Point::new_aff(&e, fe(74), fe(214));
    let point_b = Point::new_aff(&e, fe(139), fe(35));
    assert!(point_a.add(&point_a).unwrap() == point_b);

    let point_c = Point::new_aff(&e, fe(61), fe(319));
    let point_d = Point::new_aff(&e, fe(413), fe(240));
    assert!(point_c.add(&point_c).unwrap() == point_d);

    let point_e = Point::infinity(&e);
    assert!(point_e.add(&point_e).unwrap() == point_e);
}

#[test]
fn test_point_multiplication_by_2() {
    let params = example_0();
    let e = CsidhEllipticCurve::new(&params, fe(0));

    let point_a = Point::new_aff(&e, fe(74), fe(205));
    let point_b = Point::new_aff(&e, fe(139), fe(384));
    assert!(point_a.mul_u64(2).unwrap() == point_b);
}

#[test]
fn test_point_multiplication() {
    let params = example_0();
    let e = CsidhEllipticCurve::new(&params, fe(0));

    let point_a = Point::new_aff(&e, fe(74), fe(214));
    let point_b = Point::new_aff(&e, fe(56), fe(207));
    assert!(point_a.mul_u64(3).unwrap() == point_b);

    let point_c = Point::new_aff(&e, fe(417), fe(165));
    let point_d = Point::infinity(&e);
    assert!(point_c.mul_u64(70).unwrap() == point_d);
}

#[test]
fn coordinates_of_points() {
    let e = CsidhEllipticCurve::new(&example_0(), fe(0));
    let point = Point::new_aff(&e, fe(74), fe(214));
    assert_eq!(point.x(), Some(fe(74)));
    assert_eq!(point.y(), Some(fe(214)));
    assert!(!point.is_infinity());
    let infinity = Point::infinity(&e);
    assert_eq!(infinity.x(), None);
    assert_eq!(infinity.y(), None);
    assert!(infinity.is_infinity());
    assert!(point != infinity);
    assert!(point != Point::new_aff(&e, fe(74), fe(205)));
    assert_eq!(e.a2(), fe(0));
    assert_eq!(e.field_characteristic(), Uint::<8>::from(419u32));
    assert!(e == CsidhEllipticCurve::new(&example_0(), fe(419)));
    assert!(e != CsidhEllipticCurve::new(&example_0(), fe(158)));
}

#[test]
fn multiples_by_large_and_small_factors() {
    let e = CsidhEllipticCurve::new(&example_0(), fe(0));
    let point = Point::new_aff(&e, fe(193), fe(116));
    assert!(point.mul_u64(0).unwrap().is_infinity());
    assert!(point.mul_u64(1).unwrap() == point);
    assert!(point.mul_u64(420).unwrap().is_infinity());
    assert!(point.mul(&Uint::from(421u32)).unwrap() == point);
    let mut sum = Point::infinity(&e);
    for k in 0..30u64 {
        assert!(point.mul_u64(k).unwrap() == sum, "k = {k}");
        sum = sum.add(&point).unwrap();
    }
}

#[test]
fn point_of_order_two_lifts_with_both_coordinates() {
    let e = CsidhEllipticCurve::new(&example_0(), fe(0));
    let point = e.lift(fe(0)).unwrap();
    assert!(point == Point::new_aff(&e, fe(0), fe(0)));
    assert!(point.add(&point).unwrap().is_infinity());
}

#[test]
fn first_candidate_with_a_point() {
    let e = CsidhEllipticCurve::new(&example_0(), fe(0));
    let mut rng = oorandom::Rand64::new(816958178u128);
    let draws: Vec<Uint<8>> = (0..20).map(|_| Uint::from(rng.rand_u64())).collect();
    let point = e.random_point(&draws).unwrap();
    let first = draws.iter().find(|x| e.lift(fe(0).reduce(x)).is_some()).unwrap();
    assert_eq!(point.x(), Some(fe(0).reduce(first)));
    assert!(e.random_point(&vec![Uint::from(7u32)]).is_none());
}

#[test]
fn x_only_arithmetic_follows_the_group_law() {
    let params = example_0();
    let e = CsidhEllipticCurve::new(&params, fe(0));
    let curve = MontgomeryCurve::new(&params, fe(0));
    let p = e.lift(fe(193)).unwrap();
    let q = e.lift(fe(132)).unwrap();
    let xp = MontgomeryPoint::new_reduced(&curve, fe(193));
    let xq = MontgomeryPoint::new_reduced(&curve, fe(132));
    // doubling
    let twice = p.add(&p).unwrap();
    assert!(xp.double() == MontgomeryPoint::new_reduced(&curve, twice.x().unwrap()));
    // differential addition, with the difference P - Q = P + (-Q)
    let minus_q = Point::new_aff(&e, q.x().unwrap(), q.y().unwrap().neg());
    let sum = p.add(&q).unwrap();
    let difference = p.add(&minus_q).unwrap();
    let xd = MontgomeryPoint::new_reduced(&curve, difference.x().unwrap());
    assert!(
        xp.differential_add(&xq, &xd) == MontgomeryPoint::new_reduced(&curve, sum.x().unwrap())
    );
    // scalar multiples
    for k in 1..40u64 {
        let multiple = p.mul_u64(k).unwrap();
        let ladder = xp.mul(&Uint::from(k));
        match multiple.x() {
            Some(x) => assert!(ladder == MontgomeryPoint::new_reduced(&curve, x), "k = {k}"),
            None => assert!(ladder.is_infinity()),
        }
    }
}

#[test]
fn supersingularity_of_both_kinds_of_curve() {
    let params = example_0();
    let draws: Vec<Uint<8>> = (1..30u32).map(Uint::from).collect();
    let e = CsidhEllipticCurve::new(&params, fe(158));
    assert_eq!(e.is_supersingular(&params, &draws), csidh::Verdict::Supersingular);
    let ordinary = CsidhEllipticCurve::new(&params, fe(3));
    assert_eq!(ordinary.is_supersingular(&params, &draws), csidh::Verdict::Ordinary);
}
