use crypto_bigint::{Random, Uint};
use csidh::field::FieldElement;

fn fe(n: u64) -> FieldElement {
    FieldElement::new(&Uint::from(n), &Uint::from(419u64))
}

#[test]
fn field_addition_wraps_at_the_modulus() {
    assert_eq!(fe(400).add(&fe(30)), fe(11));
}

#[test]
fn field_subtraction_wraps_below_zero() {
    assert_eq!(fe(3).sub(&fe(5)), fe(417));
}

#[test]
fn field_product_and_square() {
    assert_eq!(fe(20).mul(&fe(21)), fe(1));
    assert_eq!(fe(100).square(), fe(363));
}

#[test]
fn field_inverse_of_four_is_105() {
    assert_eq!(fe(4).inv(), Some(fe(105)));
    assert_eq!(fe(0).inv(), None);
}

#[test]
fn field_power() {
    assert_eq!(fe(2).pow(&Uint::from(10u64)), fe(186));
    assert_eq!(fe(7).pow(&Uint::from(0u64)), fe(1));
}

#[test]
fn field_new_reduces_its_argument() {
    assert_eq!(fe(420), fe(1));
    assert_eq!(fe(1).small(838), fe(0));
    assert!(fe(419).is_zero());
    assert_eq!(fe(5).retrieve(), Uint::from(5u64));
    assert_eq!(fe(5).modulus_value(), Uint::from(419u64));
}

#[test]
fn field_negation() {
    assert_eq!(fe(5).neg(), fe(414));
    assert_eq!(fe(0).neg(), fe(0));
    assert_eq!(fe(5).neg().add(&fe(5)), fe(0));
}

#[test]
fn field_elements_of_different_fields_differ() {
    let other = FieldElement::new(&Uint::from(5u64), &Uint::from(421u64));
    assert!(fe(5) != other);
    assert!(!fe(5).shares_field(&other));
    assert!(fe(5).shares_field(&fe(6)));
}

#[test]
fn field_laws_on_random_elements() {
    let params = csidh::CsidhParams::csidh_512();
    let one = params.inverse_of_4().small(1);
    let mut rng = rand::thread_rng();
    for _ in 0..20 {
        let a = one.reduce(&Uint::random(&mut rng));
        let b = one.reduce(&Uint::random(&mut rng));
        let c = one.reduce(&Uint::random(&mut rng));
        assert_eq!(a.add(&b).sub(&b), a);
        assert_eq!(a.mul(&b.add(&c)), a.mul(&b).add(&a.mul(&c)));
        assert_eq!(a.square(), a.mul(&a));
        assert_eq!(a.neg(), one.small(0).sub(&a));
        assert_eq!(a.pow(&Uint::from(3u64)), a.mul(&a).mul(&a));
        if let Some(inverse) = a.inv() {
            assert_eq!(a.mul(&inverse), one);
        } else {
            assert!(a.is_zero());
        }
    }
}
