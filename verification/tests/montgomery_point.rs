use crypto_bigint::Uint;
use csidh::{CsidhParams, FieldElement, MontgomeryCurve, MontgomeryPoint};

fn curve() -> MontgomeryCurve {
    let params = CsidhParams::csidh_512();
    let zero = params.inverse_of_4().small(0);
    MontgomeryCurve::new(&params, zero)
}

fn element(hex: &str) -> FieldElement {
    CsidhParams::csidh_512().inverse_of_4().reduce(&Uint::from_be_hex(hex))
}

fn point() -> MontgomeryPoint {
    MontgomeryPoint::new_reduced(
        &curve(),
        element(
            "635ea6487c006e601469a7c3030538397a1a038bf3a45d02b60ac813ffbc5b62\
             08082059de864765636def621e70a71addf24e43ef931aaf2791ee3c89c6155a",
        ),
    )
}

fn point_times_2() -> MontgomeryPoint {
    MontgomeryPoint::new_reduced(
        &curve(),
        element(
            "06943b90d5222a3d53eb510f4c2a87101b2413f8fd22f8cad1bd3a44be42d06a\
             5c528bef417d9a41cc81b6feb56cb69ef9bc50163a2e36cabf2684430aa79f6f",
        ),
    )
}

fn point_times_3() -> MontgomeryPoint {
    MontgomeryPoint::new_reduced(
        &curve(),
        element(
            "56227716288d568bcdf9022b3cbd0f5c3beea951cfe95a82050fa9fc8d9d9941\
             9765dcd54a0feaa21527a13d69f5d19d7d7d9b32fcf4032a3d632736d0c1a6cd",
        ),
    )
}

fn point_times_4() -> MontgomeryPoint {
    MontgomeryPoint::new_reduced(
        &curve(),
        element(
            "0ac1132970689f6ec5e1b5c1103fe67813355ae1ccdcc75d5c44a50f76287e62\
             086eef0fef12a1f905be1fa226dab017d22000dd2d3e7bac1f8a54876cb55f75",
        ),
    )
}

fn point_times_237() -> MontgomeryPoint {
    MontgomeryPoint::new_reduced(
        &curve(),
        element(
            "3af8740999e0b6f0d7f39593b514c9529fc4e5d393ac8907f34f9f34d646a228\
             d9b02f85d7308bf7253058c3d957a8f99eaf97c08763b29ed48df6e918c1f1f3",
        ),
    )
}

#[test]
fn multiples() {
    let multiples = [point(), point_times_2(), point_times_3(), point_times_4()];
    let mut enumeration = point().multiples(Uint::from(4u32));
    let mut i = 0;
    while let Some(p) = enumeration.next() {
        assert_eq!(p, multiples[i]);
        i += 1;
    }
    assert_eq!(i, 4);

    let mut enumeration = point().multiples(Uint::from(237u32));
    let mut last = None;
    while let Some(p) = enumeration.next() {
        last = Some(p);
    }
    assert_eq!(point_times_237(), last.unwrap());
}

#[test]
fn multiplication() {
    assert!(point().mul(&Uint::from(2u32)) == point_times_2());
    assert!(point().mul(&Uint::from(4u32)) == point_times_4());
    assert!(point().mul(&Uint::from(237u32)) == point_times_237());
}
