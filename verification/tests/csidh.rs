use crypto_bigint::{Random, Uint};
use csidh::{csidh, CsidhParams, FieldElement, PublicKey};

fn draws(count: usize) -> Vec<Uint<8>> {
    let mut rng = rand::thread_rng();
    (0..count).map(|_| Uint::random(&mut rng)).collect()
}

fn seeded_draws(seed: u128, count: usize) -> Vec<Uint<8>> {
    let mut rng = oorandom::Rand64::new(seed);
    (0..count)
        .map(|_| {
            let mut words = [0u64; 8];
            for word in words.iter_mut() {
                *word = rng.rand_u64();
            }
            Uint::from_words(words)
        })
        .collect()
}

fn element(params: &CsidhParams, hex: &str) -> FieldElement {
    params.inverse_of_4().reduce(&Uint::from_be_hex(hex))
}

fn zero(params: &CsidhParams) -> FieldElement {
    params.inverse_of_4().small(0)
}

const ALICE: [u32; 74] = [
    8, 2, 9, 3, 3, 0, 7, 2, 0, 8, 1, 9, 9, 4, 0, 10, 6, 3, 10, 7, 2, 3, 1, 4, 5, 3, 9, 10, 9, 3,
    8, 5, 1, 10, 2, 4, 2, 10, 1, 1, 10, 8, 0, 9, 1, 8, 7, 6, 10, 9, 9, 4, 10, 6, 4, 4, 2, 3, 5, 5,
    5, 3, 0, 9, 6, 9, 8, 5, 5, 9, 2, 0, 3, 6,
];

const BOB: [u32; 74] = [
    1, 2, 0, 6, 2, 1, 2, 6, 4, 3, 10, 1, 4, 0, 1, 7, 5, 6, 9, 10, 8, 9, 7, 5, 4, 7, 10, 10, 5, 6,
    5, 2, 1, 4, 0, 6, 0, 3, 8, 7, 0, 10, 0, 3, 0, 3, 6, 9, 2, 3, 4, 4, 3, 3, 0, 10, 10, 2, 1, 4,
    8, 10, 6, 0, 7, 1, 2, 7, 2, 0, 9, 9, 0, 6,
];

const PUBLIC_ALICE: &str = "4ABA8DC557FA0A29A38A133253A99619A4EE708BD8A23284138CF6759C06B13B\
                            7CF623502EAFC1D1F847CF42A72C8807F6E9E79B56ED4318EAC92C7E93DCA1AC";

const PUBLIC_BOB: &str = "1634D8C39CC896DE21D5B4A24C606A53A27CB33F1B5E17F5DF6FA498607C2BE0\
                          BD85C05E18CF8ACE54EADE5073140975FF9B5F3979ABA4DFD5E273C8CFD101F5";

const SHARED: &str = "58265500287D25384D1E3233BFBEB7E8A6FC6C4CA78264AB4B9D94B3E2B5DF5C\
                      6A11E1DED503BDF5CD18DC1E716710DE43ED71CEB1AD6FABC60AC18A43DCFEDD";

#[test]
fn csidh_512_1() {
    let params = CsidhParams::csidh_512();
    let path = {
        let mut temp = [0; 74];
        temp[0] = 1;
        temp
    };
    let start = zero(&params);
    let public_key = csidh(&params, &path.to_vec(), start, &draws(1000)).unwrap();
    assert_eq!(
        public_key,
        element(
            &params,
            "53BAA451F759835A01933C76BC58C0C203A9B6B02F7F086B30C3469A8452750\
             AAECA8A4F7C26BFF43876F4510F405F4D2A006635D89A42D327D9A2E8C00BF340"
        )
    );
}

#[test]
fn csidh_512_2() {
    let params = CsidhParams::csidh_512();
    let path = {
        let mut temp = [0; 74];
        temp[0] = 1;
        temp[1] = 1;
        temp
    };
    let start = zero(&params);
    let public_key = csidh(&params, &path.to_vec(), start, &draws(1000)).unwrap();
    assert_eq!(
        public_key,
        element(
            &params,
            "64BB503A4BCA4A4CEF79A054740B11D35C2D1C5778FC05F5AEA1C4FA0CFE4C9\
             E36198514A67F220116C0F70C5511FB4163BECD5CF7347BC2DB66306AAFE6CEF0"
        )
    );
}

#[test]
fn csidh_512_3() {
    let params = CsidhParams::csidh_512();
    let path = {
        let mut temp = [0; 74];
        temp[0] = 1;
        temp[1] = 3;
        temp[73] = 1;
        temp
    };
    let start = zero(&params);
    let public_key = csidh(&params, &path.to_vec(), start, &seeded_draws(816958178, 1000)).unwrap();
    assert_eq!(
        public_key,
        element(
            &params,
            "3F0D6D05BDB550AF6459BBDBC08E40338AA2D22A4E8BD6EF1DF113688D3FD23\
             EAB8C22365A23C4702A2AAC1835B7BED06B0C8E78E5F432D6296C244812CF25B3"
        )
    );
}

#[test]
fn csidh_512_4() {
    let params = CsidhParams::csidh_512();
    let path = [
        8, 2, 9, 3, 3, 0, 7, 2, 0, 8, 1, 9, 9, 4, 0, 10, 6, 3, 10, 7, 2, 3, 1, 4, 5, 3, 9, 10, 9,
        3, 8, 5, 1, 10, 2, 4, 2, 10, 1, 1, 10, 8, 0, 9, 1, 8, 7, 6, 10, 9, 9, 4, 10, 6, 4, 4, 2,
        3, 5, 5, 5, 3, 0, 9, 6, 9, 8, 5, 5, 9, 2, 0, 3, 6,
    ];
    let start = zero(&params);
    let public_key = csidh(&params, &path.to_vec(), start, &seeded_draws(816958178, 1000)).unwrap();
    assert_eq!(
        public_key,
        element(
            &params,
            "4ABA8DC557FA0A29A38A133253A99619A4EE708BD8A23284138CF6759C06B13\
             B7CF623502EAFC1D1F847CF42A72C8807F6E9E79B56ED4318EAC92C7E93DCA1AC"
        )
    );
}

#[test]
fn zero_vector_leaves_the_curve_and_takes_no_draw() {
    let params = CsidhParams::csidh_512();
    let start = zero(&params);
    assert_eq!(csidh(&params, &vec![0; 74], start, &Vec::new()), Some(start));
    let elsewhere = element(&params, PUBLIC_ALICE);
    assert_eq!(csidh(&params, &vec![0; 74], elsewhere, &Vec::new()), Some(elsewhere));
}

#[test]
fn walk_without_draws_has_no_result() {
    let params = CsidhParams::csidh_512();
    assert_eq!(csidh(&params, &ALICE.to_vec(), zero(&params), &Vec::new()), None);
}

#[test]
fn shared_secret_of_alice_from_the_key_of_bob() {
    let params = CsidhParams::csidh_512();
    let bob = element(&params, PUBLIC_BOB);
    let secret = csidh(&params, &ALICE.to_vec(), bob, &seeded_draws(816958178, 1000)).unwrap();
    assert_eq!(secret, element(&params, SHARED));
}

#[test]
fn shared_secret_of_bob_from_the_key_of_alice() {
    let params = CsidhParams::csidh_512();
    let alice = element(&params, PUBLIC_ALICE);
    let secret = csidh(&params, &BOB.to_vec(), alice, &seeded_draws(816958178, 1000)).unwrap();
    assert_eq!(secret, element(&params, SHARED));
}

#[test]
fn validation_accepts_the_key_of_alice() {
    let params = CsidhParams::csidh_512();
    let key = PublicKey::new(&params, Uint::from_be_hex(PUBLIC_ALICE), &seeded_draws(5, 20));
    assert_eq!(key.unwrap().key(), element(&params, PUBLIC_ALICE));
}

#[test]
fn validation_refuses_an_ordinary_curve() {
    let params = CsidhParams::csidh_512();
    assert!(PublicKey::new(&params, Uint::from(1u32), &seeded_draws(5, 20)).is_none());
}
