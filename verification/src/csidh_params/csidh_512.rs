//! The CSIDH-512 parameter set.
use crate::csidh_params::{lemma_product_take, product, CsidhParams};
use crate::field::FieldElement;
use crate::integer::{uint_from_words, uint_value};
use vstd::prelude::*;

verus! {

/// Number of primes of CSIDH-512.
pub const N: usize = 74;

/// The primes of CSIDH-512: the first 73 odd primes, and 587.
pub open spec fn primes_512() -> Seq<u64> {
    seq![
        3, 5, 7, 11, 13, 17, 19, 23, 29, 31, 37, 41,
        43, 47, 53, 59, 61, 67, 71, 73, 79, 83, 89, 97,
        101, 103, 107, 109, 113, 127, 131, 137, 139, 149, 151, 157,
        163, 167, 173, 179, 181, 191, 193, 197, 199, 211, 223, 227,
        229, 233, 239, 241, 251, 257, 263, 269, 271, 277, 281, 283,
        293, 307, 311, 313, 317, 331, 337, 347, 349, 353, 359, 367,
        373, 587,
    ]
}

/// The modulus of CSIDH-512, `4 * 3 * 5 * ... * 373 * 587 - 1`.
pub open spec fn modulus_512() -> nat {
    0x65b48e8f740f89bffc8ab0d15e3e4c4ab42d083aedc88c425afbfcc69322c9cda7aac6c567f35507516730cc1f0b4f25c2721bf457aca8351b81b90533c6c87bnat
}

/// The product of the first `n` primes of CSIDH-512 runs through these values.
proof fn lemma_product_512()
    ensures
        4 * product(primes_512()) == modulus_512() + 1,
{
    let s = primes_512();
    assert(s.take(0) =~= Seq::<u64>::empty());
    assert(product(s.take(0)) == 1);
    lemma_product_take(s, 0);
    assert(product(s.take(1)) == 0x3nat);
    lemma_product_take(s, 1);
    assert(product(s.take(2)) == 0xfnat);
    lemma_product_take(s, 2);
    assert(product(s.take(3)) == 0x69nat);
    lemma_product_take(s, 3);
    assert(product(s.take(4)) == 0x483nat);
    lemma_product_take(s, 4);
    assert(product(s.take(5)) == 0x3aa7nat);
    lemma_product_take(s, 5);
    assert(product(s.take(6)) == 0x3e517nat);
    lemma_product_take(s, 6);
    assert(product(s.take(7)) == 0x4a00b5nat);
    lemma_product_take(s, 7);
    assert(product(s.take(8)) == 0x6a61043nat);
    lemma_product_take(s, 8);
    assert(product(s.take(9)) == 0xc0cfd797nat);
    lemma_product_take(s, 9);
    assert(product(s.take(10)) == 0x17592b1b49nat);
    lemma_product_take(s, 10);
    assert(product(s.take(11)) == 0x35fe33af18dnat);
    lemma_product_take(s, 11);
    assert(product(s.take(12)) == 0x8a5b6470af95nat);
    lemma_product_take(s, 12);
    assert(product(s.take(13)) == 0x173d59deed7e07nat);
    lemma_product_take(s, 13);
    assert(product(s.take(14)) == 0x444437fed9a2349nat);
    lemma_product_take(s, 14);
    assert(product(s.take(15)) == 0xe221f97c30e94e1dnat);
    lemma_product_take(s, 15);
    assert(product(s.take(16)) == 0x341dd47f9f45c500afnat);
    lemma_product_take(s, 16);
    assert(product(s.take(17)) == 0xc6b1ba268f39ff129b3nat);
    lemma_product_take(s, 17);
    assert(product(s.take(18)) == 0x340083b8177c2dc1de9d9nat);
    lemma_product_take(s, 18);
    assert(product(s.take(19)) == 0xe6c24880e8370b0c4bdb2fnat);
    lemma_product_take(s, 19);
    assert(product(s.take(20)) == 0x41cd66acc237b22681a18067nat);
    lemma_product_take(s, 20);
    assert(product(s.take(21)) == 0x144e62af4fef2ff9e200d69fc9nat);
    lemma_product_take(s, 21);
    assert(product(s.take(22)) == 0x69569fed6ea8c8e04464595ce2bnat);
    lemma_product_take(s, 22);
    assert(product(s.take(23)) == 0x249f1d998b78add5f7c6e3114acf3nat);
    lemma_product_take(s, 23);
    assert(product(s.take(24)) == 0xde04a372dd8b9de12e25c098d58813nat);
    lemma_product_take(s, 24);
    assert(product(s.take(25)) == 0x5797d47c51681549d734e4fc4c3eaf7fnat);
    lemma_product_take(s, 25);
    assert(product(s.take(26)) == 0x233e167e04c0e090b596482182ad389c19nat);
    lemma_product_take(s, 26);
    assert(product(s.take(27)) == 0xebaf366abfc9ddc7be5d026019e66a93e73nat);
    lemma_product_take(s, 27);
    assert(product(s.take(28)) == 0x64599a2b73a8f36e0c0d9a02eb071b60f96f7nat);
    lemma_product_take(s, 28);
    assert(product(s.take(29)) == 0x2c4b8d0d2e0d9373935200fb49be2315ce1a307nat);
    lemma_product_take(s, 29);
    assert(product(s.take(30)) == 0x15f97af989d8bc265615ae7ca9955367d13efe079nat);
    lemma_product_take(s, 30);
    assert(product(s.take(31)) == 0xb3ea9edb189e8479e0d1849cac769ae20133bfddebnat);
    lemma_product_take(s, 31);
    assert(product(s.take(32)) == 0x60488f03402cd4e539501ff7d84b78e2f2a4b1adc2c3nat);
    lemma_product_take(s, 32);
    assert(product(s.take(33)) == 0x344765a6c3d85798761e815b9270faa339bf6c7958bfe1nat);
    lemma_product_take(s, 33);
    assert(product(s.take(34)) == 0x1e6d8e2a0ffceafbbcbfc14a4c3bc1e1009c6a22a0a7adf5nat);
    lemma_product_take(s, 34);
    assert(product(s.take(35)) == 0x11f29edacf6e2e9a7c551b02d2f73f5bb75c429a6cc2e79b83nat);
    lemma_product_take(s, 35);
    assert(product(s.take(36)) == 0xb01cb6c31369294be403190bb61a1db3f7394d8b4b3880a5f57nat);
    lemma_product_take(s, 36);
    assert(product(s.take(37)) == 0x7022485e355bf54b522df8f274f2a0e996697c5fb0e4f9e9ab465nat);
    lemma_product_take(s, 37);
    assert(product(s.take(38)) == 0x49265d3574cefd04229bfd662a4a46f8611ed0226c655f076ebade3nat);
    lemma_product_take(s, 38);
    assert(product(s.take(39)) == 0x316eecfd1fefe0fbcb636a3e0a9431f5d9a1d2a74340813805d448267nat);
    lemma_product_take(s, 39);
    assert(product(s.take(40)) == 0x22908fb4fd54ba500f36834961659eeee72c264af4061a5a2c136e72e05nat);
    lemma_product_take(s, 40);
    assert(product(s.take(41)) == 0x1870359af71ce7ba9ac18ad2e1dcd95ee9723712fe8850a1c129bd1738989nat);
    lemma_product_take(s, 41);
    assert(product(s.take(42)) == 0x123bb7fe9e5e90e4397666935683c62dd02c37172be7b428af1e24145339d37nat);
    lemma_product_take(s, 42);
    assert(product(s.take(43)) == 0xdbf05b6f5654b3c0f5243551439586889f155887819aed2ac05b93352be98677nat);
    lemma_product_take(s, 43);
    assert(product(s.take(44)) == 0xa93ff65cad6f2e537ca4dd0789021087226b6d2046bc3881e6067847eacab47993nat);
    lemma_product_take(s, 44);
    assert(product(s.take(45)) == 0x8390b8820ad16d02e5e427d0db809ad90bc181d416fc4fecf9cf077fe783924a8145nat);
    lemma_product_take(s, 45);
    assert(product(s.take(46)) == 0x6c7048132eea9cd9637b0cd124eaffa0e4b07e01cef1f5e051e5a32e6bd17193688bdfnat);
    lemma_product_take(s, 46);
    assert(product(s.take(47)) == 0x5e75cec8b5de5ea15da8302a2f28b4ad2735bdc39344c52e675709256feb71ef6811d741nat);
    lemma_product_take(s, 47);
    assert(product(s.take(48)) == 0x53c2765bf9442de9160c22b567d1183589c4a7446b95fad825a22d1c323dc6074947d1dea3nat);
    lemma_product_take(s, 48);
    assert(product(s.take(49)) == 0x4aecf3e045f9fd1180b8db0c45de0aa7e43ce9a0343d296359aa125a38f14224848d3ebc27cfnat);
    lemma_product_take(s, 49);
    assert(product(s.take(50)) == 0x4431a9f71fb08754ee283f5e2b9717b2cebb70a2cf8baaab6c9bcab41dd395333ca48e19403b67nat);
    lemma_product_take(s, 50);
    assert(product(s.take(51)) == 0x3faa5dadb695ce584a579328eab20f1fef00fe27ffc364560a65723e27d8884ad59da0a992f77529nat);
    lemma_product_take(s, 51);
    assert(product(s.take(52)) == 0x3bef623088e307411dfc718984f1a03d0fffef43a7c6f174ffc9808c8382d84e7319643fa35af54b99nat);
    lemma_product_take(s, 52);
    assert(product(s.take(53)) == 0x3ac3b5459636981cd8668351d558e81bdeafef9755800ebdb6ca9109c4f14a14ead9e54a652a2e811f03nat);
    lemma_product_take(s, 53);
    assert(product(s.take(54)) == 0x3afe78fadbccceb4f53ee9d5272e4103fa8e9f86ecd58ecc74815b9aceb63b5effc4bf2faf8f58afa02203nat);
    lemma_product_take(s, 54);
    assert(product(s.take(55)) == 0x3c9b6e49b7cf685be7f3a239fb4084cb166885e39d4f65b40bb0e51c0a5d36fe98c32069fd5c441c6d82f115nat);
    lemma_product_take(s, 55);
    assert(product(s.take(56)) == 0x3faf52e37624f0a892bb0176ed02cb89668bd4b02c4c6dde3048e0be76e3f2c98685090f5f39f391df12975311nat);
    lemma_product_take(s, 56);
    assert(product(s.take(57)) == 0x436a98beca111ac27353f68ce4e5f576738e06267ee4e84e351d25e99fdb4e035566d49745ce58d76b24ae30eeffnat);
    lemma_product_take(s, 57);
    assert(product(s.take(58)) == 0x48f2574670a481f466c9d9c673acd2992b08aca7a74daf5c9f788a05c9f84b699b684407ae88462116eeb07af299ebnat);
    lemma_product_take(s, 58);
    assert(product(s.take(59)) == 0x501201cc51a492a544d3900ad4f8b32a203c858406a4457cab0b4f805ab18ac6eb9572ac6e9394fa522bffb6f44af2f3nat);
    lemma_product_take(s, 59);
    assert(product(s.take(60)) == 0x5883e7fcde40ee1cb315e03bf96eee0f91a2e798f35798d0d11580e2e4424469e66e35c49e3d25b0b8d6a3af400eda92a1nat);
    lemma_product_take(s, 60);
    assert(product(s.take(61)) == 0x654ef8846a605086d8f809a4a47bf677d1af73120e8341e6ff4d9c83af3fd84d34bc238a091bfc23438da95794510029d245nat);
    lemma_product_take(s, 61);
    assert(product(s.take(62)) == 0x797db406cb918091b63173907140a891b07566fea7676808042a12b1eb299064963d9e9e88ec8f5e4a02e21406dd23322728bfnat);
    lemma_product_take(s, 62);
    assert(product(s.take(63)) == 0x9397b5b4414dc3310456136479958cc8fd5ea01f5d5e9f61bd0f1cb624af7e6a3284dbb29857622b8be980a65456a5c1ed928009nat);
    lemma_product_take(s, 63);
    assert(product(s.take(64)) == 0xb4747d2963d813a6ee4d3db5d8a7d921bdc8b1c65928b0de80277a1ab2da918fd7c4709d5c42d7073e107e4b5d1df0aa1b781e8b01nat);
    lemma_product_take(s, 64);
    assert(product(s.take(65)) == 0xdf743efc40a29055b515a56a2d47d7dec80184229c67630384b0e2330f78a63f1e2e3f72db3ec443f7da6c63524e1302a403bdd2203dnat);
    lemma_product_take(s, 65);
    assert(product(s.take(66)) == 0x120eb4d702792309ed122fce0488be41d0c99f5d8c039ad058c90b4780500fef39c05cc09817a27c3e1776a246b6af2946a10d66eafaedfnat);
    lemma_product_take(s, 66);
    assert(product(s.take(67)) == 0x17c55c0f0a4177201114f0ee33f80274a3d96aca2550becc44e0a7d91fe964f9eb063a1988371ce58dbce32b9f167c9555fa02a47b545338fnat);
    lemma_product_take(s, 67);
    assert(product(s.take(68)) == 0x203883c862e6bc7877276292e0712b541a17b3c00094729ee15c83834e415bdec19170c09ba2b42b271f07ec20a37ade6b89e194f32b4cce2d5nat);
    lemma_product_take(s, 68);
    assert(product(s.take(69)) == 0x2bed0ba82ed48ef03a70b1623bfa4811a792500cc0ca6042993b1f4a01af1a3eade346b6942ccf9ed4554dcce87ede81389af8880f8207b513c61nat);
    lemma_product_take(s, 69);
    assert(product(s.take(70)) == 0x3c91dd12e89319194095649874b41d605810c06195d70ebbd54a86250c5273306dc66481c251ca4a02c9a0478c96f0d02f0db0b39d624ca0b0441c1nat);
    lemma_product_take(s, 70);
    assert(product(s.take(71)) == 0x54f08d058426483269918011cba895321b7f7dc8d92095a9681b821df4479f88e9f136f1f780b2adc9e8bfc45627abb3f1fc32cbe1b4d975572f835a7nat);
    lemma_product_take(s, 71);
    assert(product(s.take(72)) == 0x79c4da2ae872e1804557969982f6ade2d56bc552ef45b68ddc3f6f88f132adb54760cdc4e1d180272474aaea7782df26f7e88cd2489243bf37fd1d4ea69nat);
    lemma_product_take(s, 72);
    assert(product(s.take(73)) == 0xb16bd1e084af628fe5089e6dabd16b5b80f60681d6a092fcb1e86d82876ed71921000bcfdd063fb9081dfd07a021af23c735d52e63bd1cb59c93cbb398afdnat);
    lemma_product_take(s, 73);
    assert(product(s.take(74)) == 0x196d23a3dd03e26fff22ac34578f9312ad0b420ebb72231096beff31a4c8b27369eab1b159fcd541d459cc3307c2d3c9709c86fd15eb2a0d46e06e414cf1b21fnat);
    assert(s.take(74) =~= s);
}

impl CsidhParams {
    /// CSIDH-512, as defined by Castryck, Lange, Martindale, Panny and Renes in "CSIDH: an
    /// efficient post-quantum commutative group action" (ASIACRYPT 2018).
    pub fn csidh_512() -> (r: CsidhParams)
        ensures
            r.valid(),
            r.primes() == primes_512(),
            r.modulus() == modulus_512(),
    {
        let lis: Vec<u64> = vec![
            3, 5, 7, 11, 13, 17, 19, 23, 29, 31, 37, 41,
            43, 47, 53, 59, 61, 67, 71, 73, 79, 83, 89, 97,
            101, 103, 107, 109, 113, 127, 131, 137, 139, 149, 151, 157,
            163, 167, 173, 179, 181, 191, 193, 197, 199, 211, 223, 227,
            229, 233, 239, 241, 251, 257, 263, 269, 271, 277, 281, 283,
            293, 307, 311, 313, 317, 331, 337, 347, 349, 353, 359, 367,
            373, 587,
        ];
        let modulus = uint_from_words([
            0x1b81b90533c6c87b,
            0xc2721bf457aca835,
            0x516730cc1f0b4f25,
            0xa7aac6c567f35507,
            0x5afbfcc69322c9cd,
            0xb42d083aedc88c42,
            0xfc8ab0d15e3e4c4a,
            0x65b48e8f740f89bf,
        ]);
        let p_minus_1_over_2 = uint_from_words([
            0x8dc0dc8299e3643d,
            0xe1390dfa2bd6541a,
            0xa8b398660f85a792,
            0xd3d56362b3f9aa83,
            0x2d7dfe63499164e6,
            0x5a16841d76e44621,
            0xfe455868af1f2625,
            0x32da4747ba07c4df,
        ]);
        let quarter = uint_from_words([
            0x46e06e414cf1b21f,
            0x709c86fd15eb2a0d,
            0xd459cc3307c2d3c9,
            0x69eab1b159fcd541,
            0x96beff31a4c8b273,
            0xad0b420ebb722310,
            0xff22ac34578f9312,
            0x196d23a3dd03e26f,
        ]);
        let sqrt_of_p_times_4 = uint_from_words([
            0x17895e71e1a20b40,
            0x38d0cd95f8636a56,
            0x142b9541e59682cd,
            0x856f1399d91d6592,
            0x0000000000000002,
            0x0000000000000000,
            0x0000000000000000,
            0x0000000000000000,
        ]);
        proof {
            assert(uint_value(modulus) == modulus_512());
            assert(uint_value(p_minus_1_over_2) == 0x32da4747ba07c4dffe455868af1f26255a16841d76e446212d7dfe63499164e6d3d56362b3f9aa83a8b398660f85a792e1390dfa2bd6541a8dc0dc8299e3643dnat);
            assert(uint_value(quarter) == 0x196d23a3dd03e26fff22ac34578f9312ad0b420ebb72231096beff31a4c8b27369eab1b159fcd541d459cc3307c2d3c9709c86fd15eb2a0d46e06e414cf1b21fnat);
            assert(uint_value(sqrt_of_p_times_4) == 0x2856f1399d91d6592142b9541e59682cd38d0cd95f8636a5617895e71e1a20b40nat);
            assert(lis@ =~= primes_512());
            lemma_product_512();
        }
        let inverse_of_4 = FieldElement::new(&quarter, &modulus);
        let r = CsidhParams::new(lis, p_minus_1_over_2, inverse_of_4, sqrt_of_p_times_4);
        proof {
            assert(r.quarter() == 0x196d23a3dd03e26fff22ac34578f9312ad0b420ebb72231096beff31a4c8b27369eab1b159fcd541d459cc3307c2d3c9709c86fd15eb2a0d46e06e414cf1b21fnat);
            assert forall|i: int| 0 <= i < r.primes().len() implies 3 <= #[trigger] r.primes()[i]
                && r.primes()[i] % 2 == 1 by {}
            assert forall|i: int, j: int| 0 <= i < j < r.primes().len() implies r.primes()[i]
                != r.primes()[j] by {}
        }
        r
    }
}

} // verus!
