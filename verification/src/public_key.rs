//! Public keys: the coefficient of the curve that a private key leads to from `A = 0`.
use crate::csidh_params::CsidhParams;
use crate::field::FieldElement;
use crate::group_action::{csidh, csidh_result};
use crate::integer::uint_value;
use crate::montgomery_curve::{supersingular_verdict, MontgomeryCurve, Verdict};
use crate::private_key::PrivateKey;
use vstd::prelude::*;
use vstd::std_specs::cmp::PartialEqSpecImpl;

verus! {

/// A public key for the CSIDH key exchange.
#[derive(Clone, Copy, Debug)]
pub struct PublicKey {
    key: FieldElement,
}

impl View for PublicKey {
    type V = nat;

    /// The coefficient `A` of the curve.
    closed spec fn view(&self) -> nat {
        self.key@
    }
}

impl PublicKey {
    /// The modulus of the field that the coefficient lives in.
    pub closed spec fn modulus(&self) -> nat {
        self.key.modulus()
    }

    /// The coefficient is a reduced residue of an odd modulus.
    pub closed spec fn wf(&self) -> bool {
        self.key.wf()
    }

    /// Computes the public key that belongs to `private_key`: the result of the group action
    /// on the curve with `A = 0`, on the candidates `draws` (see [`csidh`]).
    pub fn from(private_key: &PrivateKey, draws: &Vec<crypto_bigint::Uint<8>>) -> (r: Option<Self>)
        requires
            private_key.wf(),
            private_key.parameters().valid(),
        ensures
            r is Some <==> csidh_result(
                private_key.exponents(),
                0,
                draws@,
                private_key.parameters(),
            ) is Some,
            r matches Some(pk) ==> pk.wf() && pk.modulus() == private_key.parameters().modulus()
                && Some(pk@) == csidh_result(
                private_key.exponents(),
                0,
                draws@,
                private_key.parameters(),
            ),
    {
        let params = private_key.params();
        let zero = params.inverse_of_4().small(0);
        proof {
            vstd::arithmetic::div_mod::lemma_small_mod(0, params.modulus());
        }
        match csidh(params, private_key.key(), zero, draws) {
            Some(key) => Some(PublicKey { key }),
            None => None,
        }
    }

    /// Constructs a public key from the coefficient `key` that a peer sent, if the curve with
    /// that coefficient, reduced modulo `p`, is found supersingular on the candidates `draws`
    /// (see [`MontgomeryCurve::is_supersingular`]).
    pub fn new(params: &CsidhParams, key: crypto_bigint::Uint<8>, draws: &Vec<
        crypto_bigint::Uint<8>,
    >) -> (r: Option<Self>)
        requires
            params.valid(),
        ensures
            r is Some <==> supersingular_verdict(
                uint_value(key) % params.modulus(),
                draws@,
                *params,
            ) == Verdict::Supersingular,
            r matches Some(pk) ==> pk.wf() && pk.modulus() == params.modulus() && pk@
                == uint_value(key) % params.modulus(),
    {
        let key = params.inverse_of_4().reduce(&key);
        let curve = MontgomeryCurve::new(params, key);
        if curve.is_supersingular(params, draws) == Verdict::Supersingular {
            Some(PublicKey { key })
        } else {
            None
        }
    }

    /// The coefficient `A` of the curve.
    pub fn key(&self) -> (r: FieldElement)
        ensures
            r@ == self@,
            r.modulus() == self.modulus(),
            self.wf() ==> r.wf(),
    {
        self.key
    }
}

impl PartialEq for PublicKey {
    /// Public keys are equal when their coefficients are.
    fn eq(&self, other: &Self) -> (r: bool) {
        self.key == other.key
    }
}

impl PartialEqSpecImpl for PublicKey {
    open spec fn obeys_eq_spec() -> bool {
        true
    }

    open spec fn eq_spec(&self, other: &Self) -> bool {
        self@ == other@ && self.modulus() == other.modulus()
    }
}

} // verus!
