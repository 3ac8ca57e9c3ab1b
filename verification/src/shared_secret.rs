//! Shared secrets: the coefficient of the curve that a private key leads to from the curve of
//! a peer's public key.
use crate::field::FieldElement;
use crate::group_action::{csidh, csidh_result};
use crate::private_key::PrivateKey;
use crate::public_key::PublicKey;
use vstd::prelude::*;
use vstd::std_specs::cmp::PartialEqSpecImpl;

verus! {

/// A shared secret created with the CSIDH key exchange.
#[derive(Clone, Copy, Debug)]
pub struct SharedSecret {
    shared_secret: FieldElement,
}

impl View for SharedSecret {
    type V = nat;

    /// The coefficient `A` of the common curve.
    closed spec fn view(&self) -> nat {
        self.shared_secret@
    }
}

impl SharedSecret {
    /// The modulus of the field that the coefficient lives in.
    pub closed spec fn modulus(&self) -> nat {
        self.shared_secret.modulus()
    }

    /// Computes a shared secret from the public key of the peer and one's own private key:
    /// the result of the group action on the peer's curve, on the candidates `draws` (see
    /// [`csidh`]).
    pub fn from(
        foreign_public_key: PublicKey,
        private_key: &PrivateKey,
        draws: &Vec<crypto_bigint::Uint<8>>,
    ) -> (r: Option<Self>)
        requires
            private_key.wf(),
            private_key.parameters().valid(),
            foreign_public_key.wf(),
            foreign_public_key.modulus() == private_key.parameters().modulus(),
        ensures
            r is Some <==> csidh_result(
                private_key.exponents(),
                foreign_public_key@,
                draws@,
                private_key.parameters(),
            ) is Some,
            r matches Some(secret) ==> secret.modulus() == private_key.parameters().modulus()
                && Some(secret@) == csidh_result(
                private_key.exponents(),
                foreign_public_key@,
                draws@,
                private_key.parameters(),
            ),
    {
        match csidh(private_key.params(), private_key.key(), foreign_public_key.key(), draws) {
            Some(shared_secret) => Some(SharedSecret { shared_secret }),
            None => None,
        }
    }
}

impl PartialEq for SharedSecret {
    /// Shared secrets are equal when their coefficients are.
    fn eq(&self, other: &Self) -> (r: bool) {
        self.shared_secret == other.shared_secret
    }
}

impl PartialEqSpecImpl for SharedSecret {
    open spec fn obeys_eq_spec() -> bool {
        true
    }

    open spec fn eq_spec(&self, other: &Self) -> bool {
        self@ == other@ && self.modulus() == other.modulus()
    }
}

} // verus!
