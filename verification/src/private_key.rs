//! Private keys: one exponent per prime.
use crate::csidh_params::CsidhParams;
use crate::group_action::BUDGET;
use vstd::prelude::*;

verus! {

/// Every exponent is at most [`BUDGET`], and there is one for each prime of `params`.
pub open spec fn admissible(key: Seq<u32>, params: CsidhParams) -> bool {
    &&& key.len() == params.primes().len()
    &&& forall|i: int| 0 <= i < key.len() ==> (#[trigger] key[i]) <= BUDGET
}

/// A private key for the CSIDH key exchange: for each prime `l_i` of the parameter set, the
/// number of `l_i`-isogenies to take.
#[derive(Debug)]
pub struct PrivateKey {
    params: CsidhParams,
    key: Vec<u32>,
}

impl PrivateKey {
    /// The parameter set of the key.
    pub closed spec fn parameters(&self) -> CsidhParams {
        self.params
    }

    /// The exponent vector.
    pub closed spec fn exponents(&self) -> Seq<u32> {
        self.key@
    }

    /// The exponent vector is admissible for the parameter set.
    pub open spec fn wf(&self) -> bool {
        admissible(self.exponents(), self.parameters())
    }

    /// Whether `key` is an exponent vector for `params`: one exponent for each prime, none
    /// above 10.
    pub fn accepts(params: &CsidhParams, key: &Vec<u32>) -> (r: bool)
        ensures
            r == admissible(key@, *params),
    {
        if key.len() != params.lis().len() {
            return false;
        }
        let mut i: usize = 0;
        while i < key.len()
            invariant
                i <= key.len(),
                forall|j: int| 0 <= j < i ==> (#[trigger] key@[j]) <= BUDGET,
            decreases key.len() - i,
        {
            if key[i] > BUDGET {
                return false;
            }
            i = i + 1;
        }
        true
    }

    /// Constructs a private key from the exponent vector `key`, whose entries must not exceed
    /// 10.
    pub fn new(params: CsidhParams, key: Vec<u32>) -> (r: Self)
        requires
            admissible(key@, params),
        ensures
            r.wf(),
            r.parameters() == params,
            r.exponents() == key@,
    {
        PrivateKey { params, key }
    }

    /// The parameter set of the key.
    pub fn params(&self) -> (r: &CsidhParams)
        ensures
            *r == self.parameters(),
    {
        &self.params
    }

    /// The exponent vector.
    pub fn key(&self) -> (r: &Vec<u32>)
        ensures
            r@ == self.exponents(),
    {
        &self.key
    }
}

} // verus!
