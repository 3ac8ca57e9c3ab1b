//! Parameter sets: the list of small odd primes, and the constants of the field that they fix.
pub mod csidh_512;

use crate::field::FieldElement;
use crate::integer::{
    uint_eq, uint_from_u64, uint_limit, uint_lt, uint_split_mul, uint_sub, uint_value,
};
use vstd::prelude::*;
use vstd::std_specs::cmp::PartialEqSpecImpl;

verus! {

/// The product of the entries of `s`.
pub open spec fn product(s: Seq<u64>) -> nat
    decreases s.len(),
{
    if s.len() == 0 {
        1
    } else {
        product(s.drop_last()) * (s.last() as nat)
    }
}

/// The product of the first `n + 1` entries is the product of the first `n`, times the next.
pub proof fn lemma_product_take(s: Seq<u64>, n: int)
    requires
        0 <= n < s.len(),
    ensures
        product(s.take(n + 1)) == product(s.take(n)) * (s[n] as nat),
{
    assert(s.take(n + 1).drop_last() =~= s.take(n));
}

/// The product of the entries `lis[j]` with `lo <= j < hi` that `keep` marks.
pub open spec fn product_between(lis: Seq<u64>, keep: Seq<bool>, lo: int, hi: int) -> nat
    decreases hi - lo,
{
    if hi <= lo {
        1
    } else {
        product_between(lis, keep, lo, hi - 1) * (if keep[hi - 1] {
            lis[hi - 1] as nat
        } else {
            1
        })
    }
}

/// Every entry of `s` is at least 1.
pub open spec fn all_positive(s: Seq<u64>) -> bool {
    forall|i: int| 0 <= i < s.len() ==> #[trigger] s[i] >= 1
}

/// A product of positive entries is positive.
pub proof fn lemma_product_positive(s: Seq<u64>)
    requires
        all_positive(s),
    ensures
        product(s) >= 1,
    decreases s.len(),
{
    if s.len() > 0 {
        lemma_product_positive(s.drop_last());
        assert(s.last() >= 1);
        assert(product(s.drop_last()) * (s.last() as nat) >= 1) by (nonlinear_arith)
            requires
                product(s.drop_last()) >= 1,
                s.last() >= 1,
        ;
    }
}

/// The product of a prefix of positive entries is positive and at most the whole product.
pub proof fn lemma_product_prefix(s: Seq<u64>, n: int)
    requires
        all_positive(s),
        0 <= n <= s.len(),
    ensures
        1 <= product(s.take(n)) <= product(s),
    decreases s.len() - n,
{
    lemma_product_positive(s.take(n));
    if n == s.len() {
        assert(s.take(n) =~= s);
    } else {
        lemma_product_take(s, n);
        lemma_product_prefix(s, n + 1);
        assert(s[n] >= 1);
        assert(product(s.take(n)) <= product(s.take(n)) * (s[n] as nat)) by (nonlinear_arith)
            requires
                product(s.take(n)) >= 1,
                s[n] >= 1,
        ;
    }
}

/// A product of marked positive entries is positive and at most the product of them all.
pub proof fn lemma_product_between_bound(lis: Seq<u64>, keep: Seq<bool>, lo: int, hi: int)
    requires
        all_positive(lis),
        0 <= lo <= hi <= lis.len(),
    ensures
        1 <= product_between(lis, keep, lo, hi) <= product(lis.take(hi)),
        product_between(lis, keep, lo, hi) <= product(lis),
    decreases hi - lo,
{
    lemma_product_prefix(lis, hi);
    if hi > lo {
        lemma_product_between_bound(lis, keep, lo, hi - 1);
        lemma_product_take(lis, hi - 1);
        let before = product_between(lis, keep, lo, hi - 1);
        let full = product(lis.take(hi - 1));
        let l = lis[hi - 1] as nat;
        assert(l >= 1);
        assert(1 <= before * l <= full * l && 1 <= before * 1 <= full * l) by (nonlinear_arith)
            requires
                1 <= before <= full,
                l >= 1,
        ;
    }
}

/// Marking one more entry multiplies the product by that entry.
pub proof fn lemma_product_between_mark(lis: Seq<u64>, keep: Seq<bool>, i: int, hi: int)
    requires
        keep.len() == lis.len(),
        0 <= i < keep.len(),
        !keep[i],
        0 <= hi <= keep.len(),
    ensures
        product_between(lis, keep.update(i, true), 0, hi) == product_between(lis, keep, 0, hi) * (
        if i < hi {
            lis[i] as nat
        } else {
            1
        }),
    decreases hi,
{
    if hi > 0 {
        lemma_product_between_mark(lis, keep, i, hi - 1);
        let before = product_between(lis, keep, 0, hi - 1);
        let l = lis[i] as nat;
        if i == hi - 1 {
            assert(before * 1 * l == before * l) by (nonlinear_arith);
        } else if i < hi - 1 {
            let f: nat = if keep[hi - 1] {
                lis[hi - 1] as nat
            } else {
                1
            };
            assert((before * l) * f == (before * f) * l) by (nonlinear_arith);
        } else {
            let f: nat = if keep[hi - 1] {
                lis[hi - 1] as nat
            } else {
                1
            };
            assert((before * 1) * f == (before * f) * 1) by (nonlinear_arith);
        }
    }
}

/// A product of marked entries is a multiple of each of them.
pub proof fn lemma_product_between_multiple(
    lis: Seq<u64>,
    keep: Seq<bool>,
    i: int,
    lo: int,
    hi: int,
)
    requires
        lo <= i < hi,
        keep[i],
        lis[i] > 0,
    ensures
        product_between(lis, keep, lo, hi) % (lis[i] as nat) == 0,
    decreases hi - lo,
{
    let l = lis[i] as int;
    let before = product_between(lis, keep, lo, hi - 1) as int;
    if i == hi - 1 {
        vstd::arithmetic::div_mod::lemma_mod_multiples_basic(before, l);
    } else {
        lemma_product_between_multiple(lis, keep, i, lo, hi - 1);
        let f: int = if keep[hi - 1] {
            lis[hi - 1] as int
        } else {
            1
        };
        vstd::arithmetic::div_mod::lemma_mul_mod_noop_left(before, f, l);
        assert((0int * f) % l == 0) by {
            vstd::arithmetic::div_mod::lemma_small_mod(0, l as nat);
        }
    }
}

/// Where nothing is marked the product is 1.
pub proof fn lemma_product_between_none(lis: Seq<u64>, keep: Seq<bool>, lo: int, hi: int)
    requires
        forall|j: int| lo <= j < hi ==> !#[trigger] keep[j],
    ensures
        product_between(lis, keep, lo, hi) == 1,
    decreases hi - lo,
{
    if hi > lo {
        lemma_product_between_none(lis, keep, lo, hi - 1);
    }
}

/// Parameters of the CSIDH key exchange: the primes `l_1, ..., l_N`, and for the field
/// modulus `p = 4 * l_1 * ... * l_N - 1` the constants `(p - 1) / 2`, `1 / 4` in F_p and the
/// rounded-up `4 * sqrt(p)`.
#[derive(Debug)]
pub struct CsidhParams {
    lis: Vec<u64>,
    p_minus_1_over_2: crypto_bigint::Uint<8>,
    inverse_of_4: FieldElement,
    sqrt_of_p_times_4: crypto_bigint::Uint<8>,
}

impl CsidhParams {
    /// The primes `l_1, ..., l_N`.
    pub closed spec fn primes(&self) -> Seq<u64> {
        self.lis@
    }

    /// The field modulus `p`.
    pub closed spec fn modulus(&self) -> nat {
        self.inverse_of_4.modulus()
    }

    /// The stored value of `(p - 1) / 2`.
    pub closed spec fn half_order(&self) -> nat {
        uint_value(self.p_minus_1_over_2)
    }

    /// The stored value of `1 / 4` in F_p.
    pub closed spec fn quarter(&self) -> nat {
        self.inverse_of_4@
    }

    /// The stored value of `4 * sqrt(p)`, rounded up.
    pub closed spec fn sqrt_bound(&self) -> nat {
        uint_value(self.sqrt_of_p_times_4)
    }

    /// The parameters fit together: the primes are odd, at least 3 and pairwise distinct,
    /// `p + 1` is four times their product, and the three constants are what their names say.
    /// That `p` is prime is not part of this: see [`CsidhParams::prime_field`].
    pub open spec fn valid(&self) -> bool {
        let p = self.modulus();
        let s = self.sqrt_bound();
        &&& 1 <= self.primes().len() <= usize::MAX
        &&& forall|i: int|
            0 <= i < self.primes().len() ==> 3 <= #[trigger] self.primes()[i]
                && self.primes()[i] % 2 == 1
        &&& forall|i: int, j: int|
            0 <= i < j < self.primes().len() ==> self.primes()[i] != self.primes()[j]
        &&& 3 <= p
        &&& p + 1 < uint_limit()
        &&& 4 * product(self.primes()) == p + 1
        &&& self.quarter() < p
        &&& (4 * self.quarter()) % p == 1
        &&& 2 * self.half_order() + 1 == p
        &&& 1 <= s
        &&& (s - 1) * (s - 1) < 16 * p <= s * s
    }

    /// The modulus is a prime number.
    pub open spec fn prime_field(&self) -> bool {
        crate::number_theory::is_prime(self.modulus())
    }

    /// Constructs custom parameters. Nothing is checked: the caller answers for
    /// [`CsidhParams::valid`], on which the walk and the supersingularity test rely.
    pub fn new(
        lis: Vec<u64>,
        p_minus_1_over_2: crypto_bigint::Uint<8>,
        inverse_of_4: FieldElement,
        sqrt_of_p_times_4: crypto_bigint::Uint<8>,
    ) -> (r: Self)
        ensures
            r.primes() == lis@,
            r.modulus() == inverse_of_4.modulus(),
            r.half_order() == uint_value(p_minus_1_over_2),
            r.quarter() == inverse_of_4@,
            r.sqrt_bound() == uint_value(sqrt_of_p_times_4),
    {
        CsidhParams { lis, p_minus_1_over_2, inverse_of_4, sqrt_of_p_times_4 }
    }

    /// Whether the primes are odd, at least 3 and pairwise distinct.
    fn primes_admissible(&self) -> (r: bool)
        ensures
            r == ((forall|i: int|
                0 <= i < self.primes().len() ==> 3 <= #[trigger] self.primes()[i]
                    && self.primes()[i] % 2 == 1) && (forall|i: int, j: int|
                0 <= i < j < self.primes().len() ==> self.primes()[i] != self.primes()[j])),
    {
        let mut j: usize = 0;
        while j < self.lis.len()
            invariant
                j <= self.lis.len(),
                forall|i: int|
                    0 <= i < j ==> 3 <= #[trigger] self.lis@[i] && self.lis@[i] % 2 == 1,
                forall|i: int, m: int| 0 <= i < m < j ==> self.lis@[i] != self.lis@[m],
            decreases self.lis.len() - j,
        {
            let l = self.lis[j];
            if l < 3 || l % 2 != 1 {
                proof {
                    assert(!(3 <= self.primes()[j as int] && self.primes()[j as int] % 2 == 1));
                }
                return false;
            }
            let mut i: usize = 0;
            while i < j
                invariant
                    i <= j < self.lis.len(),
                    l == self.lis@[j as int],
                    forall|m: int| 0 <= m < i ==> self.lis@[m] != l,
                decreases j - i,
            {
                if self.lis[i] == l {
                    proof {
                        assert(self.primes()[i as int] == self.primes()[j as int]);
                    }
                    return false;
                }
                i = i + 1;
            }
            j = j + 1;
        }
        true
    }

    /// Four times the product of the primes, if that is less than 2^512.
    fn order(&self) -> (r: Option<crypto_bigint::Uint<8>>)
        requires
            all_positive(self.primes()),
        ensures
            r is Some <==> 4 * product(self.primes()) < uint_limit(),
            r matches Some(v) ==> uint_value(v) == 4 * product(self.primes()),
    {
        let ghost lis = self.lis@;
        let mut value = uint_from_u64(4);
        let zero = uint_from_u64(0);
        let mut i: usize = 0;
        proof {
            assert(lis.take(0) =~= Seq::<u64>::empty());
        }
        while i < self.lis.len()
            invariant
                i <= self.lis.len(),
                lis == self.lis@,
                all_positive(lis),
                uint_value(zero) == 0,
                uint_value(value) == 4 * product(lis.take(i as int)),
                uint_value(value) < uint_limit(),
            decreases self.lis.len() - i,
        {
            let l = self.lis[i];
            let (low, high) = uint_split_mul(&value, &uint_from_u64(l));
            proof {
                lemma_product_take(lis, i as int);
                lemma_product_prefix(lis, i + 1);
                let before = product(lis.take(i as int));
                assert((4 * before) * (l as nat) == 4 * (before * (l as nat)))
                    by (nonlinear_arith);
            }
            if !uint_eq(&high, &zero) {
                return None;
            }
            value = low;
            i = i + 1;
        }
        proof {
            assert(lis.take(lis.len() as int) =~= lis);
        }
        Some(value)
    }

    /// Whether `sqrt_of_p_times_4` is `4 * sqrt(p)`, rounded up, for the modulus `p`.
    fn sqrt_fits(&self, modulus: &crypto_bigint::Uint<8>) -> (r: bool)
        ensures
            r == ({
                let s = self.sqrt_bound();
                let p = uint_value(*modulus);
                1 <= s && (s - 1) * (s - 1) < 16 * p <= s * s
            }),
    {
        let zero = uint_from_u64(0);
        let one = uint_from_u64(1);
        let sqrt = self.sqrt_of_p_times_4;
        if uint_eq(&sqrt, &zero) {
            return false;
        }
        let less = uint_sub(&sqrt, &one);
        let (below_low, below_high) = uint_split_mul(&less, &less);
        let (above_low, above_high) = uint_split_mul(&sqrt, &sqrt);
        let (low, high) = uint_split_mul(&uint_from_u64(16), modulus);
        let below = uint_lt(&below_high, &high) || (uint_eq(&below_high, &high) && uint_lt(
            &below_low,
            &low,
        ));
        let above = uint_lt(&high, &above_high) || (uint_eq(&high, &above_high) && !uint_lt(
            &above_low,
            &low,
        ));
        below && above
    }

    /// Whether the parameters fit together: see [`CsidhParams::valid`].
    pub fn is_valid(&self) -> (r: bool)
        ensures
            r == self.valid(),
    {
        if self.lis.len() < 1 || !self.primes_admissible() {
            return false;
        }
        let modulus = self.inverse_of_4.modulus_value();
        let one = uint_from_u64(1);
        let order = match self.order() {
            Some(order) => order,
            None => {
                return false;
            },
        };
        proof {
            lemma_product_positive(self.primes());
        }
        if !uint_eq(&uint_sub(&order, &one), &modulus) {
            return false;
        }
        let quarter = self.inverse_of_4.retrieve();
        if !uint_lt(&quarter, &modulus) {
            return false;
        }
        let four = self.inverse_of_4.small(4);
        let unit = four.mul(&self.inverse_of_4).retrieve();
        proof {
            let p = self.modulus() as int;
            vstd::arithmetic::div_mod::lemma_mul_mod_noop_left(4, self.quarter() as int, p);
        }
        if !uint_eq(&unit, &one) {
            return false;
        }
        let half = self.p_minus_1_over_2;
        if !uint_lt(&half, &modulus) {
            return false;
        }
        let rest = uint_sub(&modulus, &half);
        if uint_lt(&rest, &half) {
            return false;
        }
        if !uint_eq(&uint_sub(&rest, &half), &one) {
            return false;
        }
        self.sqrt_fits(&modulus)
    }

    /// The primes `l_1, ..., l_N`.
    pub fn lis(&self) -> (r: &Vec<u64>)
        ensures
            r@ == self.primes(),
    {
        &self.lis
    }

    /// `(p - 1) / 2`.
    pub fn p_minus_1_over_2(&self) -> (r: crypto_bigint::Uint<8>)
        ensures
            uint_value(r) == self.half_order(),
    {
        self.p_minus_1_over_2
    }

    /// `1 / 4` in F_p.
    pub fn inverse_of_4(&self) -> (r: FieldElement)
        ensures
            r@ == self.quarter(),
            r.modulus() == self.modulus(),
    {
        self.inverse_of_4
    }

    /// `4 * sqrt(p)`, rounded up.
    pub fn sqrt_of_p_times_4(&self) -> (r: crypto_bigint::Uint<8>)
        ensures
            uint_value(r) == self.sqrt_bound(),
    {
        self.sqrt_of_p_times_4
    }
}

impl Clone for CsidhParams {
    /// A second copy of the parameter set.
    fn clone(&self) -> (r: Self)
        ensures
            r.primes() == self.primes(),
            r.modulus() == self.modulus(),
            r.quarter() == self.quarter(),
            r.half_order() == self.half_order(),
            r.sqrt_bound() == self.sqrt_bound(),
    {
        let mut lis: Vec<u64> = Vec::new();
        let mut i: usize = 0;
        while i < self.lis.len()
            invariant
                i <= self.lis.len(),
                lis.len() == i,
                forall|j: int| 0 <= j < i ==> (#[trigger] lis@[j]) == self.lis@[j],
            decreases self.lis.len() - i,
        {
            lis.push(self.lis[i]);
            i = i + 1;
        }
        proof {
            assert(lis@ =~= self.lis@);
        }
        CsidhParams {
            lis,
            p_minus_1_over_2: self.p_minus_1_over_2,
            inverse_of_4: self.inverse_of_4,
            sqrt_of_p_times_4: self.sqrt_of_p_times_4,
        }
    }
}

impl PartialEq for CsidhParams {
    /// Parameter sets are equal when they hold the same primes, in the same order, and the
    /// same constants over the same field.
    fn eq(&self, other: &Self) -> (r: bool) {
        if self.lis.len() != other.lis.len() {
            return false;
        }
        let mut i: usize = 0;
        while i < self.lis.len()
            invariant
                i <= self.lis.len(),
                self.lis.len() == other.lis.len(),
                forall|j: int| 0 <= j < i ==> (#[trigger] self.lis@[j]) == other.lis@[j],
            decreases self.lis.len() - i,
        {
            if self.lis[i] != other.lis[i] {
                return false;
            }
            i = i + 1;
        }
        proof {
            assert(self.lis@ =~= other.lis@);
        }
        self.inverse_of_4 == other.inverse_of_4 && uint_eq(
            &self.p_minus_1_over_2,
            &other.p_minus_1_over_2,
        ) && uint_eq(&self.sqrt_of_p_times_4, &other.sqrt_of_p_times_4)
    }
}

impl PartialEqSpecImpl for CsidhParams {
    open spec fn obeys_eq_spec() -> bool {
        true
    }

    open spec fn eq_spec(&self, other: &Self) -> bool {
        &&& self.primes() == other.primes()
        &&& self.modulus() == other.modulus()
        &&& self.quarter() == other.quarter()
        &&& self.half_order() == other.half_order()
        &&& self.sqrt_bound() == other.sqrt_bound()
    }
}

} // verus!
