//! The prime field F_p, as residues in Montgomery form.
//!
//! A [`FieldElement`] wraps `crypto_bigint::modular::MontyForm`. Its mathematical value is the
//! residue in `[0, p)` together with the modulus `p`; every contract in this library is stated
//! over these two natural numbers. The arithmetic itself is `crypto_bigint`'s and enters through
//! the trusted functions of this file. Their contracts speak of Montgomery forms that are
//! reduced, as all forms are that `MontyForm::new` and the arithmetic make; a `FieldElement`
//! keeps its form to itself, so that no other form reaches them.
use crate::integer::{uint_eq, uint_from_u64, uint_value};
use vstd::arithmetic::div_mod::{
    lemma_mod_bound, lemma_mul_mod_noop, lemma_mul_mod_noop_left, lemma_mul_mod_noop_right,
    lemma_small_mod,
};
use vstd::arithmetic::mul::{lemma_mul_is_associative, lemma_mul_is_commutative};
use vstd::arithmetic::power::pow;
use vstd::prelude::*;
use vstd::std_specs::cmp::PartialEqSpecImpl;

verus! {

#[verifier::external_type_specification]
#[verifier::external_body]
pub struct ExMontyForm<const N: usize>(crypto_bigint::modular::MontyForm<N>);

/// The residue in `[0, p)` that a Montgomery form stands for (what `retrieve` returns).
pub uninterp spec fn monty_value(m: crypto_bigint::modular::MontyForm<8>) -> nat;

/// The modulus `p` that a Montgomery form was made with.
pub uninterp spec fn monty_modulus(m: crypto_bigint::modular::MontyForm<8>) -> nat;

/// Sum in F_p.
pub open spec fn fadd(a: nat, b: nat, p: nat) -> nat {
    (a + b) % p
}

/// Difference in F_p.
pub open spec fn fsub(a: nat, b: nat, p: nat) -> nat {
    ((a as int - b as int) % (p as int)) as nat
}

/// Product in F_p.
pub open spec fn fmul(a: nat, b: nat, p: nat) -> nat {
    (a * b) % p
}

/// Power in F_p.
pub open spec fn fpow(a: nat, e: nat, p: nat) -> nat {
    (pow(a as int, e) % (p as int)) as nat
}

/// `y` is the multiplicative inverse of `a` in F_p.
pub open spec fn is_inverse(a: nat, y: nat, p: nat) -> bool {
    y < p && (a * y) % p == 1
}

/// `a` has a multiplicative inverse modulo `p`.
pub open spec fn has_inverse(a: nat, p: nat) -> bool {
    exists|y: nat| is_inverse(a, y, p)
}

/// The multiplicative inverse of `a` in F_p, where it exists.
pub open spec fn finv(a: nat, p: nat) -> nat {
    choose|y: nat| is_inverse(a, y, p)
}

/// A residue has at most one inverse.
pub proof fn lemma_inverse_unique(a: nat, y1: nat, y2: nat, p: nat)
    requires
        is_inverse(a, y1, p),
        is_inverse(a, y2, p),
    ensures
        y1 == y2,
{
    let (ai, y1i, y2i, pi) = (a as int, y1 as int, y2 as int, p as int);
    lemma_mul_mod_noop_right(y1i, ai * y2i, pi);
    lemma_mul_mod_noop_left(y1i * ai, y2i, pi);
    lemma_mul_is_associative(y1i, ai, y2i);
    lemma_mul_is_commutative(y1i, ai);
    lemma_small_mod(y1, p);
    lemma_small_mod(y2, p);
    assert(y1i * 1 == y1i);
    assert(1 * y2i == y2i);
}

/// Where an inverse exists, `finv` is it.
pub proof fn lemma_finv(a: nat, y: nat, p: nat)
    requires
        is_inverse(a, y, p),
    ensures
        finv(a, p) == y,
        has_inverse(a, p),
{
    lemma_inverse_unique(a, finv(a, p), y, p);
}

/// The product of two inverses is the inverse of the product.
pub proof fn lemma_inverse_of_product(a: nat, ia: nat, b: nat, ib: nat, p: nat)
    requires
        p > 1,
        is_inverse(a, ia, p),
        is_inverse(b, ib, p),
    ensures
        is_inverse(fmul(a, b, p), fmul(ia, ib, p), p),
        has_inverse(fmul(a, b, p), p),
        finv(fmul(a, b, p), p) == fmul(ia, ib, p),
{
    let (ai, iai, bi, ibi, pi) = (a as int, ia as int, b as int, ib as int, p as int);
    lemma_mul_mod_noop(ai * bi, iai * ibi, pi);
    lemma_mul_mod_noop(ai * iai, bi * ibi, pi);
    assert((ai * bi) * (iai * ibi) == (ai * iai) * (bi * ibi)) by (nonlinear_arith);
    lemma_small_mod(1, p);
    assert((1int * 1int) % pi == 1);
    lemma_mod_bound(iai * ibi, pi);
    lemma_finv(fmul(a, b, p), fmul(ia, ib, p), p);
}

/// Where a product has an inverse, so has each factor.
pub proof fn lemma_factors_invertible(a: nat, b: nat, p: nat)
    requires
        p > 1,
        has_inverse(fmul(a, b, p), p),
    ensures
        has_inverse(a, p),
        has_inverse(b, p),
{
    let w = finv(fmul(a, b, p), p);
    let (ai, bi, wi, pi) = (a as int, b as int, w as int, p as int);
    lemma_mul_mod_noop_left(ai * bi, wi, pi);
    assert(((ai * bi) * wi) % pi == 1);
    assert((ai * bi) * wi == ai * (bi * wi) && (ai * bi) * wi == bi * (ai * wi))
        by (nonlinear_arith);
    lemma_mul_mod_noop_right(ai, bi * wi, pi);
    lemma_mul_mod_noop_right(bi, ai * wi, pi);
    lemma_mod_bound(bi * wi, pi);
    lemma_mod_bound(ai * wi, pi);
    assert(is_inverse(a, ((bi * wi) % pi) as nat, p));
    assert(is_inverse(b, ((ai * wi) % pi) as nat, p));
}

/// An inverse is itself invertible, and its inverse is the residue it came from.
pub proof fn lemma_inverse_of_inverse(a: nat, ia: nat, p: nat)
    requires
        a < p,
        is_inverse(a, ia, p),
    ensures
        is_inverse(ia, a, p),
{
    lemma_mul_is_commutative(a as int, ia as int);
}

/// `MontyParams::new_vartime` and `MontyForm::new`: the residue of `integer` modulo the odd
/// number `modulus`.
#[verifier::external_body]
fn monty_new(
    integer: &crypto_bigint::Uint<8>,
    modulus: &crypto_bigint::Uint<8>,
) -> (r: crypto_bigint::modular::MontyForm<8>)
    requires
        uint_value(*modulus) % 2 == 1,
        uint_value(*modulus) >= 3,
    ensures
        monty_modulus(r) == uint_value(*modulus),
        monty_value(r) == uint_value(*integer) % uint_value(*modulus),
{
    let odd = crypto_bigint::Odd::new(*modulus).unwrap();
    let params = crypto_bigint::modular::MontyParams::new_vartime(odd);
    crypto_bigint::modular::MontyForm::new(integer, params)
}

/// `MontyForm::new` with the parameters of an existing element: the residue of `integer` in
/// the field of `like`.
#[verifier::external_body]
fn monty_reduce(
    like: &crypto_bigint::modular::MontyForm<8>,
    integer: &crypto_bigint::Uint<8>,
) -> (r: crypto_bigint::modular::MontyForm<8>)
    ensures
        monty_modulus(r) == monty_modulus(*like),
        monty_value(r) == uint_value(*integer) % monty_modulus(*like),
{
    crypto_bigint::modular::MontyForm::new(integer, *like.params())
}

/// `MontyForm::retrieve`: the residue as an integer.
#[verifier::external_body]
fn monty_retrieve(a: &crypto_bigint::modular::MontyForm<8>) -> (r: crypto_bigint::Uint<8>)
    ensures
        uint_value(r) == monty_value(*a),
{
    a.retrieve()
}

/// `MontyParams::modulus` of the element's parameters: the modulus as an integer.
#[verifier::external_body]
fn monty_modulus_of(a: &crypto_bigint::modular::MontyForm<8>) -> (r: crypto_bigint::Uint<8>)
    ensures
        uint_value(r) == monty_modulus(*a),
{
    a.params().modulus().get()
}

/// `MontyForm::add`: the sum modulo `p` of two elements of one field.
#[verifier::external_body]
fn monty_add(
    a: &crypto_bigint::modular::MontyForm<8>,
    b: &crypto_bigint::modular::MontyForm<8>,
) -> (r: crypto_bigint::modular::MontyForm<8>)
    requires
        monty_modulus(*a) == monty_modulus(*b),
    ensures
        monty_modulus(r) == monty_modulus(*a),
        monty_value(r) == fadd(monty_value(*a), monty_value(*b), monty_modulus(*a)),
{
    a.add(b)
}

/// `MontyForm::sub`: the difference modulo `p` of two elements of one field.
#[verifier::external_body]
fn monty_sub(
    a: &crypto_bigint::modular::MontyForm<8>,
    b: &crypto_bigint::modular::MontyForm<8>,
) -> (r: crypto_bigint::modular::MontyForm<8>)
    requires
        monty_modulus(*a) == monty_modulus(*b),
    ensures
        monty_modulus(r) == monty_modulus(*a),
        monty_value(r) == fsub(monty_value(*a), monty_value(*b), monty_modulus(*a)),
{
    a.sub(b)
}

/// `MontyForm::neg`: the negative modulo `p`.
#[verifier::external_body]
fn monty_neg(a: &crypto_bigint::modular::MontyForm<8>) -> (r: crypto_bigint::modular::MontyForm<8>)
    ensures
        monty_modulus(r) == monty_modulus(*a),
        monty_value(r) == fsub(0, monty_value(*a), monty_modulus(*a)),
{
    a.neg()
}

/// `MontyForm::mul`: the product modulo `p` of two elements of one field.
#[verifier::external_body]
fn monty_mul(
    a: &crypto_bigint::modular::MontyForm<8>,
    b: &crypto_bigint::modular::MontyForm<8>,
) -> (r: crypto_bigint::modular::MontyForm<8>)
    requires
        monty_modulus(*a) == monty_modulus(*b),
    ensures
        monty_modulus(r) == monty_modulus(*a),
        monty_value(r) == fmul(monty_value(*a), monty_value(*b), monty_modulus(*a)),
{
    a.mul(b)
}

/// `MontyForm::square`: the square modulo `p`.
#[verifier::external_body]
fn monty_square(
    a: &crypto_bigint::modular::MontyForm<8>,
) -> (r: crypto_bigint::modular::MontyForm<8>)
    ensures
        monty_modulus(r) == monty_modulus(*a),
        monty_value(r) == fmul(monty_value(*a), monty_value(*a), monty_modulus(*a)),
{
    a.square()
}

/// `MontyForm::pow`: the power modulo `p`, the exponent being an integer.
#[verifier::external_body]
fn monty_pow(
    a: &crypto_bigint::modular::MontyForm<8>,
    exponent: &crypto_bigint::Uint<8>,
) -> (r: crypto_bigint::modular::MontyForm<8>)
    ensures
        monty_modulus(r) == monty_modulus(*a),
        monty_value(r) == fpow(monty_value(*a), uint_value(*exponent), monty_modulus(*a)),
{
    a.pow(exponent)
}

/// `MontyForm::inv`: the inverse modulo `p` where the element is coprime to `p`, nothing
/// otherwise.
#[verifier::external_body]
fn monty_inv(a: &crypto_bigint::modular::MontyForm<8>) -> (r: Option<
    crypto_bigint::modular::MontyForm<8>,
>)
    ensures
        match r {
            Some(v) => monty_modulus(v) == monty_modulus(*a) && is_inverse(
                monty_value(*a),
                monty_value(v),
                monty_modulus(*a),
            ),
            None => !has_inverse(monty_value(*a), monty_modulus(*a)),
        },
{
    a.inv().into()
}

/// An element of the field F_p.
///
/// Values of this type arise only from [`FieldElement::new`] and from the arithmetic below,
/// which keep the Montgomery form reduced.
#[derive(Clone, Copy, Debug)]
pub struct FieldElement {
    repr: crypto_bigint::modular::MontyForm<8>,
}

impl View for FieldElement {
    type V = nat;

    /// The residue, in `[0, p)`.
    closed spec fn view(&self) -> nat {
        monty_value(self.repr)
    }
}

impl FieldElement {
    /// The modulus `p` of the field that the element lives in.
    pub closed spec fn modulus(&self) -> nat {
        monty_modulus(self.repr)
    }

    /// The element is a reduced residue of an odd modulus that is at least 3.
    pub open spec fn wf(&self) -> bool {
        &&& self@ < self.modulus()
        &&& self.modulus() % 2 == 1
        &&& 3 <= self.modulus()
    }

    /// `self` and `other` are elements of one field.
    pub open spec fn same_field(&self, other: &FieldElement) -> bool {
        self.modulus() == other.modulus()
    }

    /// The residue of `integer` modulo `modulus`.
    ///
    /// This computes the Montgomery parameters of `modulus` afresh; to make further elements
    /// of the same field, use [`FieldElement::reduce`].
    pub fn new(integer: &crypto_bigint::Uint<8>, modulus: &crypto_bigint::Uint<8>) -> (r: Self)
        requires
            uint_value(*modulus) % 2 == 1,
            uint_value(*modulus) >= 3,
        ensures
            r.wf(),
            r.modulus() == uint_value(*modulus),
            r@ == uint_value(*integer) % uint_value(*modulus),
    {
        proof {
            lemma_mod_bound(uint_value(*integer) as int, uint_value(*modulus) as int);
        }
        FieldElement { repr: monty_new(integer, modulus) }
    }

    /// The residue of `integer` in the field of `self`.
    pub fn reduce(&self, integer: &crypto_bigint::Uint<8>) -> (r: Self)
        ensures
            self.wf() ==> r.wf(),
            r.same_field(self),
            r@ == uint_value(*integer) % self.modulus(),
    {
        proof {
            if self.wf() {
                lemma_mod_bound(uint_value(*integer) as int, self.modulus() as int);
            }
        }
        FieldElement { repr: monty_reduce(&self.repr, integer) }
    }

    /// The residue of the small number `n` in the field of `self`.
    pub fn small(&self, n: u64) -> (r: Self)
        ensures
            self.wf() ==> r.wf(),
            r.same_field(self),
            r@ == (n as nat) % self.modulus(),
    {
        let integer = uint_from_u64(n);
        self.reduce(&integer)
    }

    /// The residue as an integer.
    pub fn retrieve(&self) -> (r: crypto_bigint::Uint<8>)
        ensures
            uint_value(r) == self@,
    {
        monty_retrieve(&self.repr)
    }

    /// The modulus as an integer.
    pub fn modulus_value(&self) -> (r: crypto_bigint::Uint<8>)
        ensures
            uint_value(r) == self.modulus(),
    {
        monty_modulus_of(&self.repr)
    }

    /// Whether the element is zero.
    pub fn is_zero(&self) -> (r: bool)
        ensures
            r == (self@ == 0),
    {
        let zero = uint_from_u64(0);
        uint_eq(&self.retrieve(), &zero)
    }

    /// Whether `other` lives in the field of `self`.
    pub fn shares_field(&self, other: &FieldElement) -> (r: bool)
        ensures
            r == self.same_field(other),
    {
        uint_eq(&self.modulus_value(), &other.modulus_value())
    }

    /// `self + rhs`.
    pub fn add(&self, rhs: &FieldElement) -> (r: Self)
        requires
            self.same_field(rhs),
        ensures
            self.wf() ==> r.wf(),
            r.same_field(self),
            r@ == fadd(self@, rhs@, self.modulus()),
    {
        proof {
            if self.wf() {
                lemma_mod_bound((self@ + rhs@) as int, self.modulus() as int);
            }
        }
        FieldElement { repr: monty_add(&self.repr, &rhs.repr) }
    }

    /// `self - rhs`.
    pub fn sub(&self, rhs: &FieldElement) -> (r: Self)
        requires
            self.same_field(rhs),
        ensures
            self.wf() ==> r.wf(),
            r.same_field(self),
            r@ == fsub(self@, rhs@, self.modulus()),
    {
        proof {
            if self.wf() {
                lemma_mod_bound(self@ - rhs@, self.modulus() as int);
            }
        }
        FieldElement { repr: monty_sub(&self.repr, &rhs.repr) }
    }

    /// `-self`.
    pub fn neg(&self) -> (r: Self)
        ensures
            self.wf() ==> r.wf(),
            r.same_field(self),
            r@ == fsub(0, self@, self.modulus()),
    {
        proof {
            if self.wf() {
                lemma_mod_bound(0 - self@, self.modulus() as int);
            }
        }
        FieldElement { repr: monty_neg(&self.repr) }
    }

    /// `self * rhs`.
    pub fn mul(&self, rhs: &FieldElement) -> (r: Self)
        requires
            self.same_field(rhs),
        ensures
            self.wf() ==> r.wf(),
            r.same_field(self),
            r@ == fmul(self@, rhs@, self.modulus()),
    {
        proof {
            if self.wf() {
                lemma_mod_bound((self@ * rhs@) as int, self.modulus() as int);
            }
        }
        FieldElement { repr: monty_mul(&self.repr, &rhs.repr) }
    }

    /// `self * self`.
    pub fn square(&self) -> (r: Self)
        ensures
            self.wf() ==> r.wf(),
            r.same_field(self),
            r@ == fmul(self@, self@, self.modulus()),
    {
        proof {
            if self.wf() {
                lemma_mod_bound((self@ * self@) as int, self.modulus() as int);
            }
        }
        FieldElement { repr: monty_square(&self.repr) }
    }

    /// `self` raised to `exponent`.
    pub fn pow(&self, exponent: &crypto_bigint::Uint<8>) -> (r: Self)
        ensures
            self.wf() ==> r.wf(),
            r.same_field(self),
            r@ == fpow(self@, uint_value(*exponent), self.modulus()),
    {
        proof {
            if self.wf() {
                lemma_mod_bound(pow(self@ as int, uint_value(*exponent)), self.modulus() as int);
            }
        }
        FieldElement { repr: monty_pow(&self.repr, exponent) }
    }

    /// The multiplicative inverse, if there is one.
    pub fn inv(&self) -> (r: Option<Self>)
        ensures
            r is Some <==> has_inverse(self@, self.modulus()),
            r matches Some(v) ==> (self.wf() ==> v.wf()) && v.same_field(self) && v@ == finv(
                self@,
                self.modulus(),
            ) && is_inverse(self@, v@, self.modulus()),
    {
        match monty_inv(&self.repr) {
            Some(v) => {
                proof {
                    lemma_finv(monty_value(self.repr), monty_value(v), monty_modulus(self.repr));
                }
                Some(FieldElement { repr: v })
            },
            None => None,
        }
    }
}

impl PartialEq for FieldElement {
    /// Two elements are equal when they have the same residue in the same field.
    fn eq(&self, other: &Self) -> (r: bool) {
        uint_eq(&self.retrieve(), &other.retrieve()) && self.shares_field(other)
    }
}

impl PartialEqSpecImpl for FieldElement {
    open spec fn obeys_eq_spec() -> bool {
        true
    }

    open spec fn eq_spec(&self, other: &Self) -> bool {
        self@ == other@ && self.modulus() == other.modulus()
    }
}

} // verus!
