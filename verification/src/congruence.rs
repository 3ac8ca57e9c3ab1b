//! Congruence modulo `p`: the lemmas that carry a chain of field operations over to one
//! polynomial, reduced once.
use crate::field::{fadd, fmul, fsub};
use vstd::arithmetic::div_mod::{
    lemma_add_mod_noop, lemma_mod_bound, lemma_mod_twice, lemma_mul_mod_noop, lemma_small_mod,
    lemma_sub_mod_noop,
};
use vstd::prelude::*;

verus! {

/// `a` and `b` leave the same remainder modulo `p`.
pub open spec fn congruent(a: int, b: int, p: int) -> bool {
    a % p == b % p
}

/// Sums of congruent numbers are congruent.
pub proof fn lemma_congruent_add(a: int, a2: int, b: int, b2: int, p: int)
    requires
        p > 0,
        congruent(a, a2, p),
        congruent(b, b2, p),
    ensures
        congruent(a + b, a2 + b2, p),
{
    lemma_add_mod_noop(a, b, p);
    lemma_add_mod_noop(a2, b2, p);
}

/// Differences of congruent numbers are congruent.
pub proof fn lemma_congruent_sub(a: int, a2: int, b: int, b2: int, p: int)
    requires
        p > 0,
        congruent(a, a2, p),
        congruent(b, b2, p),
    ensures
        congruent(a - b, a2 - b2, p),
{
    lemma_sub_mod_noop(a, b, p);
    lemma_sub_mod_noop(a2, b2, p);
}

/// Products of congruent numbers are congruent.
pub proof fn lemma_congruent_mul(a: int, a2: int, b: int, b2: int, p: int)
    requires
        p > 0,
        congruent(a, a2, p),
        congruent(b, b2, p),
    ensures
        congruent(a * b, a2 * b2, p),
{
    lemma_mul_mod_noop(a, b, p);
    lemma_mul_mod_noop(a2, b2, p);
}

/// A field sum is congruent to the sum of anything congruent to its operands.
pub proof fn lemma_fadd_congruent(a: nat, b: nat, a2: int, b2: int, p: nat)
    requires
        p > 0,
        congruent(a as int, a2, p as int),
        congruent(b as int, b2, p as int),
    ensures
        congruent(fadd(a, b, p) as int, a2 + b2, p as int),
        fadd(a, b, p) < p,
{
    lemma_congruent_add(a as int, a2, b as int, b2, p as int);
    lemma_mod_twice((a + b) as int, p as int);
    lemma_mod_bound((a + b) as int, p as int);
}

/// A field difference is congruent to the difference of anything congruent to its operands.
pub proof fn lemma_fsub_congruent(a: nat, b: nat, a2: int, b2: int, p: nat)
    requires
        p > 0,
        congruent(a as int, a2, p as int),
        congruent(b as int, b2, p as int),
    ensures
        congruent(fsub(a, b, p) as int, a2 - b2, p as int),
        fsub(a, b, p) < p,
{
    lemma_congruent_sub(a as int, a2, b as int, b2, p as int);
    lemma_mod_twice(a - b, p as int);
    lemma_mod_bound(a - b, p as int);
}

/// A field product is congruent to the product of anything congruent to its operands.
pub proof fn lemma_fmul_congruent(a: nat, b: nat, a2: int, b2: int, p: nat)
    requires
        p > 0,
        congruent(a as int, a2, p as int),
        congruent(b as int, b2, p as int),
    ensures
        congruent(fmul(a, b, p) as int, a2 * b2, p as int),
        fmul(a, b, p) < p,
{
    lemma_congruent_mul(a as int, a2, b as int, b2, p as int);
    lemma_mod_twice((a * b) as int, p as int);
    lemma_mod_bound((a * b) as int, p as int);
}

/// A reduced residue that is congruent to `v` is the remainder of `v`.
pub proof fn lemma_congruent_residue(r: nat, v: int, p: nat)
    requires
        p > 0,
        r < p,
        congruent(r as int, v, p as int),
    ensures
        r == v % (p as int),
{
    lemma_small_mod(r, p);
}

} // verus!
