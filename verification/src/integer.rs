//! Fixed-width unsigned integers.
//!
//! Scalars, exponents and moduli are 512-bit integers of `crypto_bigint`. Verus cannot look
//! inside such an integer, so its value is given a name, [`uint_value`], and every operation
//! the library needs is a small trusted function whose contract is stated over that name.
use vstd::arithmetic::div_mod::{lemma_div_denominator, lemma_fundamental_div_mod};
use vstd::arithmetic::power2::{lemma_pow2_pos, lemma_pow2_unfold, pow2};
use vstd::prelude::*;

verus! {

/// Number of 64-bit limbs of every integer and field element of this library.
pub const LIMBS: usize = 8;

#[verifier::external_type_specification]
#[verifier::external_body]
pub struct ExUint<const N: usize>(crypto_bigint::Uint<N>);

/// The natural number that a 512-bit integer holds.
pub uninterp spec fn uint_value(u: crypto_bigint::Uint<8>) -> nat;

/// 2^512, the first value that no longer fits.
pub open spec fn uint_limit() -> nat {
    0x1_0000000000000000_0000000000000000_0000000000000000_0000000000000000_0000000000000000_0000000000000000_0000000000000000_0000000000000000nat
}

/// 2^64, the base of the words.
pub open spec fn word_base() -> nat {
    0x1_0000000000000000nat
}

/// The value of eight little-endian 64-bit words.
pub open spec fn words_value(w: Seq<u64>) -> nat
    recommends
        w.len() == 8,
{
    let b = word_base();
    (w[0] as nat) + b * ((w[1] as nat) + b * ((w[2] as nat) + b * ((w[3] as nat) + b * ((
    w[4] as nat) + b * ((w[5] as nat) + b * ((w[6] as nat) + b * (w[7] as nat)))))))
}

/// Number of binary digits of `n`: 0 for 0, otherwise the position of the top set bit plus one.
pub open spec fn bit_length(n: nat) -> nat
    decreases n,
{
    if n == 0 {
        0
    } else {
        1 + bit_length(n / 2)
    }
}

/// Whether binary digit `i` of `n` is set.
pub open spec fn bit_is_set(n: nat, i: nat) -> bool {
    (n / pow2(i)) % 2 == 1
}

/// A positive number lies between the two powers of two that its bit length names.
pub proof fn lemma_bit_length_bounds(n: nat)
    requires
        n >= 1,
    ensures
        bit_length(n) >= 1,
        pow2((bit_length(n) - 1) as nat) <= n < pow2(bit_length(n)),
    decreases n,
{
    if n == 1 {
        assert(bit_length(0) == 0);
        assert(bit_length(1) == 1 + bit_length(0));
        lemma_pow2_unfold(1);
        assert(pow2(0) == 1) by {
            vstd::arithmetic::power2::lemma2_to64();
        }
    } else {
        let h = n / 2;
        lemma_bit_length_bounds(h);
        lemma_pow2_unfold(bit_length(h));
        lemma_pow2_unfold(bit_length(n));
    }
}

/// The bits of a positive number above its top bit spell 1.
pub proof fn lemma_top_bit(n: nat)
    requires
        n >= 1,
    ensures
        n / pow2((bit_length(n) - 1) as nat) == 1,
{
    lemma_bit_length_bounds(n);
    let d = pow2((bit_length(n) - 1) as nat);
    lemma_pow2_unfold(bit_length(n));
    lemma_pow2_pos((bit_length(n) - 1) as nat);
    lemma_fundamental_div_mod(n as int, d as int);
    let q = (n as int) / (d as int);
    let r = (n as int) % (d as int);
    assert(q == 1) by (nonlinear_arith)
        requires
            d > 0,
            d <= n < 2 * d,
            n == d * q + r,
            0 <= r < d,
    ;
}

/// Dropping one bit fewer appends that bit: with `m = n / 2^j`, the number `n / 2^(j+1)` is
/// `m / 2`, and bit `j` of `n` is the parity of `m`.
pub proof fn lemma_bit_prefix(n: nat, j: nat)
    ensures
        (n / pow2(j)) / 2 == n / pow2(j + 1),
        bit_is_set(n, j) == ((n / pow2(j)) % 2 == 1),
{
    lemma_pow2_pos(j);
    lemma_pow2_unfold(j + 1);
    lemma_div_denominator(n as int, pow2(j) as int, 2);
    assert(pow2(j) * 2 == 2 * pow2(j));
}

/// No bit lies above the top bit: `k / 2^bits = 0` for the bit length `bits` of `k`.
pub proof fn lemma_prefix_of_all_bits(k: nat)
    ensures
        k / pow2(bit_length(k)) == 0,
{
    lemma_pow2_pos(bit_length(k));
    if k == 0 {
        assert(bit_length(0) == 0);
        vstd::arithmetic::power2::lemma2_to64();
    } else {
        lemma_bit_length_bounds(k);
        vstd::arithmetic::div_mod::lemma_basic_div(k as int, pow2(bit_length(k)) as int);
    }
}

/// The bits of `k` from any bit below its bit length up spell a positive number.
pub proof fn lemma_prefix_positive(k: nat, j: nat)
    requires
        j < bit_length(k),
    ensures
        k / pow2(j) >= 1,
{
    assert(k >= 1) by {
        if k == 0 {
            assert(bit_length(0) == 0);
        }
    }
    lemma_bit_length_bounds(k);
    let top = (bit_length(k) - 1) as nat;
    if j < top {
        vstd::arithmetic::power2::lemma_pow2_strictly_increases(j, top);
    }
    lemma_pow2_pos(j);
    vstd::arithmetic::div_mod::lemma_div_is_ordered(pow2(j) as int, k as int, pow2(j) as int);
    vstd::arithmetic::div_mod::lemma_div_by_self(pow2(j) as int);
}

/// `crypto_bigint::Uint::from_u64`: the integer with the value of `x`.
#[verifier::external_body]
pub(crate) fn uint_from_u64(x: u64) -> (r: crypto_bigint::Uint<8>)
    ensures
        uint_value(r) == x,
{
    crypto_bigint::Uint::from_u64(x)
}

/// `crypto_bigint::Uint::from_words`: the integer whose little-endian words are `w`.
#[verifier::external_body]
pub(crate) fn uint_from_words(w: [u64; 8]) -> (r: crypto_bigint::Uint<8>)
    ensures
        uint_value(r) == words_value(w@),
{
    crypto_bigint::Uint::from_words(w)
}

/// `crypto_bigint::Uint::wrapping_mul`: the product, reduced modulo 2^512.
#[verifier::external_body]
pub(crate) fn uint_wrapping_mul(
    a: &crypto_bigint::Uint<8>,
    b: &crypto_bigint::Uint<8>,
) -> (r: crypto_bigint::Uint<8>)
    ensures
        uint_value(r) == (uint_value(*a) * uint_value(*b)) % uint_limit(),
{
    a.wrapping_mul(b)
}

/// `crypto_bigint::Uint::split_mul`: the full product, as its low and its high 512 bits.
#[verifier::external_body]
pub(crate) fn uint_split_mul(a: &crypto_bigint::Uint<8>, b: &crypto_bigint::Uint<8>) -> (r: (
    crypto_bigint::Uint<8>,
    crypto_bigint::Uint<8>,
))
    ensures
        uint_value(r.0) + uint_value(r.1) * uint_limit() == uint_value(*a) * uint_value(*b),
        uint_value(r.0) < uint_limit(),
{
    a.split_mul(b)
}

/// `crypto_bigint::Uint::wrapping_sub`, used only where the difference is not negative.
#[verifier::external_body]
pub(crate) fn uint_sub(
    a: &crypto_bigint::Uint<8>,
    b: &crypto_bigint::Uint<8>,
) -> (r: crypto_bigint::Uint<8>)
    requires
        uint_value(*a) >= uint_value(*b),
    ensures
        uint_value(r) == uint_value(*a) - uint_value(*b),
{
    a.wrapping_sub(b)
}

/// `crypto_bigint::Uint::bits`: the number of bits needed to write the value, at most 512.
#[verifier::external_body]
pub(crate) fn uint_bits(a: &crypto_bigint::Uint<8>) -> (r: u32)
    ensures
        r == bit_length(uint_value(*a)),
        r <= 512,
{
    a.bits()
}

/// `crypto_bigint::Uint::bit`: binary digit `index` of the value; unset beyond the width.
#[verifier::external_body]
pub(crate) fn uint_bit(a: &crypto_bigint::Uint<8>, index: u32) -> (r: bool)
    ensures
        r == bit_is_set(uint_value(*a), index as nat),
{
    bool::from(a.bit(index))
}

/// Equality of two integers (`PartialEq` of `crypto_bigint::Uint`): equality of their values.
#[verifier::external_body]
pub(crate) fn uint_eq(a: &crypto_bigint::Uint<8>, b: &crypto_bigint::Uint<8>) -> (r: bool)
    ensures
        r == (uint_value(*a) == uint_value(*b)),
{
    a == b
}

/// Order of two integers (`PartialOrd` of `crypto_bigint::Uint`): the order of their values.
#[verifier::external_body]
pub(crate) fn uint_lt(a: &crypto_bigint::Uint<8>, b: &crypto_bigint::Uint<8>) -> (r: bool)
    ensures
        r == (uint_value(*a) < uint_value(*b)),
{
    a < b
}

} // verus!
