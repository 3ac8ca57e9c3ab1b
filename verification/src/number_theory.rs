//! Elementary number theory of the prime field: Euclid's lemma, Fermat's little theorem, and
//! Euler's criterion for moduli that are 3 modulo 4.
use vstd::arithmetic::div_mod::{
    lemma_fundamental_div_mod, lemma_mod_multiples_basic, lemma_mul_mod_noop_left,
    lemma_mul_mod_noop_right, lemma_small_mod, lemma_sub_mod_noop,
};
use vstd::arithmetic::power::{
    lemma0_pow, lemma_pow_adds, lemma_pow_mod_noop, lemma_pow_multiplies, lemma_pow_positive,
    lemma_square_is_pow2, pow,
};
use crate::field::{fpow, has_inverse, is_inverse};
use vstd::prelude::*;
use vstd::set_lib::{lemma_int_range, lemma_len_subset, set_int_range};

verus! {

/// `p` is a prime number.
pub open spec fn is_prime(p: nat) -> bool {
    &&& p >= 2
    &&& forall|d: nat| 1 < d < p ==> #[trigger] (p % d) != 0
}

/// `n` is a non-zero square modulo `p`.
pub open spec fn is_quadratic_residue(n: nat, p: nat) -> bool {
    n % p != 0 && exists|r: nat| #[trigger] ((r * r) % p) == n % p
}

/// The product of the entries of `s`.
pub open spec fn seq_product(s: Seq<int>) -> int
    decreases s.len(),
{
    if s.len() == 0 {
        1
    } else {
        seq_product(s.drop_last()) * s.last()
    }
}

/// `n!`.
pub open spec fn factorial(n: nat) -> int
    decreases n,
{
    if n == 0 {
        1
    } else {
        factorial((n - 1) as nat) * n
    }
}

/// The residues of `a, 2a, ..., na` modulo `p`.
pub open spec fn multiples_mod(a: nat, n: nat, p: nat) -> Seq<int> {
    Seq::new(n, |i: int| (a * (i + 1)) % (p as int))
}

/// Euclid's lemma below the prime: if `p` divides `x * y` and `0 < x < p`, it divides `y`.
proof fn lemma_euclid_below(x: nat, y: int, p: nat)
    requires
        is_prime(p),
        0 < x < p,
        (x * y) % (p as int) == 0,
    ensures
        y % (p as int) == 0,
    decreases x,
{
    let (xi, pi) = (x as int, p as int);
    if x == 1 {
        assert(xi * y == y) by (nonlinear_arith)
            requires
                xi == 1,
        ;
    } else {
        let q = pi / xi;
        let r = pi % xi;
        lemma_fundamental_div_mod(pi, xi);
        assert(p % x != 0);
        let k = (xi * y) / pi;
        lemma_fundamental_div_mod(xi * y, pi);
        assert(r * y == pi * (y - q * k)) by (nonlinear_arith)
            requires
                pi == xi * q + r,
                xi * y == pi * k + 0,
        ;
        lemma_mod_multiples_basic(y - q * k, pi);
        assert(pi * (y - q * k) == (y - q * k) * pi) by (nonlinear_arith);
        lemma_euclid_below(r as nat, y, p);
    }
}

/// Euclid's lemma: a prime that divides a product divides one of the factors.
pub proof fn lemma_euclid(a: int, b: int, p: nat)
    requires
        is_prime(p),
        (a * b) % (p as int) == 0,
    ensures
        a % (p as int) == 0 || b % (p as int) == 0,
{
    let pi = p as int;
    let r = a % pi;
    if r != 0 {
        lemma_mul_mod_noop_left(a, b, pi);
        lemma_euclid_below(r as nat, b, p);
    }
}

/// Taking out one entry of a sequence divides its product by that entry.
proof fn lemma_product_remove(s: Seq<int>, j: int)
    requires
        0 <= j < s.len(),
    ensures
        seq_product(s) == s[j] * seq_product(s.remove(j)),
    decreases s.len(),
{
    let dl = s.drop_last();
    if j == s.len() - 1 {
        assert(s.remove(j) =~= dl);
        assert(seq_product(dl) * s.last() == s.last() * seq_product(dl)) by (nonlinear_arith);
    } else {
        lemma_product_remove(dl, j);
        assert(s.remove(j).drop_last() =~= dl.remove(j));
        assert(s.remove(j).last() == s.last());
        let rest = seq_product(dl.remove(j));
        assert((s[j] * rest) * s.last() == s[j] * (rest * s.last())) by (nonlinear_arith);
    }
}

/// A sequence of `n` different numbers between 1 and `n` has the product `n!`.
proof fn lemma_product_of_permutation(s: Seq<int>, n: nat)
    requires
        s.len() == n,
        s.no_duplicates(),
        forall|i: int| 0 <= i < n ==> 1 <= #[trigger] s[i] <= n,
    ensures
        seq_product(s) == factorial(n),
    decreases n,
{
    if n > 0 {
        // one of the entries is n: otherwise n different numbers lie between 1 and n - 1
        if forall|i: int| 0 <= i < n ==> #[trigger] s[i] != n {
            let range = set_int_range(1, n as int);
            lemma_int_range(1, n as int);
            assert(s.to_set().subset_of(range)) by {
                assert forall|v: int| s.to_set().contains(v) implies range.contains(v) by {
                    let i = choose|i: int| 0 <= i < s.len() && s[i] == v;
                    assert(1 <= s[i] <= n && s[i] != n);
                }
            }
            lemma_len_subset(s.to_set(), range);
            s.unique_seq_to_set();
            assert(false);
        }
        let j = choose|j: int| 0 <= j < n && s[j] == n;
        let rest = s.remove(j);
        assert forall|i: int| 0 <= i < n - 1 implies 1 <= #[trigger] rest[i] <= n - 1 by {
            let from = if i < j {
                i
            } else {
                i + 1
            };
            assert(rest[i] == s[from]);
            assert(1 <= s[from] <= n);
            assert(s[from] != s[j]);
        }
        assert(rest.no_duplicates()) by {
            assert forall|i1: int, i2: int|
                0 <= i1 < rest.len() && 0 <= i2 < rest.len() && i1 != i2 implies rest[i1]
                != rest[i2] by {
                let f1 = if i1 < j {
                    i1
                } else {
                    i1 + 1
                };
                let f2 = if i2 < j {
                    i2
                } else {
                    i2 + 1
                };
                assert(rest[i1] == s[f1] && rest[i2] == s[f2]);
            }
        }
        lemma_product_of_permutation(rest, (n - 1) as nat);
        lemma_product_remove(s, j);
        assert(n * factorial((n - 1) as nat) == factorial((n - 1) as nat) * n)
            by (nonlinear_arith);
    }
}

/// No factorial below the prime is divisible by it.
proof fn lemma_factorial_coprime(n: nat, p: nat)
    requires
        is_prime(p),
        n < p,
    ensures
        factorial(n) % (p as int) != 0,
    decreases n,
{
    if n == 0 {
        lemma_small_mod(1, p);
    } else {
        lemma_factorial_coprime((n - 1) as nat, p);
        lemma_small_mod(n, p);
        if factorial(n) % (p as int) == 0 {
            lemma_euclid(factorial((n - 1) as nat), n as int, p);
        }
    }
}

/// The product of the residues of `a, 2a, ..., na` is congruent to `a^n * n!`.
proof fn lemma_product_of_multiples(a: nat, n: nat, p: nat)
    requires
        p > 0,
    ensures
        seq_product(multiples_mod(a, n, p)) % (p as int) == (pow(a as int, n) * factorial(n)) % (
        p as int),
    decreases n,
{
    let pi = p as int;
    let ai = a as int;
    if n == 0 {
        assert(pow(ai, 0) == 1) by {
            vstd::arithmetic::power::lemma_pow0(ai);
        }
    } else {
        let m = (n - 1) as nat;
        lemma_product_of_multiples(a, m, p);
        let s = multiples_mod(a, n, p);
        assert(s.drop_last() =~= multiples_mod(a, m, p));
        let before = seq_product(multiples_mod(a, m, p));
        assert(s.last() == (ai * n) % pi);
        lemma_mul_mod_noop_right(before, ai * n, pi);
        lemma_mul_mod_noop_left(before, ai * n, pi);
        lemma_mul_mod_noop_left(pow(ai, m) * factorial(m), ai * n, pi);
        assert(pow(ai, n) == ai * pow(ai, m)) by {
            vstd::arithmetic::power::lemma_pow1(ai);
            lemma_pow_adds(ai, 1, m);
        }
        assert((pow(ai, m) * factorial(m)) * (ai * n) == (ai * pow(ai, m)) * (factorial(m) * n))
            by (nonlinear_arith);
    }
}

/// The residues of `a, 2a, ..., (p - 1)a` are the numbers `1, ..., p - 1` in some order.
proof fn lemma_multiples_permute(a: nat, p: nat)
    requires
        is_prime(p),
        a % p != 0,
    ensures
        seq_product(multiples_mod(a, (p - 1) as nat, p)) == factorial((p - 1) as nat),
{
    let pi = p as int;
    let ai = a as int;
    let n = (p - 1) as nat;
    let s = multiples_mod(a, n, p);
    assert forall|i: int| 0 <= i < n implies 1 <= #[trigger] s[i] <= n by {
        vstd::arithmetic::div_mod::lemma_mod_bound(ai * (i + 1), pi);
        if s[i] == 0 {
            lemma_euclid(ai, i + 1, p);
            lemma_small_mod((i + 1) as nat, p);
        }
    }
    assert(s.no_duplicates()) by {
        assert forall|i: int, j: int| 0 <= i < s.len() && 0 <= j < s.len() && i != j implies s[i]
            != s[j] by {
            if s[i] == s[j] {
                let (lo, hi) = if i < j {
                    (i, j)
                } else {
                    (j, i)
                };
                lemma_sub_mod_noop(ai * (hi + 1), ai * (lo + 1), pi);
                assert(ai * (hi + 1) - ai * (lo + 1) == ai * (hi - lo)) by (nonlinear_arith);
                lemma_small_mod(0, p);
                lemma_euclid(ai, hi - lo, p);
                lemma_small_mod((hi - lo) as nat, p);
            }
        }
    }
    lemma_product_of_permutation(s, n);
}

/// Fermat's little theorem: `a^(p - 1) = 1` modulo a prime `p` that does not divide `a`.
pub proof fn lemma_fermat(a: nat, p: nat)
    requires
        is_prime(p),
        a % p != 0,
    ensures
        pow(a as int, (p - 1) as nat) % (p as int) == 1,
{
    let pi = p as int;
    let n = (p - 1) as nat;
    let f = factorial(n);
    let e = pow(a as int, n);
    lemma_multiples_permute(a, p);
    lemma_product_of_multiples(a, n, p);
    lemma_factorial_coprime(n, p);
    // f = e * f modulo p, so p divides (e - 1) * f, and not f
    lemma_sub_mod_noop(e * f, f, pi);
    lemma_small_mod(0, p);
    assert(e * f - f == (e - 1) * f) by (nonlinear_arith);
    lemma_euclid(e - 1, f, p);
    assert(a > 0);
    lemma_pow_positive(a as int, n);
    lemma_fundamental_div_mod(e - 1, pi);
    lemma_fundamental_div_mod(e, pi);
    let q = (e - 1) / pi;
    assert(e == q * pi + 1) by (nonlinear_arith)
        requires
            e - 1 == pi * q + 0,
    ;
    vstd::arithmetic::div_mod::lemma_fundamental_div_mod_converse(e, pi, q, 1);
}

/// Euler's criterion where `p = 3 (mod 4)`: `n` is a non-zero square modulo `p` if and only
/// if `n^((p - 1) / 2) = 1`. One way a square root is written down, `n^((p + 1) / 4)`; the
/// other way is Fermat's little theorem.
pub proof fn lemma_euler_criterion(n: nat, p: nat)
    requires
        is_prime(p),
        p % 4 == 3,
    ensures
        is_quadratic_residue(n, p) <==> pow(n as int, ((p - 1) / 2) as nat) % (p as int) == 1,
{
    let pi = p as int;
    let ni = n as int;
    let h = ((p - 1) / 2) as nat;
    let quarter = ((p + 1) / 4) as nat;
    assert(2 * h == p - 1 && quarter + quarter == h + 1 && h >= 1);
    if pow(ni, h) % pi == 1 {
        if n % p == 0 {
            lemma_pow_mod_noop(ni, h, pi);
            lemma0_pow(h);
            lemma_small_mod(0, p);
            assert(false);
        }
        let root = (pow(ni, quarter) % pi) as nat;
        lemma_pow_adds(ni, quarter, quarter);
        lemma_pow_adds(ni, 1, h);
        vstd::arithmetic::power::lemma_pow1(ni);
        vstd::arithmetic::div_mod::lemma_mul_mod_noop(pow(ni, quarter), pow(ni, quarter), pi);
        lemma_mul_mod_noop_right(ni, pow(ni, h), pi);
        assert(ni * 1 == ni);
        assert((root * root) % p == n % p);
    }
    if is_quadratic_residue(n, p) {
        let r = choose|r: nat| #[trigger] ((r * r) % p) == n % p;
        let ri = r as int;
        if r % p == 0 {
            lemma_mul_mod_noop_left(ri, ri, pi);
            assert((0 * ri) % pi == 0) by {
                lemma_small_mod(0, p);
            }
            assert(false);
        }
        lemma_fermat(r, p);
        lemma_square_is_pow2(ri);
        lemma_pow_multiplies(ri, 2, h);
        lemma_pow_mod_noop(ni, h, pi);
        lemma_pow_mod_noop(ri * ri, h, pi);
    }
}

/// In a prime field every non-zero residue has an inverse, namely its power `p - 2`.
pub proof fn lemma_nonzero_invertible(a: nat, p: nat)
    requires
        is_prime(p),
        a % p != 0,
    ensures
        has_inverse(a, p),
        is_inverse(a, fpow(a, (p - 2) as nat, p), p),
{
    let (ai, pi) = (a as int, p as int);
    let e = (p - 2) as nat;
    if p == 2 {
        vstd::arithmetic::power::lemma_pow0(ai);
        lemma_small_mod(1, p);
        assert(a % 2 == 1);
        assert(ai * 1 == ai);
    } else {
        lemma_fermat(a, p);
        lemma_pow_adds(ai, 1, e);
        vstd::arithmetic::power::lemma_pow1(ai);
        lemma_mul_mod_noop_right(ai, pow(ai, e), pi);
        vstd::arithmetic::div_mod::lemma_mod_bound(pow(ai, e), pi);
    }
    assert(is_inverse(a, fpow(a, e, p), p));
}

} // verus!
