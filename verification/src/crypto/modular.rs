use vstd::arithmetic::div_mod::{
    lemma_fundamental_div_mod, lemma_mod_multiples_vanish, lemma_mod_twice,
    lemma_mul_mod_noop_general, lemma_small_mod,
};
use vstd::arithmetic::power::{
    lemma_pow0, lemma_pow1, lemma_pow_adds, lemma_pow_mod_noop, lemma_pow_multiplies,
    lemma_square_is_pow2, pow,
};
use vstd::prelude::*;

verus! {

/// The representative in `[0, period)` of `exponent` modulo `period`.
pub(crate) fn reduce_exponent(exponent: i64, period: i64) -> (r: i64)
    requires
        0 < period,
        i32::MIN <= exponent <= i32::MAX,
    ensures
        r == (exponent as int) % (period as int),
        0 <= r < period,
{
    if exponent >= 0 {
        exponent % period
    } else {
        let back: i64 = (-exponent) % period;
        proof {
            let n = period as int;
            let q = (-exponent as int) / n;
            lemma_fundamental_div_mod(-exponent as int, n);
            assert(exponent as int == n * (-q) - back) by (nonlinear_arith)
                requires
                    -exponent as int == n * q + back,
            ;
            if back == 0 {
                lemma_mod_multiples_vanish(-q, 0, n);
                lemma_small_mod(0, n as nat);
            } else {
                assert(exponent as int == n * (-q - 1) + (n - back)) by (nonlinear_arith)
                    requires
                        exponent as int == n * (-q) - back,
                ;
                lemma_mod_multiples_vanish(-q - 1, n - back, n);
                lemma_small_mod((n - back) as nat, n as nat);
            }
        }
        if back == 0 {
            0
        } else {
            period - back
        }
    }
}

/// One round of square-and-multiply leaves `acc * base^e` unchanged modulo
/// `m`.
proof fn lemma_square_and_multiply(acc: int, base: int, e: nat, m: int)
    requires
        m > 0,
        e > 0,
    ensures
        ((if e % 2 == 1 {
            (acc * base) % m
        } else {
            acc
        }) * pow((base * base) % m, e / 2)) % m == (acc * pow(base, e)) % m,
{
    let half = e / 2;
    let squared = pow(base * base, half);
    // base^(2 * half) is (base * base)^half
    assert(pow(base, 2 * half) == squared) by {
        lemma_square_is_pow2(base);
        lemma_pow_multiplies(base, 2, half);
    }
    assert(pow((base * base) % m, half) % m == squared % m) by {
        lemma_pow_mod_noop(base * base, half, m);
    }
    if e % 2 == 1 {
        assert(pow(base, e) == squared * base) by {
            lemma_pow_adds(base, 2 * half, 1);
            lemma_pow1(base);
        }
        assert(acc * (squared * base) == (acc * base) * squared) by (nonlinear_arith);
        lemma_mul_mod_noop_general((acc * base) % m, pow((base * base) % m, half), m);
        lemma_mul_mod_noop_general(acc * base, squared, m);
        lemma_mod_twice(acc * base, m);
    } else {
        assert(e == 2 * half);
        lemma_mul_mod_noop_general(acc, pow((base * base) % m, half), m);
        lemma_mul_mod_noop_general(acc, squared, m);
    }
}

/// `base^exp % m` by square-and-multiply, every intermediate below `m * m`.
pub(crate) fn pow_mod(base: i64, exp: i64, m: i64) -> (r: i64)
    requires
        0 <= base < m,
        0 <= exp,
        m <= i32::MAX,
    ensures
        r == pow(base as int, exp as nat) % (m as int),
        0 <= r < m,
{
    let mut acc: i64 = 1 % m;
    let mut b: i64 = base;
    let mut e: i64 = exp;
    proof {
        assert((acc * pow(b as int, e as nat)) % (m as int) == pow(base as int, exp as nat) % (
        m as int)) by {
            lemma_mul_mod_noop_general(1, pow(base as int, exp as nat), m as int);
        }
    }
    while e > 0
        invariant
            0 <= acc < m,
            0 <= b < m,
            0 <= e,
            m <= i32::MAX,
            (acc * pow(b as int, e as nat)) % (m as int) == pow(base as int, exp as nat) % (
            m as int),
        decreases e,
    {
        proof {
            lemma_square_and_multiply(acc as int, b as int, e as nat, m as int);
        }
        if e % 2 == 1 {
            acc = mul_mod(acc, b, m);
        }
        b = mul_mod(b, b, m);
        e = e / 2;
    }
    proof {
        lemma_pow0(b as int);
        lemma_small_mod(acc as nat, m as nat);
    }
    acc
}

/// `(a * b) % m` for operands already reduced modulo `m`, without overflow.
pub(crate) fn mul_mod(a: i64, b: i64, m: i64) -> (r: i64)
    requires
        0 <= a < m,
        0 <= b < m,
        m <= i32::MAX,
    ensures
        r == (a * b) % (m as int),
        0 <= r < m,
{
    assert(0 <= a * b <= 0x7fff_ffff * 0x7fff_ffff) by (nonlinear_arith)
        requires
            0 <= a <= 0x7fff_ffff,
            0 <= b <= 0x7fff_ffff,
    ;
    (a * b) % m
}

} // verus!
