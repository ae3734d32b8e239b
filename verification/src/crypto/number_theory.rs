use vstd::arithmetic::div_mod::{
    lemma_fundamental_div_mod, lemma_mod_bound, lemma_mod_multiples_vanish, lemma_mod_pos_bound,
    lemma_mul_mod_noop_general, lemma_small_mod,
};
use vstd::arithmetic::power::{lemma_pow0, lemma_pow1, lemma_pow_adds, pow};
use vstd::prelude::*;
use vstd::set_lib::{lemma_int_range, lemma_len_subset, set_int_range};

verus! {

/// `p` is a prime number: at least 2 and divisible by nothing strictly
/// between 1 and itself.
pub open spec fn is_prime(p: int) -> bool {
    &&& p >= 2
    &&& forall|d: int| 1 < d < p ==> #[trigger] (p % d) != 0
}

/// Every nonzero residue modulo a prime has a multiplicative inverse. The
/// inverse of `x` is built from that of `p % x`, which is smaller.
pub proof fn lemma_inverse_exists(x: int, p: int) -> (inv: int)
    requires
        is_prime(p),
        0 < x < p,
    ensures
        0 < inv < p,
        (x * inv) % p == 1,
    decreases x,
{
    if x == 1 {
        lemma_small_mod(1, p as nat);
        1
    } else {
        let q = p / x;
        let r = p % x;
        lemma_fundamental_div_mod(p, x);
        lemma_mod_pos_bound(p, x);
        assert(r != 0);
        let r_inv = lemma_inverse_exists(r, p);
        let inv = (-q * r_inv) % p;
        lemma_mod_bound(-q * r_inv, p);
        assert((x * inv) % p == 1) by {
            lemma_mul_mod_noop_general(x, -q * r_inv, p);
            assert(x * (-q * r_inv) == p * (-r_inv) + r * r_inv) by (nonlinear_arith)
                requires
                    p == x * q + r,
            ;
            lemma_mod_multiples_vanish(-r_inv, r * r_inv, p);
        }
        if inv == 0 {
            assert(x * inv == 0);
            lemma_small_mod(0, p as nat);
        }
        inv
    }
}

/// Multiplying by an inverse of `x` undoes multiplying by `x`.
proof fn lemma_inverse_undoes(x: int, inv: int, y: int, p: int)
    requires
        p > 0,
        (x * inv) % p == 1,
    ensures
        (inv * ((x * y) % p)) % p == y % p,
{
    lemma_mul_mod_noop_general(inv, x * y, p);
    assert(inv * (x * y) == (x * inv) * y) by (nonlinear_arith);
    lemma_mul_mod_noop_general(x * inv, y, p);
    assert(1 * y == y);
}

/// A nonzero residue modulo a prime can be cancelled from both sides of a
/// congruence.
pub proof fn lemma_cancel(x: int, y: int, z: int, p: int)
    requires
        is_prime(p),
        0 < x < p,
        (x * y) % p == (x * z) % p,
    ensures
        y % p == z % p,
{
    let inv = lemma_inverse_exists(x, p);
    lemma_inverse_undoes(x, inv, y, p);
    lemma_inverse_undoes(x, inv, z, p);
}

/// `n!`.
spec fn factorial(n: nat) -> int
    decreases n,
{
    if n == 0 {
        1
    } else {
        n * factorial((n - 1) as nat)
    }
}

/// The product of the entries of `s`.
spec fn product_of(s: Seq<int>) -> int
    decreases s.len(),
{
    if s.len() == 0 {
        1
    } else {
        product_of(s.drop_last()) * s.last()
    }
}

/// Any entry can be taken out of a product as a factor.
proof fn lemma_product_split(s: Seq<int>, k: int)
    requires
        0 <= k < s.len(),
    ensures
        product_of(s) == s[k] * product_of(s.remove(k)),
    decreases s.len(),
{
    if k == s.len() - 1 {
        assert(s.remove(k) =~= s.drop_last());
        assert(product_of(s.drop_last()) * s.last() == s.last() * product_of(s.drop_last()))
            by (nonlinear_arith);
    } else {
        let front = s.drop_last();
        let rest = s.remove(k);
        lemma_product_split(front, k);
        assert(front.remove(k) =~= rest.drop_last());
        assert(rest.last() == s.last());
        assert((s[k] * product_of(rest.drop_last())) * s.last() == s[k] * (product_of(
            rest.drop_last(),
        ) * s.last())) by (nonlinear_arith);
    }
}

/// A sequence of `n` distinct numbers between 1 and `n` holds `n` itself.
proof fn lemma_holds_largest(s: Seq<int>) -> (k: int)
    requires
        s.len() > 0,
        s.no_duplicates(),
        forall|i: int| 0 <= i < s.len() ==> 1 <= #[trigger] s[i] <= s.len(),
    ensures
        0 <= k < s.len(),
        s[k] == s.len(),
{
    let n = s.len() as int;
    if forall|i: int| 0 <= i < n ==> #[trigger] s[i] != n {
        // then `n` distinct numbers would lie between 1 and `n - 1`
        let below = set_int_range(1, n);
        lemma_int_range(1, n);
        assert(s.to_set().subset_of(below)) by {
            assert forall|v: int| s.to_set().contains(v) implies below.contains(v) by {
                let i = choose|i: int| 0 <= i < n && s[i] == v;
                assert(s[i] != n);
            }
        }
        lemma_len_subset(s.to_set(), below);
        s.unique_seq_to_set();
        assert(false);
    }
    choose|i: int| 0 <= i < n && s[i] == n
}

/// The product of any arrangement of the numbers 1 to `n` is `n!`.
proof fn lemma_product_of_arrangement(s: Seq<int>)
    requires
        s.no_duplicates(),
        forall|i: int| 0 <= i < s.len() ==> 1 <= #[trigger] s[i] <= s.len(),
    ensures
        product_of(s) == factorial(s.len()),
    decreases s.len(),
{
    if s.len() > 0 {
        let k = lemma_holds_largest(s);
        let rest = s.remove(k);
        assert forall|i: int| 0 <= i < rest.len() implies 1 <= #[trigger] rest[i] <= rest.len() by {
            if i < k {
                assert(rest[i] == s[i]);
            } else {
                assert(rest[i] == s[i + 1]);
            }
        }
        assert(rest.no_duplicates()) by {
            assert forall|i: int, j: int| 0 <= i < rest.len() && 0 <= j < rest.len() && i != j
                implies rest[i] != rest[j] by {
                let si = if i < k { i } else { i + 1 };
                let sj = if j < k { j } else { j + 1 };
                assert(rest[i] == s[si] && rest[j] == s[sj]);
            }
        }
        lemma_product_of_arrangement(rest);
        lemma_product_split(s, k);
    }
}

/// The residues modulo `p` of the first `n` multiples of `a`: `a`, `2a`, up to
/// `n * a`.
spec fn multiples(a: int, n: nat, p: int) -> Seq<int> {
    Seq::new(n, |i: int| (a * (i + 1)) % p)
}

/// Modulo `p`, the product of the first `n` multiples of `a` is `a^n * n!`.
proof fn lemma_product_of_multiples(a: int, n: nat, p: int)
    requires
        p > 0,
    ensures
        product_of(multiples(a, n, p)) % p == (pow(a, n) * factorial(n)) % p,
    decreases n,
{
    if n == 0 {
        lemma_pow0(a);
    } else {
        let m = (n - 1) as nat;
        let s = multiples(a, n, p);
        assert(s.drop_last() =~= multiples(a, m, p));
        lemma_product_of_multiples(a, m, p);
        let before = product_of(multiples(a, m, p));
        let closed = pow(a, m) * factorial(m);
        assert(product_of(s) == before * ((a * n) % p));
        lemma_mul_mod_noop_general(before, a * n, p);
        lemma_mul_mod_noop_general(closed, a * n, p);
        assert(pow(a, n) == pow(a, m) * a) by {
            lemma_pow_adds(a, m, 1);
            lemma_pow1(a);
        }
        assert(closed * (a * n) == pow(a, n) * factorial(n)) by (nonlinear_arith)
            requires
                closed == pow(a, m) * factorial(m),
                pow(a, n) == pow(a, m) * a,
                factorial(n) == n * factorial(m),
        ;
    }
}

/// A prime divides no factorial of a smaller number.
proof fn lemma_factorial_not_divisible(n: nat, p: int)
    requires
        is_prime(p),
        n < p,
    ensures
        factorial(n) % p != 0,
    decreases n,
{
    if n == 0 {
        lemma_small_mod(1, p as nat);
    } else {
        let m = (n - 1) as nat;
        lemma_factorial_not_divisible(m, p);
        if factorial(n) % p == 0 {
            assert(n * 0 == 0);
            lemma_small_mod(0, p as nat);
            lemma_cancel(n as int, factorial(m), 0, p);
        }
    }
}

/// Fermat's little theorem: a nonzero residue modulo a prime `p`, raised to
/// `p - 1`, is 1.
///
/// Multiplying by `a` only rearranges the nonzero residues, so the product of
/// `a`, `2a`, up to `(p - 1) * a` is `(p - 1)!` on the one hand and
/// `a^(p - 1) * (p - 1)!` on the other, and `(p - 1)!` can be cancelled.
pub proof fn lemma_fermat_little(a: int, p: int)
    requires
        is_prime(p),
        0 < a < p,
    ensures
        pow(a, (p - 1) as nat) % p == 1,
{
    let n = (p - 1) as nat;
    let s = multiples(a, n, p);
    assert forall|i: int| 0 <= i < s.len() implies 1 <= #[trigger] s[i] <= s.len() by {
        lemma_mod_bound(a * (i + 1), p);
        if s[i] == 0 {
            assert(a * 0 == 0);
            lemma_cancel(a, i + 1, 0, p);
            lemma_small_mod((i + 1) as nat, p as nat);
            lemma_small_mod(0, p as nat);
        }
    }
    assert(s.no_duplicates()) by {
        assert forall|i: int, j: int| 0 <= i < s.len() && 0 <= j < s.len() && i != j implies s[i]
            != s[j] by {
            if s[i] == s[j] {
                lemma_cancel(a, i + 1, j + 1, p);
                lemma_small_mod((i + 1) as nat, p as nat);
                lemma_small_mod((j + 1) as nat, p as nat);
            }
        }
    }
    lemma_product_of_arrangement(s);
    lemma_product_of_multiples(a, n, p);
    let fact = factorial(n);
    let power = pow(a, n);
    lemma_factorial_not_divisible(n, p);
    lemma_mod_bound(fact, p);
    lemma_mul_mod_noop_general(fact, 1, p);
    lemma_mul_mod_noop_general(fact, power, p);
    assert(fact * power == power * fact) by (nonlinear_arith);
    assert(fact * 1 == fact);
    lemma_cancel(fact % p, 1, power, p);
    lemma_small_mod(1, p as nat);
}

} // verus!
