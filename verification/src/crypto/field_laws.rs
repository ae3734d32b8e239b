use crate::crypto::field_element::FieldElement;
use crate::crypto::number_theory::{is_prime, lemma_fermat_little};
use crate::crypto::residue::Residue;
use vstd::arithmetic::div_mod::{
    lemma_add_mod_noop, lemma_fundamental_div_mod, lemma_mod_bound, lemma_mod_multiples_vanish,
    lemma_mul_mod_noop_general, lemma_small_mod,
};
use vstd::arithmetic::power::{
    lemma1_pow, lemma_pow0, lemma_pow1, lemma_pow_adds, lemma_pow_mod_noop, lemma_pow_multiplies,
    pow,
};
use vstd::prelude::*;

verus! {

/// Addition is commutative: `a + b == b + a`.
pub proof fn lemma_add_commutative(a: FieldElement, b: FieldElement)
    requires
        a@.same_field(b@),
    ensures
        a@.sum(b@) == b@.sum(a@),
{
}

/// Addition is associative: `(a + b) + c == a + (b + c)`.
pub proof fn lemma_add_associative(a: FieldElement, b: FieldElement, c: FieldElement)
    requires
        a@.wf(),
        b@.wf(),
        c@.wf(),
        a@.same_field(b@),
        b@.same_field(c@),
    ensures
        a@.sum(b@).sum(c@) == a@.sum(b@.sum(c@)),
{
    let p = a@.prime;
    lemma_add_mod_noop(a@.num + b@.num, c@.num, p);
    lemma_add_mod_noop(a@.num, b@.num + c@.num, p);
    lemma_small_mod(a@.num as nat, p as nat);
    lemma_small_mod(c@.num as nat, p as nat);
}

/// Multiplication is commutative: `a * b == b * a`.
pub proof fn lemma_mul_commutative(a: FieldElement, b: FieldElement)
    requires
        a@.same_field(b@),
    ensures
        a@.product(b@) == b@.product(a@),
{
    assert(a@.num * b@.num == b@.num * a@.num) by (nonlinear_arith);
}

/// Multiplication is associative: `(a * b) * c == a * (b * c)`.
pub proof fn lemma_mul_associative(a: FieldElement, b: FieldElement, c: FieldElement)
    requires
        a@.wf(),
        b@.wf(),
        c@.wf(),
        a@.same_field(b@),
        b@.same_field(c@),
    ensures
        a@.product(b@).product(c@) == a@.product(b@.product(c@)),
{
    let p = a@.prime;
    lemma_mul_mod_noop_general(a@.num * b@.num, c@.num, p);
    lemma_mul_mod_noop_general(a@.num, b@.num * c@.num, p);
    assert((a@.num * b@.num) * c@.num == a@.num * (b@.num * c@.num)) by (nonlinear_arith);
}

/// Addition undoes subtraction: `(a - b) + b == a`.
pub proof fn lemma_sub_then_add(a: FieldElement, b: FieldElement)
    requires
        a@.wf(),
        b@.wf(),
        a@.same_field(b@),
    ensures
        a@.difference(b@).sum(b@) == a@,
{
    let p = a@.prime;
    lemma_add_mod_noop(a@.num - b@.num, b@.num, p);
    lemma_small_mod(a@.num as nat, p as nat);
    lemma_small_mod(b@.num as nat, p as nat);
}

/// In a prime field multiplication undoes division by a nonzero element:
/// `(a / b) * b == a`.
pub proof fn lemma_div_then_mul(a: FieldElement, b: FieldElement)
    requires
        a@.wf(),
        b@.wf(),
        a@.same_field(b@),
        is_prime(a@.prime),
        b@.num != 0,
    ensures
        a@.quotient(b@).product(b@) == a@,
{
    let p = a@.prime;
    let x = a@.num;
    let y = b@.num;
    let y_inv = pow(y, (p - 2) as nat);
    // the quotient times `y` is `x * y^(p - 2) * y` modulo `p`
    lemma_mul_mod_noop_general(x, y_inv, p);
    lemma_mul_mod_noop_general(x * y_inv, y, p);
    assert(pow(y, (p - 1) as nat) == y_inv * y) by {
        lemma_pow_adds(y, (p - 2) as nat, 1);
        lemma_pow1(y);
    }
    assert((x * y_inv) * y == x * pow(y, (p - 1) as nat)) by (nonlinear_arith)
        requires
            pow(y, (p - 1) as nat) == y_inv * y,
    ;
    // and `y^(p - 1)` is 1 modulo `p`
    lemma_fermat_little(y, p);
    lemma_mul_mod_noop_general(x, pow(y, (p - 1) as nat), p);
    assert(x * 1 == x);
    lemma_small_mod(x as nat, p as nat);
}

/// The power zero of any element of a field with at least two elements is
/// the element 1 of that field.
pub proof fn lemma_pow_zero(a: FieldElement)
    requires
        a@.prime >= 2,
    ensures
        a@.power(0) == (Residue { num: 1, prime: a@.prime }),
{
    let p = a@.prime;
    lemma_small_mod(0, (p - 1) as nat);
    lemma_pow0(a@.num);
    lemma_small_mod(1, p as nat);
}

/// A negative exponent `-n` with `0 < n < prime - 1` names the same power as
/// `prime - 1 - n`.
pub proof fn lemma_pow_negative(a: FieldElement, n: int)
    requires
        0 < n < a@.prime - 1,
    ensures
        a@.power(-n) == a@.power(a@.prime - 1 - n),
{
    let period = a@.prime - 1;
    lemma_mod_multiples_vanish(-1, period - n, period);
    assert(period * (-1) + (period - n) == -n);
}

/// In a prime field, reducing the exponent loses nothing: a power of a
/// nonzero element with an exponent that is not negative is the ordinary
/// power of its representative, reduced modulo the prime.
pub proof fn lemma_pow_is_exponentiation(a: FieldElement, e: nat)
    requires
        a@.wf(),
        is_prime(a@.prime),
        a@.num != 0,
    ensures
        a@.power(e as int).num == pow(a@.num, e) % a@.prime,
{
    let p = a@.prime;
    let x = a@.num;
    let period = (p - 1) as nat;
    let turns = (e / period) as nat;
    let rest = (e % period) as nat;
    lemma_fundamental_div_mod(e as int, period as int);
    // x^e is (x^(p - 1))^turns * x^rest
    assert(pow(x, e) == pow(pow(x, period), turns) * pow(x, rest)) by {
        lemma_pow_multiplies(x, period, turns);
        lemma_pow_adds(x, period * turns, rest);
    }
    // and (x^(p - 1))^turns is 1 modulo p
    assert(pow(pow(x, period), turns) % p == 1) by {
        lemma_fermat_little(x, p);
        lemma_pow_mod_noop(pow(x, period), turns, p);
        lemma1_pow(turns);
        lemma_small_mod(1, p as nat);
    }
    lemma_mul_mod_noop_general(pow(pow(x, period), turns), pow(x, rest), p);
    assert(1 * pow(x, rest) == pow(x, rest));
}

/// In a prime field the power `-n` of a nonzero element is the inverse of
/// its power `n`: their product is the element 1.
pub proof fn lemma_pow_negative_inverts(a: FieldElement, n: int)
    requires
        a@.wf(),
        is_prime(a@.prime),
        a@.num != 0,
    ensures
        a@.power(-n).product(a@.power(n)) == (Residue { num: 1, prime: a@.prime }),
{
    let p = a@.prime;
    let x = a@.num;
    let period = p - 1;
    let down = a@.reduced_exponent(-n);
    let up = a@.reduced_exponent(n);
    lemma_mod_bound(-n, period);
    lemma_mod_bound(n, period);
    // the two reduced exponents add up to 0 or to p - 1
    assert(down + up == 0 || down + up == period) by {
        lemma_add_mod_noop(-n, n, period);
        lemma_small_mod(0, period as nat);
        if down + up >= period {
            lemma_mod_multiples_vanish(-1, (down + up) as int, period);
            assert(period * (-1) + (down + up) == down + up - period);
            lemma_small_mod((down + up - period) as nat, period as nat);
        } else {
            lemma_small_mod(down + up, period as nat);
        }
    }
    lemma_mul_mod_noop_general(pow(x, down), pow(x, up), p);
    lemma_pow_adds(x, down, up);
    lemma_small_mod(1, p as nat);
    if down + up == 0 {
        lemma_pow0(x);
    } else {
        lemma_fermat_little(x, p);
    }
}

} // verus!
