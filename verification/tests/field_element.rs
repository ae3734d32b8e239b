use ecc::crypto::field_element::{FieldElement, FieldError};

fn fe(num: i32, prime: i32) -> FieldElement {
    FieldElement::new(num, prime).unwrap()
}

#[test]
fn test_equal() {
    let a = fe(7, 13);
    let b = fe(6, 13);

    assert!(a.eq(&a));
    assert!(!a.eq(&b));

    assert!(a == a);
    assert!(a != b);
}

#[test]
fn test_add() {
    let a = fe(7, 13);
    let b = fe(12, 13);
    let c = fe(6, 13);

    assert_eq!(a.add(b), Ok(c));
}

#[test]
fn test_sub() {
    let a = fe(11, 19);
    let b = fe(9, 19);
    let c = fe(2, 19);

    assert_eq!(a.sub(b), Ok(c));
}

#[test]
fn test_sub_negative_num() {
    let a = fe(6, 19);
    let b = fe(13, 19);
    let c = fe(12, 19);

    assert_eq!(a.sub(b), Ok(c));
}

#[test]
fn test_add_diff_fields() {
    let a = fe(7, 13);
    let b = fe(12, 19);

    assert_eq!(a.add(b), Err(FieldError::FieldMismatch));
}

#[test]
fn test_sub_diff_fields() {
    let a = fe(7, 11);
    let b = fe(12, 13);

    assert_eq!(a.sub(b), Err(FieldError::FieldMismatch));
}

#[test]
fn test_mul() {
    let a = fe(3, 13);
    let b = fe(12, 13);
    let c = fe(10, 13);

    assert_eq!(a.mul(b), Ok(c));
}

#[test]
fn test_pow() {
    let a = fe(3, 13);
    let b = fe(1, 13);

    assert_eq!(a.pow(3), b);
}

#[test]
fn test_pow_negative_exp() {
    let a = fe(7, 13);
    let b = fe(8, 13);

    assert_eq!(a.pow(-3), b);
}

#[test]
fn test_div() {
    let a = fe(2, 19);
    let b = fe(7, 19);
    let c = fe(3, 19);

    assert_eq!(a.div(b), Ok(c));

    let d = fe(7, 19);
    let e = fe(5, 19);
    let f = fe(9, 19);

    assert_eq!(d.div(e), Ok(f));
}

#[test]
fn new_keeps_num_and_prime() {
    let a = fe(7, 13);
    assert_eq!(a.num(), 7);
    assert_eq!(a.prime(), 13);

    let zero = fe(0, 1);
    assert_eq!(zero.num(), 0);
    assert_eq!(zero.prime(), 1);

    let top = fe(i32::MAX - 1, i32::MAX);
    assert_eq!(top.num(), i32::MAX - 1);
    assert_eq!(top.prime(), i32::MAX);
}

#[test]
fn new_rejects_values_outside_the_field() {
    assert_eq!(FieldElement::new(-1, 13), Err(FieldError::Range));
    assert_eq!(FieldElement::new(13, 13), Err(FieldError::Range));
    assert_eq!(FieldElement::new(14, 13), Err(FieldError::Range));
    assert_eq!(FieldElement::new(i32::MIN, i32::MAX), Err(FieldError::Range));
    assert_eq!(FieldElement::new(0, 0), Err(FieldError::Range));
    assert_eq!(FieldElement::new(0, -5), Err(FieldError::Range));
    assert_eq!(FieldElement::new(-7, -5), Err(FieldError::Range));
    assert!(FieldElement::new(12, 13).is_ok());
    assert!(FieldElement::new(0, 13).is_ok());
}

#[test]
fn elements_of_different_fields_are_never_equal() {
    assert!(fe(7, 13) != fe(7, 19));
    assert!(fe(7, 13) == fe(7, 13));
}

#[test]
fn every_binary_operation_rejects_mixed_fields() {
    let a = fe(7, 13);
    let b = fe(7, 19);

    assert_eq!(a.add(b), Err(FieldError::FieldMismatch));
    assert_eq!(a.sub(b), Err(FieldError::FieldMismatch));
    assert_eq!(a.mul(b), Err(FieldError::FieldMismatch));
    assert_eq!(a.div(b), Err(FieldError::FieldMismatch));
    assert_eq!(b.add(a), Err(FieldError::FieldMismatch));
    assert_eq!(b.div(a), Err(FieldError::FieldMismatch));

    let zero = fe(0, 1);
    assert_eq!(zero.div(a), Err(FieldError::FieldMismatch));
    assert_eq!(a.div(zero), Err(FieldError::FieldMismatch));
}

#[test]
fn add_near_the_limit_of_the_integer_type() {
    let p = i32::MAX;
    let a = fe(p - 1, p);
    let b = fe(p - 2, p);

    assert_eq!(a.add(b), Ok(fe(p - 3, p)));
    assert_eq!(a.add(fe(1, p)), Ok(fe(0, p)));
}

#[test]
fn sub_wraps_to_a_non_negative_residue() {
    let p = i32::MAX;

    assert_eq!(fe(0, p).sub(fe(p - 1, p)), Ok(fe(1, p)));
    assert_eq!(fe(5, 19).sub(fe(5, 19)), Ok(fe(0, 19)));
    assert_eq!(fe(0, 19).sub(fe(1, 19)), Ok(fe(18, 19)));
}

#[test]
fn mul_near_the_limit_of_the_integer_type() {
    let p = i32::MAX;
    let a = fe(p - 1, p);

    // (-1) * (-1) = 1
    assert_eq!(a.mul(a), Ok(fe(1, p)));
    // (-1) * (-2) = 2
    assert_eq!(a.mul(fe(p - 2, p)), Ok(fe(2, p)));
    // 46341^2 = 2147488281 = 2^31 - 1 + 4634
    assert_eq!(fe(46341, p).mul(fe(46341, p)), Ok(fe(4634, p)));
}

#[test]
fn pow_with_large_intermediate_values() {
    // 2^31 - 1 is prime, and 2^31 = 1 modulo it
    let p = i32::MAX;
    assert_eq!(fe(2, p).pow(31), fe(1, p));
    assert_eq!(fe(2, p).pow(32), fe(2, p));
    assert_eq!(fe(p - 1, p).pow(2), fe(1, p));
    assert_eq!(fe(p - 1, p).pow(3), fe(p - 1, p));
    // 17^40 modulo 31: 17^30 = 1, 17^10 = 25
    assert_eq!(fe(17, 31).pow(40), fe(25, 31));
    assert_eq!(fe(17, 31).pow(10), fe(25, 31));
}

#[test]
fn pow_zero_is_one() {
    assert_eq!(fe(3, 13).pow(0), fe(1, 13));
    assert_eq!(fe(12, 13).pow(0), fe(1, 13));
    assert_eq!(fe(1, 2).pow(0), fe(1, 2));
    assert_eq!(fe(0, 13).pow(0), fe(1, 13));
}

#[test]
fn pow_reduces_the_exponent_modulo_prime_minus_one() {
    let a = fe(7, 13);

    assert_eq!(a.pow(12), fe(1, 13));
    assert_eq!(a.pow(13), a);
    assert_eq!(a.pow(15), a.pow(3));
    assert_eq!(a.pow(-12), fe(1, 13));
    assert_eq!(a.pow(i32::MAX), a.pow(i32::MAX % 12));
    // -2^31 = 4 modulo 12
    assert_eq!(a.pow(i32::MIN), a.pow(4));
    // the exponent is reduced for zero as well: 0^12 becomes 0^0
    assert_eq!(fe(0, 13).pow(12), fe(1, 13));
    assert_eq!(fe(0, 13).pow(5), fe(0, 13));
}

#[test]
fn negative_exponents_are_normalised() {
    let a = fe(7, 13);
    let mut n = 1;
    while n < 12 {
        assert_eq!(a.pow(-n), a.pow(12 - n));
        n += 1;
    }
    // 7 * 2 = 14 = 1 modulo 13
    assert_eq!(a.pow(-1), fe(2, 13));
}

#[test]
fn pow_in_the_field_of_two_elements() {
    assert_eq!(fe(1, 2).pow(5), fe(1, 2));
    assert_eq!(fe(1, 2).pow(-5), fe(1, 2));
    assert_eq!(fe(0, 2).pow(3), fe(1, 2));
}

#[test]
fn div_multiplies_by_the_inverse() {
    // 7 * 11 = 77 = 1 modulo 19
    assert_eq!(fe(1, 19).div(fe(7, 19)), Ok(fe(11, 19)));
    assert_eq!(fe(7, 19).div(fe(7, 19)), Ok(fe(1, 19)));
    assert_eq!(fe(0, 19).div(fe(7, 19)), Ok(fe(0, 19)));
    // zero has no inverse; its power prime - 2 is zero
    assert_eq!(fe(5, 19).div(fe(0, 19)), Ok(fe(0, 19)));
    // in the field of two elements the exponent prime - 2 is zero
    assert_eq!(fe(1, 2).div(fe(1, 2)), Ok(fe(1, 2)));
    assert_eq!(fe(1, 2).div(fe(0, 2)), Ok(fe(1, 2)));
    let p = i32::MAX;
    assert_eq!(fe(1, p).div(fe(2, p)), Ok(fe(1 << 30, p)));
}

#[test]
fn addition_and_multiplication_are_commutative_and_associative() {
    let p = 31;
    let mut i = 0;
    while i < p {
        let mut j = 0;
        while j < p {
            let a = fe(i, p);
            let b = fe(j, p);
            let c = fe((i * 7 + j * 3 + 5) % p, p);
            assert_eq!(a.add(b), b.add(a));
            assert_eq!(a.mul(b), b.mul(a));
            assert_eq!(a.add(b).unwrap().add(c), a.add(b.add(c).unwrap()));
            assert_eq!(a.mul(b).unwrap().mul(c), a.mul(b.mul(c).unwrap()));
            j += 1;
        }
        i += 1;
    }
}

#[test]
fn subtraction_and_division_undo_addition_and_multiplication() {
    let p = 31;
    let mut i = 0;
    while i < p {
        let mut j = 0;
        while j < p {
            let a = fe(i, p);
            let b = fe(j, p);
            assert_eq!(a.sub(b).unwrap().add(b), Ok(a));
            if j != 0 {
                assert_eq!(a.div(b).unwrap().mul(b), Ok(a));
            }
            j += 1;
        }
        i += 1;
    }
}

#[test]
fn display_form() {
    assert_eq!(fe(7, 13).to_string(), "FieldElement 7 (13)");
    assert_eq!(fe(0, 1).to_string(), "FieldElement 0 (1)");
    assert_eq!(fe(10, 100).to_string(), "FieldElement 10 (100)");
    assert_eq!(
        fe(i32::MAX - 1, i32::MAX).to_string(),
        "FieldElement 2147483646 (2147483647)"
    );
    assert_eq!(fe(1000000007 - 1, 1000000007).to_string(), "FieldElement 1000000006 (1000000007)");
}
