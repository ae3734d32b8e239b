use crate::crypto::decimal::push_numeral;
use crate::crypto::modular::{mul_mod, pow_mod, reduce_exponent};
use crate::crypto::residue::Residue;
use vstd::arithmetic::div_mod::{lemma_mod_add_multiples_vanish, lemma_small_mod};
use vstd::prelude::*;
use vstd::string::*;

verus! {

/// Why a field operation was refused.
#[derive(Debug, Clone, Copy, PartialEq, Eq, Structural)]
pub enum FieldError {
    /// The value is not a canonical representative: it is negative or not
    /// below the modulus.
    Range,
    /// The two operands belong to fields with different moduli.
    FieldMismatch,
}

/// One residue modulo `prime`, always held as its canonical representative.
#[derive(Debug, Clone, Copy)]
pub struct FieldElement {
    num: i32,
    prime: i32,
}

impl View for FieldElement {
    type V = Residue;

    closed spec fn view(&self) -> Residue {
        Residue { num: self.num as int, prime: self.prime as int }
    }
}

impl PartialEq for FieldElement {
    /// Two elements are equal when they are the same residue of the same
    /// field; elements of different fields are never equal.
    fn eq(&self, other: &FieldElement) -> (r: bool) {
        self.num == other.num && self.prime == other.prime
    }
}

impl Eq for FieldElement {

}

impl vstd::std_specs::cmp::PartialEqSpecImpl for FieldElement {
    open spec fn obeys_eq_spec() -> bool {
        true
    }

    open spec fn eq_spec(&self, other: &FieldElement) -> bool {
        self@ == other@
    }
}

impl FieldElement {
    #[verifier::type_invariant]
    spec fn in_range(self) -> bool {
        0 <= self.num < self.prime
    }

    /// Builds the element `num` of the field of integers modulo `prime`.
    ///
    /// Fails with [`FieldError::Range`] exactly when `num` is negative or not
    /// below `prime`.
    pub fn new(num: i32, prime: i32) -> (res: Result<FieldElement, FieldError>)
        ensures
            0 <= num < prime ==> res is Ok && res->Ok_0@ == (Residue {
                num: num as int,
                prime: prime as int,
            }),
            !(0 <= num < prime) ==> res == Err::<FieldElement, FieldError>(FieldError::Range),
    {
        if num >= prime || num < 0 {
            return Err(FieldError::Range);
        }
        Ok(FieldElement { num, prime })
    }

    /// The canonical representative.
    pub fn num(&self) -> (n: i32)
        ensures
            n == self@.num,
            self@.wf(),
    {
        proof {
            use_type_invariant(self);
        }
        self.num
    }

    /// The modulus of the field.
    pub fn prime(&self) -> (p: i32)
        ensures
            p == self@.prime,
            self@.wf(),
    {
        proof {
            use_type_invariant(self);
        }
        self.prime
    }

    /// The display form of the element: `FieldElement <num> (<prime>)`.
    pub fn to_string(&self) -> (s: String)
        ensures
            s@ == self@.text(),
    {
        proof {
            use_type_invariant(self);
        }
        let mut s = String::from_str("FieldElement ");
        push_numeral(&mut s, self.num as u32);
        s.append(" (");
        push_numeral(&mut s, self.prime as u32);
        s.append(")");
        s
    }

    /// Field addition.
    ///
    /// Fails with [`FieldError::FieldMismatch`] exactly when the operands
    /// have different moduli.
    pub fn add(self, other: FieldElement) -> (res: Result<FieldElement, FieldError>)
        ensures
            self@.same_field(other@) ==> res is Ok && res->Ok_0@ == self@.sum(other@)
                && res->Ok_0@.wf(),
            !self@.same_field(other@) ==> res == Err::<FieldElement, FieldError>(
                FieldError::FieldMismatch,
            ),
    {
        proof {
            use_type_invariant(self);
            use_type_invariant(other);
        }
        if self.prime != other.prime {
            return Err(FieldError::FieldMismatch);
        }
        let wide: i64 = (self.num as i64 + other.num as i64) % (self.prime as i64);
        Ok(FieldElement { num: wide as i32, prime: self.prime })
    }

    /// Field subtraction.
    ///
    /// Fails with [`FieldError::FieldMismatch`] exactly when the operands
    /// have different moduli.
    pub fn sub(self, other: FieldElement) -> (res: Result<FieldElement, FieldError>)
        ensures
            self@.same_field(other@) ==> res is Ok && res->Ok_0@ == self@.difference(other@)
                && res->Ok_0@.wf(),
            !self@.same_field(other@) ==> res == Err::<FieldElement, FieldError>(
                FieldError::FieldMismatch,
            ),
    {
        proof {
            use_type_invariant(self);
            use_type_invariant(other);
        }
        if self.prime != other.prime {
            return Err(FieldError::FieldMismatch);
        }
        let mut diff: i32 = self.num - other.num;
        if diff < 0 {
            diff = self.prime + diff;
        }
        proof {
            let p = self.prime as int;
            lemma_small_mod(diff as nat, p as nat);
            lemma_mod_add_multiples_vanish(self.num - other.num, p);
        }
        Ok(FieldElement { num: diff, prime: self.prime })
    }

    /// Field multiplication. The product is formed in 64 bits, so it is exact
    /// for every pair of operands.
    ///
    /// Fails with [`FieldError::FieldMismatch`] exactly when the operands
    /// have different moduli.
    pub fn mul(self, other: FieldElement) -> (res: Result<FieldElement, FieldError>)
        ensures
            self@.same_field(other@) ==> res is Ok && res->Ok_0@ == self@.product(other@)
                && res->Ok_0@.wf(),
            !self@.same_field(other@) ==> res == Err::<FieldElement, FieldError>(
                FieldError::FieldMismatch,
            ),
    {
        proof {
            use_type_invariant(self);
            use_type_invariant(other);
        }
        if self.prime != other.prime {
            return Err(FieldError::FieldMismatch);
        }
        let wide: i64 = mul_mod(self.num as i64, other.num as i64, self.prime as i64);
        Ok(FieldElement { num: wide as i32, prime: self.prime })
    }

    /// Raises the element to an integer power, which may be negative: the
    /// exponent is first brought into `[0, prime - 2]`, which Fermat's little
    /// theorem allows, so that `pow(-1)` is the multiplicative inverse in a
    /// prime field.
    ///
    /// The field needs at least two elements.
    pub fn pow(self, exponent: i32) -> (res: FieldElement)
        requires
            self@.prime >= 2,
        ensures
            res@ == self@.power(exponent as int),
            res@.wf(),
    {
        proof {
            use_type_invariant(self);
        }
        let period: i64 = self.prime as i64 - 1;
        let reduced: i64 = reduce_exponent(exponent as i64, period);
        let wide: i64 = pow_mod(self.num as i64, reduced, self.prime as i64);
        FieldElement { num: wide as i32, prime: self.prime }
    }

    /// Field division: `self` times the inverse of `other`, the inverse
    /// being `other` raised to `prime - 2`.
    ///
    /// Fails with [`FieldError::FieldMismatch`] exactly when the operands
    /// have different moduli. Operands of one field need that field to have at
    /// least two elements.
    pub fn div(self, other: FieldElement) -> (res: Result<FieldElement, FieldError>)
        requires
            self@.same_field(other@) ==> self@.prime >= 2,
        ensures
            self@.same_field(other@) ==> res is Ok && res->Ok_0@ == self@.quotient(other@)
                && res->Ok_0@.wf(),
            !self@.same_field(other@) ==> res == Err::<FieldElement, FieldError>(
                FieldError::FieldMismatch,
            ),
    {
        proof {
            use_type_invariant(self);
            use_type_invariant(other);
        }
        if self.prime != other.prime {
            return Err(FieldError::FieldMismatch);
        }
        let modulus: i64 = self.prime as i64;
        let inverse: i64 = pow_mod(other.num as i64, modulus - 2, modulus);
        let wide: i64 = mul_mod(self.num as i64, inverse, modulus);
        Ok(FieldElement { num: wide as i32, prime: self.prime })
    }
}

} // verus!
