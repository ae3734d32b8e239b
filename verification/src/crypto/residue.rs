use crate::crypto::decimal::numeral;
use vstd::arithmetic::power::pow;
use vstd::prelude::*;

verus! {

/// The mathematical value of a field element: a representative `num` of a
/// residue class together with the modulus `prime` of the field it lives in.
pub struct Residue {
    pub num: int,
    pub prime: int,
}

impl Residue {
    /// The representative is the canonical one: `0 <= num < prime`.
    pub open spec fn wf(self) -> bool {
        0 <= self.num < self.prime
    }

    /// Both residues belong to the same field.
    pub open spec fn same_field(self, other: Residue) -> bool {
        self.prime == other.prime
    }

    /// `self + other` in the field of `self`.
    pub open spec fn sum(self, other: Residue) -> Residue {
        Residue { num: (self.num + other.num) % self.prime, prime: self.prime }
    }

    /// `self - other` in the field of `self`. The remainder is the
    /// mathematical one, so it is never negative.
    pub open spec fn difference(self, other: Residue) -> Residue {
        Residue { num: (self.num - other.num) % self.prime, prime: self.prime }
    }

    /// `self * other` in the field of `self`.
    pub open spec fn product(self, other: Residue) -> Residue {
        Residue { num: (self.num * other.num) % self.prime, prime: self.prime }
    }

    /// The representative in `[0, prime - 2]` of an arbitrary integer
    /// exponent. Exponents that differ by a multiple of `prime - 1` name the
    /// same power of a nonzero element of a prime field.
    pub open spec fn reduced_exponent(self, exponent: int) -> nat {
        (exponent % (self.prime - 1)) as nat
    }

    /// `self` raised to `exponent`, which may be negative.
    pub open spec fn power(self, exponent: int) -> Residue {
        Residue {
            num: pow(self.num, self.reduced_exponent(exponent)) % self.prime,
            prime: self.prime,
        }
    }

    /// The multiplicative inverse of `self` as Fermat's little theorem gives
    /// it: `self` raised to `prime - 2`.
    pub open spec fn inverse(self) -> Residue {
        Residue { num: pow(self.num, (self.prime - 2) as nat) % self.prime, prime: self.prime }
    }

    /// `self / other` in the field of `self`: `self` times the inverse of
    /// `other`.
    pub open spec fn quotient(self, other: Residue) -> Residue {
        self.product(other.inverse())
    }

    /// The display form: `FieldElement <num> (<prime>)`, both numbers in
    /// decimal.
    pub open spec fn text(self) -> Seq<char> {
        "FieldElement "@ + numeral(self.num as nat) + " ("@ + numeral(self.prime as nat) + ")"@
    }
}

} // verus!
