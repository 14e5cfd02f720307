use vstd::prelude::*;

verus! {

/// An exact fraction with a positive denominator. Thresholds are fractions,
/// so that a comparison with one is a comparison of two integer products.
#[derive(Clone, Copy, Debug)]
pub struct Fraction {
    num: i32,
    den: u32,
}

impl Fraction {
    /// The numerator.
    pub closed spec fn numer(&self) -> int {
        self.num as int
    }

    /// The denominator.
    pub closed spec fn denom(&self) -> int {
        self.den as int
    }

    #[verifier::type_invariant]
    spec fn positive_denominator(&self) -> bool {
        self.den > 0
    }

    /// The fraction `num / den`, unless `den` is zero.
    pub fn new(num: i32, den: u32) -> (made: Option<Fraction>)
        ensures
            made is Some <==> den > 0,
            made matches Some(f) ==> f.numer() == num && f.denom() == den,
    {
        if den == 0 {
            None
        } else {
            Some(Fraction { num, den })
        }
    }

    /// The numerator.
    pub fn num(&self) -> (n: i32)
        ensures
            n == self.numer(),
            self.denom() > 0,
    {
        proof {
            use_type_invariant(self);
        }
        self.num
    }

    /// The denominator, which is positive.
    pub fn den(&self) -> (d: u32)
        ensures
            d == self.denom(),
            d > 0,
    {
        proof {
            use_type_invariant(self);
        }
        self.den
    }
}

} // verus!
