use vstd::prelude::*;

verus! {

/// A probability given as a ratio of two whole numbers, `numerator` in
/// `denominator`. It always lies between zero and one.
#[derive(Clone, Copy, Debug)]
pub struct Chance {
    numerator: u32,
    denominator: u32,
}

impl Chance {
    pub closed spec fn spec_numerator(&self) -> int {
        self.numerator as int
    }

    pub closed spec fn spec_denominator(&self) -> int {
        self.denominator as int
    }

    /// The ratio is a probability: the denominator is positive and the
    /// numerator does not exceed it.
    #[verifier::type_invariant]
    pub open spec fn wf(&self) -> bool {
        0 <= self.spec_numerator() <= self.spec_denominator() && 0 < self.spec_denominator()
    }

    /// The event never happens.
    pub open spec fn is_never(&self) -> bool {
        self.spec_numerator() == 0
    }

    /// The event always happens.
    pub open spec fn is_always(&self) -> bool {
        self.spec_numerator() == self.spec_denominator()
    }

    /// The chance of `numerator` in `denominator`, or `None` when that is no
    /// probability: when `denominator` is zero or `numerator` is larger.
    pub fn new(numerator: u32, denominator: u32) -> (chance: Option<Chance>)
        ensures
            chance.is_some() <==> (denominator > 0 && numerator <= denominator),
            chance matches Some(c) ==> c.spec_numerator() == numerator && c.spec_denominator()
                == denominator && c.wf(),
    {
        if denominator == 0 || numerator > denominator {
            return None;
        }
        Some(Chance { numerator, denominator })
    }

    pub fn get_numerator(&self) -> (numerator: u32)
        ensures
            numerator == self.spec_numerator(),
            numerator <= self.spec_denominator(),
    {
        proof {
            use_type_invariant(self);
        }
        self.numerator
    }

    pub fn get_denominator(&self) -> (denominator: u32)
        ensures
            denominator == self.spec_denominator(),
            denominator > 0,
            self.spec_numerator() <= denominator,
    {
        proof {
            use_type_invariant(self);
        }
        self.denominator
    }
}

} // verus!
