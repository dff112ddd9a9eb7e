use vstd::prelude::*;

verus! {

/// A unary numeral: zero, or the successor of another numeral.
#[derive(Debug)]
pub enum Peano {
    Zero,
    Succ(Box<Peano>),
}

impl Peano {
    /// The numeral's value, as a mathematical number.
    pub open spec fn value_spec(self) -> nat
        decreases self,
    {
        match self {
            Peano::Zero => 0,
            Peano::Succ(n) => n.value_spec() + 1,
        }
    }

    /// The numeral zero.
    pub fn zero() -> (r: Peano)
        ensures
            r.value_spec() == 0,
    {
        Peano::Zero
    }

    /// The successor of this numeral.
    pub fn succ(self) -> (r: Peano)
        ensures
            r.value_spec() == self.value_spec() + 1,
    {
        Peano::Succ(Box::new(self))
    }

    /// The numeral's value, computed.
    pub fn value(&self) -> (r: usize)
        requires
            self.value_spec() <= usize::MAX,
        ensures
            r == self.value_spec(),
        decreases *self,
    {
        match self {
            Peano::Zero => 0,
            Peano::Succ(n) => 1 + n.value(),
        }
    }

    /// The sum of two numerals: successors of the left operand are peeled
    /// off one by one onto the sum.
    pub fn add(self, other: Peano) -> (r: Peano)
        ensures
            r.value_spec() == self.value_spec() + other.value_spec(),
        decreases self,
    {
        match self {
            Peano::Zero => other,
            Peano::Succ(m) => (*m).add(other).succ(),
        }
    }

    /// Twice this numeral.
    pub fn double(self) -> (r: Peano)
        ensures
            r.value_spec() == 2 * self.value_spec(),
        decreases self,
    {
        match self {
            Peano::Zero => Peano::Zero,
            Peano::Succ(n) => (*n).double().succ().succ(),
        }
    }

    /// Appends one binary digit to the numeral: doubles it, and adds one for
    /// a set digit. Feeding the digits of a number most significant first,
    /// starting from zero, builds that number.
    pub fn push_bit(self, one: bool) -> (r: Peano)
        ensures
            r.value_spec() == 2 * self.value_spec() + (if one { 1nat } else { 0nat }),
    {
        let d = self.double();
        if one {
            d.succ()
        } else {
            d
        }
    }
}

} // verus!
