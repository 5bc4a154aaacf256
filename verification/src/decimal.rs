//! Numeric literals as the digits they were written with.

use vstd::prelude::*;

verus! {

/// A numeric literal: the digits of its integer part and those of its
/// fractional part, each digit as its value from 0 to 9, most significant
/// first. The number it stands for is computed where floating point is at
/// hand; the library only carries the digits.
#[derive(Debug, Clone, PartialEq, Eq)]
pub struct Decimal {
    pub whole: Vec<u8>,
    pub fraction: Vec<u8>,
}

/// The digits of a numeric literal.
pub struct DecimalView {
    pub whole: Seq<u8>,
    pub fraction: Seq<u8>,
}

impl View for Decimal {
    type V = DecimalView;

    open spec fn view(&self) -> DecimalView {
        DecimalView { whole: self.whole@, fraction: self.fraction@ }
    }
}

impl DecimalView {
    /// Whether every digit is at most 9.
    pub open spec fn wf(self) -> bool {
        &&& forall|i: int| 0 <= i < self.whole.len() ==> #[trigger] self.whole[i] <= 9
        &&& forall|i: int| 0 <= i < self.fraction.len() ==> #[trigger] self.fraction[i] <= 9
    }
}

impl Decimal {
    /// A copy of the literal.
    pub fn duplicate(&self) -> (r: Self)
        ensures
            r@ == self@,
    {
        let r = Decimal { whole: self.whole.clone(), fraction: self.fraction.clone() };
        assert(r.whole@ =~= self.whole@);
        assert(r.fraction@ =~= self.fraction@);
        r
    }
}

} // verus!
