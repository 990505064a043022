//! Numbers of the form `whole + root_two * sqrt(2)` with integer parts. Sums,
//! differences and products of such numbers are of the same form, so the
//! geometry of eighth turns needs no rounding.

use vstd::prelude::*;

verus! {

/// The number `whole + root_two * sqrt(2)`, with parts of any size.
pub struct Exact {
    pub whole: int,
    pub root_two: int,
}

impl Exact {
    /// The square root of two.
    pub open spec fn sqrt_two() -> Exact {
        Exact { whole: 0, root_two: 1 }
    }

    /// The sum of two numbers.
    pub open spec fn plus(self, other: Exact) -> Exact {
        Exact { whole: self.whole + other.whole, root_two: self.root_two + other.root_two }
    }

    /// The difference of two numbers.
    pub open spec fn minus(self, other: Exact) -> Exact {
        Exact { whole: self.whole - other.whole, root_two: self.root_two - other.root_two }
    }

    /// The product of two numbers: the square of `sqrt(2)` is 2.
    pub open spec fn times(self, other: Exact) -> Exact {
        Exact {
            whole: self.whole * other.whole + 2 * (self.root_two * other.root_two),
            root_two: self.whole * other.root_two + self.root_two * other.whole,
        }
    }

    /// The number multiplied by an integer.
    pub open spec fn scaled(self, factor: int) -> Exact {
        Exact { whole: factor * self.whole, root_two: factor * self.root_two }
    }
}

/// The number `whole + root_two * sqrt(2)`, with parts that a machine holds.
#[derive(Clone, Copy, Debug, PartialEq, Eq, Structural)]
pub struct Surd {
    pub whole: i128,
    pub root_two: i128,
}

impl View for Surd {
    type V = Exact;

    open spec fn view(&self) -> Exact {
        Exact { whole: self.whole as int, root_two: self.root_two as int }
    }
}

} // verus!
