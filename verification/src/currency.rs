use vstd::prelude::*;

verus! {

/// A currency code. Monetary values are tagged with one; two values are
/// interchangeable only when their codes are identical, and there is no
/// implicit conversion between codes.
#[derive(Clone, Copy, Debug, PartialEq, Eq, Structural)]
pub enum Currency {
    /// United States dollar
    USD,
    /// Swiss franc
    CHF,
}

} // verus!
