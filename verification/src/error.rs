use vstd::prelude::*;

verus! {

/// The ways an operation on a bank or an expression can fail.
#[derive(Clone, Copy, Debug, PartialEq, Eq, Structural)]
pub enum MoneyError {
    /// A conversion was requested between two distinct currencies for
    /// which no rate is stored.
    MissingRate,
    /// `add_rate` was called with a rate below one; such a rate is
    /// rejected at configuration time and never stored.
    InvalidRate,
    /// An amount computed during reduction fell outside the range of
    /// `i64`.
    Overflow,
}

} // verus!
