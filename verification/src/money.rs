use vstd::prelude::*;

use crate::bank::Bank;
use crate::currency::Currency;
use crate::error::MoneyError;
use crate::expression::{is_sum_of, lemma_trunc_div_in_range, spec_reduce, trunc_div, Expression};

verus! {

/// An immutable amount of money in a single currency.
///
/// The amount is a signed integer in the smallest unit of the currency;
/// negative and zero amounts are permitted. A value is never mutated:
/// every operation returns a new value.
#[derive(Clone, Copy, Debug, PartialEq, Eq, Structural)]
pub struct Money {
    /// The numeric amount; any sign and magnitude that fits in `i64`.
    pub amount: i64,
    /// The currency the amount is denominated in.
    pub currency: Currency,
}

/// The value `m` scaled by `k`: the amount is multiplied, the currency
/// kept. Exact whenever the product stays in the range of `i64`.
pub open spec fn spec_times(m: Money, k: i64) -> Money
    recommends
        i64::MIN <= m.amount * k <= i64::MAX,
{
    Money { amount: (m.amount * k) as i64, currency: m.currency }
}

impl Money {
    /// An amount of United States dollars.
    pub fn dollar(amount: i64) -> (r: Money)
        ensures
            r == (Money { amount, currency: Currency::USD }),
    {
        Money { amount, currency: Currency::USD }
    }

    /// An amount of Swiss francs.
    pub fn franc(amount: i64) -> (r: Money)
        ensures
            r == (Money { amount, currency: Currency::CHF }),
    {
        Money { amount, currency: Currency::CHF }
    }

    /// Scales the amount by `multiplier`, keeping the currency.
    ///
    /// The product must be representable: overflow is ruled out by the
    /// precondition rather than wrapped or saturated.
    pub fn times(self, multiplier: i64) -> (r: Money)
        requires
            i64::MIN <= self.amount * multiplier <= i64::MAX,
        ensures
            r == spec_times(self, multiplier),
            r.amount == self.amount * multiplier,
            r.currency == self.currency,
    {
        Money { amount: self.amount * multiplier, currency: self.currency }
    }

    /// Wraps the receiver as a leaf and combines it with `addend` into
    /// a sum. The two sides may be in different currencies: currency
    /// compatibility is resolved only at reduction time.
    pub fn plus(self, addend: Expression) -> (r: Expression)
        ensures
            is_sum_of(r, Expression::Money(self), addend),
    {
        Expression::Money(self).plus(addend)
    }

    /// Converts this value into the currency `to` through the bank's
    /// rate table, dividing the amount by the rate with truncating
    /// integer division. Fails with `MissingRate` when the currencies
    /// differ and no rate for the pair is stored.
    pub fn reduce(&self, bank: &Bank, to: Currency) -> (r: Result<Money, MoneyError>)
        ensures
            r == spec_reduce(Expression::Money(*self), bank@, to),
    {
        match bank.rate(self.currency, to) {
            Ok(rate) => {
                proof {
                    lemma_trunc_div_in_range(self.amount as int, rate as int);
                }
                let quotient = self.amount.checked_div(rate);
                assert(quotient == Some(trunc_div(self.amount as int, rate as int) as i64));
                Ok(Money { amount: quotient.unwrap(), currency: to })
            },
            Err(err) => Err(err),
        }
    }
}

/// Scaling law: scaling by `k1` and then by `k2` gives the same value
/// as scaling once by `k1 * k2`, whenever all the products involved are
/// representable.
pub proof fn lemma_times_associative(m: Money, k1: i64, k2: i64)
    requires
        i64::MIN <= m.amount * k1 <= i64::MAX,
        i64::MIN <= k1 * k2 <= i64::MAX,
        i64::MIN <= m.amount * (k1 * k2) <= i64::MAX,
    ensures
        spec_times(spec_times(m, k1), k2) == spec_times(m, (k1 * k2) as i64),
{
    assert((m.amount * k1) * k2 == m.amount * (k1 * k2)) by (nonlinear_arith);
}

/// Equality law: two monetary values are equal exactly when both the
/// amount and the currency match; an equal amount in another currency
/// is a different value.
pub proof fn lemma_money_equality(m1: Money, m2: Money)
    ensures
        (m1 == m2) <==> (m1.amount == m2.amount && m1.currency == m2.currency),
{
}

} // verus!
