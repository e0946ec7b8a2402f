use vstd::prelude::*;
use vstd::arithmetic::div_mod::{lemma_div_nonincreasing, lemma_div_pos_is_pos};

use crate::bank::{spec_rate, Bank};
use crate::currency::Currency;
use crate::error::MoneyError;
use crate::money::Money;

verus! {

/// Anything that can be reduced, given a bank and a target currency, to
/// a single monetary value in that currency.
///
/// A tree of expressions is finite, acyclic and immutable: it is built
/// bottom-up with `plus` and its shape is fixed at construction. A sum
/// is the sole owner of its two sub-expressions.
#[derive(Debug)]
pub enum Expression {
    /// A leaf monetary value; it reduces to itself converted through
    /// the bank's rate.
    Money(Money),
    /// The sum of two sub-expressions; it reduces both sides
    /// independently and adds the resulting amounts.
    Sum {
        /// the left operand of the addition
        augend: Box<Expression>,
        /// the right operand of the addition
        addend: Box<Expression>,
    },
}

/// Integer division that rounds toward zero, the rounding policy used
/// when an amount is converted through a rate. No fractional precision
/// is kept; this truncation is a deliberate simplification.
pub open spec fn trunc_div(a: int, b: int) -> int
    recommends
        b >= 1,
{
    if a >= 0 {
        a / b
    } else {
        -((-a) / b)
    }
}

/// Holds when `e` is a sum whose two children are exactly `augend` and
/// `addend`.
pub open spec fn is_sum_of(e: Expression, augend: Expression, addend: Expression) -> bool {
    match e {
        Expression::Sum { augend: a, addend: b } => *a == augend && *b == addend,
        _ => false,
    }
}

/// What reducing `expr` to the currency `to` returns under the rate
/// table `rates`.
///
/// A leaf converts by dividing its amount (truncating) by the rate for
/// (its currency, `to`); the conversion fails with `MissingRate` when
/// the currencies differ and the table holds no entry for the pair. A
/// sum reduces both children and adds the two amounts, failing with
/// `Overflow` when the total leaves the range of `i64`; an error in the
/// augend is reported before one in the addend.
pub open spec fn spec_reduce(
    expr: Expression,
    rates: Map<(Currency, Currency), i64>,
    to: Currency,
) -> Result<Money, MoneyError>
    decreases expr,
{
    match expr {
        Expression::Money(m) => match spec_rate(rates, m.currency, to) {
            Ok(rate) => Ok(
                Money { amount: trunc_div(m.amount as int, rate as int) as i64, currency: to },
            ),
            Err(err) => Err(err),
        },
        Expression::Sum { augend, addend } => match (
            spec_reduce(*augend, rates, to),
            spec_reduce(*addend, rates, to),
        ) {
            (Ok(x), Ok(y)) => if i64::MIN <= x.amount + y.amount <= i64::MAX {
                Ok(Money { amount: (x.amount + y.amount) as i64, currency: to })
            } else {
                Err(MoneyError::Overflow)
            },
            (Err(err), _) => Err(err),
            (Ok(_), Err(err)) => Err(err),
        },
    }
}

/// Truncating division by a divisor of at least one never leaves the
/// range of its dividend: the quotient keeps the dividend's sign and
/// can only shrink in magnitude.
pub proof fn lemma_trunc_div_in_range(a: int, d: int)
    requires
        d >= 1,
    ensures
        a >= 0 ==> 0 <= trunc_div(a, d) <= a,
        a < 0 ==> a <= trunc_div(a, d) <= 0,
{
    if a >= 0 {
        lemma_div_pos_is_pos(a, d);
        lemma_div_nonincreasing(a, d);
    } else {
        lemma_div_pos_is_pos(-a, d);
        lemma_div_nonincreasing(-a, d);
    }
}

impl Expression {
    /// Combines the receiver and `addend` into a sum, taking ownership
    /// of both. The two sides may be in different currencies: currency
    /// compatibility is resolved only at reduction time.
    pub fn plus(self, addend: Expression) -> (r: Expression)
        ensures
            is_sum_of(r, self, addend),
    {
        Expression::Sum { augend: Box::new(self), addend: Box::new(addend) }
    }

    /// Reduces the expression depth-first to a single monetary value in
    /// the currency `to`, converting each leaf through the bank's rate
    /// table.
    pub fn reduce(&self, bank: &Bank, to: Currency) -> (r: Result<Money, MoneyError>)
        ensures
            r == spec_reduce(*self, bank@, to),
        decreases *self,
    {
        match self {
            Expression::Money(m) => m.reduce(bank, to),
            Expression::Sum { augend, addend } => {
                let reduced_augend = augend.reduce(bank, to);
                let reduced_addend = addend.reduce(bank, to);
                match (reduced_augend, reduced_addend) {
                    (Ok(x), Ok(y)) => match x.amount.checked_add(y.amount) {
                        Some(total) => Ok(Money { amount: total, currency: to }),
                        None => Err(MoneyError::Overflow),
                    },
                    (Err(err), _) => Err(err),
                    (Ok(_), Err(err)) => Err(err),
                }
            },
        }
    }
}

/// Identity law of reduction: a leaf reduced to its own currency comes
/// back unchanged under every rate table, because the identity rate is
/// one and dividing by one keeps the amount.
pub proof fn lemma_reduce_own_currency(rates: Map<(Currency, Currency), i64>, m: Money)
    ensures
        spec_reduce(Expression::Money(m), rates, m.currency) == Ok::<Money, MoneyError>(m),
{
    vstd::arithmetic::div_mod::lemma_div_basics_2(m.amount as int);
    vstd::arithmetic::div_mod::lemma_div_basics_2(-(m.amount as int));
    assert(trunc_div(m.amount as int, 1) == m.amount as int);
}

/// Distribution law of reduction: a sum of two leaves reduces to the
/// sum of the two leaves reduced separately, each converted through its
/// own rate, whenever both rates are available and the total is
/// representable.
pub proof fn lemma_reduce_sum_of_leaves(
    e: Expression,
    rates: Map<(Currency, Currency), i64>,
    a: Money,
    b: Money,
    target: Currency,
    rate_a: i64,
    rate_b: i64,
)
    requires
        is_sum_of(e, Expression::Money(a), Expression::Money(b)),
        spec_rate(rates, a.currency, target) == Ok::<i64, MoneyError>(rate_a),
        spec_rate(rates, b.currency, target) == Ok::<i64, MoneyError>(rate_b),
        rate_a >= 1,
        rate_b >= 1,
        i64::MIN <= trunc_div(a.amount as int, rate_a as int) + trunc_div(
            b.amount as int,
            rate_b as int,
        ) <= i64::MAX,
    ensures
        spec_reduce(e, rates, target) == Ok::<Money, MoneyError>(
            (Money {
                amount: (trunc_div(a.amount as int, rate_a as int) + trunc_div(
                    b.amount as int,
                    rate_b as int,
                )) as i64,
                currency: target,
            }),
        ),
{
    lemma_trunc_div_in_range(a.amount as int, rate_a as int);
    lemma_trunc_div_in_range(b.amount as int, rate_b as int);
    let da = trunc_div(a.amount as int, rate_a as int);
    let db = trunc_div(b.amount as int, rate_b as int);
    assert(spec_reduce(Expression::Money(a), rates, target) == Ok::<Money, MoneyError>(
        (Money { amount: da as i64, currency: target }),
    ));
    assert(spec_reduce(Expression::Money(b), rates, target) == Ok::<Money, MoneyError>(
        (Money { amount: db as i64, currency: target }),
    ));
    match e {
        Expression::Sum { augend, addend } => {
            assert(*augend == Expression::Money(a));
            assert(*addend == Expression::Money(b));
        },
        _ => {
            assert(false);
        },
    }
}

} // verus!
