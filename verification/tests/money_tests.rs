use money::Currency::{CHF, USD};
use money::{Bank, Expression, Money, MoneyError};

#[test]
fn test_multiplication() {
    let five = || Money::dollar(5);
    assert_eq!(Money::dollar(10), five().times(2));
    assert_eq!(Money::dollar(15), five().times(3));
}

#[test]
fn test_equality() {
    assert_eq!(Money::dollar(5), Money::dollar(5));
    assert_ne!(Money::dollar(5), Money::dollar(6));
    assert_eq!(Money::franc(5), Money::franc(5));
    assert_ne!(Money::franc(5), Money::franc(6));
    assert_ne!(Money::franc(5), Money::dollar(5));
}

#[test]
fn test_franc_multiplication() {
    let five = || Money::franc(5);
    assert_eq!(Money::franc(10), five().times(2));
    assert_eq!(Money::franc(15), five().times(3));
}

#[test]
fn test_currency() {
    assert_eq!(USD, Money::dollar(1).currency);
    assert_eq!(CHF, Money::franc(1).currency);
}

#[test]
fn test_simple_addition() {
    let five = Money::dollar(5);
    let sum = five.plus(Expression::Money(Money::dollar(5)));
    let bank = Bank::new();
    let reduced = bank.reduce(sum, USD).unwrap();
    assert_eq!(Money::dollar(10), reduced);
}

#[test]
fn test_plus_returns_sum() {
    let five = Money::dollar(5);
    let result = five.plus(Expression::Money(Money::dollar(5)));
    let (augend, addend) = match result {
        Expression::Sum { augend, addend } => (augend, addend),
        Expression::Money(_) => panic!("Wasn't a Sum"),
    };
    let five = Money::dollar(5);
    let augend = match *augend {
        Expression::Money(m) => m,
        Expression::Sum { .. } => panic!("Wasn't a Money"),
    };
    assert_eq!(five, augend);
    let addend = match *addend {
        Expression::Money(m) => m,
        Expression::Sum { .. } => panic!("Wasn't a Money"),
    };
    assert_eq!(five, addend);
}

#[test]
fn test_reduce_sum() {
    let sum = Expression::Sum {
        augend: Box::new(Expression::Money(Money::dollar(3))),
        addend: Box::new(Expression::Money(Money::dollar(4))),
    };
    let bank = Bank::new();
    let result = bank.reduce(sum, USD).unwrap();
    assert_eq!(Money::dollar(7), result);
}

#[test]
fn test_reduce_money() {
    let bank = Bank::new();
    let result = bank.reduce(Expression::Money(Money::dollar(1)), USD).unwrap();
    assert_eq!(Money::dollar(1), result);
}

#[test]
fn test_reduce_money_different_currency() {
    let mut bank = Bank::new();
    bank.add_rate(CHF, USD, 2).unwrap();
    let result = bank.reduce(Expression::Money(Money::franc(2)), USD).unwrap();
    assert_eq!(Money::dollar(1), result);
}

#[test]
fn test_identity_rate() {
    let bank = Bank::new();
    assert_eq!(1, bank.rate(USD, USD).unwrap());
}

#[test]
fn test_mixed_addition() {
    let five_bucks = Expression::Money(Money::dollar(5));
    let ten_francs = Expression::Money(Money::franc(10));
    let mut bank = Bank::new();
    bank.add_rate(CHF, USD, 2).unwrap();
    let result = bank.reduce(five_bucks.plus(ten_francs), USD).unwrap();
    assert_eq!(Money::dollar(10), result);
}

#[test]
fn test_sum_plus_money() {
    let five_bucks = Expression::Money(Money::dollar(5));
    let ten_francs = Expression::Money(Money::franc(10));
    let mut bank = Bank::new();
    bank.add_rate(CHF, USD, 2).unwrap();
    let sum = Expression::Sum { augend: Box::new(five_bucks), addend: Box::new(ten_francs) }
        .plus(Expression::Money(Money::dollar(5)));
    let result = bank.reduce(sum, USD).unwrap();
    assert_eq!(Money::dollar(15), result);
}

#[test]
fn test_missing_rate() {
    let bank = Bank::new();
    let result = bank.reduce(Expression::Money(Money::franc(2)), USD);
    assert_eq!(Err(MoneyError::MissingRate), result);
}

#[test]
fn test_rate_is_directional() {
    let mut bank = Bank::new();
    bank.add_rate(CHF, USD, 2).unwrap();
    assert_eq!(Ok(2), bank.rate(CHF, USD));
    assert_eq!(Err(MoneyError::MissingRate), bank.rate(USD, CHF));
}

#[test]
fn test_invalid_rate_rejected() {
    let mut bank = Bank::new();
    assert_eq!(Err(MoneyError::InvalidRate), bank.add_rate(CHF, USD, 0));
    assert_eq!(Err(MoneyError::InvalidRate), bank.add_rate(CHF, USD, -3));
    assert_eq!(Err(MoneyError::MissingRate), bank.rate(CHF, USD));
}

#[test]
fn test_rate_overwrite() {
    let mut bank = Bank::new();
    bank.add_rate(CHF, USD, 2).unwrap();
    bank.add_rate(CHF, USD, 3).unwrap();
    assert_eq!(Ok(3), bank.rate(CHF, USD));
    let result = bank.reduce(Expression::Money(Money::franc(9)), USD).unwrap();
    assert_eq!(Money::dollar(3), result);
}

#[test]
fn test_identity_rate_takes_precedence() {
    let mut bank = Bank::new();
    bank.add_rate(USD, USD, 3).unwrap();
    assert_eq!(1, bank.rate(USD, USD).unwrap());
    let result = bank.reduce(Expression::Money(Money::dollar(6)), USD).unwrap();
    assert_eq!(Money::dollar(6), result);
}

#[test]
fn test_overflow_in_sum() {
    let bank = Bank::new();
    let huge = Money::dollar(i64::MAX);
    let sum = huge.plus(Expression::Money(Money::dollar(1)));
    assert_eq!(Err(MoneyError::Overflow), bank.reduce(sum, USD));
}

#[test]
fn test_truncating_division() {
    let mut bank = Bank::new();
    bank.add_rate(CHF, USD, 2).unwrap();
    let result = bank.reduce(Expression::Money(Money::franc(5)), USD).unwrap();
    assert_eq!(Money::dollar(2), result);
    let debt = bank.reduce(Expression::Money(Money::franc(-5)), USD).unwrap();
    assert_eq!(Money::dollar(-2), debt);
}

#[test]
fn test_times_composes_multiplications() {
    let seven = Money::dollar(7);
    assert_eq!(seven.times(6), seven.times(2).times(3));
    let negative = Money::franc(-4);
    assert_eq!(negative.times(10), negative.times(5).times(2));
}

#[test]
fn test_negative_amounts() {
    assert_eq!(Money::dollar(-15), Money::dollar(-5).times(3));
    let bank = Bank::new();
    let result = bank.reduce(Expression::Money(Money::dollar(-7)), USD).unwrap();
    assert_eq!(Money::dollar(-7), result);
}

#[test]
fn test_nested_sums() {
    let mut bank = Bank::new();
    bank.add_rate(CHF, USD, 2).unwrap();
    let inner = Money::dollar(5).plus(Expression::Money(Money::franc(10)));
    let outer = inner.plus(Expression::Money(Money::dollar(2)));
    let result = bank.reduce(outer, USD).unwrap();
    assert_eq!(Money::dollar(12), result);
}

#[test]
fn test_sum_error_propagates() {
    let bank = Bank::new();
    let sum = Money::dollar(5).plus(Expression::Money(Money::franc(10)));
    assert_eq!(Err(MoneyError::MissingRate), bank.reduce(sum, USD));
}
