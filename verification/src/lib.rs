//! Monetary values in multiple currencies, combined into expression
//! trees and evaluated ("reduced") to a single target currency through
//! a bank's table of exchange rates.
//!
//! A [`money::Money`] is an immutable amount tagged with a
//! [`currency::Currency`]. Values are composed with `plus` into an
//! [`expression::Expression`] tree, and a [`bank::Bank`] reduces such a
//! tree to one currency, converting each leaf through its stored rate.

pub mod bank;
pub mod currency;
pub mod error;
pub mod expression;
pub mod money;

pub use bank::Bank;
pub use currency::Currency;
pub use error::MoneyError;
pub use expression::Expression;
pub use money::Money;
