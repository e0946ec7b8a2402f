use vstd::prelude::*;

use crate::currency::Currency;
use crate::error::MoneyError;
use crate::expression::{spec_reduce, Expression};
use crate::money::Money;

verus! {

/// One stored conversion: an amount in `from` is divided by `rate` to
/// give an amount in `to`.
struct RateEntry {
    from: Currency,
    to: Currency,
    rate: i64,
}

/// What a rate table answers for the ordered pair `(from, to)`.
///
/// A currency converts to itself at the implicit rate one; that rule
/// takes precedence even when an explicit entry for the pair is stored.
/// Otherwise the stored rate is returned, and `MissingRate` when there
/// is none. Lookup is directional: a rate for (CHF, USD) says nothing
/// about (USD, CHF).
pub open spec fn spec_rate(
    rates: Map<(Currency, Currency), i64>,
    from: Currency,
    to: Currency,
) -> Result<i64, MoneyError> {
    if from == to {
        Ok(1i64)
    } else if rates.contains_key((from, to)) {
        Ok(rates[(from, to)])
    } else {
        Err(MoneyError::MissingRate)
    }
}

/// The mapping denoted by a sequence of stored entries: a later entry
/// for the same pair shadows an earlier one.
spec fn rates_of(entries: Seq<RateEntry>) -> Map<(Currency, Currency), i64>
    decreases entries.len(),
{
    if entries.len() == 0 {
        Map::empty()
    } else {
        rates_of(entries.drop_last()).insert(
            (entries.last().from, entries.last().to),
            entries.last().rate,
        )
    }
}

/// A mapping made of positive entries only holds positive rates.
proof fn lemma_rates_of_positive(entries: Seq<RateEntry>)
    requires
        forall|i: int| 0 <= i < entries.len() ==> #[trigger] entries[i].rate >= 1,
    ensures
        forall|k: (Currency, Currency)|
            rates_of(entries).contains_key(k) ==> #[trigger] rates_of(entries)[k] >= 1,
    decreases entries.len(),
{
    if entries.len() > 0 {
        assert(forall|i: int|
            0 <= i < entries.drop_last().len() ==> #[trigger] entries.drop_last()[i].rate
                == entries[i].rate);
        lemma_rates_of_positive(entries.drop_last());
        assert(entries.last().rate >= 1);
        assert forall|k: (Currency, Currency)| rates_of(entries).contains_key(k) implies #[trigger] rates_of(
            entries,
        )[k] >= 1 by {
            let shadowed = rates_of(entries.drop_last());
            if k == (entries.last().from, entries.last().to) {
                assert(rates_of(entries)[k] == entries.last().rate);
            } else {
                assert(rates_of(entries)[k] == shadowed[k]);
            }
        }
    }
}

/// Owns a table of exchange rates and drives the reduction of
/// expression trees. The table only grows or overwrites entries during
/// configuration; reduction reads it and never changes it.
pub struct Bank {
    rates: Vec<RateEntry>,
}

impl View for Bank {
    type V = Map<(Currency, Currency), i64>;

    /// The bank viewed as the mapping from ordered currency pairs to
    /// the most recently stored rate for each.
    closed spec fn view(&self) -> Map<(Currency, Currency), i64> {
        rates_of(self.rates@)
    }
}

impl Bank {
    /// Every stored rate is at least one: `add_rate` rejects anything
    /// smaller, so division through the table is always well defined.
    #[verifier::type_invariant]
    spec fn rates_are_positive(self) -> bool {
        forall|i: int| 0 <= i < self.rates@.len() ==> #[trigger] self.rates@[i].rate >= 1
    }

    /// A bank with an empty rate table.
    pub fn new() -> (r: Bank)
        ensures
            r@ == Map::<(Currency, Currency), i64>::empty(),
    {
        Bank { rates: Vec::new() }
    }

    /// Stores `rate` for the ordered pair `(from, to)`, replacing any
    /// earlier entry for that pair. A rate below one is a configuration
    /// error: it is rejected and the table is left unchanged.
    pub fn add_rate(&mut self, from: Currency, to: Currency, rate: i64) -> (r: Result<
        (),
        MoneyError,
    >)
        ensures
            rate >= 1 ==> r == Ok::<(), MoneyError>(()) && final(self)@ == old(self)@.insert(
                (from, to),
                rate,
            ),
            rate < 1 ==> r == Err::<(), MoneyError>(MoneyError::InvalidRate) && final(self)@
                == old(self)@,
    {
        if rate < 1 {
            return Err(MoneyError::InvalidRate);
        }
        proof {
            use_type_invariant(&*self);
        }
        let ghost entries_before = self.rates@;
        let mut entries: Vec<RateEntry> = Vec::new();
        std::mem::swap(&mut entries, &mut self.rates);
        entries.push(RateEntry { from, to, rate });
        self.rates = entries;
        proof {
            assert(self.rates@.drop_last() =~= entries_before);
        }
        Ok(())
    }

    /// The divisor for converting `from` into `to`: one when the two
    /// currencies are the same, otherwise the most recently stored rate
    /// for the ordered pair, and `MissingRate` when no entry exists.
    /// Every rate handed out is at least one.
    pub fn rate(&self, from: Currency, to: Currency) -> (r: Result<i64, MoneyError>)
        ensures
            r == spec_rate(self@, from, to),
            (r matches Ok(v) ==> v >= 1),
    {
        proof {
            use_type_invariant(&*self);
        }
        if from == to {
            return Ok(1);
        }
        let ghost entries = self.rates@;
        let mut found: Option<i64> = None;
        let mut i: usize = 0;
        while i < self.rates.len()
            invariant
                i <= entries.len(),
                entries == self.rates@,
                forall|j: int| 0 <= j < entries.len() ==> #[trigger] entries[j].rate >= 1,
                match found {
                    Some(v) => rates_of(entries.take(i as int)).contains_key((from, to))
                        && rates_of(entries.take(i as int))[(from, to)] == v && v >= 1,
                    None => !rates_of(entries.take(i as int)).contains_key((from, to)),
                },
            decreases entries.len() - i,
        {
            let entry = &self.rates[i];
            if entry.from == from && entry.to == to {
                found = Some(entry.rate);
            }
            proof {
                let stepped = entries.take(i as int + 1);
                assert(stepped.drop_last() =~= entries.take(i as int));
                assert(stepped.last() == entries[i as int]);
            }
            i = i + 1;
        }
        proof {
            assert(entries.take(entries.len() as int) =~= entries);
        }
        match found {
            Some(v) => Ok(v),
            None => Err(MoneyError::MissingRate),
        }
    }

    /// Reduces `source` to a single monetary value in the currency
    /// `to`; the bank is the single entry point callers use, and it
    /// delegates to the expression tree itself.
    pub fn reduce(&self, source: Expression, to: Currency) -> (r: Result<Money, MoneyError>)
        ensures
            r == spec_reduce(source, self@, to),
    {
        source.reduce(self, to)
    }
}

/// Identity-rate law: under every rate table, converting a currency to
/// itself divides by one, whether or not an explicit entry for the pair
/// was added.
pub proof fn lemma_identity_rate(rates: Map<(Currency, Currency), i64>, c: Currency)
    ensures
        spec_rate(rates, c, c) == Ok::<i64, MoneyError>(1i64),
{
}

} // verus!
