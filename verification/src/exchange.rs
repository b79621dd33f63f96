//! Conditions on amounts of money, and their conversion to another
//! currency. The arithmetic on an amount is that of the crate `money2`; the
//! library walks the condition.

use vstd::prelude::*;
use crate::formula::{law_related_is_mapped, lemma_all_leaves_weaken, Formula};
use crate::leaf::{call_gives, may_call};
use crate::match_value::{Comparison, Match};
use money2::Exchange;

verus! {

/// A currency of `money2`.
#[verifier::external_type_specification]
#[verifier::external_body]
pub struct ExCurrency(money2::Currency);

/// The table of exchange rates of `money2`.
#[verifier::external_type_specification]
#[verifier::external_body]
pub struct ExExchangeRates(money2::ExchangeRates);

/// The error of `money2`. Nothing in this library makes or reads one: the
/// two types above implement `TryFrom<&str>` with this error, and Verus takes
/// them only where it knows the type of the error too.
#[verifier::external_type_specification]
#[verifier::external_body]
pub struct ExError(money2::Error);

/// A decimal number: `mantissa / 10^scale`.
pub struct Rate {
    pub mantissa: int,
    pub scale: nat,
}

/// The rate that a table holds for each currency that it knows: how much of
/// the currency one euro is.
pub uninterp spec fn rates_of(rates: money2::ExchangeRates) -> Map<money2::Currency, Rate>;

/// The amount that `money2` gives for an amount converted from a currency
/// with the rate `from` to one with the rate `to`: the product of the amount
/// and the quotient of `to` by `from`, in the arithmetic of its decimal
/// numbers, brought to two decimal places.
pub uninterp spec fn converted(amount: Rate, from: Rate, to: Rate) -> Rate;

/// An amount of money in a currency: `mantissa / 10^scale`.
#[derive(Debug, PartialEq, Eq, Clone, Copy)]
pub struct Money {
    pub mantissa: i128,
    pub scale: u32,
    pub currency: money2::Currency,
}

/// Ten to the power of `n`.
pub open spec fn pow10(n: nat) -> nat
    decreases n,
{
    if n == 0 {
        1
    } else {
        10 * pow10((n - 1) as nat)
    }
}

/// The absolute value of an integer.
pub open spec fn magnitude(n: int) -> int {
    if n < 0 {
        -n
    } else {
        n
    }
}

/// The greatest number of decimal places of an amount.
pub const MAX_SCALE: u32 = 28;

impl Money {
    /// The amount as a decimal number.
    pub open spec fn amount(self) -> Rate {
        Rate { mantissa: self.mantissa as int, scale: self.scale as nat }
    }

    /// Whether a decimal number is one that `money2` can hold: a mantissa of
    /// 96 bits and at most 28 decimal places.
    pub open spec fn holds(amount: Rate) -> bool {
        amount.scale <= MAX_SCALE && magnitude(amount.mantissa) < 0x1_0000_0000_0000_0000_0000_0000
    }

    /// Whether the amount is one that `money2` can hold.
    pub open spec fn wf(self) -> bool {
        Self::holds(self.amount())
    }

    /// Whether `money2` converts the amount to `currency` with these rates.
    /// It does where the currency is the one of the amount already.
    /// Otherwise it needs a rate for both currencies, the one of the amount
    /// not zero, and neither the quotient of the rates nor the converted
    /// amount beyond `10^27`.
    pub open spec fn converts(self, currency: money2::Currency, rates: Map<money2::Currency, Rate>) -> bool {
        self.currency == currency || {
            &&& rates.contains_key(self.currency)
            &&& rates.contains_key(currency)
            &&& rates[self.currency].mantissa != 0
            &&& magnitude(rates[currency].mantissa) * pow10(rates[self.currency].scale) <= pow10(27)
                * magnitude(rates[self.currency].mantissa) * pow10(rates[currency].scale)
            &&& magnitude(self.mantissa as int) * magnitude(rates[currency].mantissa) * pow10(
                rates[self.currency].scale,
            ) <= pow10(27) * magnitude(rates[self.currency].mantissa) * pow10(
                rates[currency].scale + self.scale as nat,
            )
        }
    }

    /// The amount converted to `currency`: itself where that is its
    /// currency, else what `money2` computes from the two rates.
    pub open spec fn converted_to(self, currency: money2::Currency, rates: Map<money2::Currency, Rate>) -> Rate {
        if self.currency == currency {
            self.amount()
        } else {
            converted(self.amount(), rates[self.currency], rates[currency])
        }
    }

    /// The money converted to `currency`.
    pub open spec fn exchanged(self, currency: money2::Currency, rates: Map<money2::Currency, Rate>) -> Money {
        let amount = self.converted_to(currency, rates);
        Money { mantissa: amount.mantissa as i128, scale: amount.scale as u32, currency }
    }

    /// The amount `amount / 10^decimal_places` in `currency`, where
    /// `decimal_places` is at most `MAX_SCALE`.
    pub fn new(amount: i64, decimal_places: u32, currency: money2::Currency) -> (money: Option<Money>)
        ensures
            decimal_places <= MAX_SCALE ==> money == Some(
                Money { mantissa: amount as i128, scale: decimal_places, currency },
            ),
            decimal_places > MAX_SCALE ==> money is None,
            money matches Some(m) ==> m.wf(),
    {
        if decimal_places <= MAX_SCALE {
            Some(Money { mantissa: amount as i128, scale: decimal_places, currency })
        } else {
            None
        }
    }
}

/// Calls `Exchange::exchange` of `money2` on one amount, which goes in by
/// `Decimal::from_i128_with_scale` and comes back by `Decimal::mantissa` and
/// `Decimal::scale`.
///
/// What is claimed of it: where the currency is the one asked for, it returns
/// the amount as it is. Otherwise the amount is `converted`, the product of
/// the amount and the quotient of the two rates of the table, brought to two
/// decimal places, and the currency is the one asked for. A decimal number
/// of `money2` has a mantissa of 96 bits and at most 28 decimal places,
/// whatever was computed.
///
/// What is left out by `requires`: `from_i128_with_scale` panics on a mantissa
/// or a scale beyond those limits (`wf`). The conversion panics where the
/// table has no rate for one of the two currencies, where the rate of the
/// amount's currency is zero, and where the quotient or the product does not
/// fit in 96 bits; `converts` asks for both rates, for a divisor that is not
/// zero, and for a quotient and a product of at most `10^27`, which 96 bits
/// hold.
#[verifier::external_body]
fn exchange_money(money: Money, currency: money2::Currency, rates: &money2::ExchangeRates) -> (exchanged: Money)
    requires
        money.wf(),
        money.converts(currency, rates_of(*rates)),
    ensures
        exchanged.wf(),
        exchanged.currency == currency,
        exchanged.amount() == if money.currency == currency {
            money.amount()
        } else {
            converted(
                money.amount(),
                rates_of(*rates)[money.currency],
                rates_of(*rates)[currency],
            )
        },
{
    let amount = money2::Decimal::from_i128_with_scale(money.mantissa, money.scale);
    let given = money2::Money { amount, currency: money.currency }.exchange(currency, rates);
    Money { mantissa: given.amount.mantissa(), scale: given.amount.scale(), currency: given.currency }
}

/// The amounts that `money2` can hold and converts to `currency` with these
/// rates, as a predicate.
pub open spec fn convertible(currency: money2::Currency, rates: Map<money2::Currency, Rate>) -> spec_fn(
    Money,
) -> bool {
    |money: Money| money.wf() && money.converts(currency, rates)
}

/// The conversion to `currency` with these rates, as a function.
pub open spec fn conversion(currency: money2::Currency, rates: Map<money2::Currency, Rate>) -> spec_fn(
    Money,
) -> Money {
    |money: Money| money.exchanged(currency, rates)
}

/// `convertible`, of the rates that a table holds.
pub open spec fn convertible_with(currency: money2::Currency, rates: &money2::ExchangeRates) -> spec_fn(
    Money,
) -> bool {
    convertible(currency, rates_of(*rates))
}

/// `conversion`, with the rates that a table holds.
pub open spec fn conversion_with(currency: money2::Currency, rates: &money2::ExchangeRates) -> spec_fn(
    Money,
) -> Money {
    conversion(currency, rates_of(*rates))
}

impl Match<Money> {
    /// Converts every amount of the condition to `currency`, in place. The
    /// comparisons and the combinators stay as they are: this is `map` with
    /// the conversion of one amount.
    pub fn exchange_mut(&mut self, currency: money2::Currency, rates: &money2::ExchangeRates)
        requires
            old(self)@.all_leaves(Comparison::each(convertible(currency, rates_of(*rates)))),
        ensures
            final(self)@ == old(self)@.map_leaves(
                Comparison::on(conversion(currency, rates_of(*rates))),
            ),
    {
        let convert = |money: Money| -> (exchanged: Money)
            requires
                convertible_with(currency, rates)(money),
            ensures
                exchanged == conversion_with(currency, rates)(money),
            { exchange_money(money, currency, rates) };
        proof {
            lemma_all_leaves_weaken(
                self@,
                Comparison::each(convertible(currency, rates_of(*rates))),
                Comparison::each(may_call(convert)),
            );
        }
        let ghost before = self@;
        self.exchange_mut_with(convert);
        proof {
            law_related_is_mapped(
                before,
                self@,
                Comparison::pairs(call_gives(convert)),
                Comparison::on(conversion(currency, rates_of(*rates))),
            );
        }
    }

    /// As `exchange_mut`, on a condition that is taken and given back.
    pub fn exchange(self, currency: money2::Currency, rates: &money2::ExchangeRates) -> (exchanged: Self)
        requires
            self@.all_leaves(Comparison::each(convertible(currency, rates_of(*rates)))),
        ensures
            exchanged@ == self@.map_leaves(Comparison::on(conversion(currency, rates_of(*rates)))),
    {
        let mut exchanged = self;
        exchanged.exchange_mut(currency, rates);
        exchanged
    }
}

} // verus!
