use money2::{Currency, ExchangeRates};
use winvoice_match::{Match, Money};

fn rates() -> ExchangeRates {
    "Date, USD, JPY, \n03 June 2021, 1.1111111111, 133.81, ".parse().unwrap()
}

fn usd(cents: i64) -> Money {
    Money::new(cents, 2, Currency::Usd).unwrap()
}

fn eur(cents: i64) -> Money {
    Money::new(cents, 2, Currency::Eur).unwrap()
}

#[test]
fn fifty_dollars_are_forty_five_euros() {
    let cond = Match::GreaterThan(usd(50_00));
    assert_eq!(cond.exchange(Currency::Eur, &rates()), Match::GreaterThan(eur(45_00)));
}

#[test]
fn exchange_keeps_comparisons_and_combinators() {
    let mut cond = Match::And(vec![
        Match::InRange(usd(10_00), usd(50_00)),
        Match::Not(Box::new(Match::EqualTo(usd(20_00)))),
        Match::Or(vec![Match::LessThan(eur(5_00)), Match::Any]),
    ]);
    cond.exchange_mut(Currency::Eur, &rates());
    assert_eq!(
        cond,
        Match::And(vec![
            Match::InRange(eur(9_00), eur(45_00)),
            Match::Not(Box::new(Match::EqualTo(eur(18_00)))),
            Match::Or(vec![Match::LessThan(eur(5_00)), Match::Any]),
        ])
    );
}

#[test]
fn money_in_the_currency_asked_for_stays_as_it_is() {
    let amount = Money::new(12345, 4, Currency::Eur).unwrap();
    assert_eq!(
        Match::EqualTo(amount).exchange(Currency::Eur, &rates()),
        Match::EqualTo(Money { mantissa: 12345, scale: 4, currency: Currency::Eur })
    );
}

#[test]
fn exchange_goes_through_the_euro() {
    let cond = Match::LessThan(usd(20_00));
    let yen = cond.exchange(Currency::Jpy, &rates());
    assert_eq!(yen, Match::LessThan(Money { mantissa: 2408_58, scale: 2, currency: Currency::Jpy }));
}

#[test]
fn money_has_at_most_twenty_eight_decimal_places() {
    assert_eq!(
        Money::new(5, 28, Currency::Usd),
        Some(Money { mantissa: 5, scale: 28, currency: Currency::Usd })
    );
    assert_eq!(Money::new(5, 29, Currency::Usd), None);
}
