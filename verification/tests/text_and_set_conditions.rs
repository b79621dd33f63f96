use winvoice_match::{Match, MatchOption, MatchSet, MatchStr};

fn text(s: &str) -> MatchStr<String> {
    MatchStr::EqualTo(s.to_owned())
}

#[test]
fn text_and_flattens() {
    let cond = MatchStr::Any & text("a") & MatchStr::Contains("b".to_owned()) & MatchStr::Regex("^c".to_owned());
    assert_eq!(
        cond,
        MatchStr::And(vec![text("a"), MatchStr::Contains("b".to_owned()), MatchStr::Regex("^c".to_owned())])
    );
}

#[test]
fn text_or_replaces_never() {
    let cond = !MatchStr::Any | text("a") | text("b");
    assert_eq!(cond, MatchStr::Or(vec![text("a"), text("b")]));
    let mut never = !MatchStr::Any;
    never |= text("a");
    assert_eq!(never, text("a"));
}

#[test]
fn text_xor_is_derived() {
    let one = text("a") ^ text("b");
    assert_eq!(one, (text("a") | text("b")) & !(text("a") & text("b")));
}

#[test]
fn text_map_keeps_the_shape() {
    let cond = MatchStr::Or(vec![
        MatchStr::Contains("f"),
        MatchStr::Not(Box::new(MatchStr::Regex("o+"))),
        MatchStr::EqualTo("foo"),
        MatchStr::Any,
    ]);
    let expected = MatchStr::Or(vec![
        MatchStr::Contains("f".to_owned()),
        MatchStr::Not(Box::new(MatchStr::Regex("o+".to_owned()))),
        MatchStr::EqualTo("foo".to_owned()),
        MatchStr::Any,
    ]);
    assert_eq!(cond.map_ref(|s: &&str| s.to_string()), expected);
    assert_eq!(cond.map(|s: &str| s.to_string()), expected);
}

#[test]
fn text_from_iter_joins_with_or() {
    assert_eq!(
        MatchStr::from_iter(vec!["a".to_owned(), "b".to_owned()]),
        MatchStr::Or(vec![text("a"), text("b")])
    );
    assert_eq!(MatchStr::from("a".to_owned()), text("a"));
    assert_eq!(MatchStr::<String>::default(), MatchStr::Any);
}

#[test]
fn set_from_iter_joins_with_and() {
    assert_eq!(
        MatchSet::from_iter(vec![text("a"), text("b")]),
        MatchSet::And(vec![MatchSet::Contains(text("a")), MatchSet::Contains(text("b"))])
    );
    assert_eq!(MatchSet::from(text("a")), MatchSet::Contains(text("a")));
    assert_eq!(MatchSet::<MatchStr<String>>::default(), MatchSet::Any);
}

#[test]
fn set_combinators_follow_the_same_rules() {
    let a = MatchSet::Contains(Match::EqualTo(1));
    let b = MatchSet::Contains(Match::EqualTo(2));
    let c = MatchSet::Contains(Match::EqualTo(3));
    assert_eq!(
        MatchSet::Any & a.clone() & b.clone() & c.clone(),
        MatchSet::And(vec![a.clone(), b.clone(), c.clone()])
    );
    assert_eq!(
        !MatchSet::Any | a.clone() | b.clone() | c.clone(),
        MatchSet::Or(vec![a.clone(), b.clone(), c.clone()])
    );
    assert_eq!(a.clone() ^ b.clone(), (a.clone() | b.clone()) & !(a.clone() & b.clone()));
    assert_eq!(!a.clone(), MatchSet::Not(Box::new(a)));
}

#[test]
fn set_map_goes_to_the_inner_conditions() {
    let cond = MatchSet::And(vec![
        MatchSet::Contains(Match::GreaterThan(1)),
        MatchSet::Not(Box::new(MatchSet::Contains(Match::EqualTo(2)))),
    ]);
    let mapped = cond.map(|inner: Match<i64>| inner.map(|n: i64| n * 10));
    assert_eq!(
        mapped,
        MatchSet::And(vec![
            MatchSet::Contains(Match::GreaterThan(10)),
            MatchSet::Not(Box::new(MatchSet::Contains(Match::EqualTo(20)))),
        ])
    );
}

#[test]
fn option_map_keeps_the_variant() {
    let f = |m: Match<&str>| m.map(|s: &str| s.parse::<isize>().unwrap());
    assert_eq!(MatchOption::Present(Match::EqualTo("5")).map(f), MatchOption::Present(Match::EqualTo(5)));
    assert_eq!(MatchOption::NoneOr(Match::EqualTo("5")).map(f), MatchOption::NoneOr(Match::EqualTo(5)));
    assert_eq!(MatchOption::<Match<&str>>::Any.map(f), MatchOption::Any);
    assert_eq!(MatchOption::<Match<&str>>::Absent.map(f), MatchOption::Absent);
    assert_eq!(
        MatchOption::Present(Match::EqualTo(5)).map_ref(|m: &Match<i64>| m.map_copied(|n: i64| n + 1)),
        MatchOption::Present(Match::EqualTo(6))
    );
}

#[test]
fn option_from_never_gives_absent_or() {
    assert_eq!(MatchOption::from(Some(3)), MatchOption::Present(3));
    assert_eq!(MatchOption::<i64>::from(None), MatchOption::Absent);
    assert_eq!(MatchOption::<i64>::default(), MatchOption::Any);
}

#[test]
fn set_map_ref_and_exchange_keep_the_shape() {
    let cond = MatchSet::Or(vec![
        MatchSet::Contains(Match::InRange(10, 20)),
        MatchSet::Any,
        MatchSet::Not(Box::new(MatchSet::Contains(Match::Any))),
    ]);
    let expected = MatchSet::Or(vec![
        MatchSet::Contains(Match::InRange(5, 10)),
        MatchSet::Any,
        MatchSet::Not(Box::new(MatchSet::Contains(Match::Any))),
    ]);
    assert_eq!(cond.map_ref(|inner: &Match<i64>| inner.map_copied(|n: i64| n / 2)), expected);
    let mut changed = cond.clone();
    changed.exchange_mut_with(|inner: Match<i64>| inner.map(|n: i64| n / 2));
    assert_eq!(changed, expected);
}

#[test]
fn text_exchange_rewrites_in_place() {
    let mut cond = MatchStr::And(vec![text("a"), MatchStr::Contains("b".to_owned())]);
    cond.exchange_mut_with(|s: String| s.to_uppercase());
    assert_eq!(cond, MatchStr::And(vec![text("A"), MatchStr::Contains("B".to_owned())]));
}

#[test]
fn clones_are_equal() {
    let set = MatchSet::And(vec![MatchSet::Contains(text("a")), MatchSet::Not(Box::new(MatchSet::Any))]);
    assert_eq!(set.clone(), set);
    let option = MatchOption::NoneOr(text("a"));
    assert_eq!(option.clone(), option);
    let cond = MatchStr::Or(vec![MatchStr::Regex("x".to_owned()), MatchStr::Any]);
    assert_eq!(cond.clone(), cond);
}

#[test]
fn any_stays_in_a_disjunction_of_texts_and_of_sets() {
    assert_eq!(MatchStr::Any | text("a"), MatchStr::Or(vec![MatchStr::Any, text("a")]));
    let mut cond = MatchStr::Any;
    cond |= text("a");
    assert_eq!(cond, MatchStr::Or(vec![MatchStr::Any, text("a")]));
    assert_eq!(
        MatchStr::Any ^ text("a"),
        MatchStr::And(vec![
            MatchStr::Or(vec![MatchStr::Any, text("a")]),
            MatchStr::Not(Box::new(text("a"))),
        ])
    );

    let member = MatchSet::Contains(Match::EqualTo(1));
    assert_eq!(MatchSet::Any | member.clone(), MatchSet::Or(vec![MatchSet::Any, member.clone()]));
    let mut set = MatchSet::Any;
    set |= member.clone();
    assert_eq!(set, MatchSet::Or(vec![MatchSet::Any, member.clone()]));
    assert_eq!(
        MatchSet::Any ^ member.clone(),
        MatchSet::And(vec![
            MatchSet::Or(vec![MatchSet::Any, member.clone()]),
            MatchSet::Not(Box::new(member)),
        ])
    );
}
