use winvoice_match::Match;

fn eq(n: i64) -> Match<i64> {
    Match::EqualTo(n)
}

#[test]
fn and_replaces_the_identity_then_grows_one_list() {
    let mut cond = Match::Any;
    cond.and(eq(1));
    assert_eq!(cond, eq(1));
    cond.and(eq(2));
    assert_eq!(cond, Match::And(vec![eq(1), eq(2)]));
    cond.and(eq(3));
    assert_eq!(cond, Match::And(vec![eq(1), eq(2), eq(3)]));
}

#[test]
fn and_of_a_leaf_twice_is_one_list_of_three() {
    let mut cond = Match::GreaterThan(0);
    cond.and(eq(1));
    cond.and(eq(2));
    assert_eq!(cond, Match::And(vec![Match::GreaterThan(0), eq(1), eq(2)]));
}

#[test]
fn and_does_not_flatten_the_other_operand() {
    let mut cond = eq(1);
    cond.and(Match::And(vec![eq(2), eq(3)]));
    assert_eq!(cond, Match::And(vec![eq(1), Match::And(vec![eq(2), eq(3)])]));
}

#[test]
fn the_method_or_replaces_both_identities_then_grows_one_list() {
    let mut cond = Match::Any;
    cond.or(eq(1));
    assert_eq!(cond, eq(1));
    cond.or(eq(2));
    assert_eq!(cond, Match::Or(vec![eq(1), eq(2)]));
    cond.or(eq(3));
    assert_eq!(cond, Match::Or(vec![eq(1), eq(2), eq(3)]));

    let mut never = !Match::Any;
    never.or(eq(1));
    assert_eq!(never, eq(1));
}

#[test]
fn or_keeps_a_negation_that_is_not_of_any() {
    let mut cond = !eq(1);
    cond.or(eq(2));
    assert_eq!(cond, Match::Or(vec![Match::Not(Box::new(eq(1))), eq(2)]));
}

#[test]
fn operators_keep_one_flat_list() {
    let both = Match::Any & Match::from(1) & 2.into() & 3.into();
    assert_eq!(both, Match::And(vec![1.into(), 2.into(), 3.into()]));
    let either = !Match::Any | Match::from(1) | 2.into() | 3.into();
    assert_eq!(either, Match::Or(vec![1.into(), 2.into(), 3.into()]));

    let mut cond = Match::Any;
    cond &= eq(1);
    cond &= eq(2);
    assert_eq!(cond, Match::And(vec![eq(1), eq(2)]));
    let mut cond = !Match::Any;
    cond |= eq(1);
    cond |= eq(2);
    assert_eq!(cond, Match::Or(vec![eq(1), eq(2)]));
}

#[test]
fn not_wraps_and_keeps_a_double_negation() {
    assert_eq!(!eq(1), Match::Not(Box::new(eq(1))));
    assert_eq!(!!eq(1), Match::Not(Box::new(Match::Not(Box::new(eq(1))))));
    assert_eq!(!Match::<i64>::Any, Match::Not(Box::new(Match::Any)));
}

#[test]
fn xor_is_the_disjunction_and_not_the_conjunction() {
    let one = eq(1) ^ eq(2);
    assert_eq!(one, (eq(1) | eq(2)) & !(eq(1) & eq(2)));
    assert_eq!(
        one,
        Match::And(vec![
            Match::Or(vec![eq(1), eq(2)]),
            Match::Not(Box::new(Match::And(vec![eq(1), eq(2)]))),
        ])
    );

    let mut cond = eq(1);
    cond ^= eq(2);
    assert_eq!(cond, one);
}

#[test]
fn xor_uses_the_combinators_on_every_operand() {
    let listed = Match::Or(vec![eq(1), eq(2)]) ^ eq(3);
    assert_eq!(
        listed,
        Match::And(vec![
            Match::Or(vec![eq(1), eq(2), eq(3)]),
            Match::Not(Box::new(Match::And(vec![Match::Or(vec![eq(1), eq(2)]), eq(3)]))),
        ])
    );

    let never = !Match::Any ^ eq(1);
    assert_eq!(never, (!Match::Any | eq(1)) & !(!Match::Any & eq(1)));
    assert_eq!(
        never,
        Match::And(vec![
            eq(1),
            Match::Not(Box::new(Match::And(vec![Match::Not(Box::new(Match::Any)), eq(1)]))),
        ])
    );
}

#[test]
fn map_keeps_the_shape_and_the_order() {
    let cond = Match::And(vec![
        Match::GreaterThan(5),
        Match::Or(vec![eq(7), Match::InRange(1, 3)]),
        Match::Not(Box::new(Match::LessThan(10))),
        Match::Any,
    ]);
    let mapped = cond.map(|n: i64| n * 2);
    assert_eq!(
        mapped,
        Match::And(vec![
            Match::GreaterThan(10),
            Match::Or(vec![eq(14), Match::InRange(2, 6)]),
            Match::Not(Box::new(Match::LessThan(20))),
            Match::Any,
        ])
    );
}

#[test]
fn map_of_a_list_is_the_list_of_the_mapped() {
    let a = Match::GreaterThan(1);
    let b = Match::LessThan(9);
    let f = |n: i64| n + 100;
    assert_eq!(
        Match::And(vec![a.clone(), b.clone()]).map(f),
        Match::And(vec![a.map(f), b.map(f)])
    );
}

#[test]
fn map_changes_the_type_of_the_values() {
    assert_eq!(Match::EqualTo("5").map(|s: &str| s.parse::<isize>().unwrap()), Match::EqualTo(5));
}

#[test]
fn map_with_the_identity_changes_nothing() {
    let cond = Match::Or(vec![Match::InRange(1, 3), Match::Not(Box::new(eq(4))), Match::Any]);
    assert_eq!(cond.clone().map(|n: i64| n), cond);
    assert_eq!(cond.map_ref(|n: &i64| *n), cond);
    assert_eq!(cond.map_copied(|n: i64| n), cond);
}

#[test]
fn map_ref_and_map_copied_agree_with_map() {
    let cond = Match::And(vec![Match::GreaterThan(5), Match::InRange(1, 3), !eq(2)]);
    let expected = cond.clone().map(|n: i64| n.to_string());
    assert_eq!(cond.map_ref(|n: &i64| n.to_string()), expected);
    assert_eq!(cond.map_copied(|n: i64| n.to_string()), expected);
}

#[test]
fn exchange_mut_with_rewrites_in_place() {
    let mut cond = Match::And(vec![Match::GreaterThan(50), Match::InRange(10, 20)]);
    cond.exchange_mut_with(|n: i64| n * 9 / 10);
    assert_eq!(cond, Match::And(vec![Match::GreaterThan(45), Match::InRange(9, 18)]));
}

#[test]
fn from_iter_joins_with_or() {
    assert_eq!(Match::from_iter(vec![1, 2, 3]), Match::Or(vec![eq(1), eq(2), eq(3)]));
    assert_eq!(Match::from_iter(Vec::<i64>::new()), Match::Or(vec![]));
}

#[test]
fn default_is_any_and_from_is_equality() {
    assert_eq!(Match::<i64>::default(), Match::Any);
    assert_eq!(Match::from(3), eq(3));
}

#[test]
fn clone_is_equal() {
    let cond = Match::And(vec![Match::GreaterThan(5), Match::Or(vec![eq(7), Match::Any])]);
    assert_eq!(cond.clone(), cond);
}

#[test]
fn any_stays_in_a_disjunction() {
    assert_eq!(Match::Any | eq(1), Match::Or(vec![Match::Any, eq(1)]));
    assert_eq!(Match::Any | eq(1) | eq(2), Match::Or(vec![Match::Any, eq(1), eq(2)]));
    assert_eq!(
        Match::<i64>::Any | !Match::Any,
        Match::Or(vec![Match::Any, Match::Not(Box::new(Match::Any))])
    );
    let mut cond = Match::Any;
    cond |= eq(1);
    assert_eq!(cond, Match::Or(vec![Match::Any, eq(1)]));

    let mut replaced = Match::Any;
    replaced.or(eq(1));
    assert_eq!(replaced, eq(1));
}

#[test]
fn never_gives_way_in_a_disjunction() {
    assert_eq!(!Match::Any | eq(1), eq(1));
    assert_eq!(!Match::<i64>::Any | Match::Any, Match::Any);
    let mut cond = !Match::Any;
    cond |= eq(1);
    assert_eq!(cond, eq(1));
    assert_eq!(!eq(2) | eq(1), Match::Or(vec![Match::Not(Box::new(eq(2))), eq(1)]));
}

#[test]
fn xor_keeps_any_in_its_disjunction() {
    let one = Match::Any ^ eq(1);
    assert_eq!(
        one,
        Match::And(vec![Match::Or(vec![Match::Any, eq(1)]), Match::Not(Box::new(eq(1)))])
    );
    assert_eq!(one, (Match::Any | eq(1)) & !(Match::Any & eq(1)));
    let mut cond = Match::Any;
    cond ^= eq(1);
    assert_eq!(cond, one);
}
