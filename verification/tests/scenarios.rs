use serde_json::Value;
use winvoice_match::{decode, Match, MatchOption, MatchSet, MatchStr, Wire, Wired};

fn wire_from(value: &Value) -> Wire {
    match value {
        Value::Number(n) => Wire::Int(n.as_i64().unwrap()),
        Value::String(s) => Wire::Text(s.clone()),
        Value::Array(items) => Wire::List(items.iter().map(wire_from).collect()),
        Value::Object(entries) => {
            assert_eq!(entries.len(), 1);
            let (tag, payload) = entries.iter().next().unwrap();
            Wire::Tagged(tag.clone(), Box::new(wire_from(payload)))
        },
        other => panic!("no wire form for {other}"),
    }
}

fn document(text: &str) -> Wire {
    wire_from(&serde_json::from_str::<Value>(text).unwrap())
}

fn value_matches(condition: &Match<i64>, x: i64) -> bool {
    match condition {
        Match::And(list) => list.iter().all(|c| value_matches(c, x)),
        Match::Any => true,
        Match::EqualTo(value) => x == *value,
        Match::GreaterThan(value) => x > *value,
        Match::InRange(low, high) => *low <= x && x < *high,
        Match::LessThan(value) => x < *value,
        Match::Not(inner) => !value_matches(inner, x),
        Match::Or(list) => list.iter().any(|c| value_matches(c, x)),
    }
}

fn text_matches(condition: &MatchStr<String>, text: &str) -> bool {
    match condition {
        MatchStr::And(list) => list.iter().all(|c| text_matches(c, text)),
        MatchStr::Any => true,
        MatchStr::Contains(part) => text.contains(part.as_str()),
        MatchStr::EqualTo(other) => text == other,
        MatchStr::Not(inner) => !text_matches(inner, text),
        MatchStr::Or(list) => list.iter().any(|c| text_matches(c, text)),
        MatchStr::Regex(_) => unreachable!("no pattern in these scenarios"),
    }
}

fn option_matches(condition: &MatchOption<MatchStr<String>>, text: Option<&str>) -> bool {
    match condition {
        MatchOption::Any => true,
        MatchOption::Absent => text.is_none(),
        MatchOption::NoneOr(inner) => text.map_or(true, |t| text_matches(inner, t)),
        MatchOption::Present(inner) => text.map_or(false, |t| text_matches(inner, t)),
    }
}

fn set_matches(condition: &MatchSet<Match<i64>>, members: &[i64]) -> bool {
    match condition {
        MatchSet::And(list) => list.iter().all(|c| set_matches(c, members)),
        MatchSet::Any => true,
        MatchSet::Contains(inner) => members.iter().any(|x| value_matches(inner, *x)),
        MatchSet::Not(inner) => !set_matches(inner, members),
        MatchSet::Or(list) => list.iter().any(|c| set_matches(c, members)),
    }
}

#[test]
fn between_five_and_ten() {
    let condition = Match::And(vec![Match::GreaterThan(5), Match::LessThan(10)]);
    let wire = condition.encode();
    assert_eq!(wire, document(r#"{"and": [{"greater_than": 5}, {"less_than": 10}]}"#));
    let read = decode::<Match<i64>>(&wire).unwrap();
    assert_eq!(read, condition);
    assert!(value_matches(&read, 7));
    assert!(!value_matches(&read, 12));
}

#[test]
fn a_present_text_with_a_needle() {
    let condition = MatchOption::Present(MatchStr::Contains("needle".to_owned()));
    let wire = condition.encode_three_state().unwrap();
    assert_eq!(wire, document(r#"{"matching": {"contains": "needle"}}"#));
    let read = MatchOption::<MatchStr<String>>::decode_three_state(&wire).unwrap();
    assert_eq!(read, condition);
    assert!(option_matches(&read, Some("a needle in haystack")));
    assert!(!option_matches(&read, None));
    assert!(!option_matches(&read, Some("nothing")));
}

#[test]
fn every_member_is_written_with_two_negations() {
    let positive = Match::GreaterThan(0);
    let every = !MatchSet::Contains(!positive.clone());
    assert_eq!(
        every,
        MatchSet::Not(Box::new(MatchSet::Contains(Match::Not(Box::new(positive.clone())))))
    );
    assert!(set_matches(&every, &[1, 2, 3]));
    assert!(!set_matches(&every, &[1, -2, 3]));
    assert!(set_matches(&every, &[]));
    assert!(!set_matches(&MatchSet::Contains(positive), &[]));
}

#[test]
fn never_matches_nothing() {
    let never = !Match::<i64>::Any;
    assert!(!value_matches(&never, 0));
    assert!(value_matches(&Match::Any, 0));
    assert!(value_matches(&Match::InRange(5, 10), 5));
    assert!(value_matches(&Match::InRange(5, 10), 9));
    assert!(!value_matches(&Match::InRange(5, 10), 10));
    assert!(value_matches(&Match::And(vec![]), 0));
    assert!(!value_matches(&Match::Or(vec![]), 0));
}

#[test]
fn the_operators_keep_the_meaning() {
    let lefts = vec![
        Match::Any,
        !Match::Any,
        Match::EqualTo(1),
        Match::InRange(0, 3),
        Match::Or(vec![Match::EqualTo(1), Match::GreaterThan(5)]),
        Match::And(vec![Match::GreaterThan(0), Match::LessThan(4)]),
        !Match::LessThan(2),
    ];
    let rights = vec![Match::Any, !Match::Any, Match::EqualTo(2), Match::GreaterThan(1)];
    for a in &lefts {
        for b in &rights {
            let either = a.clone() | b.clone();
            let both = a.clone() & b.clone();
            let one = a.clone() ^ b.clone();
            for x in -1..8 {
                let left = value_matches(a, x);
                let right = value_matches(b, x);
                assert_eq!(value_matches(&either, x), left || right);
                assert_eq!(value_matches(&both, x), left && right);
                assert_eq!(value_matches(&one, x), left != right);
                assert_eq!(value_matches(&!a.clone(), x), !left);
            }
        }
    }
}
