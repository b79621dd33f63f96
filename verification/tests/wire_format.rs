use serde_json::Value;
use winvoice_match::wire::{fold, reads_as};
use winvoice_match::{decode, DecodeError, Match, MatchOption, MatchSet, MatchStr, Wire, Wired, DEPTH_CEILING};

fn wire_of(value: &Value) -> Wire {
    match value {
        Value::Number(n) => Wire::Int(n.as_i64().unwrap()),
        Value::String(s) => Wire::Text(s.clone()),
        Value::Array(items) => Wire::List(items.iter().map(wire_of).collect()),
        Value::Object(entries) => {
            assert_eq!(entries.len(), 1);
            let (tag, payload) = entries.iter().next().unwrap();
            Wire::Tagged(tag.clone(), Box::new(wire_of(payload)))
        },
        other => panic!("no wire form for {other}"),
    }
}

fn json(text: &str) -> Wire {
    wire_of(&serde_json::from_str::<Value>(text).unwrap())
}

fn value(text: &str) -> Result<Match<i64>, DecodeError> {
    decode::<Match<i64>>(&json(text))
}

#[test]
fn a_conjunction_of_two_comparisons_goes_there_and_back() {
    let cond = Match::And(vec![Match::GreaterThan(5), Match::LessThan(10)]);
    let wire = cond.encode();
    assert_eq!(wire, json(r#"{"and": [{"greater_than": 5}, {"less_than": 10}]}"#));
    assert_eq!(decode::<Match<i64>>(&wire), Ok(cond));
}

#[test]
fn every_form_of_a_value_condition_is_read() {
    assert_eq!(value(r#""any""#), Ok(Match::Any));
    assert_eq!(value(r#"{"equal_to": 3}"#), Ok(Match::EqualTo(3)));
    assert_eq!(value(r#"{"greater_than": 3}"#), Ok(Match::GreaterThan(3)));
    assert_eq!(value(r#"{"less_than": 3}"#), Ok(Match::LessThan(3)));
    assert_eq!(value(r#"{"in_range": [0, 3]}"#), Ok(Match::InRange(0, 3)));
    assert_eq!(value(r#"{"not": "any"}"#), Ok(Match::Not(Box::new(Match::Any))));
    assert_eq!(
        value(r#"{"and": [{"not": 3}, {"in_range": [0, 10]}]}"#),
        Ok(Match::And(vec![Match::Not(Box::new(Match::EqualTo(3))), Match::InRange(0, 10)]))
    );
    assert_eq!(
        value(r#"{"or": [{"greater_than": 2}, 0]}"#),
        Ok(Match::Or(vec![Match::GreaterThan(2), Match::EqualTo(0)]))
    );
    assert_eq!(value(r#"{"and": []}"#), Ok(Match::And(vec![])));
}

#[test]
fn a_bare_value_is_read_as_equality() {
    assert_eq!(value("3"), Ok(Match::EqualTo(3)));
    assert_eq!(value(r#"{"not": 3}"#), Ok(Match::Not(Box::new(Match::EqualTo(3)))));
    assert_eq!(
        decode::<MatchStr<String>>(&json(r#""foo""#)),
        Ok(MatchStr::EqualTo("foo".to_owned()))
    );
}

#[test]
fn equality_is_written_with_its_tag() {
    assert_eq!(Match::EqualTo(3).encode(), json(r#"{"equal_to": 3}"#));
    assert_eq!(MatchStr::EqualTo("any".to_owned()).encode(), json(r#"{"equal_to": "any"}"#));
    assert_eq!(
        decode::<MatchStr<String>>(&MatchStr::EqualTo("any".to_owned()).encode()),
        Ok(MatchStr::EqualTo("any".to_owned()))
    );
}

#[test]
fn a_known_word_is_read_before_a_bare_value() {
    assert_eq!(decode::<MatchStr<String>>(&json(r#""any""#)), Ok(MatchStr::Any));
    assert_eq!(decode::<MatchSet<MatchStr<String>>>(&json(r#""any""#)), Ok(MatchSet::Any));
}

#[test]
fn words_and_tags_are_read_in_any_case() {
    assert_eq!(value(r#""ANY""#), Ok(Match::Any));
    assert_eq!(value(r#"{"Greater_Than": 3}"#), Ok(Match::GreaterThan(3)));
    assert_eq!(
        value(r#"{"AND": [{"NOT": 1}, {"Or": [2]}]}"#),
        Ok(Match::And(vec![Match::Not(Box::new(Match::EqualTo(1))), Match::Or(vec![Match::EqualTo(2)])]))
    );
}

#[test]
fn a_malformed_value_is_refused_whole() {
    assert_eq!(value(r#"{"in_range": [0]}"#), Err(DecodeError::WrongArity));
    assert_eq!(value(r#"{"in_range": [0, 1, 2]}"#), Err(DecodeError::WrongArity));
    assert_eq!(value(r#"{"in_range": 3}"#), Err(DecodeError::MalformedTag));
    assert_eq!(value(r#"{"and": 3}"#), Err(DecodeError::MalformedTag));
    assert_eq!(value(r#"{"or": {"not": 3}}"#), Err(DecodeError::MalformedTag));
    assert_eq!(value(r#""three""#), Err(DecodeError::LeafMismatch));
    assert_eq!(value(r#"{"greater_than": "three"}"#), Err(DecodeError::LeafMismatch));
    assert_eq!(value(r#"{"unknown": 3}"#), Err(DecodeError::LeafMismatch));
    assert_eq!(value(r#"[1, 2]"#), Err(DecodeError::LeafMismatch));
    assert_eq!(value(r#"{"and": [1, {"in_range": [0]}, "x"]}"#), Err(DecodeError::WrongArity));
    assert_eq!(value(r#"{"and": [1, "x", {"in_range": [0]}]}"#), Err(DecodeError::LeafMismatch));
}

#[test]
fn nesting_beyond_the_ceiling_is_refused() {
    let mut deep = Match::EqualTo(1);
    for _ in 0..DEPTH_CEILING {
        deep = !deep;
    }
    let wire = deep.encode();
    assert_eq!(decode::<Match<i64>>(&wire), Err(DecodeError::TooDeep));
    assert_eq!(Match::<i64>::decode_within(&wire, DEPTH_CEILING + 1), Ok(deep));

    let mut fits = Match::EqualTo(1);
    for _ in 0..DEPTH_CEILING - 1 {
        fits = !fits;
    }
    assert_eq!(decode::<Match<i64>>(&fits.encode()), Ok(fits));
    assert_eq!(Match::<i64>::decode_within(&json("3"), 0), Err(DecodeError::TooDeep));
    assert_eq!(Match::<i64>::decode_within(&json("3"), 1), Ok(Match::EqualTo(3)));
}

#[test]
fn text_conditions_have_their_own_tags() {
    let cond = MatchStr::Or(vec![
        MatchStr::Contains("f".to_owned()),
        MatchStr::Not(Box::new(MatchStr::Regex("fo{2,}".to_owned()))),
        MatchStr::EqualTo("foo".to_owned()),
        MatchStr::Any,
    ]);
    let wire = cond.encode();
    assert_eq!(
        wire,
        json(r#"{"or": [{"contains": "f"}, {"not": {"regex": "fo{2,}"}}, {"equal_to": "foo"}, "any"]}"#)
    );
    assert_eq!(decode::<MatchStr<String>>(&wire), Ok(cond));
    assert_eq!(decode::<MatchStr<String>>(&json("3")), Err(DecodeError::LeafMismatch));
    assert_eq!(
        decode::<MatchStr<String>>(&json(r#"{"greater_than": "a"}"#)),
        Err(DecodeError::LeafMismatch)
    );
}

#[test]
fn set_conditions_hold_inner_conditions() {
    let cond = MatchSet::And(vec![
        MatchSet::Contains(MatchStr::Regex("^[ABC]".to_owned())),
        MatchSet::Not(Box::new(MatchSet::Contains(MatchStr::Not(Box::new(MatchStr::Any))))),
        MatchSet::Any,
    ]);
    let wire = cond.encode();
    assert_eq!(
        wire,
        json(r#"{"and": [{"contains": {"regex": "^[ABC]"}}, {"not": {"contains": {"not": "any"}}}, "any"]}"#)
    );
    assert_eq!(decode::<MatchSet<MatchStr<String>>>(&wire), Ok(cond));
    assert_eq!(
        decode::<MatchSet<MatchStr<String>>>(&json(r#""foo""#)),
        Ok(MatchSet::Contains(MatchStr::EqualTo("foo".to_owned())))
    );
    assert_eq!(
        decode::<MatchSet<Match<i64>>>(&json(r#"{"less_than": 3}"#)),
        Ok(MatchSet::Contains(Match::LessThan(3)))
    );
}

#[test]
fn an_optional_condition_with_three_states() {
    let cond = MatchOption::Present(MatchStr::Contains("needle".to_owned()));
    let wire = cond.encode_three_state().unwrap();
    assert_eq!(wire, json(r#"{"matching": {"contains": "needle"}}"#));
    assert_eq!(MatchOption::<MatchStr<String>>::decode_three_state(&wire), Ok(cond));
    assert_eq!(
        MatchOption::<Match<i64>>::Any.encode_three_state(),
        Some(json(r#""any""#))
    );
    assert_eq!(
        MatchOption::<Match<i64>>::Absent.encode_three_state(),
        Some(json(r#""none""#))
    );
    assert_eq!(MatchOption::NoneOr(Match::EqualTo(3)).encode_three_state(), None);
    assert_eq!(
        MatchOption::<Match<i64>>::decode_three_state(&json(r#""none""#)),
        Ok(MatchOption::Absent)
    );
    assert_eq!(
        MatchOption::<Match<i64>>::decode_three_state(&json(r#"{"some": 3}"#)),
        Err(DecodeError::MalformedTag)
    );
    assert_eq!(
        MatchOption::<Match<i64>>::decode_three_state(&json(r#"{"none_or": 3}"#)),
        Err(DecodeError::MalformedTag)
    );
    assert_eq!(
        MatchOption::<Match<i64>>::decode_three_state(&json(r#"{"matching": "x"}"#)),
        Err(DecodeError::LeafMismatch)
    );
}

#[test]
fn an_optional_condition_with_four_states() {
    type M = MatchOption<Match<i64>>;
    assert_eq!(M::Any.encode(), json(r#""any""#));
    assert_eq!(M::Absent.encode(), json(r#""none""#));
    assert_eq!(M::NoneOr(Match::EqualTo(3)).encode(), json(r#"{"none_or": {"equal_to": 3}}"#));
    assert_eq!(M::Present(Match::EqualTo(3)).encode(), json(r#"{"some": {"equal_to": 3}}"#));
    assert_eq!(decode::<M>(&json(r#""any""#)), Ok(M::Any));
    assert_eq!(decode::<M>(&json(r#""none""#)), Ok(M::Absent));
    assert_eq!(decode::<M>(&json(r#"{"none_or": 3}"#)), Ok(M::NoneOr(Match::EqualTo(3))));
    assert_eq!(decode::<M>(&json(r#"{"some": 3}"#)), Ok(M::Present(Match::EqualTo(3))));
    assert_eq!(decode::<M>(&json(r#"{"matching": 3}"#)), Err(DecodeError::MalformedTag));
    assert_eq!(decode::<M>(&json("3")), Err(DecodeError::MalformedTag));
    assert_eq!(decode::<M>(&json(r#""absent""#)), Err(DecodeError::MalformedTag));
    assert_eq!(decode::<M>(&json(r#"{"some": "x"}"#)), Err(DecodeError::LeafMismatch));
}

#[test]
fn what_is_written_is_read_back() {
    let conditions = vec![
        Match::Any,
        Match::EqualTo(-7),
        Match::GreaterThan(i64::MAX),
        Match::LessThan(i64::MIN),
        Match::InRange(-1, 1),
        Match::Not(Box::new(Match::Any)),
        Match::Not(Box::new(Match::Not(Box::new(Match::EqualTo(0))))),
        Match::And(vec![]),
        Match::Or(vec![]),
        Match::And(vec![Match::Or(vec![Match::And(vec![Match::EqualTo(1)])]), Match::Any]),
        Match::EqualTo(1) ^ Match::EqualTo(2),
    ];
    for cond in conditions {
        assert_eq!(decode::<Match<i64>>(&cond.encode()), Ok(cond.clone()));
        let present = MatchOption::Present(cond.clone());
        assert_eq!(decode::<MatchOption<Match<i64>>>(&present.encode()), Ok(present));
        let member = MatchSet::Not(Box::new(MatchSet::Contains(cond)));
        assert_eq!(decode::<MatchSet<Match<i64>>>(&member.encode()), Ok(member));
    }
}

#[test]
fn leaves_are_written_as_themselves() {
    assert_eq!(7i64.encode(), Wire::Int(7));
    assert_eq!("seven".to_owned().encode(), Wire::Text("seven".to_owned()));
    assert_eq!(decode::<i64>(&Wire::Int(7)), Ok(7));
    assert_eq!(decode::<String>(&Wire::Text("seven".to_owned())), Ok("seven".to_owned()));
    assert_eq!(decode::<i64>(&Wire::Text("seven".to_owned())), Err(DecodeError::LeafMismatch));
    assert_eq!(decode::<String>(&Wire::Int(7)), Err(DecodeError::LeafMismatch));
}

#[test]
fn a_word_is_compared_without_regard_to_case() {
    assert!(reads_as("any", "any"));
    assert!(reads_as("AnY", "any"));
    assert!(reads_as("IN_RANGE", "in_range"));
    assert!(!reads_as("any ", "any"));
    assert!(!reads_as("an", "any"));
    assert!(!reads_as("", "any"));
    assert!(reads_as("", ""));
    assert!(!reads_as("any", "ANY"));
    assert_eq!(fold('A'), 'a');
    assert_eq!(fold('Z'), 'z');
    assert_eq!(fold('a'), 'a');
    assert_eq!(fold('_'), '_');
    assert_eq!(fold('É'), 'É');
}

#[test]
fn a_wire_value_is_cloned_whole() {
    let wire = json(r#"{"and": [{"in_range": [0, 3]}, "any", {"not": {"equal_to": "x"}}]}"#);
    assert_eq!(wire.clone(), wire);
}
