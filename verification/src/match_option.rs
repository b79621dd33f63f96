//! Conditions on a value that may be absent.

use vstd::prelude::*;
use crate::codec::{deep_of, reader, word_any, Wired, DEPTH_CEILING};
use crate::wire::{is_word, lemma_lower_is_word, reads_as, DecodeError, Wire, WireForm};

verus! {

/// The condition that an optional value must meet, where `T` is the type of
/// condition on a value that is present.
#[derive(Debug, PartialEq, Eq, PartialOrd, Ord, Hash)]
pub enum MatchOption<T> {
    /// Matches whether the value is present or not.
    Any,
    /// Matches if the value is absent.
    Absent,
    /// Matches if the value is absent, or present and meets the condition.
    NoneOr(T),
    /// Matches if the value is present and meets the condition.
    Present(T),
}

impl<T> MatchOption<T> {
    /// Whether `value` meets the condition, where `test` decides whether a
    /// value that is present meets the inner condition.
    pub open spec fn holds<V>(self, value: Option<V>, test: spec_fn(T, V) -> bool) -> bool {
        match self {
            MatchOption::Any => true,
            MatchOption::Absent => value is None,
            MatchOption::NoneOr(inner) => match value {
                Option::None => true,
                Option::Some(present) => test(inner, present),
            },
            MatchOption::Present(inner) => match value {
                Option::None => false,
                Option::Some(present) => test(inner, present),
            },
        }
    }

    /// The inner condition satisfies `p`, where there is one.
    pub open spec fn inner_is(self, p: spec_fn(T) -> bool) -> bool {
        match self {
            MatchOption::Any | MatchOption::Absent => true,
            MatchOption::NoneOr(inner) | MatchOption::Present(inner) => p(inner),
        }
    }

    /// `other` is the same variant, and its inner condition is related by
    /// `rel` to the inner condition of `self`.
    pub open spec fn related<U>(self, other: MatchOption<U>, rel: spec_fn(T, U) -> bool) -> bool {
        match self {
            MatchOption::Any => other is Any,
            MatchOption::Absent => other is Absent,
            MatchOption::NoneOr(inner) => other matches MatchOption::NoneOr(image) && rel(
                inner,
                image,
            ),
            MatchOption::Present(inner) => other matches MatchOption::Present(image) && rel(inner, image),
        }
    }

    /// The same variant with `g` applied to the inner condition.
    pub open spec fn map_inner<U>(self, g: spec_fn(T) -> U) -> MatchOption<U> {
        match self {
            MatchOption::Any => MatchOption::Any,
            MatchOption::Absent => MatchOption::Absent,
            MatchOption::NoneOr(inner) => MatchOption::NoneOr(g(inner)),
            MatchOption::Present(inner) => MatchOption::Present(g(inner)),
        }
    }

    /// Applies `f` to the inner condition, if there is one, and keeps the
    /// variant.
    pub fn map<F, U>(self, f: F) -> (mapped: MatchOption<U>) where F: FnOnce(T) -> U
        requires
            self.inner_is(|inner: T| call_requires(f, (inner,))),
        ensures
            self.related(mapped, |inner: T, image: U| call_ensures(f, (inner,), image)),
    {
        match self {
            MatchOption::Any => MatchOption::Any,
            MatchOption::Absent => MatchOption::Absent,
            MatchOption::NoneOr(inner) => MatchOption::NoneOr(f(inner)),
            MatchOption::Present(inner) => MatchOption::Present(f(inner)),
        }
    }

    /// As `map`, on a borrowed condition and with a function of a borrowed
    /// inner condition.
    pub fn map_ref<F, U>(&self, f: F) -> (mapped: MatchOption<U>) where F: FnOnce(&T) -> U
        requires
            self.inner_is(|inner: T| call_requires(f, (&inner,))),
        ensures
            self.related(mapped, |inner: T, image: U| call_ensures(f, (&inner,), image)),
    {
        match self {
            MatchOption::Any => MatchOption::Any,
            MatchOption::Absent => MatchOption::Absent,
            MatchOption::NoneOr(inner) => MatchOption::NoneOr(f(inner)),
            MatchOption::Present(inner) => MatchOption::Present(f(inner)),
        }
    }
}

/// Mapping keeps the variant and maps what it holds; with a function that
/// returns its argument it changes nothing.
pub proof fn law_option_map<T, U>(inner: T, g: spec_fn(T) -> U, same: spec_fn(T) -> T)
    requires
        forall|x: T| #[trigger] same(x) == x,
    ensures
        MatchOption::<T>::Any.map_inner(g) == MatchOption::<U>::Any,
        MatchOption::<T>::Absent.map_inner(g) == MatchOption::<U>::Absent,
        MatchOption::NoneOr(inner).map_inner(g) == MatchOption::NoneOr(g(inner)),
        MatchOption::Present(inner).map_inner(g) == MatchOption::Present(g(inner)),
        forall|c: MatchOption<T>| #[trigger] c.map_inner(same) == c,
{
}

/// Where `rel` allows one image only, the one that `g` gives, a related
/// condition is the mapped one.
pub proof fn law_option_related_is_mapped<T, U>(
    x: MatchOption<T>,
    y: MatchOption<U>,
    rel: spec_fn(T, U) -> bool,
    g: spec_fn(T) -> U,
)
    requires
        x.related(y, rel),
        forall|inner: T, image: U| #[trigger] rel(inner, image) ==> image == g(inner),
    ensures
        y == x.map_inner(g),
{
}

impl<T: Clone> Clone for MatchOption<T> {
    /// The same variant with a clone of the inner condition.
    fn clone(&self) -> (copy: MatchOption<T>)
        ensures
            self.related(copy, |inner: T, image: T| cloned(inner, image)),
    {
        match self {
            MatchOption::Any => MatchOption::Any,
            MatchOption::Absent => MatchOption::Absent,
            MatchOption::NoneOr(inner) => MatchOption::NoneOr(inner.clone()),
            MatchOption::Present(inner) => MatchOption::Present(inner.clone()),
        }
    }
}

impl<T> Default for MatchOption<T> {
    /// The condition that always matches.
    fn default() -> (condition: MatchOption<T>)
        ensures
            condition == MatchOption::<T>::Any,
    {
        MatchOption::Any
    }
}

impl<T> From<Option<T>> for MatchOption<T> {
    /// An absent value gives `Absent`, a present one `Present`; never `NoneOr`.
    fn from(value: Option<T>) -> (condition: MatchOption<T>) {
        match value {
            Option::None => MatchOption::Absent,
            Option::Some(inner) => MatchOption::Present(inner),
        }
    }
}

impl<T> vstd::std_specs::convert::FromSpecImpl<Option<T>> for MatchOption<T> {
    open spec fn obeys_from_spec() -> bool {
        true
    }

    open spec fn from_spec(value: Option<T>) -> MatchOption<T> {
        match value {
            Option::None => MatchOption::Absent,
            Option::Some(inner) => MatchOption::Present(inner),
        }
    }
}


/// The words and tags of an optional condition are in lower case, and no two
/// that one reading compares are the same.
proof fn lemma_option_words()
    ensures
        is_word(word_any(), word_any()),
        is_word("none"@, "none"@),
        is_word("some"@, "some"@),
        is_word("none_or"@, "none_or"@),
        is_word("matching"@, "matching"@),
        word_any() != "none"@,
        "some"@ != "none_or"@,
{
    reveal_strlit("any");
    reveal_strlit("none");
    reveal_strlit("some");
    reveal_strlit("none_or");
    reveal_strlit("matching");
    lemma_lower_is_word(word_any());
    lemma_lower_is_word("none"@);
    lemma_lower_is_word("some"@);
    lemma_lower_is_word("none_or"@);
    lemma_lower_is_word("matching"@);
    assert(word_any().len() != "none"@.len());
    assert("some"@.len() != "none_or"@.len());
}

/// The wire form with four states: `"any"`, `"none"`, `{"some": c}` and
/// `{"none_or": c}`. There is no bare form of an inner condition.
impl<T: Wired> Wired for MatchOption<T> {
    type Model = MatchOption<T::Model>;

    open spec fn deep(&self) -> MatchOption<T::Model> {
        self.map_inner(deep_of::<T>())
    }

    open spec fn encoding(value: MatchOption<T::Model>) -> WireForm {
        match value {
            MatchOption::Any => WireForm::Text(word_any()),
            MatchOption::Absent => WireForm::Text("none"@),
            MatchOption::NoneOr(inner) => WireForm::Tagged(
                "none_or"@,
                Box::new(T::encoding(inner)),
            ),
            MatchOption::Present(inner) => WireForm::Tagged("some"@, Box::new(T::encoding(inner))),
        }
    }

    open spec fn decoding(wire: WireForm, depth: nat) -> Result<MatchOption<T::Model>, DecodeError> {
        if depth == 0 {
            Err(DecodeError::TooDeep)
        } else {
            match wire {
                WireForm::Text(text) => if is_word(text, word_any()) {
                    Ok(MatchOption::Any)
                } else if is_word(text, "none"@) {
                    Ok(MatchOption::Absent)
                } else {
                    Err(DecodeError::MalformedTag)
                },
                WireForm::Tagged(tag, payload) => if is_word(tag, "some"@) {
                    match T::decoding(*payload, (depth - 1) as nat) {
                        Ok(inner) => Ok(MatchOption::Present(inner)),
                        Err(error) => Err(error),
                    }
                } else if is_word(tag, "none_or"@) {
                    match T::decoding(*payload, (depth - 1) as nat) {
                        Ok(inner) => Ok(MatchOption::NoneOr(inner)),
                        Err(error) => Err(error),
                    }
                } else {
                    Err(DecodeError::MalformedTag)
                },
                _ => Err(DecodeError::MalformedTag),
            }
        }
    }

    open spec fn within(value: MatchOption<T::Model>, depth: nat) -> bool {
        depth > 0 && value.inner_is(|inner: T::Model| T::within(inner, (depth - 1) as nat))
    }

    proof fn law_round_trip(value: MatchOption<T::Model>, depth: nat) {
        lemma_option_words();
        match value {
            MatchOption::NoneOr(inner) => {
                T::law_round_trip(inner, (depth - 1) as nat);
            },
            MatchOption::Present(inner) => {
                T::law_round_trip(inner, (depth - 1) as nat);
            },
            _ => {},
        }
    }

    proof fn law_within_grows(value: MatchOption<T::Model>, depth: nat, more: nat) {
        match value {
            MatchOption::NoneOr(inner) => {
                T::law_within_grows(inner, (depth - 1) as nat, (more - 1) as nat);
            },
            MatchOption::Present(inner) => {
                T::law_within_grows(inner, (depth - 1) as nat, (more - 1) as nat);
            },
            _ => {},
        }
    }

    proof fn law_within_some_depth(value: MatchOption<T::Model>) {
        match value {
            MatchOption::NoneOr(inner) => {
                T::law_within_some_depth(inner);
                let d = choose|d: nat| T::within(inner, d);
                assert(Self::within(value, d + 1));
            },
            MatchOption::Present(inner) => {
                T::law_within_some_depth(inner);
                let d = choose|d: nat| T::within(inner, d);
                assert(Self::within(value, d + 1));
            },
            _ => {
                assert(Self::within(value, 1));
            },
        }
    }

    fn encode(&self) -> (wire: Wire) {
        match self {
            MatchOption::Any => Wire::Text("any".to_owned()),
            MatchOption::Absent => Wire::Text("none".to_owned()),
            MatchOption::NoneOr(inner) => Wire::Tagged(
                "none_or".to_owned(),
                Box::new(inner.encode()),
            ),
            MatchOption::Present(inner) => Wire::Tagged("some".to_owned(), Box::new(inner.encode())),
        }
    }

    fn decode_within(wire: &Wire, depth: usize) -> (read: Result<Self, DecodeError>) {
        if depth == 0 {
            return Err(DecodeError::TooDeep);
        }
        match wire {
            Wire::Text(text) => {
                if reads_as(text.as_str(), "any") {
                    Ok(MatchOption::Any)
                } else if reads_as(text.as_str(), "none") {
                    Ok(MatchOption::Absent)
                } else {
                    Err(DecodeError::MalformedTag)
                }
            },
            Wire::Tagged(tag, payload) => {
                if reads_as(tag.as_str(), "some") {
                    match T::decode_within(payload, depth - 1) {
                        Ok(inner) => Ok(MatchOption::Present(inner)),
                        Err(error) => Err(error),
                    }
                } else if reads_as(tag.as_str(), "none_or") {
                    match T::decode_within(payload, depth - 1) {
                        Ok(inner) => Ok(MatchOption::NoneOr(inner)),
                        Err(error) => Err(error),
                    }
                } else {
                    Err(DecodeError::MalformedTag)
                }
            },
            _ => Err(DecodeError::MalformedTag),
        }
    }
}

/// The wire form with three states, `"any"`, `"none"` and `{"matching": c}`,
/// in which `NoneOr` cannot be written. It shares no tag of an inner
/// condition with the form of four states: what one of them writes with a
/// tag, the other does not read.
impl<T: Wired> MatchOption<T> {
    /// The form of three states of a value, if it has one.
    pub open spec fn encoding_three_state(value: MatchOption<T::Model>) -> Option<WireForm> {
        match value {
            MatchOption::Any => Some(WireForm::Text(word_any())),
            MatchOption::Absent => Some(WireForm::Text("none"@)),
            MatchOption::NoneOr(_) => None,
            MatchOption::Present(inner) => Some(
                WireForm::Tagged("matching"@, Box::new(T::encoding(inner))),
            ),
        }
    }

    /// The value that a form of three states is read as with `depth` levels
    /// allowed.
    pub open spec fn decoding_three_state(wire: WireForm, depth: nat) -> Result<
        MatchOption<T::Model>,
        DecodeError,
    > {
        if depth == 0 {
            Err(DecodeError::TooDeep)
        } else {
            match wire {
                WireForm::Text(text) => if is_word(text, word_any()) {
                    Ok(MatchOption::Any)
                } else if is_word(text, "none"@) {
                    Ok(MatchOption::Absent)
                } else {
                    Err(DecodeError::MalformedTag)
                },
                WireForm::Tagged(tag, payload) => if is_word(tag, "matching"@) {
                    match T::decoding(*payload, (depth - 1) as nat) {
                        Ok(inner) => Ok(MatchOption::Present(inner)),
                        Err(error) => Err(error),
                    }
                } else {
                    Err(DecodeError::MalformedTag)
                },
                _ => Err(DecodeError::MalformedTag),
            }
        }
    }

    /// What was written in the form of three states is read back as it was,
    /// where the levels allowed are enough for it.
    pub proof fn law_round_trip_three_state(value: MatchOption<T::Model>, depth: nat)
        requires
            Self::within(value, depth),
            !(value is NoneOr),
        ensures
            Self::encoding_three_state(value) matches Some(wire) && Self::decoding_three_state(
                wire,
                depth,
            ) == Ok::<MatchOption<T::Model>, DecodeError>(value),
    {
        lemma_option_words();
        match value {
            MatchOption::Present(inner) => {
                T::law_round_trip(inner, (depth - 1) as nat);
            },
            _ => {},
        }
    }

    /// Writes the condition in the form of three states; `NoneOr` has
    /// none.
    pub fn encode_three_state(&self) -> (wire: Option<Wire>)
        ensures
            match wire {
                Some(written) => Self::encoding_three_state(self.deep()) == Some(written@),
                None => self is NoneOr,
            },
    {
        match self {
            MatchOption::Any => Some(Wire::Text("any".to_owned())),
            MatchOption::Absent => Some(Wire::Text("none".to_owned())),
            MatchOption::NoneOr(_) => None,
            MatchOption::Present(inner) => Some(
                Wire::Tagged("matching".to_owned(), Box::new(inner.encode())),
            ),
        }
    }

    /// Reads a form of three states, with `DEPTH_CEILING` levels of
    /// conditions allowed.
    pub fn decode_three_state(wire: &Wire) -> (read: Result<Self, DecodeError>)
        ensures
            match read {
                Ok(value) => Self::decoding_three_state(wire@, DEPTH_CEILING as nat) == Ok::<
                    MatchOption<T::Model>,
                    DecodeError,
                >(value.deep()),
                Err(error) => Self::decoding_three_state(wire@, DEPTH_CEILING as nat) == Err::<
                    MatchOption<T::Model>,
                    DecodeError,
                >(error),
            },
    {
        match wire {
            Wire::Text(text) => {
                if reads_as(text.as_str(), "any") {
                    Ok(MatchOption::Any)
                } else if reads_as(text.as_str(), "none") {
                    Ok(MatchOption::Absent)
                } else {
                    Err(DecodeError::MalformedTag)
                }
            },
            Wire::Tagged(tag, payload) => {
                if reads_as(tag.as_str(), "matching") {
                    match T::decode_within(payload, DEPTH_CEILING - 1) {
                        Ok(inner) => Ok(MatchOption::Present(inner)),
                        Err(error) => Err(error),
                    }
                } else {
                    Err(DecodeError::MalformedTag)
                }
            },
            _ => Err(DecodeError::MalformedTag),
        }
    }
}

} // verus!
