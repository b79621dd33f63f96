//! Writing conditions as wire values and reading them back.
//!
//! A condition is written with an explicit tag for each of its parts. It is
//! read tag first: only a value that no known word or tag describes is taken
//! for a bare leaf. Words and tags are read without regard to the case of
//! their letters.

use vstd::prelude::*;
use crate::formula::Formula;
use crate::wire::{is_word, lemma_lower_is_word, DecodeError, Wire, WireForm};

verus! {

/// How many levels of conditions `decode` reads before it gives up.
pub const DEPTH_CEILING: usize = 128;

/// A type that has a wire form.
pub trait Wired: Sized {
    /// The mathematical value that a value of the type stands for.
    type Model;

    /// The value that `self` stands for.
    spec fn deep(&self) -> Self::Model;

    /// The wire form of a value.
    spec fn encoding(value: Self::Model) -> WireForm;

    /// The value that a wire form is read as with `depth` levels of
    /// conditions allowed, or the reason why it is not read.
    spec fn decoding(wire: WireForm, depth: nat) -> Result<Self::Model, DecodeError>;

    /// Whether a value has no more than `depth` levels of conditions.
    spec fn within(value: Self::Model, depth: nat) -> bool;

    /// What was written is read back as it was, where the levels allowed
    /// are enough for it.
    proof fn law_round_trip(value: Self::Model, depth: nat)
        requires
            Self::within(value, depth),
        ensures
            Self::decoding(Self::encoding(value), depth) == Ok::<Self::Model, DecodeError>(value),
    ;

    /// A value that is within some depth is within every greater one.
    proof fn law_within_grows(value: Self::Model, depth: nat, more: nat)
        requires
            Self::within(value, depth),
            depth <= more,
        ensures
            Self::within(value, more),
    ;

    /// Every value is within some depth: there is no value that cannot be
    /// read back.
    proof fn law_within_some_depth(value: Self::Model)
        ensures
            exists|depth: nat| Self::within(value, depth),
    ;

    /// Writes the value in its wire form.
    fn encode(&self) -> (wire: Wire)
        ensures
            wire@ == Self::encoding(self.deep()),
    ;

    /// Reads a wire form with `depth` levels of conditions allowed.
    fn decode_within(wire: &Wire, depth: usize) -> (read: Result<Self, DecodeError>)
        ensures
            match read {
                Ok(value) => Self::decoding(wire@, depth as nat) == Ok::<Self::Model, DecodeError>(
                    value.deep(),
                ),
                Err(error) => Self::decoding(wire@, depth as nat) == Err::<Self::Model, DecodeError>(
                    error,
                ),
            },
    ;
}

/// Reads a wire form, with `DEPTH_CEILING` levels of conditions allowed.
pub fn decode<T: Wired>(wire: &Wire) -> (read: Result<T, DecodeError>)
    ensures
        match read {
            Ok(value) => T::decoding(wire@, DEPTH_CEILING as nat) == Ok::<T::Model, DecodeError>(
                value.deep(),
            ),
            Err(error) => T::decoding(wire@, DEPTH_CEILING as nat) == Err::<T::Model, DecodeError>(
                error,
            ),
        },
{
    T::decode_within(wire, DEPTH_CEILING)
}

/// The value that a value of `T` stands for, as a function.
pub open spec fn deep_of<T: Wired>() -> spec_fn(T) -> T::Model {
    |value: T| value.deep()
}

/// The wire form of a value of `T`, as a function.
pub open spec fn writer<T: Wired>() -> spec_fn(T::Model) -> WireForm {
    |value: T::Model| T::encoding(value)
}

/// What a wire form is read as by `T`, as a function.
pub open spec fn reader<T: Wired>() -> spec_fn(WireForm, nat) -> Result<T::Model, DecodeError> {
    |wire: WireForm, depth: nat| T::decoding(wire, depth)
}

/// Whether a value of `T` is within a depth, as a function.
pub open spec fn fitter<T: Wired>() -> spec_fn(T::Model, nat) -> bool {
    |value: T::Model, depth: nat| T::within(value, depth)
}

/// The word for the condition that always matches.
pub open spec fn word_any() -> Seq<char> {
    "any"@
}

/// The tag of a negation.
pub open spec fn tag_not() -> Seq<char> {
    "not"@
}

/// The tag of a conjunction.
pub open spec fn tag_and() -> Seq<char> {
    "and"@
}

/// The tag of a disjunction.
pub open spec fn tag_or() -> Seq<char> {
    "or"@
}

/// Whether a wire form is one that a combinator is written as: the word
/// `any`, or a value tagged `not`, `and` or `or`.
pub open spec fn is_combinator_form(wire: WireForm) -> bool {
    match wire {
        WireForm::Text(text) => is_word(text, word_any()),
        WireForm::Tagged(tag, _) => is_word(tag, tag_not()) || is_word(tag, tag_and()) || is_word(
            tag,
            tag_or(),
        ),
        _ => false,
    }
}

/// The wire form of a formula, where `leaf` writes a leaf: `"any"`,
/// `{"not": c}`, `{"and": [c, ..]}`, `{"or": [c, ..]}`.
pub open spec fn formula_wire<L>(x: Formula<L>, leaf: spec_fn(L) -> WireForm) -> WireForm
    decreases x,
{
    match x {
        Formula::Any => WireForm::Text(word_any()),
        Formula::Leaf(test) => leaf(test),
        Formula::Not(inner) => WireForm::Tagged(tag_not(), Box::new(formula_wire(*inner, leaf))),
        Formula::And(list) => WireForm::Tagged(
            tag_and(),
            Box::new(WireForm::List(formula_wires(list, leaf))),
        ),
        Formula::Or(list) => WireForm::Tagged(
            tag_or(),
            Box::new(WireForm::List(formula_wires(list, leaf))),
        ),
    }
}

/// The wire forms of a list of formulas, in order.
pub open spec fn formula_wires<L>(list: Seq<Formula<L>>, leaf: spec_fn(L) -> WireForm) -> Seq<
    WireForm,
>
    decreases list,
{
    Seq::new(
        list.len(),
        |i: int| if 0 <= i < list.len() { formula_wire(list[i], leaf) } else { WireForm::Int(0) },
    )
}

/// The formula that a wire form is read as with `depth` levels allowed,
/// where `leaf` reads what is no combinator. A known tag decides: what it
/// holds is read as the tag asks, or the reading fails.
pub open spec fn formula_read<L>(
    wire: WireForm,
    depth: nat,
    leaf: spec_fn(WireForm, nat) -> Result<L, DecodeError>,
) -> Result<Formula<L>, DecodeError>
    decreases wire,
{
    if depth == 0 {
        Err(DecodeError::TooDeep)
    } else if !is_combinator_form(wire) {
        match leaf(wire, depth) {
            Ok(test) => Ok(Formula::Leaf(test)),
            Err(error) => Err(error),
        }
    } else {
        match wire {
            WireForm::Tagged(tag, payload) => {
                if is_word(tag, tag_not()) {
                    match formula_read(*payload, (depth - 1) as nat, leaf) {
                        Ok(inner) => Ok(Formula::Not(Box::new(inner))),
                        Err(error) => Err(error),
                    }
                } else {
                    match *payload {
                        WireForm::List(items) => match formula_reads(
                            items,
                            (depth - 1) as nat,
                            leaf,
                        ) {
                            Ok(list) => if is_word(tag, tag_and()) {
                                Ok(Formula::And(list))
                            } else {
                                Ok(Formula::Or(list))
                            },
                            Err(error) => Err(error),
                        },
                        _ => Err(DecodeError::MalformedTag),
                    }
                }
            },
            _ => Ok(Formula::Any),
        }
    }
}

/// The formulas that the members of a list are read as, in order; where one
/// is not read, the reason for the first such.
pub open spec fn formula_reads<L>(
    items: Seq<WireForm>,
    depth: nat,
    leaf: spec_fn(WireForm, nat) -> Result<L, DecodeError>,
) -> Result<Seq<Formula<L>>, DecodeError>
    decreases items,
{
    if items.len() == 0 {
        Ok(Seq::empty())
    } else {
        match formula_reads(items.drop_last(), depth, leaf) {
            Ok(list) => match formula_read(items.last(), depth, leaf) {
                Ok(last) => Ok(list.push(last)),
                Err(error) => Err(error),
            },
            Err(error) => Err(error),
        }
    }
}

/// Whether a formula has no more than `depth` levels, where `leaf` says
/// whether a leaf at a level fits.
pub open spec fn formula_within<L>(x: Formula<L>, depth: nat, leaf: spec_fn(L, nat) -> bool) -> bool
    decreases x,
{
    depth > 0 && match x {
        Formula::Any => true,
        Formula::Leaf(test) => leaf(test, depth),
        Formula::Not(inner) => formula_within(*inner, (depth - 1) as nat, leaf),
        Formula::And(list) => forall|i: int|
            0 <= i < list.len() ==> formula_within(#[trigger] list[i], (depth - 1) as nat, leaf),
        Formula::Or(list) => forall|i: int|
            0 <= i < list.len() ==> formula_within(#[trigger] list[i], (depth - 1) as nat, leaf),
    }
}

/// The words of the combinators are in lower case, and no two are the same.
proof fn lemma_combinator_words()
    ensures
        is_word(word_any(), word_any()),
        is_word(tag_not(), tag_not()),
        is_word(tag_and(), tag_and()),
        is_word(tag_or(), tag_or()),
        tag_not() != tag_and(),
        tag_not() != tag_or(),
        tag_and() != tag_or(),
{
    reveal_strlit("any");
    reveal_strlit("not");
    reveal_strlit("and");
    reveal_strlit("or");
    lemma_lower_is_word(word_any());
    lemma_lower_is_word(tag_not());
    lemma_lower_is_word(tag_and());
    lemma_lower_is_word(tag_or());
    assert(tag_not()[0] != tag_and()[0]);
    assert(tag_not().len() != tag_or().len());
    assert(tag_and().len() != tag_or().len());
}

/// A formula that was written is read back as it was, where its leaves are,
/// no leaf is written as a combinator is, and the levels allowed are enough.
pub proof fn law_formula_round_trip<L>(
    x: Formula<L>,
    depth: nat,
    write: spec_fn(L) -> WireForm,
    read: spec_fn(WireForm, nat) -> Result<L, DecodeError>,
    fits: spec_fn(L, nat) -> bool,
)
    requires
        formula_within(x, depth, fits),
        forall|test: L| !is_combinator_form(#[trigger] write(test)),
        forall|test: L, d: nat| d > 0 && #[trigger] fits(test, d) ==> read(write(test), d) == Ok::<L, DecodeError>(test),
    ensures
        formula_read(formula_wire(x, write), depth, read) == Ok::<Formula<L>, DecodeError>(x),
    decreases x,
{
    lemma_combinator_words();
    match x {
        Formula::Any => {},
        Formula::Leaf(test) => {},
        Formula::Not(inner) => {
            law_formula_round_trip(*inner, (depth - 1) as nat, write, read, fits);
        },
        Formula::And(list) => {
            lemma_list_round_trip(list, list.len() as int, (depth - 1) as nat, write, read, fits);
            assert(list.take(list.len() as int) =~= list);
            assert(formula_wires(list, write).take(list.len() as int) =~= formula_wires(list, write));
        },
        Formula::Or(list) => {
            lemma_list_round_trip(list, list.len() as int, (depth - 1) as nat, write, read, fits);
            assert(list.take(list.len() as int) =~= list);
            assert(formula_wires(list, write).take(list.len() as int) =~= formula_wires(list, write));
        },
    }
}

proof fn lemma_list_round_trip<L>(
    list: Seq<Formula<L>>,
    n: int,
    depth: nat,
    write: spec_fn(L) -> WireForm,
    read: spec_fn(WireForm, nat) -> Result<L, DecodeError>,
    fits: spec_fn(L, nat) -> bool,
)
    requires
        0 <= n <= list.len(),
        forall|i: int| 0 <= i < list.len() ==> formula_within(#[trigger] list[i], depth, fits),
        forall|test: L| !is_combinator_form(#[trigger] write(test)),
        forall|test: L, d: nat| d > 0 && #[trigger] fits(test, d) ==> read(write(test), d) == Ok::<L, DecodeError>(test),
    ensures
        formula_reads(formula_wires(list, write).take(n), depth, read) == Ok::<
            Seq<Formula<L>>,
            DecodeError,
        >(list.take(n)),
    decreases list, n,
{
    let wires = formula_wires(list, write);
    if n == 0 {
        assert(list.take(0) =~= Seq::empty());
    } else {
        lemma_list_round_trip(list, n - 1, depth, write, read, fits);
        law_formula_round_trip(list[n - 1], depth, write, read, fits);
        assert(wires.take(n).drop_last() =~= wires.take(n - 1));
        assert(wires.take(n).last() == formula_wire(list[n - 1], write));
        assert(list.take(n - 1).push(list[n - 1]) =~= list.take(n));
    }
}

/// A formula within some depth is within every greater one, where that
/// holds of its leaves.
pub proof fn law_formula_within_grows<L>(
    x: Formula<L>,
    depth: nat,
    more: nat,
    fits: spec_fn(L, nat) -> bool,
)
    requires
        formula_within(x, depth, fits),
        depth <= more,
        forall|test: L, d: nat, e: nat| #[trigger] fits(test, d) && d <= e ==> #[trigger] fits(test, e),
    ensures
        formula_within(x, more, fits),
    decreases x,
{
    match x {
        Formula::Any => {},
        Formula::Leaf(test) => {},
        Formula::Not(inner) => {
            law_formula_within_grows(*inner, (depth - 1) as nat, (more - 1) as nat, fits);
        },
        Formula::And(list) => {
            assert forall|i: int| 0 <= i < list.len() implies formula_within(
                #[trigger] list[i],
                (more - 1) as nat,
                fits,
            ) by {
                law_formula_within_grows(list[i], (depth - 1) as nat, (more - 1) as nat, fits);
            }
        },
        Formula::Or(list) => {
            assert forall|i: int| 0 <= i < list.len() implies formula_within(
                #[trigger] list[i],
                (more - 1) as nat,
                fits,
            ) by {
                law_formula_within_grows(list[i], (depth - 1) as nat, (more - 1) as nat, fits);
            }
        },
    }
}


/// Whether a leaf fits at some depth.
pub open spec fn fits_somewhere<L>(test: L, fits: spec_fn(L, nat) -> bool) -> bool {
    exists|d: nat| #[trigger] fits(test, d)
}

/// Every formula is within some depth, where every leaf is within some
/// depth and within every greater one.
pub proof fn law_formula_within_some_depth<L>(x: Formula<L>, fits: spec_fn(L, nat) -> bool)
    requires
        forall|test: L| #[trigger] fits_somewhere(test, fits),
        forall|test: L, d: nat, e: nat| #[trigger] fits(test, d) && d <= e ==> #[trigger] fits(test, e),
    ensures
        exists|depth: nat| formula_within(x, depth, fits),
    decreases x,
{
    match x {
        Formula::Any => {
            assert(formula_within(x, 1, fits));
        },
        Formula::Leaf(test) => {
            assert(fits_somewhere(test, fits));
            let d = choose|d: nat| #[trigger] fits(test, d);
            assert(fits(test, d + 1));
            assert(formula_within(x, d + 1, fits));
        },
        Formula::Not(inner) => {
            law_formula_within_some_depth(*inner, fits);
            let d = choose|d: nat| formula_within(*inner, d, fits);
            assert(formula_within(x, d + 1, fits));
        },
        Formula::And(list) => {
            let d = lemma_list_within_some_depth(list, list.len() as int, fits);
            assert(formula_within(x, d + 1, fits));
        },
        Formula::Or(list) => {
            let d = lemma_list_within_some_depth(list, list.len() as int, fits);
            assert(formula_within(x, d + 1, fits));
        },
    }
}

proof fn lemma_list_within_some_depth<L>(list: Seq<Formula<L>>, n: int, fits: spec_fn(L, nat) -> bool) -> (depth: nat)
    requires
        0 <= n <= list.len(),
        forall|test: L| #[trigger] fits_somewhere(test, fits),
        forall|test: L, d: nat, e: nat| #[trigger] fits(test, d) && d <= e ==> #[trigger] fits(test, e),
    ensures
        forall|i: int| 0 <= i < n ==> formula_within(#[trigger] list[i], depth, fits),
    decreases list, n,
{
    if n == 0 {
        0
    } else {
        let before = lemma_list_within_some_depth(list, n - 1, fits);
        let member = list[n - 1];
        law_formula_within_some_depth(member, fits);
        let last = choose|d: nat| formula_within(member, d, fits);
        let depth = if before <= last {
            last
        } else {
            before
        };
        assert forall|i: int| 0 <= i < n implies formula_within(#[trigger] list[i], depth, fits) by {
            if i < n - 1 {
                law_formula_within_grows(list[i], before, depth, fits);
            } else {
                law_formula_within_grows(list[i], last, depth, fits);
            }
        }
        depth
    }
}

impl Wired for i64 {
    type Model = i64;

    open spec fn deep(&self) -> i64 {
        *self
    }

    /// An integer is written as itself.
    open spec fn encoding(value: i64) -> WireForm {
        WireForm::Int(value as int)
    }

    /// An integer of the range of `i64` is read as itself; nothing else is.
    open spec fn decoding(wire: WireForm, depth: nat) -> Result<i64, DecodeError> {
        match wire {
            WireForm::Int(n) => if i64::MIN <= n <= i64::MAX {
                Ok(n as i64)
            } else {
                Err(DecodeError::LeafMismatch)
            },
            _ => Err(DecodeError::LeafMismatch),
        }
    }

    open spec fn within(value: i64, depth: nat) -> bool {
        true
    }

    proof fn law_round_trip(value: i64, depth: nat) {
    }

    proof fn law_within_grows(value: i64, depth: nat, more: nat) {
    }

    proof fn law_within_some_depth(value: i64) {
        assert(Self::within(value, 0));
    }

    fn encode(&self) -> (wire: Wire) {
        Wire::Int(*self)
    }

    fn decode_within(wire: &Wire, depth: usize) -> (read: Result<i64, DecodeError>) {
        match wire {
            Wire::Int(n) => Ok(*n),
            _ => Err(DecodeError::LeafMismatch),
        }
    }
}

impl Wired for String {
    type Model = Seq<char>;

    open spec fn deep(&self) -> Seq<char> {
        self@
    }

    /// A text is written as itself.
    open spec fn encoding(value: Seq<char>) -> WireForm {
        WireForm::Text(value)
    }

    /// A text is read as itself; nothing else is.
    open spec fn decoding(wire: WireForm, depth: nat) -> Result<Seq<char>, DecodeError> {
        match wire {
            WireForm::Text(text) => Ok(text),
            _ => Err(DecodeError::LeafMismatch),
        }
    }

    open spec fn within(value: Seq<char>, depth: nat) -> bool {
        true
    }

    proof fn law_round_trip(value: Seq<char>, depth: nat) {
    }

    proof fn law_within_grows(value: Seq<char>, depth: nat, more: nat) {
    }

    proof fn law_within_some_depth(value: Seq<char>) {
        assert(Self::within(value, 0));
    }

    fn encode(&self) -> (wire: Wire) {
        Wire::Text(self.clone())
    }

    fn decode_within(wire: &Wire, depth: usize) -> (read: Result<String, DecodeError>) {
        match wire {
            Wire::Text(text) => Ok(text.clone()),
            _ => Err(DecodeError::LeafMismatch),
        }
    }
}

} // verus!
