//! Conditions on a text.

use vstd::prelude::*;
use crate::codec::{
    deep_of, fits_somewhere, fitter, formula_read, formula_reads, formula_wire, formula_wires,
    formula_within, is_combinator_form, law_formula_round_trip, law_formula_within_grows,
    law_formula_within_some_depth, reader, tag_and, tag_not, tag_or, writer, Wired,
};
use crate::formula::{
    law_related_is_equal, law_related_is_mapped, lemma_members_all_leaves, Formula,
};
use crate::leaf::{call_gives, call_ref_gives, clone_gives, clone_is_exact, may_call, may_call_ref};
use crate::wire::{is_word, lemma_lower_is_word, reads_as, DecodeError, Wire, WireForm};

verus! {

/// One test of a text against a leaf value of type `T`.
pub enum TextTest<T> {
    Contains(T),
    Regex(T),
    EqualTo(T),
}

impl<T> TextTest<T> {
    /// Every value of the test satisfies `p`.
    pub open spec fn all_values(self, p: spec_fn(T) -> bool) -> bool {
        match self {
            TextTest::Contains(x) => p(x),
            TextTest::Regex(x) => p(x),
            TextTest::EqualTo(x) => p(x),
        }
    }

    /// The same test with `g` applied to each value.
    pub open spec fn map_values<U>(self, g: spec_fn(T) -> U) -> TextTest<U> {
        match self {
            TextTest::Contains(x) => TextTest::Contains(g(x)),
            TextTest::Regex(x) => TextTest::Regex(g(x)),
            TextTest::EqualTo(x) => TextTest::EqualTo(g(x)),
        }
    }

    /// `other` is the same test, each value related by `rel`.
    pub open spec fn related<U>(self, other: TextTest<U>, rel: spec_fn(T, U) -> bool) -> bool {
        match self {
            TextTest::Contains(x) => other matches TextTest::Contains(y) && rel(x, y),
            TextTest::Regex(x) => other matches TextTest::Regex(y) && rel(x, y),
            TextTest::EqualTo(x) => other matches TextTest::EqualTo(y) && rel(x, y),
        }
    }

    /// `p` of every value, as a predicate on tests.
    pub open spec fn each(p: spec_fn(T) -> bool) -> spec_fn(TextTest<T>) -> bool {
        |c: TextTest<T>| c.all_values(p)
    }

    /// `rel` value by value, as a relation on tests.
    pub open spec fn pairs<U>(rel: spec_fn(T, U) -> bool) -> spec_fn(TextTest<T>, TextTest<U>)
        -> bool {
        |a: TextTest<T>, b: TextTest<U>| a.related(b, rel)
    }

    /// `g` on every value, as a function on tests.
    pub open spec fn on<U>(g: spec_fn(T) -> U) -> spec_fn(TextTest<T>) -> TextTest<U> {
        |c: TextTest<T>| c.map_values(g)
    }
}

/// Mapping reaches the value of every test, and keeps which test it is.
pub proof fn law_map_reaches_values<T, U>(value: T, g: spec_fn(T) -> U)
    ensures
        Formula::Leaf(TextTest::Contains(value)).map_leaves(TextTest::on(g))
            == Formula::Leaf(TextTest::Contains(g(value))),
        Formula::Leaf(TextTest::Regex(value)).map_leaves(TextTest::on(g))
            == Formula::Leaf(TextTest::Regex(g(value))),
        Formula::Leaf(TextTest::EqualTo(value)).map_leaves(TextTest::on(g))
            == Formula::Leaf(TextTest::EqualTo(g(value))),
{
}

/// Where `f` returns for each value what `g` gives and nothing else, what
/// `map` returns with `f` is the condition mapped by `g`.
pub proof fn law_map_follows_function<T, U, F: Fn(T) -> U>(
    x: Formula<TextTest<T>>,
    y: Formula<TextTest<U>>,
    f: F,
    g: spec_fn(T) -> U,
)
    requires
        x.related(y, TextTest::pairs(call_gives(f))),
        forall|value: T, image: U| call_ensures(f, (value,), image) ==> image == g(value),
    ensures
        y == x.map_leaves(TextTest::on(g)),
{
    law_related_is_mapped(x, y, TextTest::pairs(call_gives(f)), TextTest::on(g));
}

/// The condition that a text must meet, where `T` is the type that holds a text.
///
/// `Not(Any)` never matches. It is accepted as it is written.
#[derive(Debug, PartialEq, Eq, PartialOrd, Ord, Hash)]
pub enum MatchStr<T> {
    /// Matches if every listed condition matches.
    And(Vec<MatchStr<T>>),
    /// Always matches.
    Any,
    /// Matches a text that has this one as a part.
    Contains(T),
    /// Matches if the inner condition does not.
    Not(Box<MatchStr<T>>),
    /// Matches if one of the listed conditions matches.
    Or(Vec<MatchStr<T>>),
    /// Matches a text that this pattern describes. The pattern is held as it
    /// is given: which syntax it has is for the engine that reads it.
    Regex(T),
    /// Matches a text equal to this one.
    EqualTo(T),
}

impl<T> View for MatchStr<T> {
    type V = Formula<TextTest<T>>;

    open spec fn view(&self) -> Formula<TextTest<T>> {
        self.model()
    }
}

impl<T> MatchStr<T> {
    /// The condition as a formula over tests.
    pub open spec fn model(&self) -> Formula<TextTest<T>>
        decreases self,
    {
        match self {
            MatchStr::And(list) => Formula::And(Self::models(list@)),
            MatchStr::Any => Formula::Any,
            MatchStr::Contains(x) => Formula::Leaf(TextTest::Contains(*x)),
            MatchStr::Not(inner) => Formula::Not(Box::new(inner.model())),
            MatchStr::Or(list) => Formula::Or(Self::models(list@)),
            MatchStr::Regex(x) => Formula::Leaf(TextTest::Regex(*x)),
            MatchStr::EqualTo(x) => Formula::Leaf(TextTest::EqualTo(*x)),
        }
    }

    /// The formulas of a list of conditions, in order.
    pub open spec fn models(list: Seq<MatchStr<T>>) -> Seq<Formula<TextTest<T>>>
        decreases list,
    {
        Seq::new(list.len(), |i: int| if 0 <= i < list.len() { list[i].model() } else { Formula::Any })
    }

    /// The formulas of a list grow with the list.
    proof fn lemma_models_push(list: Seq<MatchStr<T>>, last: MatchStr<T>)
        ensures
            Self::models(list.push(last)) == Self::models(list).push(last@),
    {
        assert(Self::models(list.push(last)) =~= Self::models(list).push(last@));
    }

    /// Whether the condition is `Not(Any)`, which never matches.
    fn is_never(&self) -> (never: bool)
        ensures
            never == (self@ == Formula::<TextTest<T>>::never()),
    {
        match self {
            MatchStr::Not(inner) => {
                assert(inner.model() is Any <==> **inner is Any);
                match &**inner {
                    MatchStr::Any => true,
                    _ => false,
                }
            },
            _ => false,
        }
    }

    /// Joins the values so that a text matches if it equals one of them.
    pub fn from_iter(values: Vec<T>) -> (condition: Self)
        ensures
            condition@
                == Formula::Or(values@.map_values(|x: T| Formula::Leaf(TextTest::EqualTo(x)))),
    {
        let ghost all = values@;
        let mut list: Vec<MatchStr<T>> = Vec::new();
        for value in it: values.into_iter()
            invariant
                it.seq() == all,
                list.len() == it.index(),
                forall|i: int| 0 <= i < list.len() ==> list[i] == MatchStr::EqualTo(all[i]),
        {
            list.push(MatchStr::EqualTo(value));
        }
        assert(Self::models(list@) =~= all.map_values(|x: T| Formula::Leaf(TextTest::EqualTo(x))));
        MatchStr::Or(list)
    }

    /// Applies `f` to every value of the condition and keeps its shape: each
    /// combinator stays where it is, and each list keeps its order.
    pub fn map<F, U>(self, f: F) -> (mapped: MatchStr<U>) where F: Copy + Fn(T) -> U
        requires
            self@.all_leaves(TextTest::each(may_call(f))),
        ensures
            self@.related(mapped@, TextTest::pairs(call_gives(f))),
        decreases self,
    {
        match self {
            MatchStr::And(list) => {
                proof {
                    lemma_members_all_leaves(self@, TextTest::each(may_call(f)));
                    assert(self@.members() == Self::models(list@));
                }
                let images = Self::map_list(list, f);
                let mapped = MatchStr::And(images);
                assert(mapped@.members() == MatchStr::<U>::models(images@));
                assert(self@.related(mapped@, TextTest::pairs(call_gives(f))));
                mapped
            },
            MatchStr::Any => {
                let mapped = MatchStr::Any;
                assert(self@.related(mapped@, TextTest::pairs(call_gives(f))));
                mapped
            },
            MatchStr::Contains(x) => {
                let mapped = MatchStr::Contains(f(x));
                assert(self@.related(mapped@, TextTest::pairs(call_gives(f))));
                mapped
            },
            MatchStr::Not(inner) => {
                let mapped = MatchStr::Not(Box::new((*inner).map(f)));
                assert(self@.related(mapped@, TextTest::pairs(call_gives(f))));
                mapped
            },
            MatchStr::Or(list) => {
                proof {
                    lemma_members_all_leaves(self@, TextTest::each(may_call(f)));
                    assert(self@.members() == Self::models(list@));
                }
                let images = Self::map_list(list, f);
                let mapped = MatchStr::Or(images);
                assert(mapped@.members() == MatchStr::<U>::models(images@));
                assert(self@.related(mapped@, TextTest::pairs(call_gives(f))));
                mapped
            },
            MatchStr::Regex(x) => {
                let mapped = MatchStr::Regex(f(x));
                assert(self@.related(mapped@, TextTest::pairs(call_gives(f))));
                mapped
            },
            MatchStr::EqualTo(x) => {
                let mapped = MatchStr::EqualTo(f(x));
                assert(self@.related(mapped@, TextTest::pairs(call_gives(f))));
                mapped
            },
        }
    }

    fn map_list<F, U>(list: Vec<MatchStr<T>>, f: F) -> (mapped: Vec<MatchStr<U>>) where
        F: Copy + Fn(T) -> U,

        requires
            forall|i: int|
                0 <= i < list.len()
                    ==> (#[trigger] Self::models(list@)[i]).all_leaves(TextTest::each(may_call(f))),
        ensures
            mapped.len() == list.len(),
            forall|i: int|
                0 <= i < list.len() ==> (#[trigger] Self::models(list@)[i]).related(
                    MatchStr::<U>::models(mapped@)[i],
                    TextTest::pairs(call_gives(f)),
                ),
        decreases list,
    {
        let ghost whole = list;
        let mut mapped: Vec<MatchStr<U>> = Vec::new();
        for item in it: list.into_iter()
            invariant
                it.seq() == whole@,
                mapped.len() == it.index(),
                forall|i: int|
                    0 <= i < whole.len()
                        ==> (#[trigger] Self::models(whole@)[i]).all_leaves(TextTest::each(may_call(f))),
                forall|i: int|
                    0 <= i < mapped.len() ==> (#[trigger] Self::models(whole@)[i]).related(
                        MatchStr::<U>::models(mapped@)[i],
                        TextTest::pairs(call_gives(f)),
                    ),
        {
            let ghost at = it.index() as int;
            let ghost before = mapped@;
            assert(item == whole[at]);
            assert(Self::models(whole@)[at] == item@);
            let image = item.map(f);
            mapped.push(image);
            assert forall|i: int| 0 <= i < mapped.len()
                implies (#[trigger] Self::models(whole@)[i]).related(
                MatchStr::<U>::models(mapped@)[i],
                TextTest::pairs(call_gives(f)),
            ) by {
                if i < at {
                    assert(MatchStr::<U>::models(mapped@)[i] == MatchStr::<U>::models(before)[i]);
                }
            }
        }
        mapped
    }

    /// As `map`, on a borrowed condition and with a function of borrowed
    /// values.
    pub fn map_ref<F, U>(&self, f: F) -> (mapped: MatchStr<U>) where F: Copy + Fn(&T) -> U
        requires
            self@.all_leaves(TextTest::each(may_call_ref(f))),
        ensures
            self@.related(mapped@, TextTest::pairs(call_ref_gives(f))),
        decreases self,
    {
        match self {
            MatchStr::And(list) => {
                proof {
                    lemma_members_all_leaves(self@, TextTest::each(may_call_ref(f)));
                    assert(self@.members() == Self::models(list@));
                }
                let images = Self::map_ref_list(list, f);
                let mapped = MatchStr::And(images);
                assert(mapped@.members() == MatchStr::<U>::models(images@));
                assert(self@.related(mapped@, TextTest::pairs(call_ref_gives(f))));
                mapped
            },
            MatchStr::Any => {
                let mapped = MatchStr::Any;
                assert(self@.related(mapped@, TextTest::pairs(call_ref_gives(f))));
                mapped
            },
            MatchStr::Contains(x) => {
                let mapped = MatchStr::Contains(f(x));
                assert(self@.related(mapped@, TextTest::pairs(call_ref_gives(f))));
                mapped
            },
            MatchStr::Not(inner) => {
                let mapped = MatchStr::Not(Box::new(inner.map_ref(f)));
                assert(self@.related(mapped@, TextTest::pairs(call_ref_gives(f))));
                mapped
            },
            MatchStr::Or(list) => {
                proof {
                    lemma_members_all_leaves(self@, TextTest::each(may_call_ref(f)));
                    assert(self@.members() == Self::models(list@));
                }
                let images = Self::map_ref_list(list, f);
                let mapped = MatchStr::Or(images);
                assert(mapped@.members() == MatchStr::<U>::models(images@));
                assert(self@.related(mapped@, TextTest::pairs(call_ref_gives(f))));
                mapped
            },
            MatchStr::Regex(x) => {
                let mapped = MatchStr::Regex(f(x));
                assert(self@.related(mapped@, TextTest::pairs(call_ref_gives(f))));
                mapped
            },
            MatchStr::EqualTo(x) => {
                let mapped = MatchStr::EqualTo(f(x));
                assert(self@.related(mapped@, TextTest::pairs(call_ref_gives(f))));
                mapped
            },
        }
    }

    fn map_ref_list<F, U>(list: &Vec<MatchStr<T>>, f: F) -> (mapped: Vec<MatchStr<U>>) where
        F: Copy + Fn(&T) -> U,

        requires
            forall|i: int|
                0 <= i < list.len()
                    ==> (#[trigger] Self::models(list@)[i]).all_leaves(TextTest::each(may_call_ref(f))),
        ensures
            mapped.len() == list.len(),
            forall|i: int|
                0 <= i < list.len() ==> (#[trigger] Self::models(list@)[i]).related(
                    MatchStr::<U>::models(mapped@)[i],
                    TextTest::pairs(call_ref_gives(f)),
                ),
        decreases list,
    {
        let mut mapped: Vec<MatchStr<U>> = Vec::new();
        let mut at: usize = 0;
        while at < list.len()
            invariant
                at <= list.len(),
                mapped.len() == at,
                forall|i: int|
                    0 <= i < list.len()
                        ==> (#[trigger] Self::models(list@)[i]).all_leaves(TextTest::each(may_call_ref(f))),
                forall|i: int|
                    0 <= i < mapped.len() ==> (#[trigger] Self::models(list@)[i]).related(
                        MatchStr::<U>::models(mapped@)[i],
                        TextTest::pairs(call_ref_gives(f)),
                    ),
            decreases list.len() - at,
        {
            let ghost before = mapped@;
            assert(Self::models(list@)[at as int] == list[at as int]@);
            let image = list[at].map_ref(f);
            mapped.push(image);
            assert forall|i: int| 0 <= i < mapped.len()
                implies (#[trigger] Self::models(list@)[i]).related(
                MatchStr::<U>::models(mapped@)[i],
                TextTest::pairs(call_ref_gives(f)),
            ) by {
                if i < at {
                    assert(MatchStr::<U>::models(mapped@)[i] == MatchStr::<U>::models(before)[i]);
                }
            }
            at += 1;
        }
        mapped
    }

    /// Replaces every value by what `exchange` gives for it, in place: the
    /// shape of the condition stays. This is `map` with a function that
    /// converts an amount of money.
    pub fn exchange_mut_with<F>(&mut self, exchange: F) where F: Copy + Fn(T) -> T
        requires
            old(self)@.all_leaves(TextTest::each(may_call(exchange))),
        ensures
            old(self)@.related(final(self)@, TextTest::pairs(call_gives(exchange))),
    {
        let mut taken = MatchStr::Any;
        core::mem::swap(self, &mut taken);
        *self = taken.map(exchange);
    }
}

impl<T: Clone> MatchStr<T> {
    fn clone_list(list: &Vec<MatchStr<T>>) -> (copies: Vec<MatchStr<T>>)
        ensures
            copies.len() == list.len(),
            forall|i: int|
                0 <= i < list.len() ==> (#[trigger] Self::models(list@)[i]).related(
                    Self::models(copies@)[i],
                    TextTest::pairs(clone_gives::<T>()),
                ),
        decreases list,
    {
        let mut copies: Vec<MatchStr<T>> = Vec::new();
        let mut at: usize = 0;
        while at < list.len()
            invariant
                at <= list.len(),
                copies.len() == at,
                forall|i: int|
                    0 <= i < copies.len() ==> (#[trigger] Self::models(list@)[i]).related(
                        Self::models(copies@)[i],
                        TextTest::pairs(clone_gives::<T>()),
                    ),
            decreases list.len() - at,
        {
            let ghost before = copies@;
            assert(Self::models(list@)[at as int] == list[at as int]@);
            let copy = list[at].clone();
            copies.push(copy);
            assert forall|i: int| 0 <= i < copies.len()
                implies (#[trigger] Self::models(list@)[i]).related(
                Self::models(copies@)[i],
                TextTest::pairs(clone_gives::<T>()),
            ) by {
                if i < at {
                    assert(Self::models(copies@)[i] == Self::models(before)[i]);
                }
            }
            at += 1;
        }
        copies
    }
}

impl<T: Clone> Clone for MatchStr<T> {
    /// A condition of the same shape whose values are clones of the values
    /// of this one.
    fn clone(&self) -> (copy: MatchStr<T>)
        ensures
            self@.related(copy@, TextTest::pairs(clone_gives::<T>())),
        decreases self,
    {
        match self {
            MatchStr::And(list) => {
                let copies = Self::clone_list(list);
                let copy = MatchStr::And(copies);
                assert(self@.members() == Self::models(list@));
                assert(copy@.members() == Self::models(copies@));
                assert(self@.related(copy@, TextTest::pairs(clone_gives::<T>())));
                copy
            },
            MatchStr::Any => {
                let copy = MatchStr::Any;
                assert(self@.related(copy@, TextTest::pairs(clone_gives::<T>())));
                copy
            },
            MatchStr::Contains(x) => {
                let copy = MatchStr::Contains(x.clone());
                assert(self@.related(copy@, TextTest::pairs(clone_gives::<T>())));
                copy
            },
            MatchStr::Not(inner) => {
                let copy = MatchStr::Not(Box::new((&**inner).clone()));
                assert(self@.related(copy@, TextTest::pairs(clone_gives::<T>())));
                copy
            },
            MatchStr::Or(list) => {
                let copies = Self::clone_list(list);
                let copy = MatchStr::Or(copies);
                assert(self@.members() == Self::models(list@));
                assert(copy@.members() == Self::models(copies@));
                assert(self@.related(copy@, TextTest::pairs(clone_gives::<T>())));
                copy
            },
            MatchStr::Regex(x) => {
                let copy = MatchStr::Regex(x.clone());
                assert(self@.related(copy@, TextTest::pairs(clone_gives::<T>())));
                copy
            },
            MatchStr::EqualTo(x) => {
                let copy = MatchStr::EqualTo(x.clone());
                assert(self@.related(copy@, TextTest::pairs(clone_gives::<T>())));
                copy
            },
        }
    }
}

impl<T> core::ops::BitAndAssign for MatchStr<T> {
    /// `self &= rhs` makes `self` the conjunction. `Any` is replaced by `rhs`,
    /// an `And` list grows by `rhs`, and anything else becomes the `And` list
    /// of itself and `rhs`.
    fn bitand_assign(&mut self, rhs: MatchStr<T>)
        ensures
            final(self)@ == old(self)@.and_with(rhs@),
    {
        let mut taken = MatchStr::Any;
        core::mem::swap(self, &mut taken);
        match taken {
            MatchStr::Any => {
                *self = rhs;
            },
            MatchStr::And(mut list) => {
                proof {
                    Self::lemma_models_push(list@, rhs);
                }
                list.push(rhs);
                *self = MatchStr::And(list);
            },
            _ => {
                let ghost first = taken;
                let mut list = Vec::new();
                list.push(taken);
                list.push(rhs);
                assert(Self::models(list@) =~= seq![first@, rhs@]);
                *self = MatchStr::And(list);
            },
        }
    }
}

impl<T> core::ops::BitOrAssign for MatchStr<T> {
    /// `self |= rhs` makes `self` the disjunction. `Not(Any)`, which never
    /// matches, is replaced by `rhs`, an `Or` list grows by `rhs`, and anything
    /// else, `Any` too, becomes the `Or` list of itself and `rhs`.
    fn bitor_assign(&mut self, rhs: MatchStr<T>)
        ensures
            final(self)@ == old(self)@.either_with(rhs@),
    {
        let never = self.is_never();
        let mut taken = MatchStr::Any;
        core::mem::swap(self, &mut taken);
        if never {
            *self = rhs;
            return ;
        }
        match taken {
            MatchStr::Or(mut list) => {
                proof {
                    Self::lemma_models_push(list@, rhs);
                }
                list.push(rhs);
                *self = MatchStr::Or(list);
            },
            _ => {
                let ghost first = taken;
                let mut list = Vec::new();
                list.push(taken);
                list.push(rhs);
                assert(Self::models(list@) =~= seq![first@, rhs@]);
                *self = MatchStr::Or(list);
            },
        }
    }
}

impl<T> core::ops::BitAnd for MatchStr<T> {
    type Output = MatchStr<T>;

    /// `self & rhs` is `self` after `self &= rhs`.
    fn bitand(self, rhs: MatchStr<T>) -> (both: MatchStr<T>)
        ensures
            both@ == self@.and_with(rhs@),
    {
        let mut both = self;
        core::ops::BitAndAssign::bitand_assign(&mut both, rhs);
        both
    }
}

/// A contract cannot build the list that the operator returns: what it
/// returns is stated over views by the `ensures` of `bitand`.
impl<T> vstd::std_specs::ops::BitAndSpecImpl for MatchStr<T> {
    open spec fn obeys_bitand_spec() -> bool {
        false
    }

    open spec fn bitand_req(self, rhs: MatchStr<T>) -> bool {
        true
    }

    open spec fn bitand_spec(self, rhs: MatchStr<T>) -> MatchStr<T> {
        rhs
    }
}

impl<T> core::ops::BitOr for MatchStr<T> {
    type Output = MatchStr<T>;

    /// `self | rhs` is `self` after `self |= rhs`.
    fn bitor(self, rhs: MatchStr<T>) -> (either: MatchStr<T>)
        ensures
            either@ == self@.either_with(rhs@),
    {
        let mut either = self;
        core::ops::BitOrAssign::bitor_assign(&mut either, rhs);
        either
    }
}

/// A contract cannot build the list that the operator returns: what it
/// returns is stated over views by the `ensures` of `bitor`.
impl<T> vstd::std_specs::ops::BitOrSpecImpl for MatchStr<T> {
    open spec fn obeys_bitor_spec() -> bool {
        false
    }

    open spec fn bitor_req(self, rhs: MatchStr<T>) -> bool {
        true
    }

    open spec fn bitor_spec(self, rhs: MatchStr<T>) -> MatchStr<T> {
        rhs
    }
}

impl<T> core::ops::Not for MatchStr<T> {
    type Output = MatchStr<T>;

    /// Wraps the condition in `Not`; a double negation stays as written.
    fn not(self) -> (negation: MatchStr<T>)
        ensures
            negation@ == self@.negated(),
    {
        MatchStr::Not(Box::new(self))
    }
}

/// A contract cannot build the box that the operator returns: what it
/// returns is stated over views by the `ensures` of `not`.
impl<T> vstd::std_specs::ops::NotSpecImpl for MatchStr<T> {
    open spec fn obeys_not_spec() -> bool {
        false
    }

    open spec fn not_req(self) -> bool {
        true
    }

    open spec fn not_spec(self) -> MatchStr<T> {
        self
    }
}

impl<T: Clone> core::ops::BitXorAssign for MatchStr<T> {
    /// `self ^= rhs` is `(self | rhs) & !(self & rhs)`, built with the operators
    /// `|`, `&` and `!`; the second pair of operands are clones of the first.
    /// No condition is treated apart.
    fn bitxor_assign(&mut self, rhs: MatchStr<T>)
        ensures
            exists|left: Formula<TextTest<T>>, right: Formula<TextTest<T>>|
                {
                    &&& old(self)@.related(left, TextTest::pairs(clone_gives::<T>()))
                    &&& rhs@.related(right, TextTest::pairs(clone_gives::<T>()))
                    &&& final(self)@ == old(self)@.xor_with_copies(rhs@, left, right)
                },
            clone_is_exact::<T>() ==> final(self)@ == old(self)@.xor_with(rhs@),
    {
        let mut either = MatchStr::Any;
        core::mem::swap(self, &mut either);
        let mut both = either.clone();
        let right = rhs.clone();
        let ghost first = either@;
        let ghost left_copy = both@;
        let ghost right_copy = right@;
        core::ops::BitAndAssign::bitand_assign(&mut both, right);
        core::ops::BitOrAssign::bitor_assign(&mut either, rhs);
        core::ops::BitAndAssign::bitand_assign(&mut either, MatchStr::Not(Box::new(both)));
        *self = either;
        proof {
            assert(self@ == first.xor_with_copies(rhs@, left_copy, right_copy));
            if clone_is_exact::<T>() {
                law_related_is_equal(first, left_copy, TextTest::pairs(clone_gives::<T>()));
                law_related_is_equal(rhs@, right_copy, TextTest::pairs(clone_gives::<T>()));
            }
        }
    }
}

impl<T: Clone> core::ops::BitXor for MatchStr<T> {
    type Output = MatchStr<T>;

    /// `self ^ rhs` is `self` after `self ^= rhs`.
    fn bitxor(self, rhs: MatchStr<T>) -> (one: MatchStr<T>)
        ensures
            exists|left: Formula<TextTest<T>>, right: Formula<TextTest<T>>|
                {
                    &&& self@.related(left, TextTest::pairs(clone_gives::<T>()))
                    &&& rhs@.related(right, TextTest::pairs(clone_gives::<T>()))
                    &&& one@ == self@.xor_with_copies(rhs@, left, right)
                },
            clone_is_exact::<T>() ==> one@ == self@.xor_with(rhs@),
    {
        let mut one = self;
        core::ops::BitXorAssign::bitxor_assign(&mut one, rhs);
        one
    }
}

/// A contract cannot build the lists that the operator returns: what it
/// returns is stated over views by the `ensures` of `bitxor`.
impl<T: Clone> vstd::std_specs::ops::BitXorSpecImpl for MatchStr<T> {
    open spec fn obeys_bitxor_spec() -> bool {
        false
    }

    open spec fn bitxor_req(self, rhs: MatchStr<T>) -> bool {
        true
    }

    open spec fn bitxor_spec(self, rhs: MatchStr<T>) -> MatchStr<T> {
        rhs
    }
}

impl<T> Default for MatchStr<T> {
    /// The condition that always matches.
    fn default() -> (condition: MatchStr<T>)
        ensures
            condition == MatchStr::<T>::Any,
    {
        MatchStr::Any
    }
}

impl<T> From<T> for MatchStr<T> {
    /// The condition that a text equals `value`.
    fn from(value: T) -> (condition: MatchStr<T>) {
        MatchStr::EqualTo(value)
    }
}

impl<T> vstd::std_specs::convert::FromSpecImpl<T> for MatchStr<T> {
    open spec fn obeys_from_spec() -> bool {
        true
    }

    open spec fn from_spec(value: T) -> MatchStr<T> {
        MatchStr::EqualTo(value)
    }
}

impl<M> TextTest<M> {
    /// The wire form of the test, where `value` writes a value:
    /// `{"contains": v}`, `{"regex": v}`, `{"equal_to": v}`.
    pub open spec fn wire(self, value: spec_fn(M) -> WireForm) -> WireForm {
        match self {
            TextTest::Contains(x) => WireForm::Tagged("contains"@, Box::new(value(x))),
            TextTest::Regex(x) => WireForm::Tagged("regex"@, Box::new(value(x))),
            TextTest::EqualTo(x) => WireForm::Tagged("equal_to"@, Box::new(value(x))),
        }
    }

    /// The test that a wire form is read as at a level, where `value`
    /// reads a value one level below. A known tag decides; a form under no
    /// known tag is read whole as a value, and gives `EqualTo`.
    pub open spec fn read(
        wire: WireForm,
        depth: nat,
        value: spec_fn(WireForm, nat) -> Result<M, DecodeError>,
    ) -> Result<TextTest<M>, DecodeError> {
        let below = (depth - 1) as nat;
        match wire {
            WireForm::Tagged(tag, payload) => {
                if is_word(tag, "contains"@) {
                    match value(*payload, below) {
                        Ok(x) => Ok(TextTest::Contains(x)),
                        Err(error) => Err(error),
                    }
                } else if is_word(tag, "regex"@) {
                    match value(*payload, below) {
                        Ok(x) => Ok(TextTest::Regex(x)),
                        Err(error) => Err(error),
                    }
                } else if is_word(tag, "equal_to"@) {
                    match value(*payload, below) {
                        Ok(x) => Ok(TextTest::EqualTo(x)),
                        Err(error) => Err(error),
                    }
                } else {
                    Self::read_bare(wire, below, value)
                }
            },
            _ => Self::read_bare(wire, below, value),
        }
    }

    /// The test that a form under no known tag is read as: `EqualTo` of
    /// the value that the whole form is.
    pub open spec fn read_bare(
        wire: WireForm,
        below: nat,
        value: spec_fn(WireForm, nat) -> Result<M, DecodeError>,
    ) -> Result<TextTest<M>, DecodeError> {
        match value(wire, below) {
            Ok(x) => Ok(TextTest::EqualTo(x)),
            Err(error) => Err(error),
        }
    }

    /// Whether the values of the test fit one level below `depth`.
    pub open spec fn fits(self, depth: nat, value: spec_fn(M, nat) -> bool) -> bool {
        depth > 0 && match self {
            TextTest::Contains(x) => value(x, (depth - 1) as nat),
            TextTest::Regex(x) => value(x, (depth - 1) as nat),
            TextTest::EqualTo(x) => value(x, (depth - 1) as nat),
        }
    }

    /// `wire`, as a function on tests.
    pub open spec fn writer(value: spec_fn(M) -> WireForm) -> spec_fn(TextTest<M>) -> WireForm {
        |test: TextTest<M>| test.wire(value)
    }

    /// `read`, as a function on wire forms.
    pub open spec fn reader(value: spec_fn(WireForm, nat) -> Result<M, DecodeError>) -> spec_fn(
        WireForm,
        nat,
    ) -> Result<TextTest<M>, DecodeError> {
        |wire: WireForm, depth: nat| Self::read(wire, depth, value)
    }

    /// `fits`, as a function on tests.
    pub open spec fn fitter(value: spec_fn(M, nat) -> bool) -> spec_fn(TextTest<M>, nat) -> bool {
        |test: TextTest<M>, depth: nat| test.fits(depth, value)
    }

    /// The tags of the tests are in lower case, no two are the same,
    /// and none is the word or the tag of a combinator.
    proof fn lemma_tags()
        ensures
            is_word("contains"@, "contains"@),
            is_word("regex"@, "regex"@),
            is_word("equal_to"@, "equal_to"@),
            "contains"@ != "regex"@,
            "contains"@ != "equal_to"@,
            "contains"@ != tag_not(),
            "contains"@ != tag_and(),
            "contains"@ != tag_or(),
            "regex"@ != "equal_to"@,
            "regex"@ != tag_not(),
            "regex"@ != tag_and(),
            "regex"@ != tag_or(),
            "equal_to"@ != tag_not(),
            "equal_to"@ != tag_and(),
            "equal_to"@ != tag_or(),
    {
        reveal_strlit("contains");
        reveal_strlit("regex");
        reveal_strlit("equal_to");
        reveal_strlit("not");
        reveal_strlit("and");
        reveal_strlit("or");
        lemma_lower_is_word("contains"@);
        lemma_lower_is_word("regex"@);
        lemma_lower_is_word("equal_to"@);
        assert("contains"@.len() != "regex"@.len());
        assert("contains"@[0] != "equal_to"@[0]);
        assert("contains"@.len() != "not"@.len());
        assert("contains"@.len() != "and"@.len());
        assert("contains"@.len() != "or"@.len());
        assert("regex"@.len() != "equal_to"@.len());
        assert("regex"@.len() != "not"@.len());
        assert("regex"@.len() != "and"@.len());
        assert("regex"@.len() != "or"@.len());
        assert("equal_to"@.len() != "not"@.len());
        assert("equal_to"@.len() != "and"@.len());
        assert("equal_to"@.len() != "or"@.len());
    }

    /// No test is written as a combinator is.
    proof fn lemma_wire_is_no_combinator(self, value: spec_fn(M) -> WireForm)
        ensures
            !is_combinator_form(self.wire(value)),
    {
        Self::lemma_tags();
    }

    /// A test that was written is read back as it was, where its
    /// values are.
    proof fn lemma_round_trip(
        self,
        depth: nat,
        write: spec_fn(M) -> WireForm,
        read: spec_fn(WireForm, nat) -> Result<M, DecodeError>,
        fit: spec_fn(M, nat) -> bool,
    )
        requires
            self.fits(depth, fit),
            forall|x: M, d: nat| #[trigger] fit(x, d)
                ==> read(write(x), d) == Ok::<M, DecodeError>(x),
        ensures
            Self::read(self.wire(write), depth, read) == Ok::<TextTest<M>, DecodeError>(self),
    {
        Self::lemma_tags();
    }
}

impl<T: Wired> MatchStr<T> {
    /// How a test is written, where `T` writes the values.
    pub open spec fn leaf_writer() -> spec_fn(TextTest<T::Model>) -> WireForm {
        TextTest::writer(writer::<T>())
    }

    /// How a test is read, where `T` reads the values.
    pub open spec fn leaf_reader() -> spec_fn(WireForm, nat)
        -> Result<TextTest<T::Model>, DecodeError> {
        TextTest::reader(reader::<T>())
    }

    /// Whether a test fits at a level, where `T` says whether the values
    /// fit below it.
    pub open spec fn leaf_fitter() -> spec_fn(TextTest<T::Model>, nat) -> bool {
        TextTest::fitter(fitter::<T>())
    }

    /// The values that the conditions of a list stand for, in order.
    pub open spec fn deeps(list: Seq<MatchStr<T>>) -> Seq<Formula<TextTest<T::Model>>> {
        Seq::new(list.len(), |i: int| list[i].deep())
    }

    /// A list stands for the list of what its members stand for.
    proof fn lemma_deep_members(list: Seq<MatchStr<T>>)
        ensures
            Formula::And(Self::models(list)).map_leaves(TextTest::on(deep_of::<T>()))
                == Formula::And(Self::deeps(list)),
            Formula::Or(Self::models(list)).map_leaves(TextTest::on(deep_of::<T>()))
                == Formula::Or(Self::deeps(list)),
    {
        let g = TextTest::on(deep_of::<T>());
        assert(Formula::And(Self::models(list)).map_leaves(g)->And_0 =~= Self::deeps(list));
        assert(Formula::Or(Self::models(list)).map_leaves(g)->Or_0 =~= Self::deeps(list));
    }

    fn encode_list(list: &Vec<Self>) -> (wires: Vec<Wire>)
        ensures
            Wire::forms(wires@) == formula_wires(Self::deeps(list@), Self::leaf_writer()),
        decreases list,
    {
        let mut wires: Vec<Wire> = Vec::new();
        let mut at: usize = 0;
        while at < list.len()
            invariant
                at <= list.len(),
                wires.len() == at,
                forall|i: int|
                    0 <= i < at ==> (#[trigger] wires[i])@ == formula_wire(
                        list[i].deep(),
                        Self::leaf_writer(),
                    ),
            decreases list.len() - at,
        {
            let wire = list[at].encode();
            wires.push(wire);
            at += 1;
        }
        assert(Wire::forms(wires@) =~= formula_wires(Self::deeps(list@), Self::leaf_writer()));
        wires
    }

    fn decode_list(items: &Vec<Wire>, depth: usize) -> (read: Result<Vec<Self>, DecodeError>)
        ensures
            match read {
                Ok(list) => formula_reads(Wire::forms(items@), depth as nat, Self::leaf_reader()) == Ok::<
                    Seq<Formula<TextTest<T::Model>>>,
                    DecodeError,
                >(Self::deeps(list@)),
                Err(error) => formula_reads(Wire::forms(items@), depth as nat, Self::leaf_reader()) == Err::<
                    Seq<Formula<TextTest<T::Model>>>,
                    DecodeError,
                >(error),
            },
        decreases items,
    {
        let ghost forms = Wire::forms(items@);
        let ghost how = Self::leaf_reader();
        let mut list: Vec<Self> = Vec::new();
        let mut at: usize = 0;
        assert(forms.take(0) =~= Seq::empty());
        assert(Self::deeps(list@) =~= Seq::empty());
        while at < items.len()
            invariant
                at <= items.len(),
                forms == Wire::forms(items@),
                how == Self::leaf_reader(),
                formula_reads(forms.take(at as int), depth as nat, how) == Ok::<
                    Seq<Formula<TextTest<T::Model>>>,
                    DecodeError,
                >(Self::deeps(list@)),
            decreases items.len() - at,
        {
            let ghost before = Self::deeps(list@);
            proof {
                assert(forms.take(at + 1).drop_last() =~= forms.take(at as int));
                assert(forms.take(at + 1).last() == items[at as int]@);
            }
            match Self::decode_within(&items[at], depth) {
                Ok(member) => {
                    list.push(member);
                    assert(Self::deeps(list@) =~= before.push(member.deep()));
                },
                Err(error) => {
                    proof {
                        Self::lemma_reads_fail(forms, at + 1, depth as nat, error);
                    }
                    return Err(error);
                },
            }
            at += 1;
        }
        assert(forms.take(at as int) =~= forms);
        Ok(list)
    }

    /// Where the reading of a part of a list fails, the reading of the list
    /// fails for the same reason.
    proof fn lemma_reads_fail(forms: Seq<WireForm>, n: int, depth: nat, error: DecodeError)
        requires
            0 <= n <= forms.len(),
            formula_reads(forms.take(n), depth, Self::leaf_reader())
                == Err::<Seq<Formula<TextTest<T::Model>>>, DecodeError>(error),
        ensures
            formula_reads(forms, depth, Self::leaf_reader())
                == Err::<Seq<Formula<TextTest<T::Model>>>, DecodeError>(error),
        decreases forms.len() - n,
    {
        if n < forms.len() {
            assert(forms.take(n + 1).drop_last() =~= forms.take(n));
            Self::lemma_reads_fail(forms, n + 1, depth, error);
        } else {
            assert(forms.take(n) =~= forms);
        }
    }

    /// Reads a form under no known tag: the whole form as a value.
    fn decode_bare(wire: &Wire, depth: usize) -> (read: Result<Self, DecodeError>)
        requires
            depth > 0,
        ensures
            match read {
                Ok(value) => value.deep() matches Formula::Leaf(test) && TextTest::read_bare(
                    wire@,
                    (depth - 1) as nat,
                    reader::<T>(),
                ) == Ok::<TextTest<T::Model>, DecodeError>(test),
                Err(error) => TextTest::read_bare(wire@, (depth - 1) as nat, reader::<T>())
                    == Err::<
                    TextTest<T::Model>,
                    DecodeError,
                >(error),
            },
    {
        match T::decode_within(wire, depth - 1) {
            Ok(x) => {
                let value = MatchStr::EqualTo(x);
                assert(value.deep() == Formula::Leaf(TextTest::EqualTo(x.deep())));
                Ok(value)
            },
            Err(error) => Err(error),
        }
    }
}

impl<T: Wired> Wired for MatchStr<T> {
    type Model = Formula<TextTest<T::Model>>;

    open spec fn deep(&self) -> Formula<TextTest<T::Model>> {
        self@.map_leaves(TextTest::on(deep_of::<T>()))
    }

    open spec fn encoding(value: Formula<TextTest<T::Model>>) -> WireForm {
        formula_wire(value, Self::leaf_writer())
    }

    open spec fn decoding(wire: WireForm, depth: nat)
        -> Result<Formula<TextTest<T::Model>>, DecodeError> {
        formula_read(wire, depth, Self::leaf_reader())
    }

    open spec fn within(value: Formula<TextTest<T::Model>>, depth: nat) -> bool {
        formula_within(value, depth, Self::leaf_fitter())
    }

    proof fn law_round_trip(value: Formula<TextTest<T::Model>>, depth: nat) {
        assert forall|test: TextTest<T::Model>| !is_combinator_form(#[trigger] Self::leaf_writer()(test)) by {
            test.lemma_wire_is_no_combinator(writer::<T>());
        }
        assert forall|test: TextTest<T::Model>, d: nat| d > 0
            && #[trigger] Self::leaf_fitter()(test, d) implies Self::leaf_reader()(
            Self::leaf_writer()(test),
            d,
        ) == Ok::<TextTest<T::Model>, DecodeError>(test) by {
            assert forall|x: T::Model, e: nat| #[trigger] fitter::<T>()(x, e) implies reader::<T>()(
                writer::<T>()(x),
                e,
            ) == Ok::<T::Model, DecodeError>(x) by {
                T::law_round_trip(x, e);
            }
            test.lemma_round_trip(d, writer::<T>(), reader::<T>(), fitter::<T>());
        }
        law_formula_round_trip(value, depth, Self::leaf_writer(), Self::leaf_reader(), Self::leaf_fitter());
    }

    proof fn law_within_grows(value: Formula<TextTest<T::Model>>, depth: nat, more: nat) {
        assert forall|test: TextTest<T::Model>, d: nat, e: nat| #[trigger] Self::leaf_fitter()(test, d) && d <= e implies #[trigger] Self::leaf_fitter()(
            test,
            e,
        ) by {
            assert forall|x: T::Model| #[trigger] fitter::<T>()(x, (d - 1) as nat)
                implies fitter::<T>()(
                x,
                (e - 1) as nat,
            ) by {
                T::law_within_grows(x, (d - 1) as nat, (e - 1) as nat);
            }
        }
        law_formula_within_grows(value, depth, more, Self::leaf_fitter());
    }

    proof fn law_within_some_depth(value: Formula<TextTest<T::Model>>) {
        assert forall|test: TextTest<T::Model>, d: nat, e: nat| #[trigger] Self::leaf_fitter()(test, d) && d <= e implies #[trigger] Self::leaf_fitter()(
            test,
            e,
        ) by {
            assert forall|x: T::Model| #[trigger] fitter::<T>()(x, (d - 1) as nat)
                implies fitter::<T>()(
                x,
                (e - 1) as nat,
            ) by {
                T::law_within_grows(x, (d - 1) as nat, (e - 1) as nat);
            }
        }
        assert forall|test: TextTest<T::Model>| #[trigger] fits_somewhere(test, Self::leaf_fitter()) by {
            match test {
                TextTest::Contains(x) => {
                    T::law_within_some_depth(x);
                    let below = choose|below: nat| T::within(x, below);
                    assert(Self::leaf_fitter()(test, below + 1));
                },
                TextTest::Regex(x) => {
                    T::law_within_some_depth(x);
                    let below = choose|below: nat| T::within(x, below);
                    assert(Self::leaf_fitter()(test, below + 1));
                },
                TextTest::EqualTo(x) => {
                    T::law_within_some_depth(x);
                    let below = choose|below: nat| T::within(x, below);
                    assert(Self::leaf_fitter()(test, below + 1));
                },
            }
        }
        law_formula_within_some_depth(value, Self::leaf_fitter());
        let depth = choose|depth: nat| formula_within(value, depth, Self::leaf_fitter());
        assert(Self::within(value, depth));
    }

    fn encode(&self) -> (wire: Wire)
        decreases self,
    {
        match self {
            MatchStr::And(list) => {
                proof {
                    Self::lemma_deep_members(list@);
                }
                let wires = Wire::List(Self::encode_list(list));
                assert(wires@
                    == WireForm::List(formula_wires(Self::deeps(list@), Self::leaf_writer())));
                let wire = Wire::Tagged("and".to_owned(), Box::new(wires));
                assert(self@ == Formula::And(Self::models(list@)));
                assert(self.deep() == Formula::And(Self::deeps(list@)));
                assert(wire@ == Self::encoding(self.deep()));
                wire
            },
            MatchStr::Any => {
                let wire = Wire::Text("any".to_owned());
                assert(wire@ == Self::encoding(self.deep()));
                wire
            },
            MatchStr::Contains(x) => {
                let wire = Wire::Tagged("contains".to_owned(), Box::new(x.encode()));
                assert(self.deep() == Formula::Leaf(TextTest::Contains(x.deep())));
                assert(wire@ == Self::encoding(self.deep()));
                wire
            },
            MatchStr::Not(inner) => {
                let wire = Wire::Tagged("not".to_owned(), Box::new(inner.encode()));
                assert(wire@ == Self::encoding(self.deep()));
                wire
            },
            MatchStr::Or(list) => {
                proof {
                    Self::lemma_deep_members(list@);
                }
                let wires = Wire::List(Self::encode_list(list));
                assert(wires@
                    == WireForm::List(formula_wires(Self::deeps(list@), Self::leaf_writer())));
                let wire = Wire::Tagged("or".to_owned(), Box::new(wires));
                assert(self@ == Formula::Or(Self::models(list@)));
                assert(self.deep() == Formula::Or(Self::deeps(list@)));
                assert(wire@ == Self::encoding(self.deep()));
                wire
            },
            MatchStr::Regex(x) => {
                let wire = Wire::Tagged("regex".to_owned(), Box::new(x.encode()));
                assert(self.deep() == Formula::Leaf(TextTest::Regex(x.deep())));
                assert(wire@ == Self::encoding(self.deep()));
                wire
            },
            MatchStr::EqualTo(x) => {
                let wire = Wire::Tagged("equal_to".to_owned(), Box::new(x.encode()));
                assert(self.deep() == Formula::Leaf(TextTest::EqualTo(x.deep())));
                assert(wire@ == Self::encoding(self.deep()));
                wire
            },
        }
    }

    fn decode_within(wire: &Wire, depth: usize) -> (read: Result<Self, DecodeError>)
        decreases wire,
    {
        if depth == 0 {
            return Err(DecodeError::TooDeep);
        }
        match wire {
            Wire::Text(text) => {
                if reads_as(text.as_str(), "any") {
                    Ok(MatchStr::Any)
                } else {
                    Self::decode_bare(wire, depth)
                }
            },
            Wire::Tagged(tag, payload) => {
                if reads_as(tag.as_str(), "not") {
                    match Self::decode_within(payload, depth - 1) {
                        Ok(inner) => Ok(MatchStr::Not(Box::new(inner))),
                        Err(error) => Err(error),
                    }
                } else if reads_as(tag.as_str(), "and") {
                    match &**payload {
                        Wire::List(items) => match Self::decode_list(items, depth - 1) {
                            Ok(list) => {
                                proof {
                                    Self::lemma_deep_members(list@);
                                }
                                Ok(MatchStr::And(list))
                            },
                            Err(error) => Err(error),
                        },
                        _ => Err(DecodeError::MalformedTag),
                    }
                } else if reads_as(tag.as_str(), "or") {
                    match &**payload {
                        Wire::List(items) => match Self::decode_list(items, depth - 1) {
                            Ok(list) => {
                                proof {
                                    Self::lemma_deep_members(list@);
                                }
                                Ok(MatchStr::Or(list))
                            },
                            Err(error) => Err(error),
                        },
                        _ => Err(DecodeError::MalformedTag),
                    }
                } else {
                    Self::decode_test(wire, tag, payload, depth)
                }
            },
            _ => Self::decode_bare(wire, depth),
        }
    }
}

impl<T: Wired> MatchStr<T> {
    /// Reads a tagged form that is no combinator as one test.
    fn decode_test(wire: &Wire, tag: &String, payload: &Wire, depth: usize) -> (read: Result<
        Self,
        DecodeError,
    >)
        requires
            depth > 0,
            wire@ == WireForm::Tagged(tag@, Box::new(payload@)),
        ensures
            match read {
                Ok(value) => value.deep() matches Formula::Leaf(test) && TextTest::read(
                    wire@,
                    depth as nat,
                    reader::<T>(),
                ) == Ok::<TextTest<T::Model>, DecodeError>(test),
                Err(error) => TextTest::read(wire@, depth as nat, reader::<T>()) == Err::<
                    TextTest<T::Model>,
                    DecodeError,
                >(error),
            },
    {
        if reads_as(tag.as_str(), "contains") {
            match T::decode_within(payload, depth - 1) {
                Ok(x) => {
                    let value = MatchStr::Contains(x);
                    assert(value.deep() == Formula::Leaf(TextTest::Contains(x.deep())));
                    assert(TextTest::read(wire@, depth as nat, reader::<T>())
                        == Ok::<TextTest<T::Model>, DecodeError>(
                        TextTest::Contains(x.deep()),
                    ));
                    Ok(value)
                },
                Err(error) => Err(error),
            }
        } else if reads_as(tag.as_str(), "regex") {
            match T::decode_within(payload, depth - 1) {
                Ok(x) => {
                    let value = MatchStr::Regex(x);
                    assert(value.deep() == Formula::Leaf(TextTest::Regex(x.deep())));
                    assert(TextTest::read(wire@, depth as nat, reader::<T>())
                        == Ok::<TextTest<T::Model>, DecodeError>(
                        TextTest::Regex(x.deep()),
                    ));
                    Ok(value)
                },
                Err(error) => Err(error),
            }
        } else if reads_as(tag.as_str(), "equal_to") {
            match T::decode_within(payload, depth - 1) {
                Ok(x) => {
                    let value = MatchStr::EqualTo(x);
                    assert(value.deep() == Formula::Leaf(TextTest::EqualTo(x.deep())));
                    assert(TextTest::read(wire@, depth as nat, reader::<T>())
                        == Ok::<TextTest<T::Model>, DecodeError>(
                        TextTest::EqualTo(x.deep()),
                    ));
                    Ok(value)
                },
                Err(error) => Err(error),
            }
        } else {
            assert(TextTest::read(wire@, depth as nat, reader::<T>()) == TextTest::read_bare(
                wire@,
                (depth - 1) as nat,
                reader::<T>(),
            ));
            Self::decode_bare(wire, depth)
        }
    }
}

} // verus!
