//! Conditions on a value that can be compared and ordered.

use vstd::prelude::*;
use crate::codec::{
    deep_of, fits_somewhere, fitter, formula_read, formula_reads, formula_wire, formula_wires,
    formula_within, is_combinator_form, law_formula_round_trip, law_formula_within_grows,
    law_formula_within_some_depth, reader, tag_and, tag_not, tag_or, writer, Wired,
};
use crate::formula::{
    law_related_is_equal, law_related_is_mapped, lemma_members_all_leaves, Formula,
};
use crate::leaf::{call_gives, call_ref_gives, clone_gives, clone_is_exact, may_call, may_call_ref};
use crate::wire::{is_word, lemma_lower_is_word, reads_as, DecodeError, Wire, WireForm};

verus! {

/// One comparison against leaf values of type `T`.
pub enum Comparison<T> {
    EqualTo(T),
    GreaterThan(T),
    LessThan(T),
    /// `low <= x < high`.
    InRange(T, T),
}

impl<T> Comparison<T> {
    /// Every value of the comparison satisfies `p`.
    pub open spec fn all_values(self, p: spec_fn(T) -> bool) -> bool {
        match self {
            Comparison::EqualTo(x) => p(x),
            Comparison::GreaterThan(x) => p(x),
            Comparison::LessThan(x) => p(x),
            Comparison::InRange(low, high) => p(low) && p(high),
        }
    }

    /// The same comparison with `g` applied to each value.
    pub open spec fn map_values<U>(self, g: spec_fn(T) -> U) -> Comparison<U> {
        match self {
            Comparison::EqualTo(x) => Comparison::EqualTo(g(x)),
            Comparison::GreaterThan(x) => Comparison::GreaterThan(g(x)),
            Comparison::LessThan(x) => Comparison::LessThan(g(x)),
            Comparison::InRange(low, high) => Comparison::InRange(g(low), g(high)),
        }
    }

    /// `other` is the same comparison, each value related by `rel`.
    pub open spec fn related<U>(self, other: Comparison<U>, rel: spec_fn(T, U) -> bool) -> bool {
        match self {
            Comparison::EqualTo(x) => other matches Comparison::EqualTo(y) && rel(x, y),
            Comparison::GreaterThan(x) => other matches Comparison::GreaterThan(y) && rel(x, y),
            Comparison::LessThan(x) => other matches Comparison::LessThan(y) && rel(x, y),
            Comparison::InRange(low, high) => other matches Comparison::InRange(a, b) && rel(low, a)
                && rel(high, b),
        }
    }

    /// `p` of every value, as a predicate on comparisons.
    pub open spec fn each(p: spec_fn(T) -> bool) -> spec_fn(Comparison<T>) -> bool {
        |c: Comparison<T>| c.all_values(p)
    }

    /// `rel` value by value, as a relation on comparisons.
    pub open spec fn pairs<U>(rel: spec_fn(T, U) -> bool)
        -> spec_fn(Comparison<T>, Comparison<U>) -> bool {
        |a: Comparison<T>, b: Comparison<U>| a.related(b, rel)
    }

    /// `g` on every value, as a function on comparisons.
    pub open spec fn on<U>(g: spec_fn(T) -> U) -> spec_fn(Comparison<T>) -> Comparison<U> {
        |c: Comparison<T>| c.map_values(g)
    }
}

/// Mapping reaches the value of every comparison, and keeps which comparison it is.
pub proof fn law_map_reaches_values<T, U>(value: T, low: T, high: T, g: spec_fn(T) -> U)
    ensures
        Formula::Leaf(Comparison::EqualTo(value)).map_leaves(Comparison::on(g))
            == Formula::Leaf(Comparison::EqualTo(g(value))),
        Formula::Leaf(Comparison::GreaterThan(value)).map_leaves(Comparison::on(g))
            == Formula::Leaf(Comparison::GreaterThan(g(value))),
        Formula::Leaf(Comparison::LessThan(value)).map_leaves(Comparison::on(g))
            == Formula::Leaf(Comparison::LessThan(g(value))),
        Formula::Leaf(Comparison::InRange(low, high)).map_leaves(Comparison::on(g))
            == Formula::Leaf(Comparison::InRange(g(low), g(high))),
{
}

/// Where `f` returns for each value what `g` gives and nothing else, what
/// `map` returns with `f` is the condition mapped by `g`.
pub proof fn law_map_follows_function<T, U, F: Fn(T) -> U>(
    x: Formula<Comparison<T>>,
    y: Formula<Comparison<U>>,
    f: F,
    g: spec_fn(T) -> U,
)
    requires
        x.related(y, Comparison::pairs(call_gives(f))),
        forall|value: T, image: U| call_ensures(f, (value,), image) ==> image == g(value),
    ensures
        y == x.map_leaves(Comparison::on(g)),
{
    law_related_is_mapped(x, y, Comparison::pairs(call_gives(f)), Comparison::on(g));
}

/// The condition that a value of type `T` must meet.
///
/// `Not(Any)` never matches. It is accepted as it is written.
#[derive(Debug, PartialEq, Eq, PartialOrd, Ord, Hash)]
pub enum Match<T> {
    /// Matches if every listed condition matches.
    And(Vec<Match<T>>),
    /// Always matches.
    Any,
    /// Matches a value greater than this one.
    GreaterThan(T),
    /// Matches a value `v` with `low <= v < high`.
    InRange(T, T),
    /// Matches a value less than this one.
    LessThan(T),
    /// Matches if the inner condition does not.
    Not(Box<Match<T>>),
    /// Matches if one of the listed conditions matches.
    Or(Vec<Match<T>>),
    /// Matches a value equal to this one.
    EqualTo(T),
}

impl<T> View for Match<T> {
    type V = Formula<Comparison<T>>;

    open spec fn view(&self) -> Formula<Comparison<T>> {
        self.model()
    }
}

impl<T> Match<T> {
    /// The condition as a formula over comparisons.
    pub open spec fn model(&self) -> Formula<Comparison<T>>
        decreases self,
    {
        match self {
            Match::And(list) => Formula::And(Self::models(list@)),
            Match::Any => Formula::Any,
            Match::GreaterThan(x) => Formula::Leaf(Comparison::GreaterThan(*x)),
            Match::InRange(low, high) => Formula::Leaf(Comparison::InRange(*low, *high)),
            Match::LessThan(x) => Formula::Leaf(Comparison::LessThan(*x)),
            Match::Not(inner) => Formula::Not(Box::new(inner.model())),
            Match::Or(list) => Formula::Or(Self::models(list@)),
            Match::EqualTo(x) => Formula::Leaf(Comparison::EqualTo(*x)),
        }
    }

    /// The formulas of a list of conditions, in order.
    pub open spec fn models(list: Seq<Match<T>>) -> Seq<Formula<Comparison<T>>>
        decreases list,
    {
        Seq::new(list.len(), |i: int| if 0 <= i < list.len() { list[i].model() } else { Formula::Any })
    }

    /// The formulas of a list grow with the list.
    proof fn lemma_models_push(list: Seq<Match<T>>, last: Match<T>)
        ensures
            Self::models(list.push(last)) == Self::models(list).push(last@),
    {
        assert(Self::models(list.push(last)) =~= Self::models(list).push(last@));
    }

    /// Combines this condition with `other` so that both must match. `Any`
    /// is replaced by `other`, an `And` list grows by `other`, and anything
    /// else becomes the `And` list of itself and `other`.
    pub fn and(&mut self, other: Match<T>)
        ensures
            final(self)@ == old(self)@.and_with(other@),
    {
        let mut taken = Match::Any;
        core::mem::swap(self, &mut taken);
        match taken {
            Match::Any => {
                *self = other;
            },
            Match::And(mut list) => {
                proof {
                    Self::lemma_models_push(list@, other);
                }
                list.push(other);
                *self = Match::And(list);
            },
            _ => {
                let ghost first = taken;
                let mut list = Vec::new();
                list.push(taken);
                list.push(other);
                assert(Self::models(list@) =~= seq![first@, other@]);
                *self = Match::And(list);
            },
        }
    }

    /// Joins this condition with `other` in an `Or`. `Any` and `Not(Any)` are
    /// replaced by `other`, an `Or` list grows by `other`, and anything else
    /// becomes the `Or` list of itself and `other`.
    ///
    /// On `Any` this is not the disjunction: `Any` matches every value, and
    /// what replaces it may not. The operator `|` keeps `Any` in the list.
    pub fn or(&mut self, other: Match<T>)
        ensures
            final(self)@ == old(self)@.or_with(other@),
    {
        let never = self.is_never();
        let mut taken = Match::Any;
        core::mem::swap(self, &mut taken);
        if never {
            *self = other;
            return ;
        }
        match taken {
            Match::Any => {
                *self = other;
            },
            Match::Or(mut list) => {
                proof {
                    Self::lemma_models_push(list@, other);
                }
                list.push(other);
                *self = Match::Or(list);
            },
            _ => {
                let ghost first = taken;
                let mut list = Vec::new();
                list.push(taken);
                list.push(other);
                assert(Self::models(list@) =~= seq![first@, other@]);
                *self = Match::Or(list);
            },
        }
    }

    /// Whether the condition is `Not(Any)`, which never matches.
    fn is_never(&self) -> (never: bool)
        ensures
            never == (self@ == Formula::<Comparison<T>>::never()),
    {
        match self {
            Match::Not(inner) => {
                assert(inner.model() is Any <==> **inner is Any);
                match &**inner {
                    Match::Any => true,
                    _ => false,
                }
            },
            _ => false,
        }
    }

    /// Joins the values so that a value matches if it equals one of them.
    pub fn from_iter(values: Vec<T>) -> (condition: Self)
        ensures
            condition@
                == Formula::Or(values@.map_values(|x: T| Formula::Leaf(Comparison::EqualTo(x)))),
    {
        let ghost all = values@;
        let mut list: Vec<Match<T>> = Vec::new();
        for value in it: values.into_iter()
            invariant
                it.seq() == all,
                list.len() == it.index(),
                forall|i: int| 0 <= i < list.len() ==> list[i] == Match::EqualTo(all[i]),
        {
            list.push(Match::EqualTo(value));
        }
        assert(Self::models(list@) =~= all.map_values(|x: T| Formula::Leaf(Comparison::EqualTo(x))));
        Match::Or(list)
    }

    /// Applies `f` to every value of the condition and keeps its shape: each
    /// combinator stays where it is, and each list keeps its order.
    pub fn map<F, U>(self, f: F) -> (mapped: Match<U>) where F: Copy + Fn(T) -> U
        requires
            self@.all_leaves(Comparison::each(may_call(f))),
        ensures
            self@.related(mapped@, Comparison::pairs(call_gives(f))),
        decreases self,
    {
        match self {
            Match::And(list) => {
                proof {
                    lemma_members_all_leaves(self@, Comparison::each(may_call(f)));
                    assert(self@.members() == Self::models(list@));
                }
                let images = Self::map_list(list, f);
                let mapped = Match::And(images);
                assert(mapped@.members() == Match::<U>::models(images@));
                assert(self@.related(mapped@, Comparison::pairs(call_gives(f))));
                mapped
            },
            Match::Any => {
                let mapped = Match::Any;
                assert(self@.related(mapped@, Comparison::pairs(call_gives(f))));
                mapped
            },
            Match::GreaterThan(x) => {
                let mapped = Match::GreaterThan(f(x));
                assert(self@.related(mapped@, Comparison::pairs(call_gives(f))));
                mapped
            },
            Match::InRange(low, high) => {
                let mapped = Match::InRange(f(low), f(high));
                assert(self@.related(mapped@, Comparison::pairs(call_gives(f))));
                mapped
            },
            Match::LessThan(x) => {
                let mapped = Match::LessThan(f(x));
                assert(self@.related(mapped@, Comparison::pairs(call_gives(f))));
                mapped
            },
            Match::Not(inner) => {
                let mapped = Match::Not(Box::new((*inner).map(f)));
                assert(self@.related(mapped@, Comparison::pairs(call_gives(f))));
                mapped
            },
            Match::Or(list) => {
                proof {
                    lemma_members_all_leaves(self@, Comparison::each(may_call(f)));
                    assert(self@.members() == Self::models(list@));
                }
                let images = Self::map_list(list, f);
                let mapped = Match::Or(images);
                assert(mapped@.members() == Match::<U>::models(images@));
                assert(self@.related(mapped@, Comparison::pairs(call_gives(f))));
                mapped
            },
            Match::EqualTo(x) => {
                let mapped = Match::EqualTo(f(x));
                assert(self@.related(mapped@, Comparison::pairs(call_gives(f))));
                mapped
            },
        }
    }

    fn map_list<F, U>(list: Vec<Match<T>>, f: F) -> (mapped: Vec<Match<U>>) where
        F: Copy + Fn(T) -> U,

        requires
            forall|i: int|
                0 <= i < list.len()
                    ==> (#[trigger] Self::models(list@)[i]).all_leaves(Comparison::each(may_call(f))),
        ensures
            mapped.len() == list.len(),
            forall|i: int|
                0 <= i < list.len() ==> (#[trigger] Self::models(list@)[i]).related(
                    Match::<U>::models(mapped@)[i],
                    Comparison::pairs(call_gives(f)),
                ),
        decreases list,
    {
        let ghost whole = list;
        let mut mapped: Vec<Match<U>> = Vec::new();
        for item in it: list.into_iter()
            invariant
                it.seq() == whole@,
                mapped.len() == it.index(),
                forall|i: int|
                    0 <= i < whole.len()
                        ==> (#[trigger] Self::models(whole@)[i]).all_leaves(Comparison::each(may_call(f))),
                forall|i: int|
                    0 <= i < mapped.len() ==> (#[trigger] Self::models(whole@)[i]).related(
                        Match::<U>::models(mapped@)[i],
                        Comparison::pairs(call_gives(f)),
                    ),
        {
            let ghost at = it.index() as int;
            let ghost before = mapped@;
            assert(item == whole[at]);
            assert(Self::models(whole@)[at] == item@);
            let image = item.map(f);
            mapped.push(image);
            assert forall|i: int| 0 <= i < mapped.len()
                implies (#[trigger] Self::models(whole@)[i]).related(
                Match::<U>::models(mapped@)[i],
                Comparison::pairs(call_gives(f)),
            ) by {
                if i < at {
                    assert(Match::<U>::models(mapped@)[i] == Match::<U>::models(before)[i]);
                }
            }
        }
        mapped
    }

    /// As `map`, on a borrowed condition and with a function of borrowed
    /// values.
    pub fn map_ref<F, U>(&self, f: F) -> (mapped: Match<U>) where F: Copy + Fn(&T) -> U
        requires
            self@.all_leaves(Comparison::each(may_call_ref(f))),
        ensures
            self@.related(mapped@, Comparison::pairs(call_ref_gives(f))),
        decreases self,
    {
        match self {
            Match::And(list) => {
                proof {
                    lemma_members_all_leaves(self@, Comparison::each(may_call_ref(f)));
                    assert(self@.members() == Self::models(list@));
                }
                let images = Self::map_ref_list(list, f);
                let mapped = Match::And(images);
                assert(mapped@.members() == Match::<U>::models(images@));
                assert(self@.related(mapped@, Comparison::pairs(call_ref_gives(f))));
                mapped
            },
            Match::Any => {
                let mapped = Match::Any;
                assert(self@.related(mapped@, Comparison::pairs(call_ref_gives(f))));
                mapped
            },
            Match::GreaterThan(x) => {
                let mapped = Match::GreaterThan(f(x));
                assert(self@.related(mapped@, Comparison::pairs(call_ref_gives(f))));
                mapped
            },
            Match::InRange(low, high) => {
                let mapped = Match::InRange(f(low), f(high));
                assert(self@.related(mapped@, Comparison::pairs(call_ref_gives(f))));
                mapped
            },
            Match::LessThan(x) => {
                let mapped = Match::LessThan(f(x));
                assert(self@.related(mapped@, Comparison::pairs(call_ref_gives(f))));
                mapped
            },
            Match::Not(inner) => {
                let mapped = Match::Not(Box::new(inner.map_ref(f)));
                assert(self@.related(mapped@, Comparison::pairs(call_ref_gives(f))));
                mapped
            },
            Match::Or(list) => {
                proof {
                    lemma_members_all_leaves(self@, Comparison::each(may_call_ref(f)));
                    assert(self@.members() == Self::models(list@));
                }
                let images = Self::map_ref_list(list, f);
                let mapped = Match::Or(images);
                assert(mapped@.members() == Match::<U>::models(images@));
                assert(self@.related(mapped@, Comparison::pairs(call_ref_gives(f))));
                mapped
            },
            Match::EqualTo(x) => {
                let mapped = Match::EqualTo(f(x));
                assert(self@.related(mapped@, Comparison::pairs(call_ref_gives(f))));
                mapped
            },
        }
    }

    fn map_ref_list<F, U>(list: &Vec<Match<T>>, f: F) -> (mapped: Vec<Match<U>>) where
        F: Copy + Fn(&T) -> U,

        requires
            forall|i: int|
                0 <= i < list.len()
                    ==> (#[trigger] Self::models(list@)[i]).all_leaves(Comparison::each(may_call_ref(f))),
        ensures
            mapped.len() == list.len(),
            forall|i: int|
                0 <= i < list.len() ==> (#[trigger] Self::models(list@)[i]).related(
                    Match::<U>::models(mapped@)[i],
                    Comparison::pairs(call_ref_gives(f)),
                ),
        decreases list,
    {
        let mut mapped: Vec<Match<U>> = Vec::new();
        let mut at: usize = 0;
        while at < list.len()
            invariant
                at <= list.len(),
                mapped.len() == at,
                forall|i: int|
                    0 <= i < list.len()
                        ==> (#[trigger] Self::models(list@)[i]).all_leaves(Comparison::each(may_call_ref(f))),
                forall|i: int|
                    0 <= i < mapped.len() ==> (#[trigger] Self::models(list@)[i]).related(
                        Match::<U>::models(mapped@)[i],
                        Comparison::pairs(call_ref_gives(f)),
                    ),
            decreases list.len() - at,
        {
            let ghost before = mapped@;
            assert(Self::models(list@)[at as int] == list[at as int]@);
            let image = list[at].map_ref(f);
            mapped.push(image);
            assert forall|i: int| 0 <= i < mapped.len()
                implies (#[trigger] Self::models(list@)[i]).related(
                Match::<U>::models(mapped@)[i],
                Comparison::pairs(call_ref_gives(f)),
            ) by {
                if i < at {
                    assert(Match::<U>::models(mapped@)[i] == Match::<U>::models(before)[i]);
                }
            }
            at += 1;
        }
        mapped
    }

    /// Replaces every value by what `exchange` gives for it, in place: the
    /// shape of the condition stays. This is `map` with a function that
    /// converts an amount of money.
    pub fn exchange_mut_with<F>(&mut self, exchange: F) where F: Copy + Fn(T) -> T
        requires
            old(self)@.all_leaves(Comparison::each(may_call(exchange))),
        ensures
            old(self)@.related(final(self)@, Comparison::pairs(call_gives(exchange))),
    {
        let mut taken = Match::Any;
        core::mem::swap(self, &mut taken);
        *self = taken.map(exchange);
    }
}

impl<T: Copy> Match<T> {
    /// As `map`, on a borrowed condition whose values are copied out.
    pub fn map_copied<F, U>(&self, f: F) -> (mapped: Match<U>) where F: Copy + Fn(T) -> U
        requires
            self@.all_leaves(Comparison::each(may_call(f))),
        ensures
            self@.related(mapped@, Comparison::pairs(call_gives(f))),
        decreases self,
    {
        match self {
            Match::And(list) => {
                proof {
                    lemma_members_all_leaves(self@, Comparison::each(may_call(f)));
                    assert(self@.members() == Self::models(list@));
                }
                let images = Self::map_copied_list(list, f);
                let mapped = Match::And(images);
                assert(mapped@.members() == Match::<U>::models(images@));
                assert(self@.related(mapped@, Comparison::pairs(call_gives(f))));
                mapped
            },
            Match::Any => {
                let mapped = Match::Any;
                assert(self@.related(mapped@, Comparison::pairs(call_gives(f))));
                mapped
            },
            Match::GreaterThan(x) => {
                let mapped = Match::GreaterThan(f(*x));
                assert(self@.related(mapped@, Comparison::pairs(call_gives(f))));
                mapped
            },
            Match::InRange(low, high) => {
                let mapped = Match::InRange(f(*low), f(*high));
                assert(self@.related(mapped@, Comparison::pairs(call_gives(f))));
                mapped
            },
            Match::LessThan(x) => {
                let mapped = Match::LessThan(f(*x));
                assert(self@.related(mapped@, Comparison::pairs(call_gives(f))));
                mapped
            },
            Match::Not(inner) => {
                let mapped = Match::Not(Box::new(inner.map_copied(f)));
                assert(self@.related(mapped@, Comparison::pairs(call_gives(f))));
                mapped
            },
            Match::Or(list) => {
                proof {
                    lemma_members_all_leaves(self@, Comparison::each(may_call(f)));
                    assert(self@.members() == Self::models(list@));
                }
                let images = Self::map_copied_list(list, f);
                let mapped = Match::Or(images);
                assert(mapped@.members() == Match::<U>::models(images@));
                assert(self@.related(mapped@, Comparison::pairs(call_gives(f))));
                mapped
            },
            Match::EqualTo(x) => {
                let mapped = Match::EqualTo(f(*x));
                assert(self@.related(mapped@, Comparison::pairs(call_gives(f))));
                mapped
            },
        }
    }

    fn map_copied_list<F, U>(list: &Vec<Match<T>>, f: F) -> (mapped: Vec<Match<U>>) where
        F: Copy + Fn(T) -> U,

        requires
            forall|i: int|
                0 <= i < list.len()
                    ==> (#[trigger] Self::models(list@)[i]).all_leaves(Comparison::each(may_call(f))),
        ensures
            mapped.len() == list.len(),
            forall|i: int|
                0 <= i < list.len() ==> (#[trigger] Self::models(list@)[i]).related(
                    Match::<U>::models(mapped@)[i],
                    Comparison::pairs(call_gives(f)),
                ),
        decreases list,
    {
        let mut mapped: Vec<Match<U>> = Vec::new();
        let mut at: usize = 0;
        while at < list.len()
            invariant
                at <= list.len(),
                mapped.len() == at,
                forall|i: int|
                    0 <= i < list.len()
                        ==> (#[trigger] Self::models(list@)[i]).all_leaves(Comparison::each(may_call(f))),
                forall|i: int|
                    0 <= i < mapped.len() ==> (#[trigger] Self::models(list@)[i]).related(
                        Match::<U>::models(mapped@)[i],
                        Comparison::pairs(call_gives(f)),
                    ),
            decreases list.len() - at,
        {
            let ghost before = mapped@;
            assert(Self::models(list@)[at as int] == list[at as int]@);
            let image = list[at].map_copied(f);
            mapped.push(image);
            assert forall|i: int| 0 <= i < mapped.len()
                implies (#[trigger] Self::models(list@)[i]).related(
                Match::<U>::models(mapped@)[i],
                Comparison::pairs(call_gives(f)),
            ) by {
                if i < at {
                    assert(Match::<U>::models(mapped@)[i] == Match::<U>::models(before)[i]);
                }
            }
            at += 1;
        }
        mapped
    }
}

impl<T: Clone> Match<T> {
    fn clone_list(list: &Vec<Match<T>>) -> (copies: Vec<Match<T>>)
        ensures
            copies.len() == list.len(),
            forall|i: int|
                0 <= i < list.len() ==> (#[trigger] Self::models(list@)[i]).related(
                    Self::models(copies@)[i],
                    Comparison::pairs(clone_gives::<T>()),
                ),
        decreases list,
    {
        let mut copies: Vec<Match<T>> = Vec::new();
        let mut at: usize = 0;
        while at < list.len()
            invariant
                at <= list.len(),
                copies.len() == at,
                forall|i: int|
                    0 <= i < copies.len() ==> (#[trigger] Self::models(list@)[i]).related(
                        Self::models(copies@)[i],
                        Comparison::pairs(clone_gives::<T>()),
                    ),
            decreases list.len() - at,
        {
            let ghost before = copies@;
            assert(Self::models(list@)[at as int] == list[at as int]@);
            let copy = list[at].clone();
            copies.push(copy);
            assert forall|i: int| 0 <= i < copies.len()
                implies (#[trigger] Self::models(list@)[i]).related(
                Self::models(copies@)[i],
                Comparison::pairs(clone_gives::<T>()),
            ) by {
                if i < at {
                    assert(Self::models(copies@)[i] == Self::models(before)[i]);
                }
            }
            at += 1;
        }
        copies
    }
}

impl<T: Clone> Clone for Match<T> {
    /// A condition of the same shape whose values are clones of the values
    /// of this one.
    fn clone(&self) -> (copy: Match<T>)
        ensures
            self@.related(copy@, Comparison::pairs(clone_gives::<T>())),
        decreases self,
    {
        match self {
            Match::And(list) => {
                let copies = Self::clone_list(list);
                let copy = Match::And(copies);
                assert(self@.members() == Self::models(list@));
                assert(copy@.members() == Self::models(copies@));
                assert(self@.related(copy@, Comparison::pairs(clone_gives::<T>())));
                copy
            },
            Match::Any => {
                let copy = Match::Any;
                assert(self@.related(copy@, Comparison::pairs(clone_gives::<T>())));
                copy
            },
            Match::GreaterThan(x) => {
                let copy = Match::GreaterThan(x.clone());
                assert(self@.related(copy@, Comparison::pairs(clone_gives::<T>())));
                copy
            },
            Match::InRange(low, high) => {
                let copy = Match::InRange(low.clone(), high.clone());
                assert(self@.related(copy@, Comparison::pairs(clone_gives::<T>())));
                copy
            },
            Match::LessThan(x) => {
                let copy = Match::LessThan(x.clone());
                assert(self@.related(copy@, Comparison::pairs(clone_gives::<T>())));
                copy
            },
            Match::Not(inner) => {
                let copy = Match::Not(Box::new((&**inner).clone()));
                assert(self@.related(copy@, Comparison::pairs(clone_gives::<T>())));
                copy
            },
            Match::Or(list) => {
                let copies = Self::clone_list(list);
                let copy = Match::Or(copies);
                assert(self@.members() == Self::models(list@));
                assert(copy@.members() == Self::models(copies@));
                assert(self@.related(copy@, Comparison::pairs(clone_gives::<T>())));
                copy
            },
            Match::EqualTo(x) => {
                let copy = Match::EqualTo(x.clone());
                assert(self@.related(copy@, Comparison::pairs(clone_gives::<T>())));
                copy
            },
        }
    }
}

impl<T> core::ops::BitAndAssign for Match<T> {
    /// `self &= rhs` is `and(rhs)`.
    fn bitand_assign(&mut self, rhs: Match<T>)
        ensures
            final(self)@ == old(self)@.and_with(rhs@),
    {
        self.and(rhs);
    }
}

impl<T> core::ops::BitOrAssign for Match<T> {
    /// `self |= rhs` makes `self` the disjunction. `Not(Any)`, which never
    /// matches, is replaced by `rhs`, an `Or` list grows by `rhs`, and anything
    /// else, `Any` too, becomes the `Or` list of itself and `rhs`.
    fn bitor_assign(&mut self, rhs: Match<T>)
        ensures
            final(self)@ == old(self)@.either_with(rhs@),
    {
        let never = self.is_never();
        let mut taken = Match::Any;
        core::mem::swap(self, &mut taken);
        if never {
            *self = rhs;
            return ;
        }
        match taken {
            Match::Or(mut list) => {
                proof {
                    Self::lemma_models_push(list@, rhs);
                }
                list.push(rhs);
                *self = Match::Or(list);
            },
            _ => {
                let ghost first = taken;
                let mut list = Vec::new();
                list.push(taken);
                list.push(rhs);
                assert(Self::models(list@) =~= seq![first@, rhs@]);
                *self = Match::Or(list);
            },
        }
    }
}

impl<T> core::ops::BitAnd for Match<T> {
    type Output = Match<T>;

    /// `self & rhs` is `self` after `self &= rhs`.
    fn bitand(self, rhs: Match<T>) -> (both: Match<T>)
        ensures
            both@ == self@.and_with(rhs@),
    {
        let mut both = self;
        core::ops::BitAndAssign::bitand_assign(&mut both, rhs);
        both
    }
}

/// A contract cannot build the list that the operator returns: what it
/// returns is stated over views by the `ensures` of `bitand`.
impl<T> vstd::std_specs::ops::BitAndSpecImpl for Match<T> {
    open spec fn obeys_bitand_spec() -> bool {
        false
    }

    open spec fn bitand_req(self, rhs: Match<T>) -> bool {
        true
    }

    open spec fn bitand_spec(self, rhs: Match<T>) -> Match<T> {
        rhs
    }
}

impl<T> core::ops::BitOr for Match<T> {
    type Output = Match<T>;

    /// `self | rhs` is `self` after `self |= rhs`.
    fn bitor(self, rhs: Match<T>) -> (either: Match<T>)
        ensures
            either@ == self@.either_with(rhs@),
    {
        let mut either = self;
        core::ops::BitOrAssign::bitor_assign(&mut either, rhs);
        either
    }
}

/// A contract cannot build the list that the operator returns: what it
/// returns is stated over views by the `ensures` of `bitor`.
impl<T> vstd::std_specs::ops::BitOrSpecImpl for Match<T> {
    open spec fn obeys_bitor_spec() -> bool {
        false
    }

    open spec fn bitor_req(self, rhs: Match<T>) -> bool {
        true
    }

    open spec fn bitor_spec(self, rhs: Match<T>) -> Match<T> {
        rhs
    }
}

impl<T> core::ops::Not for Match<T> {
    type Output = Match<T>;

    /// Wraps the condition in `Not`; a double negation stays as written.
    fn not(self) -> (negation: Match<T>)
        ensures
            negation@ == self@.negated(),
    {
        Match::Not(Box::new(self))
    }
}

/// A contract cannot build the box that the operator returns: what it
/// returns is stated over views by the `ensures` of `not`.
impl<T> vstd::std_specs::ops::NotSpecImpl for Match<T> {
    open spec fn obeys_not_spec() -> bool {
        false
    }

    open spec fn not_req(self) -> bool {
        true
    }

    open spec fn not_spec(self) -> Match<T> {
        self
    }
}

impl<T: Clone> core::ops::BitXorAssign for Match<T> {
    /// `self ^= rhs` is `(self | rhs) & !(self & rhs)`, built with the operators
    /// `|`, `&` and `!`; the second pair of operands are clones of the first.
    /// No condition is treated apart.
    fn bitxor_assign(&mut self, rhs: Match<T>)
        ensures
            exists|left: Formula<Comparison<T>>, right: Formula<Comparison<T>>|
                {
                    &&& old(self)@.related(left, Comparison::pairs(clone_gives::<T>()))
                    &&& rhs@.related(right, Comparison::pairs(clone_gives::<T>()))
                    &&& final(self)@ == old(self)@.xor_with_copies(rhs@, left, right)
                },
            clone_is_exact::<T>() ==> final(self)@ == old(self)@.xor_with(rhs@),
    {
        let mut either = Match::Any;
        core::mem::swap(self, &mut either);
        let mut both = either.clone();
        let right = rhs.clone();
        let ghost first = either@;
        let ghost left_copy = both@;
        let ghost right_copy = right@;
        core::ops::BitAndAssign::bitand_assign(&mut both, right);
        core::ops::BitOrAssign::bitor_assign(&mut either, rhs);
        core::ops::BitAndAssign::bitand_assign(&mut either, Match::Not(Box::new(both)));
        *self = either;
        proof {
            assert(self@ == first.xor_with_copies(rhs@, left_copy, right_copy));
            if clone_is_exact::<T>() {
                law_related_is_equal(first, left_copy, Comparison::pairs(clone_gives::<T>()));
                law_related_is_equal(rhs@, right_copy, Comparison::pairs(clone_gives::<T>()));
            }
        }
    }
}

impl<T: Clone> core::ops::BitXor for Match<T> {
    type Output = Match<T>;

    /// `self ^ rhs` is `self` after `self ^= rhs`.
    fn bitxor(self, rhs: Match<T>) -> (one: Match<T>)
        ensures
            exists|left: Formula<Comparison<T>>, right: Formula<Comparison<T>>|
                {
                    &&& self@.related(left, Comparison::pairs(clone_gives::<T>()))
                    &&& rhs@.related(right, Comparison::pairs(clone_gives::<T>()))
                    &&& one@ == self@.xor_with_copies(rhs@, left, right)
                },
            clone_is_exact::<T>() ==> one@ == self@.xor_with(rhs@),
    {
        let mut one = self;
        core::ops::BitXorAssign::bitxor_assign(&mut one, rhs);
        one
    }
}

/// A contract cannot build the lists that the operator returns: what it
/// returns is stated over views by the `ensures` of `bitxor`.
impl<T: Clone> vstd::std_specs::ops::BitXorSpecImpl for Match<T> {
    open spec fn obeys_bitxor_spec() -> bool {
        false
    }

    open spec fn bitxor_req(self, rhs: Match<T>) -> bool {
        true
    }

    open spec fn bitxor_spec(self, rhs: Match<T>) -> Match<T> {
        rhs
    }
}

impl<T> Default for Match<T> {
    /// The condition that always matches.
    fn default() -> (condition: Match<T>)
        ensures
            condition == Match::<T>::Any,
    {
        Match::Any
    }
}

impl<T> From<T> for Match<T> {
    /// The condition that a value equals `value`.
    fn from(value: T) -> (condition: Match<T>) {
        Match::EqualTo(value)
    }
}

impl<T> vstd::std_specs::convert::FromSpecImpl<T> for Match<T> {
    open spec fn obeys_from_spec() -> bool {
        true
    }

    open spec fn from_spec(value: T) -> Match<T> {
        Match::EqualTo(value)
    }
}

impl<M> Comparison<M> {
    /// The wire form of the comparison, where `value` writes a value:
    /// `{"equal_to": v}`, `{"greater_than": v}`, `{"less_than": v}`, `{"in_range": [low, high]}`.
    pub open spec fn wire(self, value: spec_fn(M) -> WireForm) -> WireForm {
        match self {
            Comparison::EqualTo(x) => WireForm::Tagged("equal_to"@, Box::new(value(x))),
            Comparison::GreaterThan(x) => WireForm::Tagged("greater_than"@, Box::new(value(x))),
            Comparison::LessThan(x) => WireForm::Tagged("less_than"@, Box::new(value(x))),
            Comparison::InRange(low, high) => WireForm::Tagged(
                "in_range"@,
                Box::new(WireForm::List(seq![value(low), value(high)])),
            ),
        }
    }

    /// The comparison that a wire form is read as at a level, where `value`
    /// reads a value one level below. A known tag decides; a form under no
    /// known tag is read whole as a value, and gives `EqualTo`.
    pub open spec fn read(
        wire: WireForm,
        depth: nat,
        value: spec_fn(WireForm, nat) -> Result<M, DecodeError>,
    ) -> Result<Comparison<M>, DecodeError> {
        let below = (depth - 1) as nat;
        match wire {
            WireForm::Tagged(tag, payload) => {
                if is_word(tag, "equal_to"@) {
                    match value(*payload, below) {
                        Ok(x) => Ok(Comparison::EqualTo(x)),
                        Err(error) => Err(error),
                    }
                } else if is_word(tag, "greater_than"@) {
                    match value(*payload, below) {
                        Ok(x) => Ok(Comparison::GreaterThan(x)),
                        Err(error) => Err(error),
                    }
                } else if is_word(tag, "less_than"@) {
                    match value(*payload, below) {
                        Ok(x) => Ok(Comparison::LessThan(x)),
                        Err(error) => Err(error),
                    }
                } else if is_word(tag, "in_range"@) {
                    match *payload {
                        WireForm::List(items) => if items.len() != 2 {
                            Err(DecodeError::WrongArity)
                        } else {
                            match value(items[0], below) {
                                Ok(low) => match value(items[1], below) {
                                    Ok(high) => Ok(Comparison::InRange(low, high)),
                                    Err(error) => Err(error),
                                },
                                Err(error) => Err(error),
                            }
                        },
                        _ => Err(DecodeError::MalformedTag),
                    }
                } else {
                    Self::read_bare(wire, below, value)
                }
            },
            _ => Self::read_bare(wire, below, value),
        }
    }

    /// The comparison that a form under no known tag is read as: `EqualTo` of
    /// the value that the whole form is.
    pub open spec fn read_bare(
        wire: WireForm,
        below: nat,
        value: spec_fn(WireForm, nat) -> Result<M, DecodeError>,
    ) -> Result<Comparison<M>, DecodeError> {
        match value(wire, below) {
            Ok(x) => Ok(Comparison::EqualTo(x)),
            Err(error) => Err(error),
        }
    }

    /// Whether the values of the comparison fit one level below `depth`.
    pub open spec fn fits(self, depth: nat, value: spec_fn(M, nat) -> bool) -> bool {
        depth > 0 && match self {
            Comparison::EqualTo(x) => value(x, (depth - 1) as nat),
            Comparison::GreaterThan(x) => value(x, (depth - 1) as nat),
            Comparison::LessThan(x) => value(x, (depth - 1) as nat),
            Comparison::InRange(low, high) => value(low, (depth - 1) as nat)
                && value(high, (depth - 1) as nat),
        }
    }

    /// `wire`, as a function on comparisons.
    pub open spec fn writer(value: spec_fn(M) -> WireForm) -> spec_fn(Comparison<M>) -> WireForm {
        |test: Comparison<M>| test.wire(value)
    }

    /// `read`, as a function on wire forms.
    pub open spec fn reader(value: spec_fn(WireForm, nat) -> Result<M, DecodeError>) -> spec_fn(
        WireForm,
        nat,
    ) -> Result<Comparison<M>, DecodeError> {
        |wire: WireForm, depth: nat| Self::read(wire, depth, value)
    }

    /// `fits`, as a function on comparisons.
    pub open spec fn fitter(value: spec_fn(M, nat) -> bool) -> spec_fn(Comparison<M>, nat) -> bool {
        |test: Comparison<M>, depth: nat| test.fits(depth, value)
    }

    /// The tags of the comparisons are in lower case, no two are the same,
    /// and none is the word or the tag of a combinator.
    proof fn lemma_tags()
        ensures
            is_word("equal_to"@, "equal_to"@),
            is_word("greater_than"@, "greater_than"@),
            is_word("less_than"@, "less_than"@),
            is_word("in_range"@, "in_range"@),
            "equal_to"@ != "greater_than"@,
            "equal_to"@ != "less_than"@,
            "equal_to"@ != "in_range"@,
            "equal_to"@ != tag_not(),
            "equal_to"@ != tag_and(),
            "equal_to"@ != tag_or(),
            "greater_than"@ != "less_than"@,
            "greater_than"@ != "in_range"@,
            "greater_than"@ != tag_not(),
            "greater_than"@ != tag_and(),
            "greater_than"@ != tag_or(),
            "less_than"@ != "in_range"@,
            "less_than"@ != tag_not(),
            "less_than"@ != tag_and(),
            "less_than"@ != tag_or(),
            "in_range"@ != tag_not(),
            "in_range"@ != tag_and(),
            "in_range"@ != tag_or(),
    {
        reveal_strlit("equal_to");
        reveal_strlit("greater_than");
        reveal_strlit("less_than");
        reveal_strlit("in_range");
        reveal_strlit("not");
        reveal_strlit("and");
        reveal_strlit("or");
        lemma_lower_is_word("equal_to"@);
        lemma_lower_is_word("greater_than"@);
        lemma_lower_is_word("less_than"@);
        lemma_lower_is_word("in_range"@);
        assert("equal_to"@.len() != "greater_than"@.len());
        assert("equal_to"@.len() != "less_than"@.len());
        assert("equal_to"@[0] != "in_range"@[0]);
        assert("equal_to"@.len() != "not"@.len());
        assert("equal_to"@.len() != "and"@.len());
        assert("equal_to"@.len() != "or"@.len());
        assert("greater_than"@.len() != "less_than"@.len());
        assert("greater_than"@.len() != "in_range"@.len());
        assert("greater_than"@.len() != "not"@.len());
        assert("greater_than"@.len() != "and"@.len());
        assert("greater_than"@.len() != "or"@.len());
        assert("less_than"@.len() != "in_range"@.len());
        assert("less_than"@.len() != "not"@.len());
        assert("less_than"@.len() != "and"@.len());
        assert("less_than"@.len() != "or"@.len());
        assert("in_range"@.len() != "not"@.len());
        assert("in_range"@.len() != "and"@.len());
        assert("in_range"@.len() != "or"@.len());
    }

    /// No comparison is written as a combinator is.
    proof fn lemma_wire_is_no_combinator(self, value: spec_fn(M) -> WireForm)
        ensures
            !is_combinator_form(self.wire(value)),
    {
        Self::lemma_tags();
    }

    /// A comparison that was written is read back as it was, where its
    /// values are.
    proof fn lemma_round_trip(
        self,
        depth: nat,
        write: spec_fn(M) -> WireForm,
        read: spec_fn(WireForm, nat) -> Result<M, DecodeError>,
        fit: spec_fn(M, nat) -> bool,
    )
        requires
            self.fits(depth, fit),
            forall|x: M, d: nat| #[trigger] fit(x, d)
                ==> read(write(x), d) == Ok::<M, DecodeError>(x),
        ensures
            Self::read(self.wire(write), depth, read) == Ok::<Comparison<M>, DecodeError>(self),
    {
        Self::lemma_tags();
    }
}

impl<T: Wired> Match<T> {
    /// How a comparison is written, where `T` writes the values.
    pub open spec fn leaf_writer() -> spec_fn(Comparison<T::Model>) -> WireForm {
        Comparison::writer(writer::<T>())
    }

    /// How a comparison is read, where `T` reads the values.
    pub open spec fn leaf_reader() -> spec_fn(WireForm, nat)
        -> Result<Comparison<T::Model>, DecodeError> {
        Comparison::reader(reader::<T>())
    }

    /// Whether a comparison fits at a level, where `T` says whether the values
    /// fit below it.
    pub open spec fn leaf_fitter() -> spec_fn(Comparison<T::Model>, nat) -> bool {
        Comparison::fitter(fitter::<T>())
    }

    /// The values that the conditions of a list stand for, in order.
    pub open spec fn deeps(list: Seq<Match<T>>) -> Seq<Formula<Comparison<T::Model>>> {
        Seq::new(list.len(), |i: int| list[i].deep())
    }

    /// A list stands for the list of what its members stand for.
    proof fn lemma_deep_members(list: Seq<Match<T>>)
        ensures
            Formula::And(Self::models(list)).map_leaves(Comparison::on(deep_of::<T>()))
                == Formula::And(Self::deeps(list)),
            Formula::Or(Self::models(list)).map_leaves(Comparison::on(deep_of::<T>()))
                == Formula::Or(Self::deeps(list)),
    {
        let g = Comparison::on(deep_of::<T>());
        assert(Formula::And(Self::models(list)).map_leaves(g)->And_0 =~= Self::deeps(list));
        assert(Formula::Or(Self::models(list)).map_leaves(g)->Or_0 =~= Self::deeps(list));
    }

    fn encode_list(list: &Vec<Self>) -> (wires: Vec<Wire>)
        ensures
            Wire::forms(wires@) == formula_wires(Self::deeps(list@), Self::leaf_writer()),
        decreases list,
    {
        let mut wires: Vec<Wire> = Vec::new();
        let mut at: usize = 0;
        while at < list.len()
            invariant
                at <= list.len(),
                wires.len() == at,
                forall|i: int|
                    0 <= i < at ==> (#[trigger] wires[i])@ == formula_wire(
                        list[i].deep(),
                        Self::leaf_writer(),
                    ),
            decreases list.len() - at,
        {
            let wire = list[at].encode();
            wires.push(wire);
            at += 1;
        }
        assert(Wire::forms(wires@) =~= formula_wires(Self::deeps(list@), Self::leaf_writer()));
        wires
    }

    fn decode_list(items: &Vec<Wire>, depth: usize) -> (read: Result<Vec<Self>, DecodeError>)
        ensures
            match read {
                Ok(list) => formula_reads(Wire::forms(items@), depth as nat, Self::leaf_reader()) == Ok::<
                    Seq<Formula<Comparison<T::Model>>>,
                    DecodeError,
                >(Self::deeps(list@)),
                Err(error) => formula_reads(Wire::forms(items@), depth as nat, Self::leaf_reader()) == Err::<
                    Seq<Formula<Comparison<T::Model>>>,
                    DecodeError,
                >(error),
            },
        decreases items,
    {
        let ghost forms = Wire::forms(items@);
        let ghost how = Self::leaf_reader();
        let mut list: Vec<Self> = Vec::new();
        let mut at: usize = 0;
        assert(forms.take(0) =~= Seq::empty());
        assert(Self::deeps(list@) =~= Seq::empty());
        while at < items.len()
            invariant
                at <= items.len(),
                forms == Wire::forms(items@),
                how == Self::leaf_reader(),
                formula_reads(forms.take(at as int), depth as nat, how) == Ok::<
                    Seq<Formula<Comparison<T::Model>>>,
                    DecodeError,
                >(Self::deeps(list@)),
            decreases items.len() - at,
        {
            let ghost before = Self::deeps(list@);
            proof {
                assert(forms.take(at + 1).drop_last() =~= forms.take(at as int));
                assert(forms.take(at + 1).last() == items[at as int]@);
            }
            match Self::decode_within(&items[at], depth) {
                Ok(member) => {
                    list.push(member);
                    assert(Self::deeps(list@) =~= before.push(member.deep()));
                },
                Err(error) => {
                    proof {
                        Self::lemma_reads_fail(forms, at + 1, depth as nat, error);
                    }
                    return Err(error);
                },
            }
            at += 1;
        }
        assert(forms.take(at as int) =~= forms);
        Ok(list)
    }

    /// Where the reading of a part of a list fails, the reading of the list
    /// fails for the same reason.
    proof fn lemma_reads_fail(forms: Seq<WireForm>, n: int, depth: nat, error: DecodeError)
        requires
            0 <= n <= forms.len(),
            formula_reads(forms.take(n), depth, Self::leaf_reader())
                == Err::<Seq<Formula<Comparison<T::Model>>>, DecodeError>(error),
        ensures
            formula_reads(forms, depth, Self::leaf_reader())
                == Err::<Seq<Formula<Comparison<T::Model>>>, DecodeError>(error),
        decreases forms.len() - n,
    {
        if n < forms.len() {
            assert(forms.take(n + 1).drop_last() =~= forms.take(n));
            Self::lemma_reads_fail(forms, n + 1, depth, error);
        } else {
            assert(forms.take(n) =~= forms);
        }
    }

    /// Reads a form under no known tag: the whole form as a value.
    fn decode_bare(wire: &Wire, depth: usize) -> (read: Result<Self, DecodeError>)
        requires
            depth > 0,
        ensures
            match read {
                Ok(value) => value.deep() matches Formula::Leaf(test) && Comparison::read_bare(
                    wire@,
                    (depth - 1) as nat,
                    reader::<T>(),
                ) == Ok::<Comparison<T::Model>, DecodeError>(test),
                Err(error) => Comparison::read_bare(wire@, (depth - 1) as nat, reader::<T>())
                    == Err::<
                    Comparison<T::Model>,
                    DecodeError,
                >(error),
            },
    {
        match T::decode_within(wire, depth - 1) {
            Ok(x) => {
                let value = Match::EqualTo(x);
                assert(value.deep() == Formula::Leaf(Comparison::EqualTo(x.deep())));
                Ok(value)
            },
            Err(error) => Err(error),
        }
    }
}

impl<T: Wired> Wired for Match<T> {
    type Model = Formula<Comparison<T::Model>>;

    open spec fn deep(&self) -> Formula<Comparison<T::Model>> {
        self@.map_leaves(Comparison::on(deep_of::<T>()))
    }

    open spec fn encoding(value: Formula<Comparison<T::Model>>) -> WireForm {
        formula_wire(value, Self::leaf_writer())
    }

    open spec fn decoding(wire: WireForm, depth: nat)
        -> Result<Formula<Comparison<T::Model>>, DecodeError> {
        formula_read(wire, depth, Self::leaf_reader())
    }

    open spec fn within(value: Formula<Comparison<T::Model>>, depth: nat) -> bool {
        formula_within(value, depth, Self::leaf_fitter())
    }

    proof fn law_round_trip(value: Formula<Comparison<T::Model>>, depth: nat) {
        assert forall|test: Comparison<T::Model>| !is_combinator_form(#[trigger] Self::leaf_writer()(test)) by {
            test.lemma_wire_is_no_combinator(writer::<T>());
        }
        assert forall|test: Comparison<T::Model>, d: nat| d > 0
            && #[trigger] Self::leaf_fitter()(test, d) implies Self::leaf_reader()(
            Self::leaf_writer()(test),
            d,
        ) == Ok::<Comparison<T::Model>, DecodeError>(test) by {
            assert forall|x: T::Model, e: nat| #[trigger] fitter::<T>()(x, e) implies reader::<T>()(
                writer::<T>()(x),
                e,
            ) == Ok::<T::Model, DecodeError>(x) by {
                T::law_round_trip(x, e);
            }
            test.lemma_round_trip(d, writer::<T>(), reader::<T>(), fitter::<T>());
        }
        law_formula_round_trip(value, depth, Self::leaf_writer(), Self::leaf_reader(), Self::leaf_fitter());
    }

    proof fn law_within_grows(value: Formula<Comparison<T::Model>>, depth: nat, more: nat) {
        assert forall|test: Comparison<T::Model>, d: nat, e: nat| #[trigger] Self::leaf_fitter()(test, d) && d <= e implies #[trigger] Self::leaf_fitter()(
            test,
            e,
        ) by {
            assert forall|x: T::Model| #[trigger] fitter::<T>()(x, (d - 1) as nat)
                implies fitter::<T>()(
                x,
                (e - 1) as nat,
            ) by {
                T::law_within_grows(x, (d - 1) as nat, (e - 1) as nat);
            }
        }
        law_formula_within_grows(value, depth, more, Self::leaf_fitter());
    }

    proof fn law_within_some_depth(value: Formula<Comparison<T::Model>>) {
        assert forall|test: Comparison<T::Model>, d: nat, e: nat| #[trigger] Self::leaf_fitter()(test, d) && d <= e implies #[trigger] Self::leaf_fitter()(
            test,
            e,
        ) by {
            assert forall|x: T::Model| #[trigger] fitter::<T>()(x, (d - 1) as nat)
                implies fitter::<T>()(
                x,
                (e - 1) as nat,
            ) by {
                T::law_within_grows(x, (d - 1) as nat, (e - 1) as nat);
            }
        }
        assert forall|test: Comparison<T::Model>| #[trigger] fits_somewhere(test, Self::leaf_fitter()) by {
            match test {
                Comparison::EqualTo(x) => {
                    T::law_within_some_depth(x);
                    let below = choose|below: nat| T::within(x, below);
                    assert(Self::leaf_fitter()(test, below + 1));
                },
                Comparison::GreaterThan(x) => {
                    T::law_within_some_depth(x);
                    let below = choose|below: nat| T::within(x, below);
                    assert(Self::leaf_fitter()(test, below + 1));
                },
                Comparison::LessThan(x) => {
                    T::law_within_some_depth(x);
                    let below = choose|below: nat| T::within(x, below);
                    assert(Self::leaf_fitter()(test, below + 1));
                },
                Comparison::InRange(low, high) => {
                    T::law_within_some_depth(low);
                    T::law_within_some_depth(high);
                    let first = choose|below: nat| T::within(low, below);
                    let second = choose|below: nat| T::within(high, below);
                    let below = if first <= second {
                        second
                    } else {
                        first
                    };
                    T::law_within_grows(low, first, below);
                    T::law_within_grows(high, second, below);
                    assert(Self::leaf_fitter()(test, below + 1));
                },
            }
        }
        law_formula_within_some_depth(value, Self::leaf_fitter());
        let depth = choose|depth: nat| formula_within(value, depth, Self::leaf_fitter());
        assert(Self::within(value, depth));
    }

    fn encode(&self) -> (wire: Wire)
        decreases self,
    {
        match self {
            Match::And(list) => {
                proof {
                    Self::lemma_deep_members(list@);
                }
                let wires = Wire::List(Self::encode_list(list));
                assert(wires@
                    == WireForm::List(formula_wires(Self::deeps(list@), Self::leaf_writer())));
                let wire = Wire::Tagged("and".to_owned(), Box::new(wires));
                assert(self@ == Formula::And(Self::models(list@)));
                assert(self.deep() == Formula::And(Self::deeps(list@)));
                assert(wire@ == Self::encoding(self.deep()));
                wire
            },
            Match::Any => {
                let wire = Wire::Text("any".to_owned());
                assert(wire@ == Self::encoding(self.deep()));
                wire
            },
            Match::GreaterThan(x) => {
                let wire = Wire::Tagged("greater_than".to_owned(), Box::new(x.encode()));
                assert(self.deep() == Formula::Leaf(Comparison::GreaterThan(x.deep())));
                assert(wire@ == Self::encoding(self.deep()));
                wire
            },
            Match::InRange(low, high) => {
                let mut pair: Vec<Wire> = Vec::new();
                pair.push(low.encode());
                pair.push(high.encode());
                assert(Wire::forms(pair@) =~= seq![T::encoding(low.deep()), T::encoding(high.deep())]);
                let both = Wire::List(pair);
                assert(both@
                    == WireForm::List(seq![T::encoding(low.deep()), T::encoding(high.deep())]));
                let wire = Wire::Tagged("in_range".to_owned(), Box::new(both));
                assert(self.deep() == Formula::Leaf(Comparison::InRange(low.deep(), high.deep())));
                assert(wire@ == Comparison::InRange(low.deep(), high.deep()).wire(writer::<T>()));
                assert(wire@ == Self::encoding(self.deep()));
                wire
            },
            Match::LessThan(x) => {
                let wire = Wire::Tagged("less_than".to_owned(), Box::new(x.encode()));
                assert(self.deep() == Formula::Leaf(Comparison::LessThan(x.deep())));
                assert(wire@ == Self::encoding(self.deep()));
                wire
            },
            Match::Not(inner) => {
                let wire = Wire::Tagged("not".to_owned(), Box::new(inner.encode()));
                assert(wire@ == Self::encoding(self.deep()));
                wire
            },
            Match::Or(list) => {
                proof {
                    Self::lemma_deep_members(list@);
                }
                let wires = Wire::List(Self::encode_list(list));
                assert(wires@
                    == WireForm::List(formula_wires(Self::deeps(list@), Self::leaf_writer())));
                let wire = Wire::Tagged("or".to_owned(), Box::new(wires));
                assert(self@ == Formula::Or(Self::models(list@)));
                assert(self.deep() == Formula::Or(Self::deeps(list@)));
                assert(wire@ == Self::encoding(self.deep()));
                wire
            },
            Match::EqualTo(x) => {
                let wire = Wire::Tagged("equal_to".to_owned(), Box::new(x.encode()));
                assert(self.deep() == Formula::Leaf(Comparison::EqualTo(x.deep())));
                assert(wire@ == Self::encoding(self.deep()));
                wire
            },
        }
    }

    fn decode_within(wire: &Wire, depth: usize) -> (read: Result<Self, DecodeError>)
        decreases wire,
    {
        if depth == 0 {
            return Err(DecodeError::TooDeep);
        }
        match wire {
            Wire::Text(text) => {
                if reads_as(text.as_str(), "any") {
                    Ok(Match::Any)
                } else {
                    Self::decode_bare(wire, depth)
                }
            },
            Wire::Tagged(tag, payload) => {
                if reads_as(tag.as_str(), "not") {
                    match Self::decode_within(payload, depth - 1) {
                        Ok(inner) => Ok(Match::Not(Box::new(inner))),
                        Err(error) => Err(error),
                    }
                } else if reads_as(tag.as_str(), "and") {
                    match &**payload {
                        Wire::List(items) => match Self::decode_list(items, depth - 1) {
                            Ok(list) => {
                                proof {
                                    Self::lemma_deep_members(list@);
                                }
                                Ok(Match::And(list))
                            },
                            Err(error) => Err(error),
                        },
                        _ => Err(DecodeError::MalformedTag),
                    }
                } else if reads_as(tag.as_str(), "or") {
                    match &**payload {
                        Wire::List(items) => match Self::decode_list(items, depth - 1) {
                            Ok(list) => {
                                proof {
                                    Self::lemma_deep_members(list@);
                                }
                                Ok(Match::Or(list))
                            },
                            Err(error) => Err(error),
                        },
                        _ => Err(DecodeError::MalformedTag),
                    }
                } else {
                    Self::decode_test(wire, tag, payload, depth)
                }
            },
            _ => Self::decode_bare(wire, depth),
        }
    }
}

impl<T: Wired> Match<T> {
    /// Reads a tagged form that is no combinator as one comparison.
    fn decode_test(wire: &Wire, tag: &String, payload: &Wire, depth: usize) -> (read: Result<
        Self,
        DecodeError,
    >)
        requires
            depth > 0,
            wire@ == WireForm::Tagged(tag@, Box::new(payload@)),
        ensures
            match read {
                Ok(value) => value.deep() matches Formula::Leaf(test) && Comparison::read(
                    wire@,
                    depth as nat,
                    reader::<T>(),
                ) == Ok::<Comparison<T::Model>, DecodeError>(test),
                Err(error) => Comparison::read(wire@, depth as nat, reader::<T>()) == Err::<
                    Comparison<T::Model>,
                    DecodeError,
                >(error),
            },
    {
        if reads_as(tag.as_str(), "equal_to") {
            match T::decode_within(payload, depth - 1) {
                Ok(x) => {
                    let value = Match::EqualTo(x);
                    assert(value.deep() == Formula::Leaf(Comparison::EqualTo(x.deep())));
                    assert(Comparison::read(wire@, depth as nat, reader::<T>())
                        == Ok::<Comparison<T::Model>, DecodeError>(
                        Comparison::EqualTo(x.deep()),
                    ));
                    Ok(value)
                },
                Err(error) => Err(error),
            }
        } else if reads_as(tag.as_str(), "greater_than") {
            match T::decode_within(payload, depth - 1) {
                Ok(x) => {
                    let value = Match::GreaterThan(x);
                    assert(value.deep() == Formula::Leaf(Comparison::GreaterThan(x.deep())));
                    assert(Comparison::read(wire@, depth as nat, reader::<T>())
                        == Ok::<Comparison<T::Model>, DecodeError>(
                        Comparison::GreaterThan(x.deep()),
                    ));
                    Ok(value)
                },
                Err(error) => Err(error),
            }
        } else if reads_as(tag.as_str(), "less_than") {
            match T::decode_within(payload, depth - 1) {
                Ok(x) => {
                    let value = Match::LessThan(x);
                    assert(value.deep() == Formula::Leaf(Comparison::LessThan(x.deep())));
                    assert(Comparison::read(wire@, depth as nat, reader::<T>())
                        == Ok::<Comparison<T::Model>, DecodeError>(
                        Comparison::LessThan(x.deep()),
                    ));
                    Ok(value)
                },
                Err(error) => Err(error),
            }
        } else if reads_as(tag.as_str(), "in_range") {
            match payload {
                Wire::List(items) => {
                    assert(payload@ == WireForm::List(Wire::forms(items@)));
                    assert(Wire::forms(items@).len() == items.len());
                    if items.len() != 2 {
                        Err(DecodeError::WrongArity)
                    } else {
                        assert(Wire::forms(items@)[0] == items[0]@);
                        assert(Wire::forms(items@)[1] == items[1]@);
                        match T::decode_within(&items[0], depth - 1) {
                            Ok(low) => match T::decode_within(&items[1], depth - 1) {
                                Ok(high) => {
                                    let value = Match::InRange(low, high);
                                    assert(value.deep()
                                        == Formula::Leaf(Comparison::InRange(low.deep(), high.deep())));
                                    assert(Comparison::read(wire@, depth as nat, reader::<T>())
                                        == Ok::<Comparison<T::Model>, DecodeError>(
                                        Comparison::InRange(low.deep(), high.deep()),
                                    ));
                                    Ok(value)
                                },
                                Err(error) => Err(error),
                            },
                            Err(error) => Err(error),
                        }
                    }
                },
                _ => Err(DecodeError::MalformedTag),
            }
        } else {
            assert(Comparison::read(wire@, depth as nat, reader::<T>()) == Comparison::read_bare(
                wire@,
                (depth - 1) as nat,
                reader::<T>(),
            ));
            Self::decode_bare(wire, depth)
        }
    }
}

} // verus!
