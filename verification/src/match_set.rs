//! Conditions on a collection of values.

use vstd::prelude::*;
use crate::codec::{
    deep_of, fits_somewhere, fitter, formula_read, formula_reads, formula_wire, formula_wires,
    formula_within, is_combinator_form, law_formula_round_trip, law_formula_within_grows,
    law_formula_within_some_depth, reader, tag_and, tag_not, tag_or, writer, Wired,
};
use crate::formula::{
    law_related_is_equal, law_related_is_mapped, lemma_members_all_leaves, Formula,
};
use crate::leaf::{call_gives, call_ref_gives, clone_gives, clone_is_exact, may_call, may_call_ref};
use crate::wire::{is_word, lemma_lower_is_word, reads_as, DecodeError, Wire, WireForm};

verus! {

/// The one test of a collection: that a member meets a condition of type `T`.
pub enum Membership<T> {
    Contains(T),
}

impl<T> Membership<T> {
    /// Every value of the test satisfies `p`.
    pub open spec fn all_values(self, p: spec_fn(T) -> bool) -> bool {
        match self {
            Membership::Contains(x) => p(x),
        }
    }

    /// The same test with `g` applied to each value.
    pub open spec fn map_values<U>(self, g: spec_fn(T) -> U) -> Membership<U> {
        match self {
            Membership::Contains(x) => Membership::Contains(g(x)),
        }
    }

    /// `other` is the same test, each value related by `rel`.
    pub open spec fn related<U>(self, other: Membership<U>, rel: spec_fn(T, U) -> bool) -> bool {
        match self {
            Membership::Contains(x) => other matches Membership::Contains(y) && rel(x, y),
        }
    }

    /// `p` of every value, as a predicate on tests.
    pub open spec fn each(p: spec_fn(T) -> bool) -> spec_fn(Membership<T>) -> bool {
        |c: Membership<T>| c.all_values(p)
    }

    /// `rel` value by value, as a relation on tests.
    pub open spec fn pairs<U>(rel: spec_fn(T, U) -> bool)
        -> spec_fn(Membership<T>, Membership<U>) -> bool {
        |a: Membership<T>, b: Membership<U>| a.related(b, rel)
    }

    /// `g` on every value, as a function on tests.
    pub open spec fn on<U>(g: spec_fn(T) -> U) -> spec_fn(Membership<T>) -> Membership<U> {
        |c: Membership<T>| c.map_values(g)
    }
}

/// Mapping reaches the value of every test, and keeps which test it is.
pub proof fn law_map_reaches_values<T, U>(value: T, g: spec_fn(T) -> U)
    ensures
        Formula::Leaf(Membership::Contains(value)).map_leaves(Membership::on(g))
            == Formula::Leaf(Membership::Contains(g(value))),
{
}

/// Where `f` returns for each value what `g` gives and nothing else, what
/// `map` returns with `f` is the condition mapped by `g`.
pub proof fn law_map_follows_function<T, U, F: Fn(T) -> U>(
    x: Formula<Membership<T>>,
    y: Formula<Membership<U>>,
    f: F,
    g: spec_fn(T) -> U,
)
    requires
        x.related(y, Membership::pairs(call_gives(f))),
        forall|value: T, image: U| call_ensures(f, (value,), image) ==> image == g(value),
    ensures
        y == x.map_leaves(Membership::on(g)),
{
    law_related_is_mapped(x, y, Membership::pairs(call_gives(f)), Membership::on(g));
}

/// The condition that a collection must meet, where `T` is the type of
/// condition on one member. There is no test that every member meets a
/// condition: it is written `Not(Contains(c))` with `c` the negation of that
/// condition.
///
/// `Not(Any)` never matches. It is accepted as it is written.
#[derive(Debug, PartialEq, Eq, PartialOrd, Ord, Hash)]
pub enum MatchSet<T> {
    /// Matches if every listed condition matches.
    And(Vec<MatchSet<T>>),
    /// Always matches.
    Any,
    /// Matches a collection with a member that meets this condition.
    Contains(T),
    /// Matches if the inner condition does not.
    Not(Box<MatchSet<T>>),
    /// Matches if one of the listed conditions matches.
    Or(Vec<MatchSet<T>>),
}

impl<T> View for MatchSet<T> {
    type V = Formula<Membership<T>>;

    open spec fn view(&self) -> Formula<Membership<T>> {
        self.model()
    }
}

impl<T> MatchSet<T> {
    /// The condition as a formula over tests.
    pub open spec fn model(&self) -> Formula<Membership<T>>
        decreases self,
    {
        match self {
            MatchSet::And(list) => Formula::And(Self::models(list@)),
            MatchSet::Any => Formula::Any,
            MatchSet::Contains(x) => Formula::Leaf(Membership::Contains(*x)),
            MatchSet::Not(inner) => Formula::Not(Box::new(inner.model())),
            MatchSet::Or(list) => Formula::Or(Self::models(list@)),
        }
    }

    /// The formulas of a list of conditions, in order.
    pub open spec fn models(list: Seq<MatchSet<T>>) -> Seq<Formula<Membership<T>>>
        decreases list,
    {
        Seq::new(list.len(), |i: int| if 0 <= i < list.len() { list[i].model() } else { Formula::Any })
    }

    /// The formulas of a list grow with the list.
    proof fn lemma_models_push(list: Seq<MatchSet<T>>, last: MatchSet<T>)
        ensures
            Self::models(list.push(last)) == Self::models(list).push(last@),
    {
        assert(Self::models(list.push(last)) =~= Self::models(list).push(last@));
    }

    /// Whether the condition is `Not(Any)`, which never matches.
    fn is_never(&self) -> (never: bool)
        ensures
            never == (self@ == Formula::<Membership<T>>::never()),
    {
        match self {
            MatchSet::Not(inner) => {
                assert(inner.model() is Any <==> **inner is Any);
                match &**inner {
                    MatchSet::Any => true,
                    _ => false,
                }
            },
            _ => false,
        }
    }

    /// Joins the conditions so that a collection matches if it has, for each of
    /// them, a member that meets it.
    pub fn from_iter(values: Vec<T>) -> (condition: Self)
        ensures
            condition@
                == Formula::And(values@.map_values(|x: T| Formula::Leaf(Membership::Contains(x)))),
    {
        let ghost all = values@;
        let mut list: Vec<MatchSet<T>> = Vec::new();
        for value in it: values.into_iter()
            invariant
                it.seq() == all,
                list.len() == it.index(),
                forall|i: int| 0 <= i < list.len() ==> list[i] == MatchSet::Contains(all[i]),
        {
            list.push(MatchSet::Contains(value));
        }
        assert(Self::models(list@) =~= all.map_values(|x: T| Formula::Leaf(Membership::Contains(x))));
        MatchSet::And(list)
    }

    /// Applies `f` to every value of the condition and keeps its shape: each
    /// combinator stays where it is, and each list keeps its order.
    pub fn map<F, U>(self, f: F) -> (mapped: MatchSet<U>) where F: Copy + Fn(T) -> U
        requires
            self@.all_leaves(Membership::each(may_call(f))),
        ensures
            self@.related(mapped@, Membership::pairs(call_gives(f))),
        decreases self,
    {
        match self {
            MatchSet::And(list) => {
                proof {
                    lemma_members_all_leaves(self@, Membership::each(may_call(f)));
                    assert(self@.members() == Self::models(list@));
                }
                let images = Self::map_list(list, f);
                let mapped = MatchSet::And(images);
                assert(mapped@.members() == MatchSet::<U>::models(images@));
                assert(self@.related(mapped@, Membership::pairs(call_gives(f))));
                mapped
            },
            MatchSet::Any => {
                let mapped = MatchSet::Any;
                assert(self@.related(mapped@, Membership::pairs(call_gives(f))));
                mapped
            },
            MatchSet::Contains(x) => {
                let mapped = MatchSet::Contains(f(x));
                assert(self@.related(mapped@, Membership::pairs(call_gives(f))));
                mapped
            },
            MatchSet::Not(inner) => {
                let mapped = MatchSet::Not(Box::new((*inner).map(f)));
                assert(self@.related(mapped@, Membership::pairs(call_gives(f))));
                mapped
            },
            MatchSet::Or(list) => {
                proof {
                    lemma_members_all_leaves(self@, Membership::each(may_call(f)));
                    assert(self@.members() == Self::models(list@));
                }
                let images = Self::map_list(list, f);
                let mapped = MatchSet::Or(images);
                assert(mapped@.members() == MatchSet::<U>::models(images@));
                assert(self@.related(mapped@, Membership::pairs(call_gives(f))));
                mapped
            },
        }
    }

    fn map_list<F, U>(list: Vec<MatchSet<T>>, f: F) -> (mapped: Vec<MatchSet<U>>) where
        F: Copy + Fn(T) -> U,

        requires
            forall|i: int|
                0 <= i < list.len()
                    ==> (#[trigger] Self::models(list@)[i]).all_leaves(Membership::each(may_call(f))),
        ensures
            mapped.len() == list.len(),
            forall|i: int|
                0 <= i < list.len() ==> (#[trigger] Self::models(list@)[i]).related(
                    MatchSet::<U>::models(mapped@)[i],
                    Membership::pairs(call_gives(f)),
                ),
        decreases list,
    {
        let ghost whole = list;
        let mut mapped: Vec<MatchSet<U>> = Vec::new();
        for item in it: list.into_iter()
            invariant
                it.seq() == whole@,
                mapped.len() == it.index(),
                forall|i: int|
                    0 <= i < whole.len()
                        ==> (#[trigger] Self::models(whole@)[i]).all_leaves(Membership::each(may_call(f))),
                forall|i: int|
                    0 <= i < mapped.len() ==> (#[trigger] Self::models(whole@)[i]).related(
                        MatchSet::<U>::models(mapped@)[i],
                        Membership::pairs(call_gives(f)),
                    ),
        {
            let ghost at = it.index() as int;
            let ghost before = mapped@;
            assert(item == whole[at]);
            assert(Self::models(whole@)[at] == item@);
            let image = item.map(f);
            mapped.push(image);
            assert forall|i: int| 0 <= i < mapped.len()
                implies (#[trigger] Self::models(whole@)[i]).related(
                MatchSet::<U>::models(mapped@)[i],
                Membership::pairs(call_gives(f)),
            ) by {
                if i < at {
                    assert(MatchSet::<U>::models(mapped@)[i] == MatchSet::<U>::models(before)[i]);
                }
            }
        }
        mapped
    }

    /// As `map`, on a borrowed condition and with a function of borrowed
    /// values.
    pub fn map_ref<F, U>(&self, f: F) -> (mapped: MatchSet<U>) where F: Copy + Fn(&T) -> U
        requires
            self@.all_leaves(Membership::each(may_call_ref(f))),
        ensures
            self@.related(mapped@, Membership::pairs(call_ref_gives(f))),
        decreases self,
    {
        match self {
            MatchSet::And(list) => {
                proof {
                    lemma_members_all_leaves(self@, Membership::each(may_call_ref(f)));
                    assert(self@.members() == Self::models(list@));
                }
                let images = Self::map_ref_list(list, f);
                let mapped = MatchSet::And(images);
                assert(mapped@.members() == MatchSet::<U>::models(images@));
                assert(self@.related(mapped@, Membership::pairs(call_ref_gives(f))));
                mapped
            },
            MatchSet::Any => {
                let mapped = MatchSet::Any;
                assert(self@.related(mapped@, Membership::pairs(call_ref_gives(f))));
                mapped
            },
            MatchSet::Contains(x) => {
                let mapped = MatchSet::Contains(f(x));
                assert(self@.related(mapped@, Membership::pairs(call_ref_gives(f))));
                mapped
            },
            MatchSet::Not(inner) => {
                let mapped = MatchSet::Not(Box::new(inner.map_ref(f)));
                assert(self@.related(mapped@, Membership::pairs(call_ref_gives(f))));
                mapped
            },
            MatchSet::Or(list) => {
                proof {
                    lemma_members_all_leaves(self@, Membership::each(may_call_ref(f)));
                    assert(self@.members() == Self::models(list@));
                }
                let images = Self::map_ref_list(list, f);
                let mapped = MatchSet::Or(images);
                assert(mapped@.members() == MatchSet::<U>::models(images@));
                assert(self@.related(mapped@, Membership::pairs(call_ref_gives(f))));
                mapped
            },
        }
    }

    fn map_ref_list<F, U>(list: &Vec<MatchSet<T>>, f: F) -> (mapped: Vec<MatchSet<U>>) where
        F: Copy + Fn(&T) -> U,

        requires
            forall|i: int|
                0 <= i < list.len()
                    ==> (#[trigger] Self::models(list@)[i]).all_leaves(Membership::each(may_call_ref(f))),
        ensures
            mapped.len() == list.len(),
            forall|i: int|
                0 <= i < list.len() ==> (#[trigger] Self::models(list@)[i]).related(
                    MatchSet::<U>::models(mapped@)[i],
                    Membership::pairs(call_ref_gives(f)),
                ),
        decreases list,
    {
        let mut mapped: Vec<MatchSet<U>> = Vec::new();
        let mut at: usize = 0;
        while at < list.len()
            invariant
                at <= list.len(),
                mapped.len() == at,
                forall|i: int|
                    0 <= i < list.len()
                        ==> (#[trigger] Self::models(list@)[i]).all_leaves(Membership::each(may_call_ref(f))),
                forall|i: int|
                    0 <= i < mapped.len() ==> (#[trigger] Self::models(list@)[i]).related(
                        MatchSet::<U>::models(mapped@)[i],
                        Membership::pairs(call_ref_gives(f)),
                    ),
            decreases list.len() - at,
        {
            let ghost before = mapped@;
            assert(Self::models(list@)[at as int] == list[at as int]@);
            let image = list[at].map_ref(f);
            mapped.push(image);
            assert forall|i: int| 0 <= i < mapped.len()
                implies (#[trigger] Self::models(list@)[i]).related(
                MatchSet::<U>::models(mapped@)[i],
                Membership::pairs(call_ref_gives(f)),
            ) by {
                if i < at {
                    assert(MatchSet::<U>::models(mapped@)[i] == MatchSet::<U>::models(before)[i]);
                }
            }
            at += 1;
        }
        mapped
    }

    /// Replaces every value by what `exchange` gives for it, in place: the
    /// shape of the condition stays. This is `map` with a function that
    /// converts an amount of money.
    pub fn exchange_mut_with<F>(&mut self, exchange: F) where F: Copy + Fn(T) -> T
        requires
            old(self)@.all_leaves(Membership::each(may_call(exchange))),
        ensures
            old(self)@.related(final(self)@, Membership::pairs(call_gives(exchange))),
    {
        let mut taken = MatchSet::Any;
        core::mem::swap(self, &mut taken);
        *self = taken.map(exchange);
    }
}

impl<T: Clone> MatchSet<T> {
    fn clone_list(list: &Vec<MatchSet<T>>) -> (copies: Vec<MatchSet<T>>)
        ensures
            copies.len() == list.len(),
            forall|i: int|
                0 <= i < list.len() ==> (#[trigger] Self::models(list@)[i]).related(
                    Self::models(copies@)[i],
                    Membership::pairs(clone_gives::<T>()),
                ),
        decreases list,
    {
        let mut copies: Vec<MatchSet<T>> = Vec::new();
        let mut at: usize = 0;
        while at < list.len()
            invariant
                at <= list.len(),
                copies.len() == at,
                forall|i: int|
                    0 <= i < copies.len() ==> (#[trigger] Self::models(list@)[i]).related(
                        Self::models(copies@)[i],
                        Membership::pairs(clone_gives::<T>()),
                    ),
            decreases list.len() - at,
        {
            let ghost before = copies@;
            assert(Self::models(list@)[at as int] == list[at as int]@);
            let copy = list[at].clone();
            copies.push(copy);
            assert forall|i: int| 0 <= i < copies.len()
                implies (#[trigger] Self::models(list@)[i]).related(
                Self::models(copies@)[i],
                Membership::pairs(clone_gives::<T>()),
            ) by {
                if i < at {
                    assert(Self::models(copies@)[i] == Self::models(before)[i]);
                }
            }
            at += 1;
        }
        copies
    }
}

impl<T: Clone> Clone for MatchSet<T> {
    /// A condition of the same shape whose values are clones of the values
    /// of this one.
    fn clone(&self) -> (copy: MatchSet<T>)
        ensures
            self@.related(copy@, Membership::pairs(clone_gives::<T>())),
        decreases self,
    {
        match self {
            MatchSet::And(list) => {
                let copies = Self::clone_list(list);
                let copy = MatchSet::And(copies);
                assert(self@.members() == Self::models(list@));
                assert(copy@.members() == Self::models(copies@));
                assert(self@.related(copy@, Membership::pairs(clone_gives::<T>())));
                copy
            },
            MatchSet::Any => {
                let copy = MatchSet::Any;
                assert(self@.related(copy@, Membership::pairs(clone_gives::<T>())));
                copy
            },
            MatchSet::Contains(x) => {
                let copy = MatchSet::Contains(x.clone());
                assert(self@.related(copy@, Membership::pairs(clone_gives::<T>())));
                copy
            },
            MatchSet::Not(inner) => {
                let copy = MatchSet::Not(Box::new((&**inner).clone()));
                assert(self@.related(copy@, Membership::pairs(clone_gives::<T>())));
                copy
            },
            MatchSet::Or(list) => {
                let copies = Self::clone_list(list);
                let copy = MatchSet::Or(copies);
                assert(self@.members() == Self::models(list@));
                assert(copy@.members() == Self::models(copies@));
                assert(self@.related(copy@, Membership::pairs(clone_gives::<T>())));
                copy
            },
        }
    }
}

impl<T> core::ops::BitAndAssign for MatchSet<T> {
    /// `self &= rhs` makes `self` the conjunction. `Any` is replaced by `rhs`,
    /// an `And` list grows by `rhs`, and anything else becomes the `And` list
    /// of itself and `rhs`.
    fn bitand_assign(&mut self, rhs: MatchSet<T>)
        ensures
            final(self)@ == old(self)@.and_with(rhs@),
    {
        let mut taken = MatchSet::Any;
        core::mem::swap(self, &mut taken);
        match taken {
            MatchSet::Any => {
                *self = rhs;
            },
            MatchSet::And(mut list) => {
                proof {
                    Self::lemma_models_push(list@, rhs);
                }
                list.push(rhs);
                *self = MatchSet::And(list);
            },
            _ => {
                let ghost first = taken;
                let mut list = Vec::new();
                list.push(taken);
                list.push(rhs);
                assert(Self::models(list@) =~= seq![first@, rhs@]);
                *self = MatchSet::And(list);
            },
        }
    }
}

impl<T> core::ops::BitOrAssign for MatchSet<T> {
    /// `self |= rhs` makes `self` the disjunction. `Not(Any)`, which never
    /// matches, is replaced by `rhs`, an `Or` list grows by `rhs`, and anything
    /// else, `Any` too, becomes the `Or` list of itself and `rhs`.
    fn bitor_assign(&mut self, rhs: MatchSet<T>)
        ensures
            final(self)@ == old(self)@.either_with(rhs@),
    {
        let never = self.is_never();
        let mut taken = MatchSet::Any;
        core::mem::swap(self, &mut taken);
        if never {
            *self = rhs;
            return ;
        }
        match taken {
            MatchSet::Or(mut list) => {
                proof {
                    Self::lemma_models_push(list@, rhs);
                }
                list.push(rhs);
                *self = MatchSet::Or(list);
            },
            _ => {
                let ghost first = taken;
                let mut list = Vec::new();
                list.push(taken);
                list.push(rhs);
                assert(Self::models(list@) =~= seq![first@, rhs@]);
                *self = MatchSet::Or(list);
            },
        }
    }
}

impl<T> core::ops::BitAnd for MatchSet<T> {
    type Output = MatchSet<T>;

    /// `self & rhs` is `self` after `self &= rhs`.
    fn bitand(self, rhs: MatchSet<T>) -> (both: MatchSet<T>)
        ensures
            both@ == self@.and_with(rhs@),
    {
        let mut both = self;
        core::ops::BitAndAssign::bitand_assign(&mut both, rhs);
        both
    }
}

/// A contract cannot build the list that the operator returns: what it
/// returns is stated over views by the `ensures` of `bitand`.
impl<T> vstd::std_specs::ops::BitAndSpecImpl for MatchSet<T> {
    open spec fn obeys_bitand_spec() -> bool {
        false
    }

    open spec fn bitand_req(self, rhs: MatchSet<T>) -> bool {
        true
    }

    open spec fn bitand_spec(self, rhs: MatchSet<T>) -> MatchSet<T> {
        rhs
    }
}

impl<T> core::ops::BitOr for MatchSet<T> {
    type Output = MatchSet<T>;

    /// `self | rhs` is `self` after `self |= rhs`.
    fn bitor(self, rhs: MatchSet<T>) -> (either: MatchSet<T>)
        ensures
            either@ == self@.either_with(rhs@),
    {
        let mut either = self;
        core::ops::BitOrAssign::bitor_assign(&mut either, rhs);
        either
    }
}

/// A contract cannot build the list that the operator returns: what it
/// returns is stated over views by the `ensures` of `bitor`.
impl<T> vstd::std_specs::ops::BitOrSpecImpl for MatchSet<T> {
    open spec fn obeys_bitor_spec() -> bool {
        false
    }

    open spec fn bitor_req(self, rhs: MatchSet<T>) -> bool {
        true
    }

    open spec fn bitor_spec(self, rhs: MatchSet<T>) -> MatchSet<T> {
        rhs
    }
}

impl<T> core::ops::Not for MatchSet<T> {
    type Output = MatchSet<T>;

    /// Wraps the condition in `Not`; a double negation stays as written.
    fn not(self) -> (negation: MatchSet<T>)
        ensures
            negation@ == self@.negated(),
    {
        MatchSet::Not(Box::new(self))
    }
}

/// A contract cannot build the box that the operator returns: what it
/// returns is stated over views by the `ensures` of `not`.
impl<T> vstd::std_specs::ops::NotSpecImpl for MatchSet<T> {
    open spec fn obeys_not_spec() -> bool {
        false
    }

    open spec fn not_req(self) -> bool {
        true
    }

    open spec fn not_spec(self) -> MatchSet<T> {
        self
    }
}

impl<T: Clone> core::ops::BitXorAssign for MatchSet<T> {
    /// `self ^= rhs` is `(self | rhs) & !(self & rhs)`, built with the operators
    /// `|`, `&` and `!`; the second pair of operands are clones of the first.
    /// No condition is treated apart.
    fn bitxor_assign(&mut self, rhs: MatchSet<T>)
        ensures
            exists|left: Formula<Membership<T>>, right: Formula<Membership<T>>|
                {
                    &&& old(self)@.related(left, Membership::pairs(clone_gives::<T>()))
                    &&& rhs@.related(right, Membership::pairs(clone_gives::<T>()))
                    &&& final(self)@ == old(self)@.xor_with_copies(rhs@, left, right)
                },
            clone_is_exact::<T>() ==> final(self)@ == old(self)@.xor_with(rhs@),
    {
        let mut either = MatchSet::Any;
        core::mem::swap(self, &mut either);
        let mut both = either.clone();
        let right = rhs.clone();
        let ghost first = either@;
        let ghost left_copy = both@;
        let ghost right_copy = right@;
        core::ops::BitAndAssign::bitand_assign(&mut both, right);
        core::ops::BitOrAssign::bitor_assign(&mut either, rhs);
        core::ops::BitAndAssign::bitand_assign(&mut either, MatchSet::Not(Box::new(both)));
        *self = either;
        proof {
            assert(self@ == first.xor_with_copies(rhs@, left_copy, right_copy));
            if clone_is_exact::<T>() {
                law_related_is_equal(first, left_copy, Membership::pairs(clone_gives::<T>()));
                law_related_is_equal(rhs@, right_copy, Membership::pairs(clone_gives::<T>()));
            }
        }
    }
}

impl<T: Clone> core::ops::BitXor for MatchSet<T> {
    type Output = MatchSet<T>;

    /// `self ^ rhs` is `self` after `self ^= rhs`.
    fn bitxor(self, rhs: MatchSet<T>) -> (one: MatchSet<T>)
        ensures
            exists|left: Formula<Membership<T>>, right: Formula<Membership<T>>|
                {
                    &&& self@.related(left, Membership::pairs(clone_gives::<T>()))
                    &&& rhs@.related(right, Membership::pairs(clone_gives::<T>()))
                    &&& one@ == self@.xor_with_copies(rhs@, left, right)
                },
            clone_is_exact::<T>() ==> one@ == self@.xor_with(rhs@),
    {
        let mut one = self;
        core::ops::BitXorAssign::bitxor_assign(&mut one, rhs);
        one
    }
}

/// A contract cannot build the lists that the operator returns: what it
/// returns is stated over views by the `ensures` of `bitxor`.
impl<T: Clone> vstd::std_specs::ops::BitXorSpecImpl for MatchSet<T> {
    open spec fn obeys_bitxor_spec() -> bool {
        false
    }

    open spec fn bitxor_req(self, rhs: MatchSet<T>) -> bool {
        true
    }

    open spec fn bitxor_spec(self, rhs: MatchSet<T>) -> MatchSet<T> {
        rhs
    }
}

impl<T> Default for MatchSet<T> {
    /// The condition that always matches.
    fn default() -> (condition: MatchSet<T>)
        ensures
            condition == MatchSet::<T>::Any,
    {
        MatchSet::Any
    }
}

impl<T> From<T> for MatchSet<T> {
    /// The condition that a member meets `value`.
    fn from(value: T) -> (condition: MatchSet<T>) {
        MatchSet::Contains(value)
    }
}

impl<T> vstd::std_specs::convert::FromSpecImpl<T> for MatchSet<T> {
    open spec fn obeys_from_spec() -> bool {
        true
    }

    open spec fn from_spec(value: T) -> MatchSet<T> {
        MatchSet::Contains(value)
    }
}

impl<M> Membership<M> {
    /// The wire form of the test, where `value` writes a value:
    /// `{"contains": v}`.
    pub open spec fn wire(self, value: spec_fn(M) -> WireForm) -> WireForm {
        match self {
            Membership::Contains(x) => WireForm::Tagged("contains"@, Box::new(value(x))),
        }
    }

    /// The test that a wire form is read as at a level, where `value`
    /// reads a value one level below. A known tag decides; a form under no
    /// known tag is read whole as a value, and gives `Contains`.
    pub open spec fn read(
        wire: WireForm,
        depth: nat,
        value: spec_fn(WireForm, nat) -> Result<M, DecodeError>,
    ) -> Result<Membership<M>, DecodeError> {
        let below = (depth - 1) as nat;
        match wire {
            WireForm::Tagged(tag, payload) => {
                if is_word(tag, "contains"@) {
                    match value(*payload, below) {
                        Ok(x) => Ok(Membership::Contains(x)),
                        Err(error) => Err(error),
                    }
                } else {
                    Self::read_bare(wire, below, value)
                }
            },
            _ => Self::read_bare(wire, below, value),
        }
    }

    /// The test that a form under no known tag is read as: `Contains` of
    /// the value that the whole form is.
    pub open spec fn read_bare(
        wire: WireForm,
        below: nat,
        value: spec_fn(WireForm, nat) -> Result<M, DecodeError>,
    ) -> Result<Membership<M>, DecodeError> {
        match value(wire, below) {
            Ok(x) => Ok(Membership::Contains(x)),
            Err(error) => Err(error),
        }
    }

    /// Whether the values of the test fit one level below `depth`.
    pub open spec fn fits(self, depth: nat, value: spec_fn(M, nat) -> bool) -> bool {
        depth > 0 && match self {
            Membership::Contains(x) => value(x, (depth - 1) as nat),
        }
    }

    /// `wire`, as a function on tests.
    pub open spec fn writer(value: spec_fn(M) -> WireForm) -> spec_fn(Membership<M>) -> WireForm {
        |test: Membership<M>| test.wire(value)
    }

    /// `read`, as a function on wire forms.
    pub open spec fn reader(value: spec_fn(WireForm, nat) -> Result<M, DecodeError>) -> spec_fn(
        WireForm,
        nat,
    ) -> Result<Membership<M>, DecodeError> {
        |wire: WireForm, depth: nat| Self::read(wire, depth, value)
    }

    /// `fits`, as a function on tests.
    pub open spec fn fitter(value: spec_fn(M, nat) -> bool) -> spec_fn(Membership<M>, nat) -> bool {
        |test: Membership<M>, depth: nat| test.fits(depth, value)
    }

    /// The tags of the tests are in lower case, no two are the same,
    /// and none is the word or the tag of a combinator.
    proof fn lemma_tags()
        ensures
            is_word("contains"@, "contains"@),
            "contains"@ != tag_not(),
            "contains"@ != tag_and(),
            "contains"@ != tag_or(),
    {
        reveal_strlit("contains");
        reveal_strlit("not");
        reveal_strlit("and");
        reveal_strlit("or");
        lemma_lower_is_word("contains"@);
        assert("contains"@.len() != "not"@.len());
        assert("contains"@.len() != "and"@.len());
        assert("contains"@.len() != "or"@.len());
    }

    /// No test is written as a combinator is.
    proof fn lemma_wire_is_no_combinator(self, value: spec_fn(M) -> WireForm)
        ensures
            !is_combinator_form(self.wire(value)),
    {
        Self::lemma_tags();
    }

    /// A test that was written is read back as it was, where its
    /// values are.
    proof fn lemma_round_trip(
        self,
        depth: nat,
        write: spec_fn(M) -> WireForm,
        read: spec_fn(WireForm, nat) -> Result<M, DecodeError>,
        fit: spec_fn(M, nat) -> bool,
    )
        requires
            self.fits(depth, fit),
            forall|x: M, d: nat| #[trigger] fit(x, d)
                ==> read(write(x), d) == Ok::<M, DecodeError>(x),
        ensures
            Self::read(self.wire(write), depth, read) == Ok::<Membership<M>, DecodeError>(self),
    {
        Self::lemma_tags();
    }
}

impl<T: Wired> MatchSet<T> {
    /// How a test is written, where `T` writes the values.
    pub open spec fn leaf_writer() -> spec_fn(Membership<T::Model>) -> WireForm {
        Membership::writer(writer::<T>())
    }

    /// How a test is read, where `T` reads the values.
    pub open spec fn leaf_reader() -> spec_fn(WireForm, nat)
        -> Result<Membership<T::Model>, DecodeError> {
        Membership::reader(reader::<T>())
    }

    /// Whether a test fits at a level, where `T` says whether the values
    /// fit below it.
    pub open spec fn leaf_fitter() -> spec_fn(Membership<T::Model>, nat) -> bool {
        Membership::fitter(fitter::<T>())
    }

    /// The values that the conditions of a list stand for, in order.
    pub open spec fn deeps(list: Seq<MatchSet<T>>) -> Seq<Formula<Membership<T::Model>>> {
        Seq::new(list.len(), |i: int| list[i].deep())
    }

    /// A list stands for the list of what its members stand for.
    proof fn lemma_deep_members(list: Seq<MatchSet<T>>)
        ensures
            Formula::And(Self::models(list)).map_leaves(Membership::on(deep_of::<T>()))
                == Formula::And(Self::deeps(list)),
            Formula::Or(Self::models(list)).map_leaves(Membership::on(deep_of::<T>()))
                == Formula::Or(Self::deeps(list)),
    {
        let g = Membership::on(deep_of::<T>());
        assert(Formula::And(Self::models(list)).map_leaves(g)->And_0 =~= Self::deeps(list));
        assert(Formula::Or(Self::models(list)).map_leaves(g)->Or_0 =~= Self::deeps(list));
    }

    fn encode_list(list: &Vec<Self>) -> (wires: Vec<Wire>)
        ensures
            Wire::forms(wires@) == formula_wires(Self::deeps(list@), Self::leaf_writer()),
        decreases list,
    {
        let mut wires: Vec<Wire> = Vec::new();
        let mut at: usize = 0;
        while at < list.len()
            invariant
                at <= list.len(),
                wires.len() == at,
                forall|i: int|
                    0 <= i < at ==> (#[trigger] wires[i])@ == formula_wire(
                        list[i].deep(),
                        Self::leaf_writer(),
                    ),
            decreases list.len() - at,
        {
            let wire = list[at].encode();
            wires.push(wire);
            at += 1;
        }
        assert(Wire::forms(wires@) =~= formula_wires(Self::deeps(list@), Self::leaf_writer()));
        wires
    }

    fn decode_list(items: &Vec<Wire>, depth: usize) -> (read: Result<Vec<Self>, DecodeError>)
        ensures
            match read {
                Ok(list) => formula_reads(Wire::forms(items@), depth as nat, Self::leaf_reader()) == Ok::<
                    Seq<Formula<Membership<T::Model>>>,
                    DecodeError,
                >(Self::deeps(list@)),
                Err(error) => formula_reads(Wire::forms(items@), depth as nat, Self::leaf_reader()) == Err::<
                    Seq<Formula<Membership<T::Model>>>,
                    DecodeError,
                >(error),
            },
        decreases items,
    {
        let ghost forms = Wire::forms(items@);
        let ghost how = Self::leaf_reader();
        let mut list: Vec<Self> = Vec::new();
        let mut at: usize = 0;
        assert(forms.take(0) =~= Seq::empty());
        assert(Self::deeps(list@) =~= Seq::empty());
        while at < items.len()
            invariant
                at <= items.len(),
                forms == Wire::forms(items@),
                how == Self::leaf_reader(),
                formula_reads(forms.take(at as int), depth as nat, how) == Ok::<
                    Seq<Formula<Membership<T::Model>>>,
                    DecodeError,
                >(Self::deeps(list@)),
            decreases items.len() - at,
        {
            let ghost before = Self::deeps(list@);
            proof {
                assert(forms.take(at + 1).drop_last() =~= forms.take(at as int));
                assert(forms.take(at + 1).last() == items[at as int]@);
            }
            match Self::decode_within(&items[at], depth) {
                Ok(member) => {
                    list.push(member);
                    assert(Self::deeps(list@) =~= before.push(member.deep()));
                },
                Err(error) => {
                    proof {
                        Self::lemma_reads_fail(forms, at + 1, depth as nat, error);
                    }
                    return Err(error);
                },
            }
            at += 1;
        }
        assert(forms.take(at as int) =~= forms);
        Ok(list)
    }

    /// Where the reading of a part of a list fails, the reading of the list
    /// fails for the same reason.
    proof fn lemma_reads_fail(forms: Seq<WireForm>, n: int, depth: nat, error: DecodeError)
        requires
            0 <= n <= forms.len(),
            formula_reads(forms.take(n), depth, Self::leaf_reader())
                == Err::<Seq<Formula<Membership<T::Model>>>, DecodeError>(error),
        ensures
            formula_reads(forms, depth, Self::leaf_reader())
                == Err::<Seq<Formula<Membership<T::Model>>>, DecodeError>(error),
        decreases forms.len() - n,
    {
        if n < forms.len() {
            assert(forms.take(n + 1).drop_last() =~= forms.take(n));
            Self::lemma_reads_fail(forms, n + 1, depth, error);
        } else {
            assert(forms.take(n) =~= forms);
        }
    }

    /// Reads a form under no known tag: the whole form as a value.
    fn decode_bare(wire: &Wire, depth: usize) -> (read: Result<Self, DecodeError>)
        requires
            depth > 0,
        ensures
            match read {
                Ok(value) => value.deep() matches Formula::Leaf(test) && Membership::read_bare(
                    wire@,
                    (depth - 1) as nat,
                    reader::<T>(),
                ) == Ok::<Membership<T::Model>, DecodeError>(test),
                Err(error) => Membership::read_bare(wire@, (depth - 1) as nat, reader::<T>())
                    == Err::<
                    Membership<T::Model>,
                    DecodeError,
                >(error),
            },
    {
        match T::decode_within(wire, depth - 1) {
            Ok(x) => {
                let value = MatchSet::Contains(x);
                assert(value.deep() == Formula::Leaf(Membership::Contains(x.deep())));
                Ok(value)
            },
            Err(error) => Err(error),
        }
    }
}

impl<T: Wired> Wired for MatchSet<T> {
    type Model = Formula<Membership<T::Model>>;

    open spec fn deep(&self) -> Formula<Membership<T::Model>> {
        self@.map_leaves(Membership::on(deep_of::<T>()))
    }

    open spec fn encoding(value: Formula<Membership<T::Model>>) -> WireForm {
        formula_wire(value, Self::leaf_writer())
    }

    open spec fn decoding(wire: WireForm, depth: nat)
        -> Result<Formula<Membership<T::Model>>, DecodeError> {
        formula_read(wire, depth, Self::leaf_reader())
    }

    open spec fn within(value: Formula<Membership<T::Model>>, depth: nat) -> bool {
        formula_within(value, depth, Self::leaf_fitter())
    }

    proof fn law_round_trip(value: Formula<Membership<T::Model>>, depth: nat) {
        assert forall|test: Membership<T::Model>| !is_combinator_form(#[trigger] Self::leaf_writer()(test)) by {
            test.lemma_wire_is_no_combinator(writer::<T>());
        }
        assert forall|test: Membership<T::Model>, d: nat| d > 0
            && #[trigger] Self::leaf_fitter()(test, d) implies Self::leaf_reader()(
            Self::leaf_writer()(test),
            d,
        ) == Ok::<Membership<T::Model>, DecodeError>(test) by {
            assert forall|x: T::Model, e: nat| #[trigger] fitter::<T>()(x, e) implies reader::<T>()(
                writer::<T>()(x),
                e,
            ) == Ok::<T::Model, DecodeError>(x) by {
                T::law_round_trip(x, e);
            }
            test.lemma_round_trip(d, writer::<T>(), reader::<T>(), fitter::<T>());
        }
        law_formula_round_trip(value, depth, Self::leaf_writer(), Self::leaf_reader(), Self::leaf_fitter());
    }

    proof fn law_within_grows(value: Formula<Membership<T::Model>>, depth: nat, more: nat) {
        assert forall|test: Membership<T::Model>, d: nat, e: nat| #[trigger] Self::leaf_fitter()(test, d) && d <= e implies #[trigger] Self::leaf_fitter()(
            test,
            e,
        ) by {
            assert forall|x: T::Model| #[trigger] fitter::<T>()(x, (d - 1) as nat)
                implies fitter::<T>()(
                x,
                (e - 1) as nat,
            ) by {
                T::law_within_grows(x, (d - 1) as nat, (e - 1) as nat);
            }
        }
        law_formula_within_grows(value, depth, more, Self::leaf_fitter());
    }

    proof fn law_within_some_depth(value: Formula<Membership<T::Model>>) {
        assert forall|test: Membership<T::Model>, d: nat, e: nat| #[trigger] Self::leaf_fitter()(test, d) && d <= e implies #[trigger] Self::leaf_fitter()(
            test,
            e,
        ) by {
            assert forall|x: T::Model| #[trigger] fitter::<T>()(x, (d - 1) as nat)
                implies fitter::<T>()(
                x,
                (e - 1) as nat,
            ) by {
                T::law_within_grows(x, (d - 1) as nat, (e - 1) as nat);
            }
        }
        assert forall|test: Membership<T::Model>| #[trigger] fits_somewhere(test, Self::leaf_fitter()) by {
            match test {
                Membership::Contains(x) => {
                    T::law_within_some_depth(x);
                    let below = choose|below: nat| T::within(x, below);
                    assert(Self::leaf_fitter()(test, below + 1));
                },
            }
        }
        law_formula_within_some_depth(value, Self::leaf_fitter());
        let depth = choose|depth: nat| formula_within(value, depth, Self::leaf_fitter());
        assert(Self::within(value, depth));
    }

    fn encode(&self) -> (wire: Wire)
        decreases self,
    {
        match self {
            MatchSet::And(list) => {
                proof {
                    Self::lemma_deep_members(list@);
                }
                let wires = Wire::List(Self::encode_list(list));
                assert(wires@
                    == WireForm::List(formula_wires(Self::deeps(list@), Self::leaf_writer())));
                let wire = Wire::Tagged("and".to_owned(), Box::new(wires));
                assert(self@ == Formula::And(Self::models(list@)));
                assert(self.deep() == Formula::And(Self::deeps(list@)));
                assert(wire@ == Self::encoding(self.deep()));
                wire
            },
            MatchSet::Any => {
                let wire = Wire::Text("any".to_owned());
                assert(wire@ == Self::encoding(self.deep()));
                wire
            },
            MatchSet::Contains(x) => {
                let wire = Wire::Tagged("contains".to_owned(), Box::new(x.encode()));
                assert(self.deep() == Formula::Leaf(Membership::Contains(x.deep())));
                assert(wire@ == Self::encoding(self.deep()));
                wire
            },
            MatchSet::Not(inner) => {
                let wire = Wire::Tagged("not".to_owned(), Box::new(inner.encode()));
                assert(wire@ == Self::encoding(self.deep()));
                wire
            },
            MatchSet::Or(list) => {
                proof {
                    Self::lemma_deep_members(list@);
                }
                let wires = Wire::List(Self::encode_list(list));
                assert(wires@
                    == WireForm::List(formula_wires(Self::deeps(list@), Self::leaf_writer())));
                let wire = Wire::Tagged("or".to_owned(), Box::new(wires));
                assert(self@ == Formula::Or(Self::models(list@)));
                assert(self.deep() == Formula::Or(Self::deeps(list@)));
                assert(wire@ == Self::encoding(self.deep()));
                wire
            },
        }
    }

    fn decode_within(wire: &Wire, depth: usize) -> (read: Result<Self, DecodeError>)
        decreases wire,
    {
        if depth == 0 {
            return Err(DecodeError::TooDeep);
        }
        match wire {
            Wire::Text(text) => {
                if reads_as(text.as_str(), "any") {
                    Ok(MatchSet::Any)
                } else {
                    Self::decode_bare(wire, depth)
                }
            },
            Wire::Tagged(tag, payload) => {
                if reads_as(tag.as_str(), "not") {
                    match Self::decode_within(payload, depth - 1) {
                        Ok(inner) => Ok(MatchSet::Not(Box::new(inner))),
                        Err(error) => Err(error),
                    }
                } else if reads_as(tag.as_str(), "and") {
                    match &**payload {
                        Wire::List(items) => match Self::decode_list(items, depth - 1) {
                            Ok(list) => {
                                proof {
                                    Self::lemma_deep_members(list@);
                                }
                                Ok(MatchSet::And(list))
                            },
                            Err(error) => Err(error),
                        },
                        _ => Err(DecodeError::MalformedTag),
                    }
                } else if reads_as(tag.as_str(), "or") {
                    match &**payload {
                        Wire::List(items) => match Self::decode_list(items, depth - 1) {
                            Ok(list) => {
                                proof {
                                    Self::lemma_deep_members(list@);
                                }
                                Ok(MatchSet::Or(list))
                            },
                            Err(error) => Err(error),
                        },
                        _ => Err(DecodeError::MalformedTag),
                    }
                } else {
                    Self::decode_test(wire, tag, payload, depth)
                }
            },
            _ => Self::decode_bare(wire, depth),
        }
    }
}

impl<T: Wired> MatchSet<T> {
    /// Reads a tagged form that is no combinator as one test.
    fn decode_test(wire: &Wire, tag: &String, payload: &Wire, depth: usize) -> (read: Result<
        Self,
        DecodeError,
    >)
        requires
            depth > 0,
            wire@ == WireForm::Tagged(tag@, Box::new(payload@)),
        ensures
            match read {
                Ok(value) => value.deep() matches Formula::Leaf(test) && Membership::read(
                    wire@,
                    depth as nat,
                    reader::<T>(),
                ) == Ok::<Membership<T::Model>, DecodeError>(test),
                Err(error) => Membership::read(wire@, depth as nat, reader::<T>()) == Err::<
                    Membership<T::Model>,
                    DecodeError,
                >(error),
            },
    {
        if reads_as(tag.as_str(), "contains") {
            match T::decode_within(payload, depth - 1) {
                Ok(x) => {
                    let value = MatchSet::Contains(x);
                    assert(value.deep() == Formula::Leaf(Membership::Contains(x.deep())));
                    assert(Membership::read(wire@, depth as nat, reader::<T>())
                        == Ok::<Membership<T::Model>, DecodeError>(
                        Membership::Contains(x.deep()),
                    ));
                    Ok(value)
                },
                Err(error) => Err(error),
            }
        } else {
            assert(Membership::read(wire@, depth as nat, reader::<T>()) == Membership::read_bare(
                wire@,
                (depth - 1) as nat,
                reader::<T>(),
            ));
            Self::decode_bare(wire, depth)
        }
    }
}

} // verus!
