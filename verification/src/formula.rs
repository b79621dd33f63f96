//! The boolean shape shared by every family of conditions, and the laws of
//! its combinators.

use vstd::prelude::*;

verus! {

/// A boolean combination of leaf tests of type `L`.
///
/// `Any` always matches; `Not(Any)` is well formed and never matches.
pub enum Formula<L> {
    Any,
    Leaf(L),
    Not(Box<Formula<L>>),
    And(Seq<Formula<L>>),
    Or(Seq<Formula<L>>),
}

impl<L> Formula<L> {
    /// The formula that never matches.
    pub open spec fn never() -> Self {
        Formula::Not(Box::new(Formula::Any))
    }

    /// Conjunction that keeps one flat list: `Any` gives way to `other`, an
    /// `And` list grows by `other`, anything else starts a list of two.
    pub open spec fn and_with(self, other: Self) -> Self {
        match self {
            Formula::Any => other,
            Formula::And(list) => Formula::And(list.push(other)),
            _ => Formula::And(seq![self, other]),
        }
    }

    /// Disjunction that keeps one flat list and keeps the meaning, as the
    /// operator `|` builds it: `Not(Any)`, which never matches, gives way to
    /// `other`, an `Or` list grows by `other`, and anything else, `Any` too,
    /// starts a list of two.
    pub open spec fn either_with(self, other: Self) -> Self {
        if self == Self::never() {
            other
        } else {
            match self {
                Formula::Or(list) => Formula::Or(list.push(other)),
                _ => Formula::Or(seq![self, other]),
            }
        }
    }

    /// What the method `or` builds: as `either_with`, but `Any` gives way to
    /// `other` too. On `Any` this is not the disjunction, since `Any` matches
    /// every value and `other` may not.
    pub open spec fn or_with(self, other: Self) -> Self {
        if self is Any {
            other
        } else {
            self.either_with(other)
        }
    }

    /// Negation, with nothing simplified.
    pub open spec fn negated(self) -> Self {
        Formula::Not(Box::new(self))
    }

    /// Exclusive or, written with the other three combinators: the
    /// disjunction and not the conjunction.
    pub open spec fn xor_with(self, other: Self) -> Self {
        self.either_with(other).and_with(self.and_with(other).negated())
    }

    /// Exclusive or whose negated conjunction is built from copies of the two
    /// operands.
    pub open spec fn xor_with_copies(self, other: Self, self_copy: Self, other_copy: Self) -> Self {
        self.either_with(other).and_with(self_copy.and_with(other_copy).negated())
    }

    /// Every leaf satisfies `p`.
    pub open spec fn all_leaves(self, p: spec_fn(L) -> bool) -> bool
        decreases self,
    {
        match self {
            Formula::Any => true,
            Formula::Leaf(leaf) => p(leaf),
            Formula::Not(inner) => inner.all_leaves(p),
            Formula::And(list) => forall|i: int|
                0 <= i < list.len() ==> (#[trigger] list[i]).all_leaves(p),
            Formula::Or(list) => forall|i: int|
                0 <= i < list.len() ==> (#[trigger] list[i]).all_leaves(p),
        }
    }

    /// The members of an `And` or `Or` list; of another formula, none.
    pub open spec fn members(self) -> Seq<Formula<L>> {
        match self {
            Formula::And(list) => list,
            Formula::Or(list) => list,
            _ => Seq::empty(),
        }
    }

    /// The same formula with `g` applied to every leaf: the shape and the
    /// order of every list stay as they are.
    pub open spec fn map_leaves<M>(self, g: spec_fn(L) -> M) -> Formula<M>
        decreases self,
    {
        match self {
            Formula::Any => Formula::Any,
            Formula::Leaf(leaf) => Formula::Leaf(g(leaf)),
            Formula::Not(inner) => Formula::Not(Box::new(inner.map_leaves(g))),
            Formula::And(list) => Formula::And(
                Seq::new(
                    list.len(),
                    |i: int| if 0 <= i < list.len() { list[i].map_leaves(g) } else { Formula::Any },
                ),
            ),
            Formula::Or(list) => Formula::Or(
                Seq::new(
                    list.len(),
                    |i: int| if 0 <= i < list.len() { list[i].map_leaves(g) } else { Formula::Any },
                ),
            ),
        }
    }

    /// `other` has the shape of `self`, and each of its leaves is related by
    /// `rel` to the leaf of `self` at the same place.
    pub open spec fn related<M>(self, other: Formula<M>, rel: spec_fn(L, M) -> bool) -> bool
        decreases self,
    {
        match self {
            Formula::Any => other is Any,
            Formula::Leaf(leaf) => other matches Formula::Leaf(image) && rel(leaf, image),
            Formula::Not(inner) => other matches Formula::Not(image) && inner.related(*image, rel),
            Formula::And(list) => other matches Formula::And(images) && images.len() == list.len()
                && forall|i: int|
                0 <= i < list.len() ==> (#[trigger] list[i]).related(images[i], rel),
            Formula::Or(list) => other matches Formula::Or(images) && images.len() == list.len()
                && forall|i: int|
                0 <= i < list.len() ==> (#[trigger] list[i]).related(images[i], rel),
        }
    }

    /// Whether `value` meets the formula, where `test` decides each leaf.
    pub open spec fn holds<V>(self, value: V, test: spec_fn(L, V) -> bool) -> bool
        decreases self,
    {
        match self {
            Formula::Any => true,
            Formula::Leaf(leaf) => test(leaf, value),
            Formula::Not(inner) => !inner.holds(value, test),
            Formula::And(list) => forall|i: int|
                0 <= i < list.len() ==> (#[trigger] list[i]).holds(value, test),
            Formula::Or(list) => exists|i: int|
                0 <= i < list.len() && (#[trigger] list[i]).holds(value, test),
        }
    }
}

/// What holds of every leaf of a list holds of every leaf of each member.
pub proof fn lemma_members_all_leaves<L>(x: Formula<L>, p: spec_fn(L) -> bool)
    requires
        x.all_leaves(p),
    ensures
        forall|i: int| 0 <= i < x.members().len() ==> (#[trigger] x.members()[i]).all_leaves(p),
{
    assert forall|i: int| 0 <= i < x.members().len() implies (#[trigger] x.members()[i]).all_leaves(
        p,
    ) by {
        match x {
            Formula::And(list) => {
                assert(list[i].all_leaves(p));
            },
            Formula::Or(list) => {
                assert(list[i].all_leaves(p));
            },
            _ => {},
        }
    }
}

/// What holds of every leaf holds in a weaker form of every leaf.
pub proof fn lemma_all_leaves_weaken<L>(x: Formula<L>, p: spec_fn(L) -> bool, q: spec_fn(L) -> bool)
    requires
        x.all_leaves(p),
        forall|leaf: L| #[trigger] p(leaf) ==> q(leaf),
    ensures
        x.all_leaves(q),
    decreases x,
{
    match x {
        Formula::Any => {},
        Formula::Leaf(_) => {},
        Formula::Not(inner) => {
            lemma_all_leaves_weaken(*inner, p, q);
        },
        Formula::And(list) => {
            assert forall|i: int| 0 <= i < list.len() implies (#[trigger] list[i]).all_leaves(q) by {
                assert(list[i].all_leaves(p));
                lemma_all_leaves_weaken(list[i], p, q);
            }
        },
        Formula::Or(list) => {
            assert forall|i: int| 0 <= i < list.len() implies (#[trigger] list[i]).all_leaves(q) by {
                assert(list[i].all_leaves(p));
                lemma_all_leaves_weaken(list[i], p, q);
            }
        },
    }
}

/// `Any` is the identity of conjunction.
pub proof fn law_and_identity<L>(x: Formula<L>)
    ensures
        Formula::<L>::Any.and_with(x) == x,
{
}

/// `Not(Any)` is the identity of disjunction, for the operator and for the
/// method. `Any` is none: the operator keeps it in the list.
pub proof fn law_or_identity<L>(x: Formula<L>)
    ensures
        Formula::<L>::never().either_with(x) == x,
        Formula::<L>::never().or_with(x) == x,
        Formula::<L>::Any.either_with(x) == Formula::Or(seq![Formula::Any, x]),
{
}

/// The method `or` differs from the operator `|` on `Any` alone, which it
/// replaces by the other operand.
pub proof fn law_or_method<L>(x: Formula<L>, other: Formula<L>)
    ensures
        Formula::<L>::Any.or_with(other) == other,
        !(x is Any) ==> x.or_with(other) == x.either_with(other),
{
}

/// Repeated conjunction keeps one flat list: on a formula that is neither
/// `Any` nor an `And` list, two conjunctions give the list of all three.
pub proof fn law_and_flattens<L>(x: Formula<L>, a: Formula<L>, b: Formula<L>)
    requires
        !(x is Any),
        !(x is And),
    ensures
        x.and_with(a).and_with(b) == Formula::And(seq![x, a, b]),
{
    assert(seq![x, a].push(b) =~= seq![x, a, b]);
}

/// Conjunction on an `And` list appends to it, however often it is applied.
pub proof fn law_and_appends<L>(list: Seq<Formula<L>>, a: Formula<L>, b: Formula<L>)
    ensures
        Formula::And(list).and_with(a).and_with(b) == Formula::And(list + seq![a, b]),
{
    assert(list.push(a).push(b) =~= list + seq![a, b]);
}

/// Repeated disjunction keeps one flat list: on a formula that is neither
/// `Not(Any)` nor an `Or` list, two disjunctions give the list of all three;
/// the method `or` does so on a formula that is not `Any` either.
pub proof fn law_or_flattens<L>(x: Formula<L>, a: Formula<L>, b: Formula<L>)
    requires
        x != Formula::<L>::never(),
        !(x is Or),
    ensures
        x.either_with(a).either_with(b) == Formula::Or(seq![x, a, b]),
        !(x is Any) ==> x.or_with(a).or_with(b) == Formula::Or(seq![x, a, b]),
{
    assert(seq![x, a].push(b) =~= seq![x, a, b]);
}

/// Disjunction on an `Or` list appends to it, however often it is applied.
pub proof fn law_or_appends<L>(list: Seq<Formula<L>>, a: Formula<L>, b: Formula<L>)
    ensures
        Formula::Or(list).either_with(a).either_with(b) == Formula::Or(list + seq![a, b]),
        Formula::Or(list).or_with(a).or_with(b) == Formula::Or(list + seq![a, b]),
{
    assert(list.push(a).push(b) =~= list + seq![a, b]);
}

/// Exclusive or is the conjunction of the disjunction with the negated
/// conjunction, for all operands.
pub proof fn law_xor_derivation<L>(a: Formula<L>, b: Formula<L>)
    ensures
        a.xor_with(b) == a.either_with(b).and_with(a.and_with(b).negated()),
{
}

/// Negation wraps and simplifies nothing: a double negation stays as
/// written.
pub proof fn law_not_wraps<L>(x: Formula<L>)
    ensures
        x.negated().negated() == Formula::Not(Box::new(Formula::Not(Box::new(x)))),
        x.negated().negated() != x,
{
    let twice = x.negated().negated();
    if twice == x {
        lemma_not_is_larger(x);
    }
}

/// The number of negations at the top of a formula.
pub open spec fn not_depth<L>(x: Formula<L>) -> nat
    decreases x,
{
    match x {
        Formula::Not(inner) => 1 + not_depth(*inner),
        _ => 0,
    }
}

proof fn lemma_not_is_larger<L>(x: Formula<L>)
    ensures
        not_depth(x.negated().negated()) == not_depth(x) + 2,
{
    let once = x.negated();
    assert(not_depth(once) == 1 + not_depth(x));
    assert(not_depth(once.negated()) == 1 + not_depth(once));
}

/// Mapping the leaves goes through every combinator: it maps each member of
/// an `And` or `Or` list in place, the inner formula of a `Not`, and the leaf
/// of a `Leaf`; `Any` stays.
pub proof fn law_map_homomorphism<L, M>(a: Formula<L>, b: Formula<L>, leaf: L, g: spec_fn(L) -> M)
    ensures
        Formula::And(seq![a, b]).map_leaves(g) == Formula::And(
            seq![a.map_leaves(g), b.map_leaves(g)],
        ),
        Formula::Or(seq![a, b]).map_leaves(g) == Formula::Or(
            seq![a.map_leaves(g), b.map_leaves(g)],
        ),
        a.negated().map_leaves(g) == a.map_leaves(g).negated(),
        Formula::Leaf(leaf).map_leaves(g) == Formula::Leaf(g(leaf)),
        Formula::<L>::Any.map_leaves(g) == Formula::<M>::Any,
{
    let both = seq![a, b];
    assert(both[0] == a && both[1] == b);
    assert(Formula::And(both).map_leaves(g)->And_0 =~= seq![a.map_leaves(g), b.map_leaves(g)]);
    assert(Formula::Or(both).map_leaves(g)->Or_0 =~= seq![a.map_leaves(g), b.map_leaves(g)]);
}

/// Mapping goes through lists of any length, member by member and in order.
pub proof fn law_map_lists<L, M>(list: Seq<Formula<L>>, g: spec_fn(L) -> M)
    ensures
        Formula::And(list).map_leaves(g) == Formula::And(
            list.map_values(|x: Formula<L>| x.map_leaves(g)),
        ),
        Formula::Or(list).map_leaves(g) == Formula::Or(
            list.map_values(|x: Formula<L>| x.map_leaves(g)),
        ),
{
    assert(Formula::And(list).map_leaves(g)->And_0 =~= list.map_values(
        |x: Formula<L>| x.map_leaves(g),
    ));
    assert(Formula::Or(list).map_leaves(g)->Or_0 =~= list.map_values(
        |x: Formula<L>| x.map_leaves(g),
    ));
}

/// Mapping with a function that returns each leaf as it is changes nothing.
pub proof fn law_map_identity<L>(x: Formula<L>, g: spec_fn(L) -> L)
    requires
        forall|leaf: L| #[trigger] g(leaf) == leaf,
    ensures
        x.map_leaves(g) == x,
    decreases x,
{
    match x {
        Formula::Any => {},
        Formula::Leaf(_) => {},
        Formula::Not(inner) => {
            law_map_identity(*inner, g);
        },
        Formula::And(list) => {
            assert forall|i: int| 0 <= i < list.len() implies (#[trigger] list[i]).map_leaves(g)
                == list[i] by {
                law_map_identity(list[i], g);
            }
            assert(x.map_leaves(g)->And_0 =~= list);
        },
        Formula::Or(list) => {
            assert forall|i: int| 0 <= i < list.len() implies (#[trigger] list[i]).map_leaves(g)
                == list[i] by {
                law_map_identity(list[i], g);
            }
            assert(x.map_leaves(g)->Or_0 =~= list);
        },
    }
}

/// Where `rel` allows one image only, the one that `g` gives, a related
/// formula is the mapped one.
pub proof fn law_related_is_mapped<L, M>(
    x: Formula<L>,
    y: Formula<M>,
    rel: spec_fn(L, M) -> bool,
    g: spec_fn(L) -> M,
)
    requires
        x.related(y, rel),
        forall|leaf: L, image: M| #[trigger] rel(leaf, image) ==> image == g(leaf),
    ensures
        y == x.map_leaves(g),
    decreases x,
{
    match x {
        Formula::Any => {},
        Formula::Leaf(_) => {},
        Formula::Not(inner) => {
            law_related_is_mapped(*inner, *y->Not_0, rel, g);
        },
        Formula::And(list) => {
            let images = y->And_0;
            assert forall|i: int| 0 <= i < list.len() implies images[i] == (
            #[trigger] list[i]).map_leaves(g) by {
                law_related_is_mapped(list[i], images[i], rel, g);
            }
            assert(images =~= x.map_leaves(g)->And_0);
        },
        Formula::Or(list) => {
            let images = y->Or_0;
            assert forall|i: int| 0 <= i < list.len() implies images[i] == (
            #[trigger] list[i]).map_leaves(g) by {
                law_related_is_mapped(list[i], images[i], rel, g);
            }
            assert(images =~= x.map_leaves(g)->Or_0);
        },
    }
}

/// A mapped formula is related to its source by the graph of the function.
pub proof fn law_mapped_is_related<L, M>(x: Formula<L>, rel: spec_fn(L, M) -> bool, g: spec_fn(L) -> M)
    requires
        forall|leaf: L| #[trigger] rel(leaf, g(leaf)),
    ensures
        x.related(x.map_leaves(g), rel),
    decreases x,
{
    match x {
        Formula::Any => {},
        Formula::Leaf(_) => {},
        Formula::Not(inner) => {
            law_mapped_is_related(*inner, rel, g);
        },
        Formula::And(list) => {
            let images = x.map_leaves(g)->And_0;
            assert forall|i: int| 0 <= i < list.len() implies (#[trigger] list[i]).related(
                images[i],
                rel,
            ) by {
                law_mapped_is_related(list[i], rel, g);
            }
        },
        Formula::Or(list) => {
            let images = x.map_leaves(g)->Or_0;
            assert forall|i: int| 0 <= i < list.len() implies (#[trigger] list[i]).related(
                images[i],
                rel,
            ) by {
                law_mapped_is_related(list[i], rel, g);
            }
        },
    }
}

/// Where every related pair of leaves is equal, related formulas are equal.
pub proof fn law_related_is_equal<L>(x: Formula<L>, y: Formula<L>, rel: spec_fn(L, L) -> bool)
    requires
        x.related(y, rel),
        forall|leaf: L, image: L| #[trigger] rel(leaf, image) ==> image == leaf,
    ensures
        y == x,
{
    let g = |leaf: L| leaf;
    law_related_is_mapped(x, y, rel, g);
    law_map_identity(x, g);
}

} // verus!
