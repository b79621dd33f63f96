//! What it means that a value meets a condition. The library builds,
//! combines and writes conditions; whoever evaluates them honours the
//! meaning stated here.

use vstd::prelude::*;
use crate::formula::Formula;
use crate::match_option::MatchOption;
use crate::match_set::Membership;
use crate::match_str::TextTest;
use crate::match_value::Comparison;

verus! {

/// Whether `value` meets a comparison, where `less` is the order of the
/// values: equality is equality, and a range holds its lower end and not its
/// upper end.
pub open spec fn compares<V>(test: Comparison<V>, value: V, less: spec_fn(V, V) -> bool) -> bool {
    match test {
        Comparison::EqualTo(x) => value == x,
        Comparison::GreaterThan(x) => less(x, value),
        Comparison::LessThan(x) => less(value, x),
        Comparison::InRange(low, high) => !less(value, low) && less(value, high),
    }
}

/// `compares`, as a test of a leaf.
pub open spec fn comparing<V>(less: spec_fn(V, V) -> bool) -> spec_fn(Comparison<V>, V) -> bool {
    |test: Comparison<V>, value: V| compares(test, value, less)
}

/// The order of the integers.
pub open spec fn int_less() -> spec_fn(i64, i64) -> bool {
    |a: i64, b: i64| a < b
}

/// Whether `part` stands somewhere in `text`.
pub open spec fn has_part(text: Seq<char>, part: Seq<char>) -> bool {
    exists|at: int|
        0 <= at && at + part.len() <= text.len() && #[trigger] text.subrange(
            at,
            at + part.len(),
        ) == part
}

/// Whether `text` meets a test, where `engine` says which texts a pattern
/// describes.
pub open spec fn reads(
    test: TextTest<Seq<char>>,
    text: Seq<char>,
    engine: spec_fn(Seq<char>, Seq<char>) -> bool,
) -> bool {
    match test {
        TextTest::Contains(part) => has_part(text, part),
        TextTest::Regex(pattern) => engine(pattern, text),
        TextTest::EqualTo(other) => text == other,
    }
}

/// `reads`, as a test of a leaf.
pub open spec fn reading(engine: spec_fn(Seq<char>, Seq<char>) -> bool) -> spec_fn(
    TextTest<Seq<char>>,
    Seq<char>,
) -> bool {
    |test: TextTest<Seq<char>>, text: Seq<char>| reads(test, text, engine)
}

/// Whether a collection has a member that meets the inner condition, where
/// `inner` says whether a value meets one.
pub open spec fn has_member<C, V>(
    test: Membership<C>,
    members: Seq<V>,
    inner: spec_fn(C, V) -> bool,
) -> bool {
    match test {
        Membership::Contains(condition) => exists|i: int|
            0 <= i < members.len() && inner(condition, #[trigger] members[i]),
    }
}

/// `has_member`, as a test of a leaf.
pub open spec fn having<C, V>(inner: spec_fn(C, V) -> bool) -> spec_fn(Membership<C>, Seq<V>) -> bool {
    |test: Membership<C>, members: Seq<V>| has_member(test, members, inner)
}

/// `holds` of an inner formula, as a test of an inner condition.
pub open spec fn holding<L, V>(leaf: spec_fn(L, V) -> bool) -> spec_fn(Formula<L>, V) -> bool {
    |condition: Formula<L>, value: V| condition.holds(value, leaf)
}

/// `Any` matches every value and `Not(Any)` matches none.
pub proof fn law_any_and_never<L, V>(value: V, leaf: spec_fn(L, V) -> bool)
    ensures
        Formula::<L>::Any.holds(value, leaf),
        !Formula::<L>::never().holds(value, leaf),
{
    let any = Formula::<L>::Any;
    assert(any.holds(value, leaf));
    assert(any.negated().holds(value, leaf) == !any.holds(value, leaf));
}

/// There is no leaf for "every member meets `c`": it is written as the
/// negation of "a member meets the negation of `c`". That condition holds of
/// a collection if and only if every member meets `c`; of the empty
/// collection it holds.
pub proof fn law_every_member<L, V>(c: Formula<L>, members: Seq<V>, leaf: spec_fn(L, V) -> bool)
    ensures
        Formula::Leaf(Membership::Contains(c.negated())).negated().holds(
            members,
            having(holding(leaf)),
        ) <==> forall|i: int| 0 <= i < members.len() ==> c.holds(#[trigger] members[i], leaf),
        members.len() == 0 ==> Formula::Leaf(Membership::Contains(c.negated())).negated().holds(
            members,
            having(holding(leaf)),
        ),
{
    let test = Membership::Contains(c.negated());
    let inner = Formula::Leaf(test);
    let outer = inner.negated();
    assert(inner.holds(members, having(holding(leaf))) == has_member(test, members, holding(leaf)));
    assert(outer.holds(members, having(holding(leaf))) == !inner.holds(
        members,
        having(holding(leaf)),
    ));
    if forall|i: int| 0 <= i < members.len() ==> c.holds(#[trigger] members[i], leaf) {
        if has_member(test, members, holding(leaf)) {
            let i = choose|i: int|
                0 <= i < members.len() && holding(leaf)(c.negated(), #[trigger] members[i]);
            assert(c.holds(members[i], leaf));
            assert(!c.negated().holds(members[i], leaf));
        }
    } else {
        let i = choose|i: int| 0 <= i < members.len() && !c.holds(#[trigger] members[i], leaf);
        assert(c.negated().holds(members[i], leaf));
        assert(holding(leaf)(c.negated(), members[i]));
    }
}

/// A conjunction holds if and only if every member of its list does, and a
/// disjunction if and only if one does: of the empty list the first holds
/// and the second does not.
pub proof fn law_lists<L, V>(list: Seq<Formula<L>>, value: V, leaf: spec_fn(L, V) -> bool)
    ensures
        Formula::And(list).holds(value, leaf) <==> forall|i: int|
            0 <= i < list.len() ==> (#[trigger] list[i]).holds(value, leaf),
        Formula::Or(list).holds(value, leaf) <==> exists|i: int|
            0 <= i < list.len() && (#[trigger] list[i]).holds(value, leaf),
        Formula::<L>::And(Seq::empty()).holds(value, leaf),
        !Formula::<L>::Or(Seq::empty()).holds(value, leaf),
{
    let all = Formula::And(list);
    let one = Formula::Or(list);
    if all.holds(value, leaf) {
        assert forall|i: int| 0 <= i < list.len() implies (#[trigger] list[i]).holds(value, leaf) by {
            assert(all->And_0[i].holds(value, leaf));
        }
    }
    if forall|i: int| 0 <= i < list.len() ==> (#[trigger] list[i]).holds(value, leaf) {
        assert forall|i: int| 0 <= i < all->And_0.len() implies (#[trigger] all->And_0[i]).holds(
            value,
            leaf,
        ) by {
            assert(list[i].holds(value, leaf));
        }
        assert(all.holds(value, leaf));
    }
    if one.holds(value, leaf) {
        let i = choose|i: int| 0 <= i < one->Or_0.len() && (#[trigger] one->Or_0[i]).holds(value, leaf);
        assert(list[i].holds(value, leaf));
    }
    if exists|i: int| 0 <= i < list.len() && (#[trigger] list[i]).holds(value, leaf) {
        let i = choose|i: int| 0 <= i < list.len() && (#[trigger] list[i]).holds(value, leaf);
        assert(one->Or_0[i].holds(value, leaf));
        assert(one.holds(value, leaf));
    }
    assert(Formula::<L>::And(Seq::empty()).holds(value, leaf));
    assert(!Formula::<L>::Or(Seq::empty()).holds(value, leaf));
}

/// A range holds its lower end and every value up to its upper end, which
/// it does not hold.
pub proof fn law_range_is_half_open(low: i64, high: i64, value: i64)
    ensures
        compares(Comparison::InRange(low, high), value, int_less()) <==> low <= value < high,
        low < high ==> compares(Comparison::InRange(low, high), low, int_less()),
        !compares(Comparison::InRange(low, high), high, int_less()),
{
}

/// A text has itself and the empty text as parts, so it meets the tests
/// that it equals itself and that it contains itself; whether it meets a
/// pattern is what the engine says.
pub proof fn law_text_tests(
    text: Seq<char>,
    pattern: Seq<char>,
    engine: spec_fn(Seq<char>, Seq<char>) -> bool,
)
    ensures
        has_part(text, text),
        has_part(text, Seq::empty()),
        reads(TextTest::EqualTo(text), text, engine),
        reads(TextTest::Contains(text), text, engine),
        reads(TextTest::Regex(pattern), text, engine) == engine(pattern, text),
{
    assert(text.subrange(0int, 0int + text.len()) =~= text);
    assert(text.subrange(0int, 0int + Seq::<char>::empty().len()) =~= Seq::<char>::empty());
}

/// Of an absent value, `Any`, `Absent` and `NoneOr` hold and `Present` does
/// not; of a present one, `Any` holds, `Absent` does not, and `NoneOr` and
/// `Present` hold if the inner condition does.
pub proof fn law_presence<C, V>(inner: C, value: V, test: spec_fn(C, V) -> bool)
    ensures
        MatchOption::<C>::Any.holds(Option::<V>::None, test),
        MatchOption::<C>::Absent.holds(Option::<V>::None, test),
        MatchOption::NoneOr(inner).holds(Option::<V>::None, test),
        !MatchOption::Present(inner).holds(Option::<V>::None, test),
        MatchOption::<C>::Any.holds(Some(value), test),
        !MatchOption::<C>::Absent.holds(Some(value), test),
        MatchOption::NoneOr(inner).holds(Some(value), test) <==> test(inner, value),
        MatchOption::Present(inner).holds(Some(value), test) <==> test(inner, value),
{
}

/// A list of two holds as its two members do.
proof fn lemma_pair_holds<L, V>(a: Formula<L>, b: Formula<L>, value: V, leaf: spec_fn(L, V) -> bool)
    ensures
        Formula::And(seq![a, b]).holds(value, leaf) <==> a.holds(value, leaf) && b.holds(
            value,
            leaf,
        ),
        Formula::Or(seq![a, b]).holds(value, leaf) <==> a.holds(value, leaf) || b.holds(
            value,
            leaf,
        ),
{
    let pair = seq![a, b];
    law_lists(pair, value, leaf);
    assert(pair[0] == a && pair[1] == b);
    if a.holds(value, leaf) {
        assert(pair[0].holds(value, leaf));
    }
    if b.holds(value, leaf) {
        assert(pair[1].holds(value, leaf));
    }
}

/// A list that grew by one holds as the list and the new member do.
proof fn lemma_push_holds<L, V>(
    list: Seq<Formula<L>>,
    last: Formula<L>,
    value: V,
    leaf: spec_fn(L, V) -> bool,
)
    ensures
        Formula::And(list.push(last)).holds(value, leaf) <==> Formula::And(list).holds(value, leaf)
            && last.holds(value, leaf),
        Formula::Or(list.push(last)).holds(value, leaf) <==> Formula::Or(list).holds(value, leaf)
            || last.holds(value, leaf),
{
    let more = list.push(last);
    law_lists(list, value, leaf);
    law_lists(more, value, leaf);
    assert(more[list.len() as int] == last);
    assert forall|i: int| 0 <= i < list.len() implies more[i] == list[i] by {}
    if Formula::And(more).holds(value, leaf) {
        assert(more[list.len() as int].holds(value, leaf));
        assert forall|i: int| 0 <= i < list.len() implies (#[trigger] list[i]).holds(value, leaf) by {
            assert(more[i].holds(value, leaf));
        }
    }
    if Formula::And(list).holds(value, leaf) && last.holds(value, leaf) {
        assert forall|i: int| 0 <= i < more.len() implies (#[trigger] more[i]).holds(value, leaf) by {
            if i < list.len() {
                assert(list[i].holds(value, leaf));
            }
        }
    }
    if Formula::Or(more).holds(value, leaf) {
        let i = choose|i: int| 0 <= i < more.len() && (#[trigger] more[i]).holds(value, leaf);
        if i < list.len() {
            assert(list[i].holds(value, leaf));
        }
    }
    if Formula::Or(list).holds(value, leaf) {
        let i = choose|i: int| 0 <= i < list.len() && (#[trigger] list[i]).holds(value, leaf);
        assert(more[i].holds(value, leaf));
    }
    if last.holds(value, leaf) {
        assert(more[list.len() as int].holds(value, leaf));
    }
}

/// The negation holds exactly where the condition does not.
pub proof fn law_not_holds<L, V>(a: Formula<L>, value: V, leaf: spec_fn(L, V) -> bool)
    ensures
        a.negated().holds(value, leaf) <==> !a.holds(value, leaf),
{
}

/// The conjunction, which `&` and `and` build, holds exactly where both
/// operands hold.
pub proof fn law_and_holds<L, V>(a: Formula<L>, b: Formula<L>, value: V, leaf: spec_fn(L, V) -> bool)
    ensures
        a.and_with(b).holds(value, leaf) <==> a.holds(value, leaf) && b.holds(value, leaf),
{
    match a {
        Formula::Any => {},
        Formula::And(list) => {
            lemma_push_holds(list, b, value, leaf);
        },
        _ => {
            lemma_pair_holds(a, b, value, leaf);
        },
    }
}

/// The disjunction, which `|` builds, holds exactly where one of the
/// operands holds: `Any | b` matches every value, and `Not(Any) | b` matches
/// what `b` matches.
pub proof fn law_either_holds<L, V>(
    a: Formula<L>,
    b: Formula<L>,
    value: V,
    leaf: spec_fn(L, V) -> bool,
)
    ensures
        a.either_with(b).holds(value, leaf) <==> a.holds(value, leaf) || b.holds(value, leaf),
{
    if a == Formula::<L>::never() {
        law_any_and_never(value, leaf);
    } else {
        match a {
            Formula::Or(list) => {
                lemma_push_holds(list, b, value, leaf);
            },
            _ => {
                lemma_pair_holds(a, b, value, leaf);
            },
        }
    }
}

/// What the method `or` builds holds exactly where one of the operands
/// holds, on every left operand but `Any`; on `Any` it holds where the other
/// operand does.
pub proof fn law_or_method_holds<L, V>(
    a: Formula<L>,
    b: Formula<L>,
    value: V,
    leaf: spec_fn(L, V) -> bool,
)
    ensures
        !(a is Any) ==> (a.or_with(b).holds(value, leaf) <==> a.holds(value, leaf) || b.holds(
            value,
            leaf,
        )),
        Formula::<L>::Any.or_with(b).holds(value, leaf) <==> b.holds(value, leaf),
{
    law_either_holds(a, b, value, leaf);
}

/// Exclusive or, which `^` builds where `clone` is exact, holds exactly
/// where one operand holds and the other does not.
pub proof fn law_xor_holds<L, V>(a: Formula<L>, b: Formula<L>, value: V, leaf: spec_fn(L, V) -> bool)
    ensures
        a.xor_with(b).holds(value, leaf) <==> (a.holds(value, leaf) != b.holds(value, leaf)),
{
    let either = a.either_with(b);
    let both = a.and_with(b);
    law_either_holds(a, b, value, leaf);
    law_and_holds(a, b, value, leaf);
    law_not_holds(both, value, leaf);
    law_and_holds(either, both.negated(), value, leaf);
}

} // verus!
