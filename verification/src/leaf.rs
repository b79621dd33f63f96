//! What a function object does to one leaf, as predicates on leaves.

use vstd::prelude::*;

verus! {

/// The leaves that `f` may be called on.
pub open spec fn may_call<T, U, F: Fn(T) -> U>(f: F) -> spec_fn(T) -> bool {
    |x: T| call_requires(f, (x,))
}

/// The pairs of a leaf and a value that `f` may return for it.
pub open spec fn call_gives<T, U, F: Fn(T) -> U>(f: F) -> spec_fn(T, U) -> bool {
    |x: T, y: U| call_ensures(f, (x,), y)
}

/// The leaves that `f` may be called on by reference.
pub open spec fn may_call_ref<T, U, F: Fn(&T) -> U>(f: F) -> spec_fn(T) -> bool {
    |x: T| call_requires(f, (&x,))
}

/// The pairs of a leaf and a value that `f` may return for a reference to it.
pub open spec fn call_ref_gives<T, U, F: Fn(&T) -> U>(f: F) -> spec_fn(T, U) -> bool {
    |x: T, y: U| call_ensures(f, (&x,), y)
}

/// The pairs of a leaf and a value that `clone` may return for it.
pub open spec fn clone_gives<T: Clone>() -> spec_fn(T, T) -> bool {
    |x: T, y: T| cloned(x, y)
}

/// `clone` returns a value equal to the one it was given, for every value of
/// `T`.
pub open spec fn clone_is_exact<T: Clone>() -> bool {
    forall|x: T, y: T| #[trigger] cloned(x, y) ==> x == y
}

} // verus!
