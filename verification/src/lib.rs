//! Conditions: values that describe what another value must look like.
//!
//! A condition is a tree. Its leaves compare with a value (`Match`), test a
//! text (`MatchStr`) or ask for a member of a collection (`MatchSet`); its
//! inner nodes are `Not`, `And` and `Or`, and `Any` always matches.
//! `MatchOption` wraps a condition for a value that may be absent. The
//! library builds, combines, maps, writes and reads conditions. Whether a
//! value meets a condition is for the one who evaluates it; `semantics`
//! states what that means.
//!
//! * `formula` holds the shape that the three families of trees share, the
//!   combinators on it and their laws. The operators `&`, `|`, `^` and `!`
//!   keep the meaning of their operands: `Any` gives way in a conjunction
//!   and `Not(Any)` in a disjunction. The method `Match::or` alone replaces
//!   `Any` too.
//! * `match_value`, `match_str`, `match_set` and `match_option` hold the
//!   types, each with its view as a formula.
//! * `wire` and `codec` hold the wire form. A condition is written with a
//!   tag for each part; it is read tag first, and a value under no known tag
//!   is the bare leaf. `MatchOption` is written in the form of four states
//!   (`some`, `none_or`); the form of three states (`matching`) has
//!   functions of its own, and neither reads what the other writes with a
//!   tag.
//! * `exchange` converts the amounts of money in a condition to another
//!   currency.

pub mod codec;
pub mod exchange;
pub mod formula;
pub mod leaf;
pub mod match_option;
pub mod match_set;
pub mod match_str;
pub mod match_value;
pub mod semantics;
pub mod wire;

pub use codec::{decode, Wired, DEPTH_CEILING};
pub use exchange::Money;
pub use match_option::MatchOption;
pub use match_set::MatchSet;
pub use match_str::MatchStr;
pub use match_value::Match;
pub use wire::{DecodeError, Wire};
