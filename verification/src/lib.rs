//! Strategies for solving problems: describe the problem, and the strategy
//! finds the solution.
//!
//! Each module holds one strategy:
//!
//! * [`bt`]: backtracking over the states of a search tree.
//! * [`dac`]: divide and conquer, with and without memory.
use vstd::prelude::*;
use vstd::std_specs::hash::obeys_key_model;

pub mod bt;
pub mod dac;

verus! {

/// What a problem is after: the largest value, the smallest value, or every
/// solution there is.
#[derive(Clone, Copy, Debug, PartialEq, Eq, Structural)]
pub enum Type {
    /// Not an optimization problem: every final state is a solution.
    All,
    /// The larger the value of a final state, the better.
    Max,
    /// The smaller the value of a final state, the better.
    Min,
}

/// Whether cloning a `T` gives the value back that was cloned.
pub open spec fn clones_exactly<T: Clone>() -> bool {
    forall|value: T, copy: T| #[trigger] call_ensures(T::clone, (&value,), copy) ==> copy == value
}

/// Whether a `T` is a key by its value, as a hash set or a hash map takes
/// its keys to be: keys that are equal are one key with one hash, and the
/// clone of a key is that key.
pub open spec fn keys_by_value<T: Clone>() -> bool {
    obeys_key_model::<T>() && clones_exactly::<T>()
}

} // verus!
