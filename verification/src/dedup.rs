//! Deduplication strategies for repeated values of one field.

use vstd::prelude::*;

verus! {

/// The three ways repeated values of one field may be treated, as a plain
/// value usable in data and in specifications.
#[derive(Clone, Copy, Debug, PartialEq, Eq, Structural)]
pub enum Strategy {
    /// A repeated value is an error.
    Unique,
    /// The first value wins; later ones are dropped.
    First,
    /// The last value wins; earlier ones are replaced.
    Last,
}

/// Abstracted deduplication strategy of a field's parsing, as a type-level
/// marker. Each marker names one [`Strategy`].
pub trait Dedup {
    /// The strategy this marker stands for.
    spec fn strategy_spec() -> Strategy;

    /// Returns the strategy this marker stands for.
    fn strategy() -> (s: Strategy)
        ensures
            s == Self::strategy_spec(),
    ;
}

/// Marker of the [`Strategy::Unique`] deduplication strategy: only a single
/// value of a field is allowed to appear.
#[derive(Clone, Copy, Debug)]
pub enum Unique {
    /// The marker's only value; the marker is normally used at the type level.
    Marker,
}

impl Dedup for Unique {
    open spec fn strategy_spec() -> Strategy {
        Strategy::Unique
    }

    fn strategy() -> Strategy {
        Strategy::Unique
    }
}

/// Marker of the [`Strategy::First`] deduplication strategy: only the first
/// parsed value of a field is picked.
#[derive(Clone, Copy, Debug)]
pub enum First {
    /// The marker's only value; the marker is normally used at the type level.
    Marker,
}

impl Dedup for First {
    open spec fn strategy_spec() -> Strategy {
        Strategy::First
    }

    fn strategy() -> Strategy {
        Strategy::First
    }
}

/// Marker of the [`Strategy::Last`] deduplication strategy: only the last
/// parsed value of a field is picked.
#[derive(Clone, Copy, Debug)]
pub enum Last {
    /// The marker's only value; the marker is normally used at the type level.
    Marker,
}

impl Dedup for Last {
    open spec fn strategy_spec() -> Strategy {
        Strategy::Last
    }

    fn strategy() -> Strategy {
        Strategy::Last
    }
}

} // verus!
