//! The present-or-absent cell whose presence is itself a validation rule.

use vstd::prelude::*;

verus! {

/// Container requiring a field to have a value mandatorily.
///
/// It is similar to an [`Option`], but reading the underlying value demands
/// that it has been put there: the cell starts absent, and the machinery of
/// this crate is in charge of filling it before anything reads it.
#[derive(Clone, Copy, Debug)]
pub struct Required<T> {
    /// The cell's contents. The parsing machinery fills it; readers go
    /// through the accessors, which insist on presence.
    pub value: Option<T>,
}

impl<T> Required<T> {
    /// The cell's contents, as seen by specifications.
    pub open spec fn value_spec(&self) -> Option<T> {
        self.value
    }

    /// Whether the underlying value is present, as seen by specifications.
    pub open spec fn is_present_spec(&self) -> bool {
        self.value_spec() is Some
    }

    /// Creates an absent cell.
    pub fn absent() -> (r: Required<T>)
        ensures
            r.value_spec() is None,
    {
        Required { value: None }
    }

    /// Indicates whether the underlying value is present in this cell.
    pub fn is_present(&self) -> (r: bool)
        ensures
            r == self.is_present_spec(),
    {
        self.value.is_some()
    }

    /// Replaces the underlying value with the given one, returning the
    /// previous one, if any.
    pub fn replace(&mut self, value: T) -> (prev: Option<T>)
        ensures
            final(self).value_spec() == Some(value),
            prev == old(self).value_spec(),
    {
        let prev = self.value.take();
        self.value = Some(value);
        prev
    }

    /// Replaces the underlying value with the given one, returning the
    /// previous one, if any.
    pub fn replace_with(&mut self, value: T) -> (prev: Option<T>)
        ensures
            final(self).value_spec() == Some(value),
            prev == old(self).value_spec(),
    {
        self.replace(value)
    }

    /// Removes the underlying value from this cell, returning it, if any.
    pub fn take(&mut self) -> (r: Option<T>)
        ensures
            final(self).value_spec() is None,
            r == old(self).value_spec(),
    {
        self.value.take()
    }

    /// Unwraps this cell, returning the underlying value.
    ///
    /// A cell that has not been filled has no value to return, so an absent
    /// cell cannot be unwrapped.
    pub fn into_inner(self) -> (r: T)
        requires
            self.is_present_spec(),
        ensures
            self.value_spec() == Some(r),
    {
        self.value.unwrap()
    }

    /// Returns a reference to the underlying value of a filled cell.
    pub fn peek(&self) -> (r: &T)
        requires
            self.is_present_spec(),
        ensures
            self.value_spec() == Some(*r),
    {
        self.value.as_ref().unwrap()
    }
}

impl<T> Default for Required<T> {
    /// An absent cell: the state every [`Required`] field starts in.
    fn default() -> (r: Self)
        ensures
            r.value_spec() is None,
    {
        Required { value: None }
    }
}

} // verus!
