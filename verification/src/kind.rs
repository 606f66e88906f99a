//! Kinds of a field's parsing, as type-level markers.

use vstd::prelude::*;

verus! {

/// Abstracted kind of a field's parsing into a container: the four-way
/// classification that determines how an argument's body is shaped.
pub trait Kind {}

/// Kinds allowing to parse only a single value of a field, so that the value
/// may live in a cell-shaped container.
pub trait Single: Kind {}

/// [`Kind`] parsing a field as a bare name token (keywords admitted).
///
/// ```text
/// #[attr(ident)]
/// ```
#[derive(Clone, Copy, Debug)]
pub enum Ident {
    /// The marker's only value; the marker is normally used at the type level.
    Marker,
}

impl Kind for Ident {}

impl Single for Ident {}

/// [`Kind`] parsing a field as a nested record behind a parenthesized
/// sub-attribute body.
///
/// ```text
/// #[attr(nested(ident, key = val))]
/// ```
#[derive(Clone, Copy, Debug)]
pub enum Nested {
    /// The marker's only value; the marker is normally used at the type level.
    Marker,
}

impl Kind for Nested {}

impl Single for Nested {}

/// [`Kind`] parsing a field as values behind a name token.
///
/// ```text
/// #[attr(ident = value)]
/// #[attr(ident value)]
/// #[attr(ident(value1, value2))]
/// ```
#[derive(Clone, Copy, Debug)]
pub enum Value {
    /// The marker's only value; the marker is normally used at the type level.
    Marker,
}

impl Kind for Value {}

impl Single for Value {}

/// [`Kind`] parsing a field as `key = value` pairs behind a name token, one
/// pair per occurrence.
///
/// ```text
/// #[attr(ident key = value)]
/// ```
#[derive(Clone, Copy, Debug)]
pub enum Pairs {
    /// The marker's only value; the marker is normally used at the type level.
    Marker,
}

impl Kind for Pairs {}

} // verus!
