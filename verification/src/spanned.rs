//! Source locations and the wrapper carrying one alongside a value.

use vstd::prelude::*;

verus! {

/// Types a [`Span`] can be taken from: either a location itself, or a value
/// that carries one.
pub trait IntoSpan: Sized {
    /// The location this value carries, as seen by specifications.
    spec fn span_of_spec(&self) -> Span;

    /// Returns the location this value carries.
    fn into_span(&self) -> (s: Span)
        ensures
            s == self.span_of_spec(),
    ;
}

/// A source location, kept as a plain byte range so that diagnostics can point
/// back into the text the tokens were read from.
#[derive(Clone, Copy, Debug, PartialEq, Eq, Structural)]
pub struct Span {
    /// Offset of the first byte covered by this span.
    pub lo: u32,
    /// Offset one past the last byte covered by this span.
    pub hi: u32,
}

impl Span {
    /// The span used when no better location is known.
    pub fn call_site() -> (s: Span)
        ensures
            s == (Span { lo: 0, hi: 0 }),
    {
        Span { lo: 0, hi: 0 }
    }
}

/// Wrapper for values without an intrinsic source location, so that they can
/// still take part in precise diagnostics.
///
/// Equality of two `Spanning` values compares the items only; the spans are
/// ignored.
#[derive(Clone, Copy, Debug)]
pub struct Spanning<T> {
    /// The recorded location.
    pub span: Span,
    /// The wrapped value.
    pub item: T,
}

impl<T> Spanning<T> {
    /// Wraps the given `item` together with its `span`.
    pub fn new(item: T, span: Span) -> (s: Spanning<T>)
        ensures
            s.item_spec() == item,
            s.span_spec() == span,
    {
        Spanning { span, item }
    }

    /// The wrapped value, as seen by specifications.
    pub open spec fn item_spec(&self) -> T {
        self.item
    }

    /// The recorded location, as seen by specifications.
    pub open spec fn span_spec(&self) -> Span {
        self.span
    }

    /// Destructures this wrapper, returning the underlying value.
    pub fn into_inner(self) -> (r: T)
        ensures
            r == self.item_spec(),
    {
        self.item
    }

    /// Returns a reference to the underlying value.
    pub fn item(&self) -> (r: &T)
        ensures
            *r == self.item_spec(),
    {
        &self.item
    }

    /// Returns the recorded location.
    pub fn span(&self) -> (r: Span)
        ensures
            r == self.span_spec(),
    {
        self.span
    }
}

impl IntoSpan for Span {
    open spec fn span_of_spec(&self) -> Span {
        *self
    }

    fn into_span(&self) -> Span {
        *self
    }
}

impl<T> IntoSpan for Spanning<T> {
    open spec fn span_of_spec(&self) -> Span {
        self.span_spec()
    }

    fn into_span(&self) -> Span {
        self.span()
    }
}

/// A key-value pair carries its key's location: diagnostics about a mapping
/// entry point at the key.
impl<K: IntoSpan, V> IntoSpan for (K, V) {
    open spec fn span_of_spec(&self) -> Span {
        self.0.span_of_spec()
    }

    fn into_span(&self) -> Span {
        self.0.into_span()
    }
}

} // verus!
