//! Canonical diagnostics shared by the parsing machinery.

use vstd::prelude::*;
use vstd::string::StringExecFns;

use crate::spanned::Span;

verus! {

/// A diagnostic: a message anchored at a source location.
#[derive(Debug)]
pub struct Error {
    /// Location the diagnostic points at.
    pub span: Span,
    /// Human-readable text of the diagnostic.
    pub message: String,
}

/// What a diagnostic holds, for specifications.
pub struct ErrView {
    /// Location the diagnostic points at.
    pub span: Span,
    /// Text of the diagnostic.
    pub message: Seq<char>,
}

impl View for Error {
    type V = ErrView;

    open spec fn view(&self) -> ErrView {
        ErrView { span: self.span, message: self.message@ }
    }
}

impl Clone for Error {
    /// A clone of a diagnostic is the very same value.
    fn clone(&self) -> (r: Self)
        ensures
            r == *self,
    {
        Error { span: self.span, message: self.message.clone() }
    }
}

impl Error {
    /// Creates a diagnostic out of the given location and text.
    pub fn new(span: Span, message: String) -> (e: Error)
        ensures
            e.span == span,
            e.message == message,
    {
        Error { span, message }
    }

    /// The diagnostic's text, for reporting.
    pub fn to_text(&self) -> (r: String)
        ensures
            r@ == self.message@,
    {
        self.message.clone()
    }
}

/// Text of the diagnostic reported when a `dedup = unique` container refuses
/// a repeated value.
pub open spec fn dup_attr_arg_text() -> Seq<char> {
    "duplicated attribute's argument found"@
}

/// Text of the diagnostic reported when an argument name is not recognized.
pub open spec fn unknown_attr_arg_text(name: Seq<char>) -> Seq<char> {
    "unknown `"@ + name + "` attribute argument"@
}

/// Text of the diagnostic reported when an argument is not followed by a
/// comma separator.
pub open spec fn expected_followed_by_comma_text() -> Seq<char> {
    "expected followed by `,`"@
}

/// Creates a "duplicated attribute's argument" [`Error`] pointing at the
/// given location.
pub fn dup_attr_arg(span: Span) -> (e: Error)
    ensures
        e.span == span,
        e.message@ == dup_attr_arg_text(),
{
    Error { span, message: String::from_str("duplicated attribute's argument found") }
}

/// Creates an "unknown attribute's argument" [`Error`] for the given `name`,
/// pointing at the given location.
pub fn unknown_attr_arg(span: Span, name: &str) -> (e: Error)
    ensures
        e.span == span,
        e.message@ == unknown_attr_arg_text(name@),
{
    let msg = String::from_str("unknown `").concat(name).concat("` attribute argument");
    Error { span, message: msg }
}

/// Creates an "expected followed by comma" [`Error`] pointing at the given
/// location.
pub fn expected_followed_by_comma(span: Span) -> (e: Error)
    ensures
        e.span == span,
        e.message@ == expected_followed_by_comma_text(),
{
    Error { span, message: String::from_str("expected followed by `,`") }
}

} // verus!
