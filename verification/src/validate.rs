//! Validation rules a container supports. The only built-in rule is
//! [`Provided`]: a mandatory cell must have been filled; every other
//! container shape passes it trivially.

use vstd::prelude::*;
use vstd::string::StringExecFns;

use crate::container::Container;
use crate::equiv::Equiv;
use crate::err::Error;
use crate::ordmap::OrdMap;
use crate::required::Required;
use crate::spanned::Span;

verus! {

/// Abstracted validation rule of a field's parsing, as a type-level
/// marker.
pub trait Rule {}

/// The presence rule: a mandatory cell must hold a value once parsing is
/// over.
#[derive(Clone, Copy, Debug)]
pub enum Provided {
    /// The marker's only value; the marker is normally used at the type level.
    Marker,
}

impl Rule for Provided {}

/// Text of the diagnostic a bare presence check reports; the pipeline
/// prefixes it with the field's recognized names and the attribute's name.
pub open spec fn absent_text() -> Seq<char> {
    "is expected, but is absent"@
}

/// Checking a validation [`Rule`] on a container.
pub trait Validation<R: Rule + ?Sized>: Container<Self::Value> {
    /// The type of values the checked container holds.
    type Value;

    /// Whether the rule holds of this container, as seen by
    /// specifications.
    spec fn validation_spec(&self) -> bool;

    /// Checks whether the rule holds; a violation is reported at the
    /// calling site, for the pipeline to re-anchor.
    fn validation(&self) -> (r: Result<(), Error>)
        ensures
            self.validation_spec() ==> r is Ok,
            !self.validation_spec() ==> (r matches Err(e) && e@.span == (Span { lo: 0, hi: 0 })
                && e@.message == absent_text()),
    ;
}

impl<V> Validation<Provided> for Option<V> {
    type Value = V;

    open spec fn validation_spec(&self) -> bool {
        true
    }

    fn validation(&self) -> Result<(), Error> {
        Ok(())
    }
}

impl<V> Validation<Provided> for Required<V> {
    type Value = V;

    open spec fn validation_spec(&self) -> bool {
        self.is_present_spec()
    }

    fn validation(&self) -> Result<(), Error> {
        if self.is_present() {
            Ok(())
        } else {
            Err(
                Error {
                    span: Span::call_site(),
                    message: String::from_str("is expected, but is absent"),
                },
            )
        }
    }
}

impl<V: Equiv> Validation<Provided> for Vec<V> {
    type Value = V;

    open spec fn validation_spec(&self) -> bool {
        true
    }

    fn validation(&self) -> Result<(), Error> {
        Ok(())
    }
}

impl<K: Equiv, V> Validation<Provided> for OrdMap<K, V> {
    type Value = (K, V);

    open spec fn validation_spec(&self) -> bool {
        true
    }

    fn validation(&self) -> Result<(), Error> {
        Ok(())
    }
}

} // verus!
