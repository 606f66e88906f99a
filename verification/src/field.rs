//! Batteries for working with a record's fields.

use vstd::prelude::*;

use crate::attr::Attribute;
use crate::container::Container;
use crate::err::Error;

verus! {

/// The stock "if empty" fallback combinator: when the container is still
/// empty, runs `parse` over the item's attributes and sets the value it
/// produces, if any; a non-empty container is left untouched and `parse` is
/// not consulted.
///
/// The fallback runs exactly when the container is empty at fallback time;
/// otherwise the container keeps its value.
pub fn if_empty<V, C: Container<V>, F: FnOnce(&Vec<Attribute>) -> Result<Option<V>, Error>>(
    container: &mut C,
    attrs: &Vec<Attribute>,
    parse: F,
) -> (r: Result<(), Error>)
    requires
        parse.requires((attrs,)),
    ensures
        !old(container).is_empty_spec() ==> (r is Ok && *final(container) == *old(container)),
        old(container).is_empty_spec() ==> match r {
            Result::Ok(()) => {
                ||| (exists|v: V|
                    #[trigger] parse.ensures((attrs,), Ok(Some(v))) && final(container).model()
                        == old(container).replaced_model(v))
                ||| (parse.ensures((attrs,), Ok(None)) && *final(container) == *old(container))
            },
            Result::Err(e) => parse.ensures((attrs,), Err(e)),
        },
{
    if container.is_empty() {
        match parse(attrs) {
            Ok(Some(v)) => {
                container.set(v);
                Ok(())
            },
            Ok(None) => Ok(()),
            Err(e) => Err(e),
        }
    } else {
        Ok(())
    }
}

} // verus!
