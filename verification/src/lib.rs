//! Machinery for parsing attribute arguments attached to a declaration into a
//! strongly typed configuration record, merging the records parsed from
//! several attribute occurrences, applying fallbacks and validating the
//! result.

pub mod apply;
pub mod attr;
pub mod container;
pub mod cursor;
pub mod dedup;
pub mod directive;
pub mod driver;
pub mod engine;
pub mod equiv;
pub mod err;
pub mod field;
pub mod kind;
pub mod laws;
pub mod ordmap;
pub mod parse;
pub mod record;
pub mod required;
pub mod schema;
pub mod spanned;
pub mod tokens;
pub mod validate;

pub use container::Container;
pub use equiv::Equiv;
pub use err::Error;
pub use ordmap::OrdMap;
pub use required::Required;
pub use spanned::{Span, Spanning};
