//! A bidirectional template codec: a template string made of literal text and
//! named placeholders is compiled, together with a set of field descriptors,
//! into a matcher that parses input text into typed field values and a
//! renderer that writes those values back into the template's skeleton.

use vstd::prelude::*;

pub mod chars;
pub mod errors;
pub mod fields;
pub mod matcher;
pub mod render;
pub mod scalar;
pub mod segment;
pub mod template;
pub mod value;

pub use errors::TemplateError;

verus! {

/// Bidirectional conversion between a value and its template string form.
///
/// `render_string` serialises the value; `from_str` parses one back.
/// Implementations should keep the two consistent: parsing a rendered
/// string yields an equal value wherever the template allows it.
pub trait Template where Self: Sized {
    /// The error type returned when parsing fails.
    type Error;

    /// Renders the value into its template string representation.
    fn render_string(&self) -> String;

    /// Parses a value from its template string representation.
    fn from_str(s: &str) -> Result<Self, Self::Error>;
}

} // verus!
