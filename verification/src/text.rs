//! Styled-text fragments for story prose.
//!
//! These types describe a planned richer form of response text — literal
//! runs, interpolated values, and style spans — but nothing produces or
//! consumes them yet: the parser emits plain strings and the engine reveals
//! them unstyled.
use vstd::prelude::*;

verus! {

/// A block of prose together with its decomposition into fragments.
#[allow(dead_code)]
pub struct TextEvent<'a> {
    content: String,
    fragments: Vec<TextFragment<'a>>,
}

/// One piece of a styled text: a literal run, a value to interpolate, or
/// the beginning or end of a style span.
pub enum TextFragment<'a> {
    Text(&'a str),
    Interpolate(String),
    BeginStyle(TextStyle),
    EndStyle(TextStyle),
}

/// A text decoration that a style span turns on and off.
pub enum TextStyle {
    Bold,
    Italics,
    Underline,
}

} // verus!
