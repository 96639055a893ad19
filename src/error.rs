//! Errors of the formatting library.
use vstd::prelude::*;

verus! {

/// An error of the formatting library.
#[derive(Debug, Clone, PartialEq, Eq)]
pub enum Error {
    /// Failed to parse markdown.
    ParseError(String),
    /// Failed to load or parse configuration.
    ConfigError(String),
    /// The parser/serializer round trip failed.
    FormattingError(String),
}

} // verus!
