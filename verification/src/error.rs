//! Error values returned by the parsing pipeline and the body encoder.
use vstd::prelude::*;

verus! {

/// Spec-level classification of an [`Error`].
///
/// Semantic errors keep the offending text; the free-form messages of the
/// executable variants are informative only and carry no specification.
pub enum SpecError {
    /// The templating pre-pass failed.
    Render,
    /// The input is not well-formed curl syntax.
    Grammar,
    /// A method token with a character outside the HTTP token set.
    InvalidMethod(Seq<char>),
    /// A header name with a character outside the HTTP token set.
    InvalidHeaderName(Seq<char>),
    /// A header value with a forbidden control character.
    InvalidHeaderValue(Seq<char>),
    /// The body encoder saw a Content-Type it cannot serialize.
    UnsupportedContentType(Seq<char>),
}

/// The single error type of the library.
///
/// Every failure of [`crate::ParsedRequest::load`], [`crate::ParsedRequest::parse`]
/// or [`crate::ParsedRequest::body`] is one of these variants; no call panics.
#[derive(Debug, Clone)]
pub enum Error {
    /// The templating pre-pass failed; aborts before any tokenization.
    Render { message: String },
    /// Invalid curl syntax: unknown flag, unterminated quote, or a
    /// value-taking flag with no following value.
    Grammar { message: String },
    /// The method token holds a character outside the HTTP token set.
    InvalidMethod { token: String },
    /// The header name holds a character outside the HTTP token set.
    InvalidHeaderName { name: String },
    /// The header value holds a forbidden control character.
    InvalidHeaderValue { value: String },
    /// The body encoder supports only form-urlencoded and JSON bodies.
    UnsupportedContentType { content_type: String },
}

impl View for Error {
    type V = SpecError;

    open spec fn view(&self) -> SpecError {
        match self {
            Error::Render { .. } => SpecError::Render,
            Error::Grammar { .. } => SpecError::Grammar,
            Error::InvalidMethod { token } => SpecError::InvalidMethod(token@),
            Error::InvalidHeaderName { name } => SpecError::InvalidHeaderName(name@),
            Error::InvalidHeaderValue { value } => SpecError::InvalidHeaderValue(value@),
            Error::UnsupportedContentType { content_type } => SpecError::UnsupportedContentType(
                content_type@,
            ),
        }
    }
}

} // verus!
