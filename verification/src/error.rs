//! Error types shared by the transform plugins.

use vstd::prelude::*;

verus! {

/// Why a JSON configuration string could not be decoded into a transform
/// configuration. Distinguishes text that is not JSON at all from text that
/// is JSON of the wrong shape.
#[derive(Clone, Copy, Debug, PartialEq, Eq, Structural)]
pub enum DecodeError {
    /// The text is not well-formed JSON.
    MalformedJson,
    /// The text is JSON, but not a JSON object.
    NotAnObject,
    /// A required field is absent.
    MissingField,
    /// A field is present but has the wrong type or an out-of-range value.
    InvalidField,
}

/// Errors surfaced by the transform plugins.
#[derive(Debug)]
pub enum Error {
    /// The RGBA buffer pointer handed across the call boundary was null.
    NullPointerRGBABuffer,
    /// The configuration string pointer handed across the call boundary was null.
    NullPointerParams,
    /// The configuration string could not be decoded.
    ParamsAreNotValidJSON(DecodeError),
    /// Index arithmetic left the 32-bit signed range, so no offset was computed.
    OverflowError,
    /// A validation failure described by a message.
    ErrorValue(String),
}

} // verus!
