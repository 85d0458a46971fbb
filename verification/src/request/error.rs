//! What can go wrong when a request document is read.
use vstd::prelude::*;

verus! {

#[verifier::external_type_specification]
#[verifier::external_body]
pub struct ExInvalidMethod(http::method::InvalidMethod);

#[verifier::external_type_specification]
#[verifier::external_body]
pub struct ExHttpError(http::Error);

/// Why a request document could not be read.
#[derive(Debug)]
pub enum RequestError {
    /// A collection entry's path does not lie under the collection, or is not text.
    ParseCollectionPath,
    /// The document holds no request line.
    EmptyRequestFile,
    /// The request line holds no method.
    MissingMethod,
    /// The request line holds no URI.
    MissingUri,
    /// The method is not one that `http` accepts.
    ParseMethod(http::method::InvalidMethod),
    /// The URL is not one that `http` accepts.
    ParseUrl,
    /// A header line holds no `:`.
    ParseHeaderLine,
    /// The request could not be built.
    BuildRequest(http::Error),
    /// A multipart value starts with a character other than `"` or `@`.
    InvalidMultipartCharacter(char),
    /// A header name or value is not one that `http` accepts.
    ParseHeader,
    /// A header map would have to grow past the largest size that `http` allows.
    TooManyHeaders,
    /// A multipart line holds no `:`, or its value is empty.
    EmptyMultipartValue,
    /// An inline parameter has no name, or no separator after it.
    ParseInlineParam,
    /// An inline parameter's JSON value could not be read as a value.
    ParseInlineJsonValue(serde_json::Error),
}

} // verus!
