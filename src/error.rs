//! Error kinds of the compiler.
use vstd::prelude::*;

verus! {

/// Malformed path expressions.
#[derive(Debug, Clone, Copy, PartialEq, Eq)]
pub enum SyntaxError {
    /// Wildcards are not valid members of a union.
    WildcardInUnion,
}

/// Errors raised while patching, reading or resolving the introspected data.
#[derive(Debug, Clone, Copy, PartialEq, Eq)]
pub enum ParseError {
    PatchSyntax(SyntaxError),
    /// A path met a node of the wrong kind, a missing index, or had no
    /// terminal token.
    PathTraversal,
    /// An enum value that is an array or an object.
    UnsupportedEnumValue,
    /// A field that the typed form needs is absent or of the wrong kind.
    MissingField,
    CannotParseEmptyStringIntoType,
    ConsoleEndpointResponseShouldBeObject,
    EndpointPathCannotBeNone,
    FormatIsNotAnInteger,
    FormatIsNotANumber,
    InvalidData,
    PrivateApiTypeNotSupported,
    UnknownHttpMethod,
    ObjectTypesShouldBeParsed,
    VectorTypesShouldBeParsed,
}

} // verus!
