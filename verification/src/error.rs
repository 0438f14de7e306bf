//! Why a document cannot be turned into a client.

use vstd::prelude::*;
use crate::document::Method;

verus! {

/// A feature of OpenAPI that the generator does not take.
#[derive(Debug, Clone, Copy, PartialEq, Eq, Structural)]
pub enum Construct {
    /// A reference that does not point into `#/components/schemas/`.
    ForeignReference,
    /// A named schema that is itself a reference.
    ReferenceToReference,
    /// Schemas that are inlined into one another without end.
    CyclicReference,
    /// An enumeration with a value that is no string.
    NullEnumValue,
    /// A discriminator with extension fields.
    DiscriminatorExtensions,
    /// A discriminator with fewer than two mapping entries.
    DiscriminatorMapping,
    /// An array without an item schema.
    MissingItems,
    /// An array with bounds other than none or two equal ones.
    ArrayBounds,
    AnyOf,
    Not,
    /// A schema without a type.
    Any,
    /// A path item that is a reference.
    PathReference,
    /// Parameters declared on a path item.
    PathParameters,
    /// A parameter that is a reference.
    ParameterReference,
    HeaderParameter,
    CookieParameter,
    /// A parameter described by a content map.
    ContentParameter,
    /// A request body that is a reference.
    RequestBodyReference,
    /// A response that is a reference.
    ResponseReference,
    /// A body or response whose content is not exactly one media type.
    ContentCount,
    /// A media type entry without a schema.
    MissingSchema,
    /// A media type that is none of those taken.
    MediaType,
    /// An operation without a response.
    MissingResponse,
    /// A path that does not begin with the configured prefix.
    PathPrefix,
}

/// The kinds of failure.
#[derive(Debug, Clone, Copy, PartialEq, Eq, Structural)]
pub enum Error {
    /// A named schema is not in the document.
    UnresolvedReference,
    /// The document uses a feature that is out of scope.
    UnsupportedConstruct(Construct),
    /// A `text/plain` response is not a plain string.
    TypeMismatch,
}

/// Where in a document a failure lies.
#[derive(Debug, Clone, PartialEq, Eq)]
pub enum Place {
    /// The path item of a path template.
    Path(String),
    /// The operation that a path template has for a method.
    Operation { path: String, method: Method },
    /// The named schema of that name.
    Schema(String),
}

/// A failure and the place it lies in.
#[derive(Debug, Clone, PartialEq, Eq)]
pub struct Failure {
    pub error: Error,
    pub place: Place,
}

} // verus!
