//! A document as the generator reads it: named schemas and the operations
//! of each path.

use vstd::prelude::*;
use crate::schema::{Components, SchemaRef};

verus! {

/// Where a parameter is sent.
#[derive(Debug, Clone, Copy, PartialEq, Eq, Structural)]
pub enum Location {
    Query,
    Header,
    Path,
    Cookie,
}

/// How a parameter is described.
#[derive(Debug, PartialEq, Eq)]
pub enum ParameterFormat {
    Schema(SchemaRef),
    /// By a content map.
    Content,
}

#[derive(Debug, PartialEq, Eq)]
pub struct Parameter {
    pub location: Location,
    pub name: String,
    pub format: ParameterFormat,
}

#[derive(Debug, PartialEq, Eq)]
pub enum ParameterRef {
    Reference,
    Item(Parameter),
}

/// One entry of a content map.
#[derive(Debug, PartialEq, Eq)]
pub struct MediaType {
    pub name: String,
    pub schema: Option<SchemaRef>,
}

/// A request body or a response: a reference, or its content map in the
/// order of the document.
#[derive(Debug, PartialEq, Eq)]
pub enum ContentRef {
    Reference,
    Item(Vec<MediaType>),
}

/// An operation as the document describes it.
#[derive(Debug, PartialEq, Eq)]
pub struct OperationNode {
    pub parameters: Vec<ParameterRef>,
    pub request_body: Option<ContentRef>,
    /// The responses by status, in the order of the document.
    pub responses: Vec<ContentRef>,
}

/// The operations of one path.
#[derive(Debug, PartialEq, Eq)]
pub struct PathItem {
    /// The number of parameters declared on the path itself.
    pub parameters: usize,
    pub delete: Option<OperationNode>,
    pub get: Option<OperationNode>,
    pub put: Option<OperationNode>,
    pub post: Option<OperationNode>,
    pub head: Option<OperationNode>,
    pub trace: Option<OperationNode>,
    pub patch: Option<OperationNode>,
}

#[derive(Debug, PartialEq, Eq)]
pub enum PathRef {
    Reference,
    Item(PathItem),
}

#[derive(Debug, PartialEq, Eq)]
pub struct Document {
    pub components: Components,
    /// Path template and path item, in the order of the document.
    pub paths: Vec<(String, PathRef)>,
}

/// What the caller chooses.
#[derive(Debug, Clone, PartialEq, Eq)]
pub struct Config {
    /// A prefix of all paths that the names of the operations leave out.
    pub api_prefix: Option<String>,
}

/// A document and the configuration to generate with.
#[derive(Debug, PartialEq, Eq)]
pub struct InputApi {
    pub api: Document,
    pub config: Config,
}

impl InputApi {
    pub fn new(api: Document, config: Config) -> (r: InputApi)
        ensures
            r.api == api,
            r.config == config,
    {
        InputApi { api, config }
    }
}

/// The HTTP methods that a path item is read for, in the order in which
/// their operations are generated.
#[derive(Debug, Clone, Copy, PartialEq, Eq, Structural)]
pub enum Method {
    Delete,
    Get,
    Put,
    Post,
    Head,
    Trace,
    Patch,
}

/// The method as it stands in a request.
pub open spec fn method_text(m: Method) -> Seq<char> {
    match m {
        Method::Delete => "DELETE"@,
        Method::Get => "GET"@,
        Method::Put => "PUT"@,
        Method::Post => "POST"@,
        Method::Head => "HEAD"@,
        Method::Trace => "TRACE"@,
        Method::Patch => "PATCH"@,
    }
}

impl Method {
    /// The method as it stands in a request.
    pub fn name(self) -> (r: &'static str)
        ensures
            r@ == method_text(self),
    {
        match self {
            Method::Delete => "DELETE",
            Method::Get => "GET",
            Method::Put => "PUT",
            Method::Post => "POST",
            Method::Head => "HEAD",
            Method::Trace => "TRACE",
            Method::Patch => "PATCH",
        }
    }
}


} // verus!
