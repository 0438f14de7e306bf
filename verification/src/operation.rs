//! The signature of an operation: its parameters, its request body and
//! its response.

use vstd::prelude::*;
use crate::document::{
    ContentRef, InputApi, Location, MediaType, OperationNode, ParameterFormat, ParameterRef,
};
use crate::error::{Construct, Error};
use crate::fields::{
    fields_well_formed, lemma_put_field_well_formed, names_sorted, put_field, put_field_into,
    well_formed,
};
use crate::db::Database;
use crate::resolve::{memo_valid, shallow_schema_ty_with, Memo};
use crate::schema::{lemma_resolve_shallow_well_formed, resolve_shallow, Components};
use crate::simplify::{lemma_simplify_well_formed, simplify};
use crate::text::same_name;
use crate::types::{fields_view, Field, FieldModel, Property, PropertyModel, Type, TypeModel};

verus! {

broadcast use {vstd::seq::group_seq_axioms, vstd::std_specs::vec::group_vec_axioms};

/// How a request body is sent.
#[derive(Debug, PartialEq, Eq)]
pub enum RequestKind {
    Json(Type),
}

/// How a response arrives.
#[derive(Debug, PartialEq, Eq)]
pub enum ResponseKind {
    Plain,
    Json(Type),
    EventStream(Type),
}

/// The signature of one operation.
#[derive(Debug, PartialEq, Eq)]
pub struct Operation {
    pub path: String,
    /// The query parameters, as the required fields of an object.
    pub query: Vec<Field>,
    /// The path parameters, as the required fields of an object.
    pub path_params: Vec<Field>,
    pub body: Option<RequestKind>,
    pub response: Option<ResponseKind>,
}

pub enum RequestModel {
    Json(TypeModel),
}

pub enum ResponseModel {
    Plain,
    Json(TypeModel),
    EventStream(TypeModel),
}

pub struct OperationModel {
    pub path: Seq<char>,
    pub query: Seq<FieldModel>,
    pub path_params: Seq<FieldModel>,
    pub body: Option<RequestModel>,
    pub response: Option<ResponseModel>,
}

impl View for RequestKind {
    type V = RequestModel;

    open spec fn view(&self) -> RequestModel {
        match self {
            RequestKind::Json(t) => RequestModel::Json(t@),
        }
    }
}

impl View for ResponseKind {
    type V = ResponseModel;

    open spec fn view(&self) -> ResponseModel {
        match self {
            ResponseKind::Plain => ResponseModel::Plain,
            ResponseKind::Json(t) => ResponseModel::Json(t@),
            ResponseKind::EventStream(t) => ResponseModel::EventStream(t@),
        }
    }
}

/// The model of a body that may be absent.
pub open spec fn body_view(body: Option<RequestKind>) -> Option<RequestModel> {
    match body {
        Some(kind) => Some(kind@),
        None => None,
    }
}

/// The model of a response that may be absent.
pub open spec fn response_view(response: Option<ResponseKind>) -> Option<ResponseModel> {
    match response {
        Some(kind) => Some(kind@),
        None => None,
    }
}

impl View for Operation {
    type V = OperationModel;

    open spec fn view(&self) -> OperationModel {
        OperationModel {
            path: self.path@,
            query: fields_view(&self.query),
            path_params: fields_view(&self.path_params),
            body: body_view(self.body),
            response: response_view(self.response),
        }
    }
}

/// The number of schemas that may be inlined into one another.
pub open spec fn full_depth(components: &Components) -> nat {
    components.schemas.len() as nat
}

/// The query and the path parameters among the `n` first parameters of
/// an operation, each list as the fields of an object.
pub open spec fn parameters_upto(
    components: &Components,
    parameters: &Vec<ParameterRef>,
    n: nat,
) -> Result<
    (Seq<FieldModel>, Seq<FieldModel>),
    Error,
>
    decreases n,
{
    if n == 0 || n > parameters.len() {
        Ok((Seq::empty(), Seq::empty()))
    } else {
        match parameters_upto(components, parameters, (n - 1) as nat) {
            Err(e) => Err(e),
            Ok((query, path)) => match &parameters[n - 1] {
                ParameterRef::Reference => Err(
                    Error::UnsupportedConstruct(Construct::ParameterReference),
                ),
                ParameterRef::Item(p) => match p.location {
                    Location::Header => Err(
                        Error::UnsupportedConstruct(Construct::HeaderParameter),
                    ),
                    Location::Cookie => Err(
                        Error::UnsupportedConstruct(Construct::CookieParameter),
                    ),
                    _ => match &p.format {
                        ParameterFormat::Content => Err(
                            Error::UnsupportedConstruct(Construct::ContentParameter),
                        ),
                        ParameterFormat::Schema(schema) => match resolve_shallow(
                            components,
                            schema,
                            full_depth(components),
                        ) {
                            Err(e) => Err(e),
                            Ok(ty) => {
                                let property = PropertyModel { ty, optional: false };
                                if p.location == Location::Query {
                                    Ok((put_field(query, p.name@, property), path))
                                } else {
                                    Ok((query, put_field(path, p.name@, property)))
                                }
                            },
                        },
                    },
                },
            },
        }
    }
}

/// The media type of a content map and the canonical form of the type of
/// its schema. The map must hold exactly one media type, and that one a
/// schema.
pub open spec fn content_type(components: &Components, content: &Vec<MediaType>) -> Result<
    (Seq<char>, TypeModel),
    Error,
> {
    if content.len() != 1 {
        Err(Error::UnsupportedConstruct(Construct::ContentCount))
    } else {
        match &content[0].schema {
            None => Err(Error::UnsupportedConstruct(Construct::MissingSchema)),
            Some(schema) => match resolve_shallow(components, schema, full_depth(components)) {
                Err(e) => Err(e),
                Ok(ty) => Ok((content[0].name@, simplify(ty))),
            },
        }
    }
}

/// The request body of an operation.
pub open spec fn request_of(components: &Components, body: &Option<ContentRef>) -> Result<
    Option<RequestModel>,
    Error,
> {
    match body {
        None => Ok(None),
        Some(ContentRef::Reference) => Err(
            Error::UnsupportedConstruct(Construct::RequestBodyReference),
        ),
        Some(ContentRef::Item(content)) => match content_type(components, content) {
            Err(e) => Err(e),
            Ok((media, ty)) => if media == "application/json"@ {
                Ok(Some(RequestModel::Json(ty)))
            } else {
                Err(Error::UnsupportedConstruct(Construct::MediaType))
            },
        },
    }
}

/// What one response says of the operation's result.
pub open spec fn response_of(components: &Components, response: &ContentRef) -> Result<
    ResponseModel,
    Error,
> {
    match response {
        ContentRef::Reference => Err(Error::UnsupportedConstruct(Construct::ResponseReference)),
        ContentRef::Item(content) => match content_type(components, content) {
            Err(e) => Err(e),
            Ok((media, ty)) => if media == "text/plain"@ {
                if ty == TypeModel::String {
                    Ok(ResponseModel::Plain)
                } else {
                    Err(Error::TypeMismatch)
                }
            } else if media == "application/json"@ {
                Ok(ResponseModel::Json(ty))
            } else if media == "text/event-stream"@ {
                Ok(ResponseModel::EventStream(ty))
            } else {
                Err(Error::UnsupportedConstruct(Construct::MediaType))
            },
        },
    }
}

/// The response of an operation after the `n` first of its responses were
/// read: each must be one that is taken, and the last one counts.
pub open spec fn responses_upto(
    components: &Components,
    responses: &Vec<ContentRef>,
    n: nat,
) -> Result<
    Option<ResponseModel>,
    Error,
>
    decreases n,
{
    if n == 0 || n > responses.len() {
        Ok(None)
    } else {
        match responses_upto(components, responses, (n - 1) as nat) {
            Err(e) => Err(e),
            Ok(_) => match response_of(components, &responses[n - 1]) {
                Err(e) => Err(e),
                Ok(kind) => Ok(Some(kind)),
            },
        }
    }
}

/// The signature of an operation: its parameters are read first, then its
/// request body, then its responses, and the first failure is the result.
pub open spec fn extract(components: &Components, path: Seq<char>, node: &OperationNode) -> Result<
    OperationModel,
    Error,
> {
    match parameters_upto(components, &node.parameters, node.parameters.len() as nat) {
        Err(e) => Err(e),
        Ok((query, path_params)) => match request_of(components, &node.request_body) {
            Err(e) => Err(e),
            Ok(body) => match responses_upto(
                components,
                &node.responses,
                node.responses.len() as nat,
            ) {
                Err(e) => Err(e),
                Ok(response) => Ok(OperationModel { path, query, path_params, body, response }),
            },
        },
    }
}

/// The parameter lists of a signature are in the order of their names,
/// and every type in it is well-formed.
pub open spec fn operation_well_formed(op: OperationModel) -> bool {
    &&& fields_well_formed(op.query)
    &&& fields_well_formed(op.path_params)
    &&& op.body matches Some(RequestModel::Json(ty)) ==> well_formed(ty)
    &&& op.response matches Some(ResponseModel::Json(ty)) ==> well_formed(ty)
    &&& op.response matches Some(ResponseModel::EventStream(ty)) ==> well_formed(ty)
}

proof fn lemma_parameters_well_formed(
    components: &Components,
    parameters: &Vec<ParameterRef>,
    n: nat,
)
    ensures
        parameters_upto(components, parameters, n) matches Ok(lists) ==> fields_well_formed(lists.0)
            && fields_well_formed(lists.1),
    decreases n,
{
    if !(n == 0 || n > parameters.len()) {
        lemma_parameters_well_formed(components, parameters, (n - 1) as nat);
        if let Ok((query, path)) = parameters_upto(components, parameters, (n - 1) as nat) {
            if let ParameterRef::Item(p) = &parameters[n - 1] {
                if let ParameterFormat::Schema(schema) = &p.format {
                    lemma_resolve_shallow_well_formed(components, schema, full_depth(components));
                    if let Ok(ty) = resolve_shallow(components, schema, full_depth(components)) {
                        let property = PropertyModel { ty, optional: false };
                        lemma_put_field_well_formed(query, p.name@, property);
                        lemma_put_field_well_formed(path, p.name@, property);
                    }
                }
            }
        }
    } else {
        assert(names_sorted(Seq::<FieldModel>::empty()));
    }
}

proof fn lemma_content_well_formed(components: &Components, content: &Vec<MediaType>)
    ensures
        content_type(components, content) matches Ok(found) ==> well_formed(found.1),
{
    if content.len() == 1 {
        if let Some(schema) = &content[0].schema {
            lemma_resolve_shallow_well_formed(components, schema, full_depth(components));
            if let Ok(ty) = resolve_shallow(components, schema, full_depth(components)) {
                lemma_simplify_well_formed(ty);
            }
        }
    }
}

proof fn lemma_responses_well_formed(components: &Components, responses: &Vec<ContentRef>, n: nat)
    ensures
        responses_upto(components, responses, n) matches Ok(Some(ResponseModel::Json(ty)))
            ==> well_formed(ty),
        responses_upto(components, responses, n) matches Ok(Some(ResponseModel::EventStream(ty)))
            ==> well_formed(ty),
    decreases n,
{
    if !(n == 0 || n > responses.len()) {
        if let ContentRef::Item(content) = &responses[n - 1] {
            lemma_content_well_formed(components, content);
        }
    }
}

/// The signature of an operation is well-formed.
pub proof fn lemma_extract_well_formed(
    components: &Components,
    path: Seq<char>,
    node: &OperationNode,
)
    ensures
        extract(components, path, node) matches Ok(op) ==> operation_well_formed(op),
{
    lemma_parameters_well_formed(components, &node.parameters, node.parameters.len() as nat);
    lemma_responses_well_formed(components, &node.responses, node.responses.len() as nat);
    if let Some(ContentRef::Item(content)) = &node.request_body {
        lemma_content_well_formed(components, content);
    }
}

proof fn lemma_parameters_fail(
    components: &Components,
    parameters: &Vec<ParameterRef>,
    n: nat,
    m: nat,
)
    requires
        n <= m <= parameters.len(),
        parameters_upto(components, parameters, n) is Err,
    ensures
        parameters_upto(components, parameters, m) == parameters_upto(components, parameters, n),
    decreases m - n,
{
    if n < m {
        lemma_parameters_fail(components, parameters, n, (m - 1) as nat);
    }
}

proof fn lemma_responses_fail(components: &Components, responses: &Vec<ContentRef>, n: nat, m: nat)
    requires
        n <= m <= responses.len(),
        responses_upto(components, responses, n) is Err,
    ensures
        responses_upto(components, responses, m) == responses_upto(components, responses, n),
    decreases m - n,
{
    if n < m {
        lemma_responses_fail(components, responses, n, (m - 1) as nat);
    }
}

fn content_ty<'a>(
    api: &InputApi,
    memo: &mut Memo,
    db: &mut Database,
    content: &'a Vec<MediaType>,
) -> (r: Result<(&'a str, Type), Error>)
    requires
        memo_valid(old(memo), &api.api.components),
        old(db).wf(),
    ensures
        memo_valid(final(memo), &api.api.components),
        final(db).wf(),
        match r {
            Ok((media, ty)) => content_type(&api.api.components, content) == Ok::<
                (Seq<char>, TypeModel),
                Error,
            >((media@, ty@)),
            Err(e) => content_type(&api.api.components, content) == Err::<
                (Seq<char>, TypeModel),
                Error,
            >(e),
        },
{
    if content.len() != 1 {
        return Err(Error::UnsupportedConstruct(Construct::ContentCount));
    }
    match &content[0].schema {
        None => Err(Error::UnsupportedConstruct(Construct::MissingSchema)),
        Some(schema) => match shallow_schema_ty_with(api, memo, schema) {
            Err(e) => Err(e),
            Ok(ty) => Ok((content[0].name.as_str(), db.simplify(&ty))),
        },
    }
}

fn request_kind(
    api: &InputApi,
    memo: &mut Memo,
    db: &mut Database,
    body: &Option<ContentRef>,
) -> (r: Result<Option<RequestKind>, Error>)
    requires
        memo_valid(old(memo), &api.api.components),
        old(db).wf(),
    ensures
        memo_valid(final(memo), &api.api.components),
        final(db).wf(),
        match r {
            Ok(kind) => request_of(&api.api.components, body) == Ok::<Option<RequestModel>, Error>(
                body_view(kind),
            ),
            Err(e) => request_of(&api.api.components, body) == Err::<Option<RequestModel>, Error>(
                e,
            ),
        },
{
    match body {
        None => Ok(None),
        Some(ContentRef::Reference) => Err(
            Error::UnsupportedConstruct(Construct::RequestBodyReference),
        ),
        Some(ContentRef::Item(content)) => match content_ty(api, memo, db, content) {
            Err(e) => Err(e),
            Ok((media, ty)) => {
                if same_name(media, "application/json") {
                    Ok(Some(RequestKind::Json(ty)))
                } else {
                    Err(Error::UnsupportedConstruct(Construct::MediaType))
                }
            },
        },
    }
}

fn is_plain_string(ty: &Type) -> (r: bool)
    ensures
        r == (ty@ == TypeModel::String),
{
    match ty {
        Type::String => true,
        _ => false,
    }
}

fn response_kind(
    api: &InputApi,
    memo: &mut Memo,
    db: &mut Database,
    response: &ContentRef,
) -> (r: Result<ResponseKind, Error>)
    requires
        memo_valid(old(memo), &api.api.components),
        old(db).wf(),
    ensures
        memo_valid(final(memo), &api.api.components),
        final(db).wf(),
        match r {
            Ok(kind) => response_of(&api.api.components, response) == Ok::<ResponseModel, Error>(
                kind@,
            ),
            Err(e) => response_of(&api.api.components, response) == Err::<ResponseModel, Error>(e),
        },
{
    match response {
        ContentRef::Reference => Err(Error::UnsupportedConstruct(Construct::ResponseReference)),
        ContentRef::Item(content) => match content_ty(api, memo, db, content) {
            Err(e) => Err(e),
            Ok((media, ty)) => {
                if same_name(media, "text/plain") {
                    if is_plain_string(&ty) {
                        Ok(ResponseKind::Plain)
                    } else {
                        Err(Error::TypeMismatch)
                    }
                } else if same_name(media, "application/json") {
                    Ok(ResponseKind::Json(ty))
                } else if same_name(media, "text/event-stream") {
                    Ok(ResponseKind::EventStream(ty))
                } else {
                    Err(Error::UnsupportedConstruct(Construct::MediaType))
                }
            },
        },
    }
}

/// A result with the operation in it taken by its model.
pub open spec fn operation_result(r: Result<Operation, Error>) -> Result<OperationModel, Error> {
    match r {
        Ok(op) => Ok(op@),
        Err(e) => Err(e),
    }
}

/// Reads the signature of an operation from its description.
pub fn operation(
    api: &InputApi,
    path: String,
    node: &OperationNode,
) -> (r: Result<Operation, Error>)
    ensures
        operation_result(r) == extract(&api.api.components, path@, node),
        r matches Ok(op) ==> operation_well_formed(op@),
{
    proof {
        lemma_extract_well_formed(&api.api.components, path@, node);
    }
    let mut memo: Memo = Vec::new();
    let mut db = Database::new();
    operation_with(api, &mut memo, &mut db, path, node)
}

/// Reads the signature of an operation from its description, with the
/// memo and the table of a run.
#[verifier::loop_isolation(false)]
pub(crate) fn operation_with(
    api: &InputApi,
    memo: &mut Memo,
    db: &mut Database,
    path: String,
    node: &OperationNode,
) -> (r: Result<Operation, Error>)
    requires
        memo_valid(old(memo), &api.api.components),
        old(db).wf(),
    ensures
        memo_valid(final(memo), &api.api.components),
        final(db).wf(),
        operation_result(r) == extract(&api.api.components, path@, node),
{
    let ghost components = &api.api.components;
    let mut query: Vec<Field> = Vec::new();
    let mut path_params: Vec<Field> = Vec::new();
    assert(fields_view(&query) =~= Seq::empty());
    assert(fields_view(&path_params) =~= Seq::empty());
    let mut i: usize = 0;
    while i < node.parameters.len()
        invariant
            i <= node.parameters.len(),
            components == &api.api.components,
            memo_valid(memo, &api.api.components),
            db.wf(),
            parameters_upto(components, &node.parameters, i as nat) == Ok::<
                (Seq<FieldModel>, Seq<FieldModel>),
                Error,
            >((fields_view(&query), fields_view(&path_params))),
        decreases node.parameters.len() - i,
    {
        proof {
            if parameters_upto(components, &node.parameters, (i + 1) as nat) is Err {
                lemma_parameters_fail(
                    components,
                    &node.parameters,
                    (i + 1) as nat,
                    node.parameters.len() as nat,
                );
            }
        }
        match &node.parameters[i] {
            ParameterRef::Reference => {
                return Err(Error::UnsupportedConstruct(Construct::ParameterReference));
            },
            ParameterRef::Item(p) => {
                match p.location {
                    Location::Header => {
                        return Err(Error::UnsupportedConstruct(Construct::HeaderParameter));
                    },
                    Location::Cookie => {
                        return Err(Error::UnsupportedConstruct(Construct::CookieParameter));
                    },
                    _ => {},
                }
                match &p.format {
                    ParameterFormat::Content => {
                        return Err(Error::UnsupportedConstruct(Construct::ContentParameter));
                    },
                    ParameterFormat::Schema(schema) => match shallow_schema_ty_with(
                        api,
                        memo,
                        schema,
                    ) {
                        Err(e) => {
                            return Err(e);
                        },
                        Ok(ty) => {
                            match p.location {
                                Location::Query => {
                                    put_field_into(
                                        &mut query,
                                        p.name.clone(),
                                        Property::required(ty),
                                    );
                                },
                                _ => {
                                    put_field_into(
                                        &mut path_params,
                                        p.name.clone(),
                                        Property::required(ty),
                                    );
                                },
                            }
                        },
                    },
                }
            },
        }
        i = i + 1;
    }
    let body = match request_kind(api, memo, db, &node.request_body) {
        Err(e) => {
            return Err(e);
        },
        Ok(body) => body,
    };
    let mut response: Option<ResponseKind> = None;
    let mut j: usize = 0;
    while j < node.responses.len()
        invariant
            j <= node.responses.len(),
            components == &api.api.components,
            memo_valid(memo, &api.api.components),
            db.wf(),
            responses_upto(components, &node.responses, j as nat) == Ok::<
                Option<ResponseModel>,
                Error,
            >(response_view(response)),
        decreases node.responses.len() - j,
    {
        match response_kind(api, memo, db, &node.responses[j]) {
            Err(e) => {
                proof {
                    lemma_responses_fail(
                        components,
                        &node.responses,
                        (j + 1) as nat,
                        node.responses.len() as nat,
                    );
                }
                return Err(e);
            },
            Ok(kind) => {
                response = Some(kind);
            },
        }
        j = j + 1;
    }
    Ok(Operation { path, query, path_params, body, response })
}

} // verus!
