//! TypeScript text for types and operations.

use vstd::prelude::*;
use vstd::string::StringExecFns;
use crate::document::InputApi;
use crate::error::{Construct, Error};
use crate::operation::{
    Operation, OperationModel, RequestKind, RequestModel, ResponseKind, ResponseModel,
};
use crate::outside::{
    indent, indented, lower_camel_case, path_components, quote, quoted, strip_path_prefix,
    to_lower_camel,
};
use crate::types::{fields_view, types_view, Field, FieldModel, Type, TypeModel};

verus! {

broadcast use {vstd::seq::group_seq_axioms, vstd::std_specs::vec::group_vec_axioms};

/// A type as TypeScript writes it.
pub open spec fn ts_text(t: TypeModel) -> Seq<char>
    decreases t, 0nat,
{
    match t {
        TypeModel::Reference(name) => name,
        TypeModel::Object(f) => if f.len() == 0 {
            "{}"@
        } else {
            "{\n"@ + indented(fields_text(f, f.len()), "  "@) + "\n}"@
        },
        TypeModel::Array(x) => ts_text(*x) + "[]"@,
        TypeModel::Tuple(s) => "["@ + joined_text(s, s.len(), ", "@) + "]"@,
        TypeModel::Or(s) => joined_text(s, s.len(), " | "@),
        TypeModel::And(s) => joined_text(s, s.len(), " & "@),
        TypeModel::Number => "number"@,
        TypeModel::Ident(value) => quoted(value),
        TypeModel::String => "string"@,
        TypeModel::Boolean => "boolean"@,
    }
}

/// One field as a line of an object type.
pub open spec fn field_line(name: Seq<char>, optional: bool, ty: Seq<char>) -> Seq<char> {
    name + (if optional {
        "?"@
    } else {
        Seq::empty()
    }) + ": "@ + ty + ";"@
}

/// The lines of the `n` first fields, one below the other.
pub open spec fn fields_text(f: Seq<FieldModel>, n: nat) -> Seq<char>
    decreases f, n,
{
    if n == 0 || n > f.len() {
        Seq::empty()
    } else {
        let line = field_line(f[n - 1].0, f[n - 1].1.optional, ts_text(f[n - 1].1.ty));
        if n == 1 {
            line
        } else {
            fields_text(f, (n - 1) as nat) + "\n"@ + line
        }
    }
}

/// The `n` first types as TypeScript writes them, with `separator`
/// between one and the next.
pub open spec fn joined_text(s: Seq<TypeModel>, n: nat, separator: Seq<char>) -> Seq<char>
    decreases s, n,
{
    if n == 0 || n > s.len() {
        Seq::empty()
    } else if n == 1 {
        ts_text(s[0])
    } else {
        joined_text(s, (n - 1) as nat, separator) + separator + ts_text(s[n - 1])
    }
}

impl Type {
    /// Writes the type as TypeScript does.
    pub fn ts(&self) -> (r: String)
        ensures
            r@ == ts_text(self@),
        decreases self, 1nat,
    {
        match self {
            Type::Reference(name) => name.clone(),
            Type::Object(obj) => {
                if obj.len() == 0 {
                    assert(fields_view(obj).len() == 0);
                    return String::from_str("{}");
                }
                let fields = fields_ts(obj);
                let mut out = String::from_str("{\n");
                out.append(indent(fields.as_str(), "  ").as_str());
                out.append("\n}");
                out
            },
            Type::Array(item) => {
                let mut out = item.ts();
                out.append("[]");
                out
            },
            Type::Tuple(elements) => {
                let mut out = String::from_str("[");
                out.append(joined_ts(elements, ", ").as_str());
                out.append("]");
                out
            },
            Type::Or(options) => joined_ts(options, " | "),
            Type::And(options) => joined_ts(options, " & "),
            Type::Number => String::from_str("number"),
            Type::Ident(ident) => quote(ident.as_str()),
            Type::String => String::from_str("string"),
            Type::Boolean => String::from_str("boolean"),
        }
    }
}

fn fields_ts(obj: &Vec<Field>) -> (r: String)
    ensures
        r@ == fields_text(fields_view(obj), obj.len() as nat),
    decreases obj, 0nat,
{
    let mut out = String::new();
    let mut i: usize = 0;
    while i < obj.len()
        invariant
            i <= obj.len(),
            out@ == fields_text(fields_view(obj), i as nat),
        decreases obj.len() - i,
    {
        if i > 0 {
            out.append("\n");
        }
        out.append(obj[i].0.as_str());
        if obj[i].1.optional {
            out.append("?");
        }
        out.append(": ");
        out.append(obj[i].1.ty.ts().as_str());
        out.append(";");
        i = i + 1;
    }
    out
}

fn joined_ts(items: &Vec<Type>, separator: &str) -> (r: String)
    ensures
        r@ == joined_text(types_view(items), items.len() as nat, separator@),
    decreases items, 0nat,
{
    let mut out = String::new();
    let mut i: usize = 0;
    while i < items.len()
        invariant
            i <= items.len(),
            out@ == joined_text(types_view(items), i as nat, separator@),
        decreases items.len() - i,
    {
        if i > 0 {
            out.append(separator);
        }
        out.append(items[i].ts().as_str());
        i = i + 1;
    }
    out
}

/// The texts of a sequence one after the other, with `separator` between
/// one and the next.
pub open spec fn joined(parts: Seq<Seq<char>>, separator: Seq<char>) -> Seq<char>
    decreases parts.len(),
{
    if parts.len() == 0 {
        Seq::empty()
    } else if parts.len() == 1 {
        parts[0]
    } else {
        joined(parts.drop_last(), separator) + separator + parts.last()
    }
}

/// Puts the texts one after the other, with `separator` between one and
/// the next.
pub fn join(parts: &Vec<String>, separator: &str) -> (r: String)
    ensures
        r@ == joined(parts.deep_view(), separator@),
{
    let mut out = String::new();
    let mut i: usize = 0;
    let ghost all = parts.deep_view();
    assert(all.take(0) =~= Seq::<Seq<char>>::empty());
    while i < parts.len()
        invariant
            i <= parts.len(),
            all == parts.deep_view(),
            out@ == joined(all.take(i as int), separator@),
        decreases parts.len() - i,
    {
        assert(all.take(i + 1).drop_last() =~= all.take(i as int));
        assert(all.take(i + 1).last() == parts[i as int]@);
        if i > 0 {
            out.append(separator);
        }
        out.append(parts[i].as_str());
        i = i + 1;
    }
    assert(all.take(i as int) =~= all);
    out
}

/// The name of an operation: the components of its path, joined by
/// underscores, in lower camel case.
pub open spec fn operation_name_text(components: Seq<Seq<char>>) -> Seq<char> {
    lower_camel_case(joined(components, "_"@))
}

/// Makes the name of an operation from the components of its path.
pub fn operation_name(components: &Vec<String>) -> (r: String)
    ensures
        r@ == operation_name_text(components.deep_view()),
{
    to_lower_camel(join(components, "_").as_str())
}

/// The object that holds a list of parameters; none for an empty list.
pub open spec fn parameter_object(fields: Seq<FieldModel>) -> Option<TypeModel> {
    if fields.len() == 0 {
        None
    } else {
        Some(TypeModel::Object(fields))
    }
}

/// The type of the JSON body of an operation, if it has one.
pub open spec fn json_body(body: Option<RequestModel>) -> Option<TypeModel> {
    match body {
        Some(RequestModel::Json(ty)) => Some(ty),
        None => None,
    }
}

/// One argument of the generated function, or nothing where the operation
/// has no such argument.
pub open spec fn argument(name: Seq<char>, ty: Option<TypeModel>) -> Seq<Seq<char>> {
    match ty {
        Some(ty) => seq![name + ": "@ + ts_text(ty)],
        None => Seq::empty(),
    }
}

/// The arguments of the generated function: path parameters, query
/// parameters and body as far as the operation has them, then the options.
pub open spec fn arguments_text(op: OperationModel) -> Seq<char> {
    joined(
        argument("params"@, parameter_object(op.path_params)) + argument(
            "query"@,
            parameter_object(op.query),
        ) + argument("body"@, json_body(op.body)) + seq!["options?: ApiOptions"@],
        ", "@,
    )
}

/// The URL that the generated function requests, as a template literal.
pub open spec fn url_text(op: OperationModel, shown_path: Seq<char>) -> Seq<char> {
    if op.path_params.len() != 0 {
        "`"@ + shown_path + "?${new URLSearchParams(params)}`"@
    } else if op.query.len() != 0 {
        "`"@ + shown_path + "?${new URLSearchParams(query)}`"@
    } else {
        "`"@ + shown_path + "`"@
    }
}

/// What the generated function hands to the request helper.
pub open spec fn call_text(
    op: OperationModel,
    method: Seq<char>,
    shown_path: Seq<char>,
) -> Seq<char> {
    joined(
        seq![quoted(method), url_text(op, shown_path)] + (if op.body is Some {
            seq!["body"@]
        } else {
            Seq::empty()
        }) + seq!["options"@],
        ", "@,
    )
}

/// The generated function of an operation. An operation without a
/// response has none.
pub open spec fn operation_text(
    op: OperationModel,
    method: Seq<char>,
    shown_path: Seq<char>,
) -> Result<
    Seq<char>,
    Error,
> {
    let call = call_text(op, method, shown_path);
    match op.response {
        None => Err(Error::UnsupportedConstruct(Construct::MissingResponse)),
        Some(ResponseModel::Plain) => Ok(
            "("@ + arguments_text(op) + ") => "@ + "requestPlain("@ + call + ")"@,
        ),
        Some(ResponseModel::Json(ty)) => Ok(
            "("@ + arguments_text(op) + ") => "@ + "requestJson<"@ + ts_text(ty) + ">("@ + call
                + ")"@,
        ),
        Some(ResponseModel::EventStream(ty)) => Ok(
            "("@ + arguments_text(op) + ") => "@ + "sse<"@ + ts_text(ty) + ">("@ + call + ")"@,
        ),
    }
}

fn push_argument(parts: &mut Vec<String>, name: &str, ty: &Type)
    ensures
        final(parts).deep_view() == old(parts).deep_view() + argument(name@, Some(ty@)),
{
    let mut text = String::from_str(name);
    text.append(": ");
    text.append(ty.ts().as_str());
    let ghost before = parts.deep_view();
    parts.push(text);
    assert(parts.deep_view() =~= before + argument(name@, Some(ty@)));
}

fn push_text(parts: &mut Vec<String>, text: &str)
    ensures
        final(parts).deep_view() == old(parts).deep_view() + seq![text@],
{
    let ghost before = parts.deep_view();
    parts.push(String::from_str(text));
    assert(parts.deep_view() =~= before + seq![text@]);
}

/// Writes the generated function of an operation that is requested with
/// `method` at `shown_path`.
pub fn operation_ts(op: &Operation, method: &str, shown_path: &str) -> (r: Result<String, Error>)
    ensures
        match r {
            Ok(text) => operation_text(op@, method@, shown_path@) == Ok::<Seq<char>, Error>(text@),
            Err(e) => operation_text(op@, method@, shown_path@) == Err::<Seq<char>, Error>(e),
        },
{
    let mut arguments: Vec<String> = Vec::new();
    assert(arguments.deep_view() =~= Seq::<Seq<char>>::empty());
    if op.path_params.len() != 0 {
        let params = Type::Object(crate::types::clone_fields(&op.path_params));
        push_argument(&mut arguments, "params", &params);
    }
    if op.query.len() != 0 {
        let query = Type::Object(crate::types::clone_fields(&op.query));
        push_argument(&mut arguments, "query", &query);
    }
    match &op.body {
        Some(RequestKind::Json(ty)) => {
            push_argument(&mut arguments, "body", ty);
        },
        None => {},
    }
    push_text(&mut arguments, "options?: ApiOptions");
    assert(arguments.deep_view() =~= argument("params"@, parameter_object(op@.path_params))
        + argument("query"@, parameter_object(op@.query)) + argument("body"@, json_body(op@.body))
        + seq!["options?: ApiOptions"@]);

    let mut url = String::from_str("`");
    url.append(shown_path);
    if op.path_params.len() != 0 {
        url.append("?${new URLSearchParams(params)}`");
    } else if op.query.len() != 0 {
        url.append("?${new URLSearchParams(query)}`");
    } else {
        url.append("`");
    }

    let mut call: Vec<String> = Vec::new();
    assert(call.deep_view() =~= Seq::<Seq<char>>::empty());
    call.push(quote(method));
    call.push(url);
    assert(call.deep_view() =~= seq![quoted(method@), url_text(op@, shown_path@)]);
    if op.body.is_some() {
        push_text(&mut call, "body");
    }
    push_text(&mut call, "options");
    assert(call.deep_view() =~= seq![quoted(method@), url_text(op@, shown_path@)] + (if op@.body
        is Some {
        seq!["body"@]
    } else {
        Seq::empty()
    }) + seq!["options"@]);

    let mut out = String::from_str("(");
    out.append(join(&arguments, ", ").as_str());
    out.append(") => ");
    match &op.response {
        None => {
            return Err(Error::UnsupportedConstruct(Construct::MissingResponse));
        },
        Some(ResponseKind::Plain) => {
            out.append("requestPlain(");
        },
        Some(ResponseKind::Json(ty)) => {
            out.append("requestJson<");
            out.append(ty.ts().as_str());
            out.append(">(");
        },
        Some(ResponseKind::EventStream(ty)) => {
            out.append("sse<");
            out.append(ty.ts().as_str());
            out.append(">(");
        },
    }
    out.append(join(&call, ", ").as_str());
    out.append(")");
    Ok(out)
}

/// `entry` is the name and the generated function of `op` for a path
/// that is shown as `shown_path` and falls into `components`.
pub open spec fn shown_as(
    op: OperationModel,
    method: Seq<char>,
    shown_path: Seq<char>,
    components: Seq<Seq<char>>,
    entry: (Seq<char>, Seq<char>),
) -> bool {
    &&& entry.0 == operation_name_text(components)
    &&& operation_text(op, method, shown_path) == Ok::<Seq<char>, Error>(entry.1)
}

/// `entry` is the name and the generated function of `op` for some way
/// in which its path is shown and falls into components; without a
/// configured prefix the path is shown as it is.
pub open spec fn entry_for(
    api: &InputApi,
    op: OperationModel,
    method: Seq<char>,
    entry: (Seq<char>, Seq<char>),
) -> bool {
    exists|shown_path: Seq<char>, components: Seq<Seq<char>>|
        (api.config.api_prefix is None ==> shown_path == op.path) && #[trigger] shown_as(
            op,
            method,
            shown_path,
            components,
            entry,
        )
}

impl Operation {
    /// The name of the operation and its generated function. The path is
    /// taken without the configured prefix, which it must begin with.
    pub fn ts(&self, api: &InputApi, method: &str) -> (r: Result<(String, String), Error>)
        ensures
            match r {
                Ok(entry) => entry_for(api, self@, method@, (entry.0@, entry.1@)),
                Err(e) => {
                    ||| e == Error::UnsupportedConstruct(Construct::MissingResponse)
                        && self.response is None
                    ||| e == Error::UnsupportedConstruct(Construct::PathPrefix)
                        && api.config.api_prefix is Some
                },
            },
            api.config.api_prefix is None ==> (r is Ok <==> self.response is Some),
    {
        let shown_path = match &api.config.api_prefix {
            Some(prefix) => match strip_path_prefix(self.path.as_str(), prefix.as_str()) {
                Some(rest) => rest,
                None => {
                    return Err(Error::UnsupportedConstruct(Construct::PathPrefix));
                },
            },
            None => self.path.clone(),
        };
        let components = path_components(shown_path.as_str());
        let name = operation_name(&components);
        match operation_ts(self, method, shown_path.as_str()) {
            Err(e) => Err(e),
            Ok(text) => {
                assert(shown_as(
                    self@,
                    method@,
                    shown_path@,
                    components.deep_view(),
                    (name@, text@),
                ));
                Ok((name, text))
            },
        }
    }
}

} // verus!
