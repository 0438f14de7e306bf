//! The client module of a document: the operations of its paths, the
//! declarations of its named schemas, and the text that holds both.

use vstd::prelude::*;
use vstd::string::StringExecFns;
use crate::document::{method_text, Document, InputApi, Method, OperationNode, PathItem, PathRef};
use crate::error::{Construct, Error, Failure, Place};
use crate::db::Database;
use crate::operation::{extract, operation_with, Operation, OperationModel};
use crate::outside::{
    indent, indented, pluralize, quote, quoted, shouty_snake_case, to_shouty_snake,
};
use crate::resolve::{entry_ty_with, find_schema, memo_valid, Memo};
use crate::schema::{named, resolve_deep, Components};
use crate::simplify::simplify;
use crate::text::has_char;
use crate::ts::{entry_for, join, joined, ts_text};
use crate::types::{constants_of, Type, TypeModel};

verus! {

broadcast use {vstd::seq::group_seq_axioms, vstd::std_specs::vec::group_vec_axioms};

/// The `k`-th method in the order of generation.
pub open spec fn method_at(k: int) -> Method {
    if k <= 0 {
        Method::Delete
    } else if k == 1 {
        Method::Get
    } else if k == 2 {
        Method::Put
    } else if k == 3 {
        Method::Post
    } else if k == 4 {
        Method::Head
    } else if k == 5 {
        Method::Trace
    } else {
        Method::Patch
    }
}

/// The operation that a path item has for a method.
pub open spec fn slot(item: &PathItem, m: Method) -> Option<OperationNode> {
    match m {
        Method::Delete => item.delete,
        Method::Get => item.get,
        Method::Put => item.put,
        Method::Post => item.post,
        Method::Head => item.head,
        Method::Trace => item.trace,
        Method::Patch => item.patch,
    }
}

fn method_number(k: usize) -> (r: Method)
    ensures
        r == method_at(k as int),
{
    if k == 0 {
        Method::Delete
    } else if k == 1 {
        Method::Get
    } else if k == 2 {
        Method::Put
    } else if k == 3 {
        Method::Post
    } else if k == 4 {
        Method::Head
    } else if k == 5 {
        Method::Trace
    } else {
        Method::Patch
    }
}

fn slot_of(item: &PathItem, m: Method) -> (r: &Option<OperationNode>)
    ensures
        *r == slot(item, m),
{
    match m {
        Method::Delete => &item.delete,
        Method::Get => &item.get,
        Method::Put => &item.put,
        Method::Post => &item.post,
        Method::Head => &item.head,
        Method::Trace => &item.trace,
        Method::Patch => &item.patch,
    }
}

/// The signatures of the operations that a path item has for the `k`
/// first methods.
pub open spec fn item_operations(
    components: &Components,
    path: Seq<char>,
    item: &PathItem,
    k: nat,
) -> Result<
    Seq<(Method, OperationModel)>,
    Error,
>
    decreases k,
{
    if k == 0 || k > 7 {
        Ok(Seq::empty())
    } else {
        match item_operations(components, path, item, (k - 1) as nat) {
            Err(e) => Err(e),
            Ok(found) => match slot(item, method_at(k - 1)) {
                None => Ok(found),
                Some(node) => match extract(components, path, &node) {
                    Err(e) => Err(e),
                    Ok(op) => Ok(found.push((method_at(k - 1), op))),
                },
            },
        }
    }
}

/// The signatures of the operations of one path.
pub open spec fn path_operations(
    components: &Components,
    path: Seq<char>,
    item: &PathRef,
) -> Result<
    Seq<(Method, OperationModel)>,
    Error,
> {
    match item {
        PathRef::Reference => Err(Error::UnsupportedConstruct(Construct::PathReference)),
        PathRef::Item(item) => if item.parameters != 0 {
            Err(Error::UnsupportedConstruct(Construct::PathParameters))
        } else {
            item_operations(components, path, item, 7)
        },
    }
}

/// The signatures of the operations of the `n` first paths of a document,
/// path by path and, within a path, method by method. The first failure
/// is the result.
pub open spec fn operations_upto(doc: &Document, n: nat) -> Result<
    Seq<(Method, OperationModel)>,
    Error,
>
    decreases n,
{
    if n == 0 || n > doc.paths.len() {
        Ok(Seq::empty())
    } else {
        match operations_upto(doc, (n - 1) as nat) {
            Err(e) => Err(e),
            Ok(found) => match path_operations(
                &doc.components,
                doc.paths[n - 1].0@,
                &doc.paths[n - 1].1,
            ) {
                Err(e) => Err(e),
                Ok(more) => Ok(found + more),
            },
        }
    }
}

/// The models of a list of operations with their methods.
pub open spec fn operations_view(ops: &Vec<(Method, Operation)>) -> Seq<(Method, OperationModel)> {
    Seq::new(ops.len() as nat, |i: int| (ops[i].0, ops[i].1@))
}

/// The operation of a path item for the `k`-th method is the first that
/// cannot be read.
pub open spec fn fails_at_method(
    components: &Components,
    path: Seq<char>,
    item: &PathItem,
    k: int,
) -> bool {
    &&& 0 <= k < 7
    &&& item_operations(components, path, item, k as nat) is Ok
    &&& item_operations(components, path, item, (k + 1) as nat) is Err
}

/// `place` is where reading the operations of a path fails: the path
/// item itself, or the first of its operations that cannot be read.
pub open spec fn path_failure_at(
    components: &Components,
    path: Seq<char>,
    item: &PathRef,
    place: Place,
) -> bool {
    match item {
        PathRef::Reference => place matches Place::Path(p) && p@ == path,
        PathRef::Item(item) => if item.parameters != 0 {
            place matches Place::Path(p) && p@ == path
        } else {
            place matches Place::Operation { path: p, method } && p@ == path && exists|k: int|
                method == method_at(k) && #[trigger] fails_at_method(components, path, item, k)
        },
    }
}

/// The path at position `i` is the first whose operations cannot be
/// read.
pub open spec fn fails_at_path(doc: &Document, i: int) -> bool {
    &&& 0 <= i < doc.paths.len()
    &&& operations_upto(doc, i as nat) is Ok
    &&& operations_upto(doc, (i + 1) as nat) is Err
}

/// `place` is where reading the operations of a document fails.
pub open spec fn operations_failure_at(doc: &Document, place: Place) -> bool {
    exists|i: int| #[trigger]
        fails_at_path(doc, i) && path_failure_at(
            &doc.components,
            doc.paths[i].0@,
            &doc.paths[i].1,
            place,
        )
}

proof fn lemma_item_fail(components: &Components, path: Seq<char>, item: &PathItem, k: nat, m: nat)
    requires
        k <= m <= 7,
        item_operations(components, path, item, k) is Err,
    ensures
        item_operations(components, path, item, m) == item_operations(components, path, item, k),
    decreases m - k,
{
    if k < m {
        lemma_item_fail(components, path, item, k, (m - 1) as nat);
    }
}

proof fn lemma_operations_fail(doc: &Document, n: nat, m: nat)
    requires
        n <= m <= doc.paths.len(),
        operations_upto(doc, n) is Err,
    ensures
        operations_upto(doc, m) == operations_upto(doc, n),
    decreases m - n,
{
    if n < m {
        lemma_operations_fail(doc, n, (m - 1) as nat);
    }
}

#[verifier::loop_isolation(false)]
fn path_ops(
    api: &InputApi,
    memo: &mut Memo,
    db: &mut Database,
    path: &String,
    item: &PathRef,
) -> (r: Result<Vec<(Method, Operation)>, Failure>)
    requires
        memo_valid(old(memo), &api.api.components),
        old(db).wf(),
    ensures
        memo_valid(final(memo), &api.api.components),
        final(db).wf(),
        match r {
            Ok(ops) => path_operations(&api.api.components, path@, item) == Ok::<
                Seq<(Method, OperationModel)>,
                Error,
            >(operations_view(&ops)),
            Err(f) => path_operations(&api.api.components, path@, item) == Err::<
                Seq<(Method, OperationModel)>,
                Error,
            >(f.error) && path_failure_at(&api.api.components, path@, item, f.place),
        },
{
    let mut out: Vec<(Method, Operation)> = Vec::new();
    assert(operations_view(&out) =~= Seq::empty());
    match item {
        PathRef::Reference => Err(
            Failure {
                error: Error::UnsupportedConstruct(Construct::PathReference),
                place: Place::Path(path.clone()),
            },
        ),
        PathRef::Item(item) => {
            if item.parameters != 0 {
                return Err(
                    Failure {
                        error: Error::UnsupportedConstruct(Construct::PathParameters),
                        place: Place::Path(path.clone()),
                    },
                );
            }
            let mut k: usize = 0;
            while k < 7
                invariant
                    k <= 7,
                    memo_valid(memo, &api.api.components),
                    db.wf(),
                    item_operations(&api.api.components, path@, item, k as nat) == Ok::<
                        Seq<(Method, OperationModel)>,
                        Error,
                    >(operations_view(&out)),
                decreases 7 - k,
            {
                let ghost before = operations_view(&out);
                let m = method_number(k);
                match slot_of(item, m) {
                    None => {},
                    Some(node) => match operation_with(api, memo, db, path.clone(), node) {
                        Err(e) => {
                            proof {
                                lemma_item_fail(
                                    &api.api.components,
                                    path@,
                                    item,
                                    (k + 1) as nat,
                                    7,
                                );
                                assert(fails_at_method(&api.api.components, path@, item, k as int));
                            }
                            return Err(
                                Failure {
                                    error: e,
                                    place: Place::Operation { path: path.clone(), method: m },
                                },
                            );
                        },
                        Ok(op) => {
                            out.push((m, op));
                            assert(operations_view(&out) =~= before.push((m, op@)));
                        },
                    },
                }
                k = k + 1;
            }
            Ok(out)
        },
    }
}

/// Reads the signatures of all operations of a document.
pub fn operations(api: &InputApi) -> (r: Result<Vec<(Method, Operation)>, Failure>)
    ensures
        match r {
            Ok(ops) => operations_upto(&api.api, api.api.paths.len() as nat) == Ok::<
                Seq<(Method, OperationModel)>,
                Error,
            >(operations_view(&ops)),
            Err(f) => operations_upto(&api.api, api.api.paths.len() as nat) == Err::<
                Seq<(Method, OperationModel)>,
                Error,
            >(f.error) && operations_failure_at(&api.api, f.place),
        },
{
    let mut memo: Memo = Vec::new();
    let mut db = Database::new();
    operations_with(api, &mut memo, &mut db)
}

fn operations_with(api: &InputApi, memo: &mut Memo, db: &mut Database) -> (r:
    Result<Vec<(Method, Operation)>, Failure>)
    requires
        memo_valid(old(memo), &api.api.components),
        old(db).wf(),
    ensures
        memo_valid(final(memo), &api.api.components),
        final(db).wf(),
        match r {
            Ok(ops) => operations_upto(&api.api, api.api.paths.len() as nat) == Ok::<
                Seq<(Method, OperationModel)>,
                Error,
            >(operations_view(&ops)),
            Err(f) => operations_upto(&api.api, api.api.paths.len() as nat) == Err::<
                Seq<(Method, OperationModel)>,
                Error,
            >(f.error) && operations_failure_at(&api.api, f.place),
        },
{
    let doc = &api.api;
    let mut out: Vec<(Method, Operation)> = Vec::new();
    assert(operations_view(&out) =~= Seq::empty());
    let mut i: usize = 0;
    while i < doc.paths.len()
        invariant
            i <= doc.paths.len(),
            doc == &api.api,
            memo_valid(memo, &api.api.components),
            db.wf(),
            operations_upto(doc, i as nat) == Ok::<Seq<(Method, OperationModel)>, Error>(
                operations_view(&out),
            ),
        decreases doc.paths.len() - i,
    {
        let ghost before = operations_view(&out);
        match path_ops(api, memo, db, &doc.paths[i].0, &doc.paths[i].1) {
            Err(f) => {
                proof {
                    lemma_operations_fail(doc, (i + 1) as nat, doc.paths.len() as nat);
                    assert(fails_at_path(doc, i as int));
                }
                return Err(f);
            },
            Ok(mut more) => {
                let ghost added = operations_view(&more);
                out.append(&mut more);
                assert(operations_view(&out) =~= before + added);
            },
        }
        i = i + 1;
    }
    Ok(out)
}

/// The named schemas among the `n` first that get a declaration, each
/// with the canonical form of its type. A schema whose name holds an
/// underscore gets none, nor one that is not found under its own name.
pub open spec fn declared_upto(components: &Components, n: nat) -> Result<
    Seq<(Seq<char>, TypeModel)>,
    Error,
>
    decreases n,
{
    if n == 0 || n > components.schemas.len() {
        Ok(Seq::empty())
    } else {
        let name = components.schemas[n - 1].0@;
        match declared_upto(components, (n - 1) as nat) {
            Err(e) => Err(e),
            Ok(found) => if name.contains('_') {
                Ok(found)
            } else {
                match named(components, name) {
                    Err(Error::UnresolvedReference) => Ok(found),
                    Err(e) => Err(e),
                    Ok(schema) => match resolve_deep(
                        components,
                        &schema,
                        components.schemas.len() as nat,
                    ) {
                        Err(e) => Err(e),
                        Ok(ty) => Ok(found.push((name, simplify(ty)))),
                    },
                }
            },
        }
    }
}

/// The models of a list of named types.
pub open spec fn declared_view(types: &Vec<(String, Type)>) -> Seq<(Seq<char>, TypeModel)> {
    Seq::new(types.len() as nat, |i: int| (types[i].0@, types[i].1@))
}

/// The named schema at position `i` is the first that gets a declaration
/// and has no type.
pub open spec fn fails_at_schema(components: &Components, i: int) -> bool {
    &&& 0 <= i < components.schemas.len()
    &&& declared_upto(components, i as nat) is Ok
    &&& declared_upto(components, (i + 1) as nat) is Err
}

/// `place` is where resolving the named schemas fails.
pub open spec fn declared_failure_at(components: &Components, place: Place) -> bool {
    place matches Place::Schema(name) && exists|i: int| #[trigger]
        fails_at_schema(components, i) && name@ == components.schemas[i].0@
}

proof fn lemma_declared_fail(components: &Components, n: nat, m: nat)
    requires
        n <= m <= components.schemas.len(),
        declared_upto(components, n) is Err,
    ensures
        declared_upto(components, m) == declared_upto(components, n),
    decreases m - n,
{
    if n < m {
        lemma_declared_fail(components, n, (m - 1) as nat);
    }
}

/// Resolves the named schemas that get a declaration.
pub fn declared_types(api: &InputApi) -> (r: Result<Vec<(String, Type)>, Failure>)
    ensures
        match r {
            Ok(types) => declared_upto(
                &api.api.components,
                api.api.components.schemas.len() as nat,
            ) == Ok::<Seq<(Seq<char>, TypeModel)>, Error>(declared_view(&types)),
            Err(f) => declared_upto(&api.api.components, api.api.components.schemas.len() as nat)
                == Err::<Seq<(Seq<char>, TypeModel)>, Error>(f.error) && declared_failure_at(
                &api.api.components,
                f.place,
            ),
        },
{
    let mut memo: Memo = Vec::new();
    let mut db = Database::new();
    declared_types_with(api, &mut memo, &mut db)
}

fn declared_types_with(
    api: &InputApi,
    memo: &mut Memo,
    db: &mut Database,
) -> (r: Result<Vec<(String, Type)>, Failure>)
    requires
        memo_valid(old(memo), &api.api.components),
        old(db).wf(),
    ensures
        memo_valid(final(memo), &api.api.components),
        final(db).wf(),
        match r {
            Ok(types) => declared_upto(
                &api.api.components,
                api.api.components.schemas.len() as nat,
            ) == Ok::<Seq<(Seq<char>, TypeModel)>, Error>(declared_view(&types)),
            Err(f) => declared_upto(&api.api.components, api.api.components.schemas.len() as nat)
                == Err::<Seq<(Seq<char>, TypeModel)>, Error>(f.error) && declared_failure_at(
                &api.api.components,
                f.place,
            ),
        },
{
    let components = &api.api.components;
    let mut out: Vec<(String, Type)> = Vec::new();
    assert(declared_view(&out) =~= Seq::empty());
    let mut i: usize = 0;
    while i < components.schemas.len()
        invariant
            i <= components.schemas.len(),
            components == &api.api.components,
            memo_valid(memo, &api.api.components),
            db.wf(),
            declared_upto(components, i as nat) == Ok::<Seq<(Seq<char>, TypeModel)>, Error>(
                declared_view(&out),
            ),
        decreases components.schemas.len() - i,
    {
        proof {
            if declared_upto(components, (i + 1) as nat) is Err {
                lemma_declared_fail(components, (i + 1) as nat, components.schemas.len() as nat);
            }
        }
        let ghost before = declared_view(&out);
        let name = &components.schemas[i].0;
        if !has_char(name.as_str(), '_') {
            match find_schema(api, name.as_str()) {
                Err(Error::UnresolvedReference) => {},
                Err(e) => {
                    assert(fails_at_schema(components, i as int));
                    return Err(Failure { error: e, place: Place::Schema(name.clone()) });
                },
                Ok(k) => match entry_ty_with(api, memo, k) {
                    Err(e) => {
                        assert(fails_at_schema(components, i as int));
                        return Err(Failure { error: e, place: Place::Schema(name.clone()) });
                    },
                    Ok(ty) => {
                        let simple = db.simplify(&ty);
                        out.push((name.clone(), simple));
                        assert(declared_view(&out) =~= before.push((name@, simple@)));
                    },
                },
            }
        }
        i = i + 1;
    }
    Ok(out)
}

/// Each text as `Debug` writes it.
pub open spec fn each_quoted(values: Seq<Seq<char>>) -> Seq<Seq<char>> {
    Seq::new(values.len(), |i: int| quoted(values[i]))
}

/// The declaration of a named type; for a union of literal types also
/// that of the list of its values, named by the plural of the type's name
/// in shouty snake case.
pub open spec fn declaration_text(name: Seq<char>, ty: TypeModel, plural: Seq<char>) -> Seq<char> {
    "export type "@ + name + " = "@ + ts_text(ty) + ";\n"@ + (match constants_of(ty) {
        Some(values) => "export const "@ + shouty_snake_case(plural) + " = ["@ + joined(
            each_quoted(values),
            ", "@,
        ) + "] satisfies "@ + name + "[];\n"@,
        None => Seq::empty(),
    })
}

fn quote_each(values: &Vec<String>) -> (r: Vec<String>)
    ensures
        r.deep_view() == each_quoted(values.deep_view()),
{
    let mut out: Vec<String> = Vec::new();
    let mut i: usize = 0;
    while i < values.len()
        invariant
            i <= values.len(),
            out.len() == i,
            forall|k: int| 0 <= k < i ==> out[k]@ == quoted(values[k]@),
        decreases values.len() - i,
    {
        out.push(quote(values[i].as_str()));
        i = i + 1;
    }
    assert(out.deep_view() =~= each_quoted(values.deep_view()));
    out
}

/// Writes the declaration of a named type, given the plural of its name.
pub fn declaration_with(name: &str, ty: &Type, plural: &str) -> (r: String)
    ensures
        r@ == declaration_text(name@, ty@, plural@),
{
    let mut out = String::from_str("export type ");
    out.append(name);
    out.append(" = ");
    out.append(ty.ts().as_str());
    out.append(";\n");
    match ty.constants() {
        Some(values) => {
            out.append("export const ");
            out.append(to_shouty_snake(plural).as_str());
            out.append(" = [");
            out.append(join(&quote_each(&values), ", ").as_str());
            out.append("] satisfies ");
            out.append(name);
            out.append("[];\n");
        },
        None => {},
    }
    out
}

/// Writes the declaration of a named type. The plural of its name, which
/// only a union of literal types needs, is asked of `pluralizer` for the
/// number of its values.
pub fn declaration(name: &str, ty: &Type) -> (r: String)
    ensures
        exists|plural: Seq<char>| r@ == #[trigger] declaration_text(name@, ty@, plural),
        constants_of(ty@) is None ==> r@ == declaration_text(name@, ty@, Seq::empty()),
{
    match ty.constants() {
        Some(values) => {
            let plural = pluralize(name, values.len());
            declaration_with(name, ty, plural.as_str())
        },
        None => {
            let r = declaration_with(name, ty, "");
            assert(declaration_text(name@, ty@, ""@) == declaration_text(name@, ty@, Seq::empty()));
            r
        },
    }
}

/// The models of a list of names and generated functions.
pub open spec fn entries_view(entries: &Vec<(String, String)>) -> Seq<(Seq<char>, Seq<char>)> {
    Seq::new(entries.len() as nat, |i: int| (entries[i].0@, entries[i].1@))
}

/// The lines of the map of operations: name, colon, generated function,
/// comma.
pub open spec fn entry_lines(entries: Seq<(Seq<char>, Seq<char>)>) -> Seq<Seq<char>> {
    Seq::new(entries.len(), |i: int| entries[i].0 + ": "@ + entries[i].1 + ","@)
}

/// The text of a client module: the preamble, the map of operations, an
/// empty line and the declarations.
pub open spec fn module_text(
    preamble: Seq<char>,
    entries: Seq<(Seq<char>, Seq<char>)>,
    declarations: Seq<Seq<char>>,
) -> Seq<char> {
    preamble + "\n"@ + "export const api = {\n"@ + indented(
        joined(entry_lines(entries), "\n"@),
        "  "@,
    ) + "\n};\n"@ + "\n"@ + joined(declarations, Seq::empty())
}

/// Writes the text of a client module.
pub fn module_ts(preamble: &str, entries: &Vec<(String, String)>, declarations: &Vec<String>) -> (r:
    String)
    ensures
        r@ == module_text(preamble@, entries_view(entries), declarations.deep_view()),
{
    let mut lines: Vec<String> = Vec::new();
    let mut i: usize = 0;
    while i < entries.len()
        invariant
            i <= entries.len(),
            lines.len() == i,
            forall|k: int|
                0 <= k < i ==> lines[k]@ == entries[k].0@ + ": "@ + entries[k].1@ + ","@,
        decreases entries.len() - i,
    {
        let mut line = entries[i].0.clone();
        line.append(": ");
        line.append(entries[i].1.as_str());
        line.append(",");
        lines.push(line);
        i = i + 1;
    }
    assert(lines.deep_view() =~= entry_lines(entries_view(entries)));
    let mut out = String::from_str(preamble);
    out.append("\n");
    out.append("export const api = {\n");
    out.append(indent(join(&lines, "\n").as_str(), "  ").as_str());
    out.append("\n};\n");
    out.append("\n");
    out.append(join(declarations, "").as_str());
    proof {
        reveal_strlit("");
        assert(""@ =~= Seq::<char>::empty());
    }
    out
}

/// The declarations of named types, given the plural of each name.
pub open spec fn declarations_text(
    types: Seq<(Seq<char>, TypeModel)>,
    plurals: Seq<Seq<char>>,
) -> Seq<
    Seq<char>,
> {
    Seq::new(types.len(), |i: int| declaration_text(types[i].0, types[i].1, plurals[i]))
}

/// `text` is a client module for the operations `ops` and the named
/// types `types`, with `entries` as the names and generated functions of
/// the operations and `plurals` as the plurals of the types' names.
pub open spec fn generated(
    api: &InputApi,
    preamble: Seq<char>,
    ops: Seq<(Method, OperationModel)>,
    types: Seq<(Seq<char>, TypeModel)>,
    entries: Seq<(Seq<char>, Seq<char>)>,
    plurals: Seq<Seq<char>>,
    text: Seq<char>,
) -> bool {
    &&& entries.len() == ops.len()
    &&& forall|k: int|
        0 <= k < ops.len() ==> entry_for(
            api,
            ops[k].1,
            method_text(ops[k].0),
            #[trigger] entries[k],
        )
    &&& plurals.len() == types.len()
    &&& text == module_text(preamble, entries, declarations_text(types, plurals))
}

/// What `generate_ts` returns for a document whose operations and named
/// types were read: a client module, or the reason why an operation has
/// no generated function.
pub open spec fn generated_result(
    api: &InputApi,
    preamble: Seq<char>,
    ops: Seq<(Method, OperationModel)>,
    types: Seq<(Seq<char>, TypeModel)>,
    r: Result<String, Failure>,
) -> bool {
    match r {
        Ok(text) => exists|entries: Seq<(Seq<char>, Seq<char>)>, plurals: Seq<Seq<char>>| #[trigger]
            generated(api, preamble, ops, types, entries, plurals, text@),
        Err(f) => exists|k: int| 0 <= k < ops.len() && #[trigger] unwritten(api, ops[k], f),
    }
}

/// `f` says why the operation `op` has no generated function: it has no
/// response, or its path does not begin with the configured prefix.
pub open spec fn unwritten(api: &InputApi, op: (Method, OperationModel), f: Failure) -> bool {
    &&& f.place matches Place::Operation { path, method } && path@ == op.1.path && method == op.0
    &&& {
        ||| f.error == Error::UnsupportedConstruct(Construct::MissingResponse)
            && op.1.response is None
        ||| f.error == Error::UnsupportedConstruct(Construct::PathPrefix)
            && api.config.api_prefix is Some
    }
}

/// Generates the TypeScript client module of a document, below
/// `preamble`. The operations are read first, then the named schemas; the
/// first failure among them is the result. Then the text is written.
#[verifier::loop_isolation(false)]
pub fn generate_ts(api: &InputApi, preamble: &str) -> (r: Result<String, Failure>)
    ensures
        match operations_upto(&api.api, api.api.paths.len() as nat) {
            Err(e) => r matches Err(f) && f.error == e && operations_failure_at(&api.api, f.place),
            Ok(ops) => match declared_upto(
                &api.api.components,
                api.api.components.schemas.len() as nat,
            ) {
                Err(e) => r matches Err(f) && f.error == e && declared_failure_at(
                    &api.api.components,
                    f.place,
                ),
                Ok(types) => generated_result(api, preamble@, ops, types, r),
            },
        },
{
    let mut memo: Memo = Vec::new();
    let mut db = Database::new();
    let ops = match operations_with(api, &mut memo, &mut db) {
        Err(e) => {
            return Err(e);
        },
        Ok(ops) => ops,
    };
    let types = match declared_types_with(api, &mut memo, &mut db) {
        Err(e) => {
            return Err(e);
        },
        Ok(types) => types,
    };
    let mut entries: Vec<(String, String)> = Vec::new();
    let mut i: usize = 0;
    while i < ops.len()
        invariant
            i <= ops.len(),
            entries.len() == i,
            forall|k: int|
                0 <= k < i ==> entry_for(
                    api,
                    operations_view(&ops)[k].1,
                    method_text(operations_view(&ops)[k].0),
                    #[trigger] entries_view(&entries)[k],
                ),
        decreases ops.len() - i,
    {
        match ops[i].1.ts(api, ops[i].0.name()) {
            Err(e) => {
                let f = Failure {
                    error: e,
                    place: Place::Operation { path: ops[i].1.path.clone(), method: ops[i].0 },
                };
                assert(unwritten(api, operations_view(&ops)[i as int], f));
                return Err(f);
            },
            Ok(entry) => {
                let ghost before = entries_view(&entries);
                entries.push(entry);
                assert(entries_view(&entries) =~= before.push((entry.0@, entry.1@)));
            },
        }
        i = i + 1;
    }
    let mut declarations: Vec<String> = Vec::new();
    let ghost mut plurals: Seq<Seq<char>> = Seq::empty();
    let mut j: usize = 0;
    while j < types.len()
        invariant
            j <= types.len(),
            declarations.len() == j,
            plurals.len() == j,
            forall|k: int|
                0 <= k < j ==> #[trigger] declarations[k]@ == declaration_text(
                    types[k].0@,
                    types[k].1@,
                    plurals[k],
                ),
        decreases types.len() - j,
    {
        let text = declaration(types[j].0.as_str(), &types[j].1);
        proof {
            let plural = choose|plural: Seq<char>|
                text@ == #[trigger] declaration_text(
                    types[j as int].0@,
                    types[j as int].1@,
                    plural,
                );
            plurals = plurals.push(plural);
        }
        declarations.push(text);
        j = j + 1;
    }
    let out = module_ts(preamble, &entries, &declarations);
    proof {
        assert(declarations.deep_view() =~= declarations_text(declared_view(&types), plurals));
        assert(generated(
            api,
            preamble@,
            operations_view(&ops),
            declared_view(&types),
            entries_view(&entries),
            plurals,
            out@,
        ));
    }
    let ghost text = out@;
    let r: Result<String, Failure> = Ok(out);
    assert(r->Ok_0@ == text);
    assert(exists|entries: Seq<(Seq<char>, Seq<char>)>, plurals: Seq<Seq<char>>| #[trigger]
        generated(
            api,
            preamble@,
            operations_view(&ops),
            declared_view(&types),
            entries,
            plurals,
            text,
        ));
    assert(generated_result(api, preamble@, operations_view(&ops), declared_view(&types), r));
    assert(operations_upto(&api.api, api.api.paths.len() as nat) == Ok::<
        Seq<(Method, OperationModel)>,
        Error,
    >(operations_view(&ops)));
    assert(declared_upto(&api.api.components, api.api.components.schemas.len() as nat) == Ok::<
        Seq<(Seq<char>, TypeModel)>,
        Error,
    >(declared_view(&types)));
    r
}

} // verus!
