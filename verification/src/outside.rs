//! The calls into other crates and into the formatting machinery of the
//! standard library. Their contracts are taken on trust.

use vstd::prelude::*;
use camino::Utf8Path;
use heck::{ToLowerCamelCase, ToShoutySnakeCase};
use indent_write::indentable::Indentable;

verus! {

/// What `heck` makes of a text in lower camel case.
pub uninterp spec fn lower_camel_case(text: Seq<char>) -> Seq<char>;

/// What `heck` makes of a text in shouty snake case.
pub uninterp spec fn shouty_snake_case(text: Seq<char>) -> Seq<char>;

/// A string as `Debug` writes it: between double quotes, with what cannot
/// stand there escaped.
pub uninterp spec fn quoted(text: Seq<char>) -> Seq<char>;

/// `text` from position `i` on, with `by` put before the first character
/// of every line that is not empty; `at_line_start` says whether position
/// `i` begins a line.
pub open spec fn indented_from(text: Seq<char>, by: Seq<char>, i: int, at_line_start: bool) -> Seq<
    char,
>
    decreases text.len() - i,
{
    if i < 0 || i >= text.len() {
        Seq::empty()
    } else if text[i] == '\n' {
        seq!['\n'] + indented_from(text, by, i + 1, true)
    } else if at_line_start {
        by + seq![text[i]] + indented_from(text, by, i + 1, false)
    } else {
        seq![text[i]] + indented_from(text, by, i + 1, false)
    }
}

/// `text` with `by` put before every line that is not empty.
pub open spec fn indented(text: Seq<char>, by: Seq<char>) -> Seq<char> {
    indented_from(text, by, 0, true)
}

/// Calls `heck::ToLowerCamelCase::to_lower_camel_case` on `text`. The
/// result depends on the text alone; the contract gives it a name and
/// says no more of it.
#[verifier::external_body]
pub(crate) fn to_lower_camel(text: &str) -> (r: String)
    ensures
        r@ == lower_camel_case(text@),
{
    text.to_lower_camel_case()
}

/// Calls `heck::ToShoutySnakeCase::to_shouty_snake_case` on `text`. The
/// result depends on the text alone; the contract gives it a name and
/// says no more of it.
#[verifier::external_body]
pub(crate) fn to_shouty_snake(text: &str) -> (r: String)
    ensures
        r@ == shouty_snake_case(text@),
{
    text.to_shouty_snake_case()
}

/// Calls `pluralizer::pluralize` for the plural or singular of `word` that
/// goes with `count`, without the count in front. The rules it applies can
/// be changed by anyone in the process, so nothing is claimed of the
/// result.
#[verifier::external_body]
pub(crate) fn pluralize(word: &str, count: usize) -> (r: String) {
    pluralizer::pluralize(word, count as isize, false)
}

/// Calls `camino::Utf8Path::strip_prefix`: what is left of `path` after
/// the components of `prefix`, if it begins with them. How a path falls
/// into components depends on the platform, so nothing is claimed of the
/// result.
#[verifier::external_body]
pub(crate) fn strip_path_prefix(path: &str, prefix: &str) -> (r: Option<String>) {
    match Utf8Path::new(path).strip_prefix(prefix) {
        Ok(rest) => Some(rest.as_str().to_owned()),
        Err(_) => None,
    }
}

/// Calls `camino::Utf8Path::components`: the components of `path`, each
/// as a string. How a path falls into components depends on the platform,
/// so nothing is claimed of the result.
#[verifier::external_body]
pub(crate) fn path_components(path: &str) -> (r: Vec<String>) {
    Utf8Path::new(path).components().map(|c| c.as_str().to_owned()).collect()
}

/// Calls `indent_write::indentable::Indentable::indented` and formats the
/// result: as the crate documents and its writer implements, every line
/// of `text` that is not empty gets `by` in front.
#[verifier::external_body]
pub(crate) fn indent(text: &str, by: &str) -> (r: String)
    ensures
        r@ == indented(text@, by@),
{
    format!("{}", text.indented(by))
}

/// Formats `text` with `Debug`, as `{:?}` does. The result depends on the
/// text alone; the contract gives it a name and says no more of it.
#[verifier::external_body]
pub(crate) fn quote(text: &str) -> (r: String)
    ensures
        r@ == quoted(text@),
{
    format!("{:?}", text)
}

} // verus!
