//! The local file server's reading of a request line, and which changes in
//! the watched directories call for a rebuild.

use crate::text::{chars_of, find_from, find_from_exec, same_text, slice_chars};
use percent_encoding::percent_decode_str;
use vstd::prelude::*;
use vstd::string::StringExecFns;

verus! {

/// What the file server makes of a request.
#[derive(Debug, Clone)]
pub enum Route {
    /// a request other than GET
    MethodNotAllowed,
    /// a GET of this path, relative to the served directory
    File(String),
    /// a request line without a path, a path that is no UTF-8 once decoded,
    /// or one that does not start with `/`
    Malformed,
}

/// A route as a mathematical value.
pub enum RouteView {
    MethodNotAllowed,
    File(Seq<char>),
    Malformed,
}

pub open spec fn route_view(r: Route) -> RouteView {
    match r {
        Route::MethodNotAllowed => RouteView::MethodNotAllowed,
        Route::File(p) => RouteView::File(p@),
        Route::Malformed => RouteView::Malformed,
    }
}

/// What percent-decoding makes of `text`, read as UTF-8; nothing where the
/// decoded bytes are no UTF-8.
pub uninterp spec fn percent_decoded(text: Seq<char>) -> Option<Seq<char>>;

/// `text` in lower case.
pub uninterp spec fn lower_of(text: Seq<char>) -> Seq<char>;

/// Relies on percent_encoding's `percent_decode_str` and `decode_utf8`: the
/// result depends on the text alone, and a text without `%` is its own
/// decoding.
#[verifier::external_body]
fn percent_decode(text: &str) -> (r: Option<String>)
    ensures
        r matches Some(d) ==> percent_decoded(text@) == Some(d@),
        r is None ==> percent_decoded(text@) is None,
        !text@.contains('%') ==> r is Some && r->Some_0@ == text@,
{
    match percent_decode_str(text).decode_utf8() {
        Ok(decoded) => Some(decoded.into_owned()),
        Err(_) => None,
    }
}

/// Relies on `str::to_lowercase`: the result depends on the characters alone.
#[verifier::external_body]
fn lowercase(text: &str) -> (r: String)
    ensures
        r@ == lower_of(text@),
{
    text.to_lowercase()
}

/// The route of a request's method and its (still encoded) path. The path is
/// decoded first; a request other than GET is refused; the path must start
/// with `/`, which is dropped, and the empty path stands for `index.html`.
pub open spec fn route_of(method: Seq<char>, encoded: Seq<char>) -> RouteView {
    match percent_decoded(encoded) {
        None => RouteView::Malformed,
        Some(path) => if lower_of(method) != "get"@ {
            RouteView::MethodNotAllowed
        } else if path.len() == 0 || path[0] != '/' {
            RouteView::Malformed
        } else if path.len() == 1 {
            RouteView::File("index.html"@)
        } else {
            RouteView::File(path.skip(1))
        },
    }
}

/// The route of a request: its method is the text before the first space,
/// its path the text after it, up to the next space if there is one.
pub open spec fn request_route(request: Seq<char>) -> RouteView {
    match find_from(request, seq![' '], 0) {
        None => RouteView::Malformed,
        Some(i) => {
            let rest = request.skip(i + 1int);
            let encoded = match find_from(rest, seq![' '], 0) {
                None => rest,
                Some(j) => rest.take(j as int),
            };
            route_of(request.take(i as int), encoded)
        },
    }
}

/// Routes a request, given its method and its percent-encoded path.
pub fn route(method: &str, encoded_path: &str) -> (r: Route)
    ensures
        route_view(r) == route_of(method@, encoded_path@),
{
    let path = match percent_decode(encoded_path) {
        Some(p) => p,
        None => return Route::Malformed,
    };
    let lower = lowercase(method);
    if !same_text(lower.as_str(), "get") {
        return Route::MethodNotAllowed;
    }
    let chars = chars_of(path.as_str());
    if chars.len() == 0 || chars[0] != '/' {
        return Route::Malformed;
    }
    if chars.len() == 1 {
        return Route::File(String::from_str("index.html"));
    }
    let rest = slice_chars(path.as_str(), 1, chars.len());
    assert(rest@ =~= path@.skip(1));
    Route::File(rest.to_owned())
}

/// Reads a request's first line: the method, then the path.
pub fn route_request(request: &str) -> (r: Route)
    ensures
        route_view(r) == request_route(request@),
{
    let chars = chars_of(request);
    let space: Vec<char> = vec![' '];
    assert(space@ =~= seq![' ']);
    let n = chars.len();
    match find_from_exec(&chars, &space, 0) {
        None => Route::Malformed,
        Some(i) => {
            let method = slice_chars(request, 0, i);
            let rest = slice_chars(request, i + 1, n);
            let rest_chars = chars_of(rest);
            let encoded = match find_from_exec(&rest_chars, &space, 0) {
                None => rest,
                Some(j) => slice_chars(rest, 0, j),
            };
            assert(method@ =~= request@.take(i as int));
            assert(rest@ =~= request@.skip(i + 1int));
            route(method, encoded)
        },
    }
}

/// A change seen in a watched directory.
#[derive(Debug, Clone, Copy, PartialEq, Eq, Structural)]
pub enum ChangeKind {
    Write,
    Create,
    Remove,
    Rename,
    /// any other notice, such as a change of permissions
    Other,
}

/// Writes, creations, removals and renames call for a rebuild; other notices
/// do not.
pub fn should_rebuild(kind: ChangeKind) -> (r: bool)
    ensures
        r == !(kind is Other),
{
    !matches!(kind, ChangeKind::Other)
}

} // verus!
