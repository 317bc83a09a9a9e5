//! Requests to the preview server: the request line, the body, and the route they name.

use vstd::prelude::*;

use crate::doc_parse::{find_char_from, find_pat_from, token_end_from, ws_from};
use crate::expr::ws_end;
use crate::markup::{find_char, find_pat, token_end};
use crate::scaffold::{opt_text, pair_param, params_from};
use crate::text::{chars_of, lit, str_eq, string_range};

verus! {

/// The text before the first `"\r\n"` (all of it when there is none).
pub open spec fn spec_first_line(t: Seq<char>) -> Seq<char> {
    match find_pat(t, 0, "\r\n"@) {
        Some(i) => t.subrange(0, i),
        None => t,
    }
}

/// The second piece of `t` split at `"\r\n\r\n"`: what follows the first blank line, up to
/// the next one; empty when there is no blank line.
pub open spec fn spec_body(t: Seq<char>) -> Seq<char> {
    match find_pat(t, 0, "\r\n\r\n"@) {
        Some(i) => match find_pat(t, i + 4, "\r\n\r\n"@) {
            Some(j) => t.subrange(i + 4, j),
            None => t.subrange(i + 4, t.len() as int),
        },
        None => Seq::empty(),
    }
}

/// The first whitespace-separated word of `l`, or `"GET"` when there is none.
pub open spec fn spec_method(l: Seq<char>) -> Seq<char> {
    let s1 = ws_end(l, 0);
    if s1 >= l.len() {
        "GET"@
    } else {
        l.subrange(s1, token_end(l, s1))
    }
}

/// The second whitespace-separated word of `l`, or `"/"` when there is none.
pub open spec fn spec_url(l: Seq<char>) -> Seq<char> {
    let s1 = ws_end(l, 0);
    if s1 >= l.len() {
        "/"@
    } else {
        let s2 = ws_end(l, token_end(l, s1));
        if s2 >= l.len() {
            "/"@
        } else {
            l.subrange(s2, token_end(l, s2))
        }
    }
}

/// The URL up to its first `?`.
pub open spec fn spec_path(url: Seq<char>) -> Seq<char> {
    match find_char(url, 0, '?') {
        Some(k) => url.subrange(0, k),
        None => url,
    }
}

/// The URL after its first `?`; empty when there is none.
pub open spec fn spec_query(url: Seq<char>) -> Seq<char> {
    match find_char(url, 0, '?') {
        Some(k) => url.subrange(k + 1, url.len() as int),
        None => Seq::empty(),
    }
}

/// A request to the preview server, taken apart.
pub struct Request {
    /// First word of the request line (`"GET"` when missing).
    pub method: String,
    /// URL before `?` (`"/"` when the URL is missing).
    pub path: String,
    /// URL after `?`.
    pub query: String,
    /// Text after the header block.
    pub body: String,
}

/// Takes a request apart: method and URL from the first line, path and query from the URL,
/// and the body after the first blank line.
pub fn parse_request(req: &str) -> (r: Request)
    ensures
        r.method@ == spec_method(spec_first_line(req@)),
        r.path@ == spec_path(spec_url(spec_first_line(req@))),
        r.query@ == spec_query(spec_url(spec_first_line(req@))),
        r.body@ == spec_body(req@),
{
    let t = chars_of(req);
    let crlf = chars_of("\r\n");
    let blank = chars_of("\r\n\r\n");
    proof {
        reveal_strlit("\r\n\r\n");
    }
    // The first line.
    let line_end = match find_pat_from(&t, 0, &crlf) {
        Some(i) => i,
        None => t.len(),
    };
    let l = string_range(&t, 0, line_end);
    let lv = chars_of(l.as_str());
    assert(lv@ == spec_first_line(t@)) by {
        assert(t@.subrange(0, t@.len() as int) =~= t@);
    }
    // The request-line words.
    let s1 = ws_from(&lv, 0);
    let (method, url) = if s1 >= lv.len() {
        (lit("GET"), lit("/"))
    } else {
        let e1 = token_end_from(&lv, s1);
        let m = string_range(&lv, s1, e1);
        let s2 = ws_from(&lv, e1);
        if s2 >= lv.len() {
            (m, lit("/"))
        } else {
            let e2 = token_end_from(&lv, s2);
            (m, string_range(&lv, s2, e2))
        }
    };
    // Path and query.
    let uv = chars_of(url.as_str());
    let (path, query) = match find_char_from(&uv, 0, '?') {
        Some(k) => (string_range(&uv, 0, k), string_range(&uv, k + 1, uv.len())),
        None => (lit(url.as_str()), lit("")),
    };
    proof {
        reveal_strlit("");
        assert(uv@.subrange(0, uv@.len() as int) =~= uv@);
    }
    // The body.
    let body = match find_pat_from(&t, 0, &blank) {
        Some(i) => {
            let start = i + 4;
            let end = if start <= t.len() {
                match find_pat_from(&t, start, &blank) {
                    Some(j) => j,
                    None => t.len(),
                }
            } else {
                t.len()
            };
            string_range(&t, start, end)
        },
        None => lit(""),
    };
    Request { method, path, query, body }
}

/// What the preview server does for a request.
#[derive(Clone, Copy, Debug, PartialEq, Eq, Structural)]
pub enum Route {
    /// The preview page.
    Page,
    /// The current frame as PNG.
    Frame,
    /// The widget snapshot as JSON.
    Snapshot,
    /// The model as JSON.
    Model,
    /// A click at a point.
    Click,
    /// A press on the first widget of a kind.
    Press,
    /// A key press.
    Key,
    /// A change of appearance.
    Appearance,
    /// Anything else.
    NotFound,
}

/// The route of a method and path.
pub open spec fn spec_route(method: Seq<char>, path: Seq<char>) -> Route {
    if method == "GET"@ {
        if path == "/"@ || path == "/index.html"@ {
            Route::Page
        } else if path == "/frame.png"@ {
            Route::Frame
        } else if path == "/snapshot"@ {
            Route::Snapshot
        } else if path == "/model"@ {
            Route::Model
        } else {
            Route::NotFound
        }
    } else if method == "POST"@ {
        if path == "/click"@ {
            Route::Click
        } else if path == "/press"@ {
            Route::Press
        } else if path == "/key"@ {
            Route::Key
        } else if path == "/appearance"@ {
            Route::Appearance
        } else {
            Route::NotFound
        }
    } else {
        Route::NotFound
    }
}

/// Routes a request by its method and path.
pub fn route(method: &str, path: &str) -> (r: Route)
    ensures
        r == spec_route(method@, path@),
{
    if str_eq(method, "GET") {
        if str_eq(path, "/") || str_eq(path, "/index.html") {
            Route::Page
        } else if str_eq(path, "/frame.png") {
            Route::Frame
        } else if str_eq(path, "/snapshot") {
            Route::Snapshot
        } else if str_eq(path, "/model") {
            Route::Model
        } else {
            Route::NotFound
        }
    } else if str_eq(method, "POST") {
        if str_eq(path, "/click") {
            Route::Click
        } else if str_eq(path, "/press") {
            Route::Press
        } else if str_eq(path, "/key") {
            Route::Key
        } else if str_eq(path, "/appearance") {
            Route::Appearance
        } else {
            Route::NotFound
        }
    } else {
        Route::NotFound
    }
}

// ---------------------------------------------------------------------------
// Request parameters.
// ---------------------------------------------------------------------------
/// The JSON text `serde_json` writes for field `name` of the JSON value `hay`; `None` when
/// `hay` is not JSON or has no such field.
pub uninterp spec fn json_field_of(hay: Seq<char>, name: Seq<char>) -> Option<Seq<char>>;

/// Field `name` of the JSON value in `hay`, as JSON text.
/// Trusted: `serde_json::from_str` into a `serde_json::Value`, then `Value::get` and the
/// field's `to_string`; the result depends on the text and the name alone, and the contract
/// names it and says nothing more of it.
#[verifier::external_body]
fn json_field(hay: &str, name: &str) -> (r: Option<String>)
    ensures
        opt_text(r) == json_field_of(hay@, name@),
{
    match serde_json::from_str::<serde_json::Value>(hay) {
        Ok(v) => match v.get(name) {
            Some(x) => Some(x.to_string()),
            None => None,
        },
        Err(_) => None,
    }
}

/// The string `serde_json` reads from the JSON text `json` when it is a JSON string; `None`
/// for any other text.
pub uninterp spec fn json_string_of(json: Seq<char>) -> Option<Seq<char>>;

/// Reads the JSON text `json` as a string.
/// Trusted: `serde_json::from_str::<String>`; the result depends on the text alone, and the
/// contract names it and says nothing more of it.
#[verifier::external_body]
fn json_string(json: &str) -> (r: Option<String>)
    ensures
        opt_text(r) == json_string_of(json@),
{
    serde_json::from_str::<String>(json).ok()
}

/// The text a parameter takes from a JSON field: the contents of a string, or the JSON
/// text of any other value.
pub open spec fn spec_field_text(json: Seq<char>, contents: Option<Seq<char>>) -> Seq<char> {
    match contents {
        Some(s) => s,
        None => json,
    }
}

/// The text of a JSON field given its JSON text and, when it is a string, its contents.
pub fn field_text(json: String, contents: Option<String>) -> (r: String)
    ensures
        r@ == spec_field_text(json@, opt_text(contents)),
{
    match contents {
        Some(s) => s,
        None => json,
    }
}

/// Field `name` of the JSON value in `hay`, as parameter text.
pub open spec fn json_param(hay: Seq<char>, name: Seq<char>) -> Option<Seq<char>> {
    match json_field_of(hay, name) {
        Some(j) => Some(spec_field_text(j, json_string_of(j))),
        None => None,
    }
}

/// Reads field `name` of the JSON value in `hay` as parameter text.
fn json_param_text(hay: &str, name: &str) -> (r: Option<String>)
    ensures
        opt_text(r) == json_param(hay@, name@),
{
    match json_field(hay, name) {
        Some(j) => {
            let contents = json_string(j.as_str());
            Some(field_text(j, contents))
        },
        None => None,
    }
}

/// The value of parameter `name` in one piece of request text: a `name=value` piece first,
/// else field `name` of the text read as JSON.
pub open spec fn param_in(hay: Seq<char>, name: Seq<char>) -> Option<Seq<char>> {
    match params_from(hay, 0, name) {
        Some(v) => Some(v),
        None => json_param(hay, name),
    }
}

/// The value of parameter `name` of a request: looked up in the query first, then in the body.
pub open spec fn spec_param(query: Seq<char>, body: Seq<char>, name: Seq<char>) -> Option<
    Seq<char>,
> {
    match param_in(query, name) {
        Some(v) => Some(v),
        None => param_in(body, name),
    }
}

/// Finds request parameter `name` in the query, then in the body; in each, `key=value`
/// pieces come before a JSON object's fields.
pub fn param(query: &str, body: &str, name: &str) -> (r: Option<String>)
    ensures
        opt_text(r) == spec_param(query@, body@, name@),
{
    match pair_param(query, name) {
        Some(v) => return Some(v),
        None => {},
    }
    match json_param_text(query, name) {
        Some(v) => return Some(v),
        None => {},
    }
    match pair_param(body, name) {
        Some(v) => return Some(v),
        None => {},
    }
    json_param_text(body, name)
}

} // verus!
