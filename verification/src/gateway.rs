//! The admin gateway dispatcher: classifies every inbound request as an API
//! call or a static-asset request and produces the response, together with
//! the store change a `POST /api/blocking` directs.

use vstd::prelude::*;
use vstd::string::{StrSliceExecFns, StringExecFns};
use crate::blocking::{
    blocking_state_json, spec_blocking_json, spec_state_from_name, state_from_name, BlockingState,
};
use crate::stats::{spec_stats_json, statistics_to_json, Statistics, StatsView};

verus! {

/// The request methods the gateway distinguishes; everything else under
/// `/api/` answers 404.
#[derive(Clone, Copy, Debug, PartialEq, Eq, Structural)]
pub enum Method {
    Get,
    Post,
    Other,
}

/// A response body: JSON and error texts, or the raw bytes of an asset.
#[derive(Debug)]
pub enum ResponseBody {
    Text(String),
    Bytes(Vec<u8>),
}

/// The mathematical shape of a response body.
pub enum BodyView {
    Text(Seq<char>),
    Bytes(Seq<u8>),
}

impl View for ResponseBody {
    type V = BodyView;

    open spec fn view(&self) -> BodyView {
        match self {
            ResponseBody::Text(s) => BodyView::Text(s@),
            ResponseBody::Bytes(b) => BodyView::Bytes(b@),
        }
    }
}

/// What the gateway answers: a status code, a content type, and a body.
#[derive(Debug)]
pub struct Response {
    pub status: u16,
    pub content_type: String,
    pub body: ResponseBody,
}

/// The mathematical shape of a response.
pub struct ResponseView {
    pub status: u16,
    pub content_type: Seq<char>,
    pub body: BodyView,
}

impl View for Response {
    type V = ResponseView;

    open spec fn view(&self) -> ResponseView {
        ResponseView { status: self.status, content_type: self.content_type@, body: self.body@ }
    }
}

/// True of the paths the gateway treats as API calls.
pub open spec fn spec_is_api_path(p: Seq<char>) -> bool {
    p.len() >= 5 && p.subrange(0, 5) == "/api/"@
}

/// Whether two strings hold the same characters.
pub(crate) fn str_eq(a: &str, b: &str) -> (r: bool)
    ensures
        r == (a@ == b@),
{
    let x = String::from_str(a);
    let y = String::from_str(b);
    x == y
}

/// Whether a request path is an API call, that is, starts with `/api/`.
pub fn is_api_path(path: &str) -> (r: bool)
    ensures
        r == spec_is_api_path(path@),
{
    let n = path.unicode_len();
    if n < 5 {
        false
    } else {
        let head = path.substring_char(0, 5);
        str_eq(head, "/api/")
    }
}

/// The characters after the last `.` of a name, or `None` when it has no `.`.
pub open spec fn spec_ext(f: Seq<char>) -> Option<Seq<char>>
    decreases f.len(),
{
    if f.len() == 0 {
        None
    } else if f.last() == '.' {
        Some(Seq::empty())
    } else {
        match spec_ext(f.drop_last()) {
            Some(e) => Some(e.push(f.last())),
            None => None,
        }
    }
}

/// The content type for a file extension.
pub open spec fn spec_mime_for_ext(e: Seq<char>) -> Seq<char> {
    if e == "png"@ {
        "image"@
    } else if e == "jpg"@ {
        "image/jpeg"@
    } else if e == "json"@ {
        "application/json"@
    } else if e == "js"@ {
        "text/javascript"@
    } else if e == "html"@ {
        "text/html"@
    } else if e == "css"@ {
        "text/css"@
    } else if e == "wasm"@ {
        "application/wasm"@
    } else {
        "text/plain"@
    }
}

/// The content type for a file name: derived from its extension, and
/// `text/plain` when it has none.
pub open spec fn spec_mime_type(f: Seq<char>) -> Seq<char> {
    match spec_ext(f) {
        Some(e) => spec_mime_for_ext(e),
        None => "text/plain"@,
    }
}

/// The position just after the last `.` among the first `i` characters of
/// `file`, or `None` when there is no `.` among them.
fn last_dot_end(file: &str, i: usize) -> (r: Option<usize>)
    requires
        i <= file@.len(),
    ensures
        match r {
            Some(j) => 1 <= j <= i && spec_ext(file@.take(i as int)) == Some(
                file@.subrange(j as int, i as int),
            ),
            None => spec_ext(file@.take(i as int)) is None,
        },
    decreases i,
{
    if i == 0 {
        proof {
            assert(file@.take(0) =~= Seq::<char>::empty());
        }
        None
    } else {
        let c = file.get_char(i - 1);
        proof {
            let t = file@.take(i as int);
            assert(t.last() == file@[i - 1]);
            assert(t.drop_last() =~= file@.take((i - 1) as int));
        }
        if c == '.' {
            proof {
                assert(file@.subrange(i as int, i as int) =~= Seq::<char>::empty());
            }
            Some(i)
        } else {
            match last_dot_end(file, i - 1) {
                Some(j) => {
                    proof {
                        assert(file@.subrange(j as int, (i - 1) as int).push(file@[i - 1]) =~= file@.subrange(
                            j as int,
                            i as int,
                        ));
                    }
                    Some(j)
                },
                None => None,
            }
        }
    }
}

/// The content type the gateway sends with a file, derived from the
/// extension of its name.
pub fn get_mime_type(file: &str) -> (r: &str)
    ensures
        r@ == spec_mime_type(file@),
{
    let n = file.unicode_len();
    proof {
        assert(file@.take(n as int) =~= file@);
    }
    match last_dot_end(file, n) {
        None => "text/plain",
        Some(j) => {
            let ext = file.substring_char(j, n);
            if str_eq(ext, "png") {
                "image"
            } else if str_eq(ext, "jpg") {
                "image/jpeg"
            } else if str_eq(ext, "json") {
                "application/json"
            } else if str_eq(ext, "js") {
                "text/javascript"
            } else if str_eq(ext, "html") {
                "text/html"
            } else if str_eq(ext, "css") {
                "text/css"
            } else if str_eq(ext, "wasm") {
                "application/wasm"
            } else {
                "text/plain"
            }
        },
    }
}

/// The file under the asset root that a request path names: `/` names
/// `index.html`, any other path names itself without its leading separator.
pub open spec fn spec_asset_rel_path(p: Seq<char>) -> Seq<char> {
    if p == "/"@ {
        "index.html"@
    } else {
        p.skip(1)
    }
}

/// The path under the asset root for a request path. Request paths always
/// start with a separator, so they are never empty.
pub fn asset_rel_path(path: &str) -> (r: String)
    requires
        path@.len() >= 1,
    ensures
        r@ == spec_asset_rel_path(path@),
{
    if str_eq(path, "/") {
        String::from_str("index.html")
    } else {
        let n = path.unicode_len();
        let tail = path.substring_char(1, n);
        proof {
            assert(path@.subrange(1, n as int) =~= path@.skip(1));
        }
        String::from_str(tail)
    }
}

/// The response for a static-asset request: the file's bytes under the
/// content type of its name when the read succeeded, a plain-text 404
/// otherwise.
pub open spec fn spec_asset_response(path: Seq<char>, contents: Option<Seq<u8>>) -> ResponseView {
    match contents {
        Some(b) => ResponseView {
            status: 200,
            content_type: spec_mime_type(path),
            body: BodyView::Bytes(b),
        },
        None => ResponseView {
            status: 404,
            content_type: "text/plain"@,
            body: BodyView::Text("Not Found"@),
        },
    }
}

/// Builds the response for a static-asset request, from the resolved file
/// name and the outcome of reading it.
pub fn asset_response(path: &str, contents: Option<Vec<u8>>) -> (r: Response)
    ensures
        r@ == spec_asset_response(
            path@,
            match contents {
                Some(b) => Some(b@),
                None => None,
            },
        ),
{
    match contents {
        Some(bytes) => {
            let mime = get_mime_type(path);
            Response {
                status: 200,
                content_type: String::from_str(mime),
                body: ResponseBody::Bytes(bytes),
            }
        },
        None => Response {
            status: 404,
            content_type: String::from_str("text/plain"),
            body: ResponseBody::Text(String::from_str("Not Found")),
        },
    }
}

/// The `state` member of the JSON object in a request body, when the body is
/// valid JSON holding an object whose `state` member is a string; a function
/// of the bytes alone.
pub uninterp spec fn state_field_of(body: Seq<u8>) -> Option<Seq<char>>;

/// Relies on `serde_json::from_slice`, `serde_json::Value::get` and
/// `serde_json::Value::as_str`: returns the string under the `state` key of
/// the JSON object in `body`, and `None` when the body is not valid JSON,
/// not an object, lacks that key, or holds a non-string under it. The result
/// depends on the bytes alone.
#[verifier::external_body]
fn extract_state_field(body: &[u8]) -> (r: Option<String>)
    ensures
        match r {
            Some(s) => state_field_of(body@) == Some(s@),
            None => state_field_of(body@) is None,
        },
{
    match serde_json::from_slice::<serde_json::Value>(body) {
        Ok(value) => match value.get("state") {
            Some(field) => field.as_str().map(|s| s.to_string()),
            None => None,
        },
        Err(_) => None,
    }
}

/// The state a `POST /api/blocking` body directs, if any: its `state` member
/// must be exactly `Enabled` or `Disabled`.
pub open spec fn spec_post_state(field: Option<Seq<char>>) -> Option<BlockingState> {
    match field {
        Some(n) => spec_state_from_name(n),
        None => None,
    }
}

/// An API response: JSON content type and the given status and body text.
pub open spec fn spec_api_json(status: u16, body: Seq<char>) -> ResponseView {
    ResponseView { status, content_type: "application/json"@, body: BodyView::Text(body) }
}

/// The routing contract of the API surface: what every request under `/api/`
/// answers, and the store change it directs. `field` is the `state` member
/// of the request body, `blocking` the store's current value.
pub open spec fn spec_handle_api(
    method: Method,
    path: Seq<char>,
    field: Option<Seq<char>>,
    stats: StatsView,
    blocking: BlockingState,
) -> (ResponseView, Option<BlockingState>) {
    if method == Method::Get && path == "/api/statistics"@ {
        (spec_api_json(200, spec_stats_json(stats)), None)
    } else if method == Method::Get && path == "/api/blocking"@ {
        (spec_api_json(200, spec_blocking_json(blocking)), None)
    } else if method == Method::Post && path == "/api/blocking"@ {
        match spec_post_state(field) {
            Some(s) => (spec_api_json(200, spec_blocking_json(s)), Some(s)),
            None => (spec_api_json(400, "{}"@), None),
        }
    } else {
        (spec_api_json(404, "{\"status\":404,\"message\":\"Not Found\"}"@), None)
    }
}

/// An API response carrying `body` as JSON.
fn api_json_response(status: u16, body: String) -> (r: Response)
    ensures
        r@ == spec_api_json(status, body@),
{
    Response {
        status,
        content_type: String::from_str("application/json"),
        body: ResponseBody::Text(body),
    }
}

/// Answers one API request. `blocking` is the store's current value; the
/// second component of the result is the value the caller must write to the
/// store, when the request directs a change.
pub fn handle_api_request(
    method: Method,
    path: &str,
    body: &[u8],
    statistics: &Statistics,
    blocking: BlockingState,
) -> (r: (Response, Option<BlockingState>))
    ensures
        (r.0@, r.1) == spec_handle_api(method, path@, state_field_of(body@), statistics@, blocking),
{
    if method == Method::Get && str_eq(path, "/api/statistics") {
        (api_json_response(200, statistics_to_json(statistics)), None)
    } else if method == Method::Get && str_eq(path, "/api/blocking") {
        (api_json_response(200, blocking_state_json(blocking)), None)
    } else if method == Method::Post && str_eq(path, "/api/blocking") {
        let field = extract_state_field(body);
        match field {
            Some(name) => match state_from_name(name.as_str()) {
                Some(s) => (api_json_response(200, blocking_state_json(s)), Some(s)),
                None => (api_json_response(400, String::from_str("{}")), None),
            },
            None => (api_json_response(400, String::from_str("{}")), None),
        }
    } else {
        (
            api_json_response(404, String::from_str("{\"status\":404,\"message\":\"Not Found\"}")),
            None,
        )
    }
}

/// Write-then-read consistency: a `POST /api/blocking` carrying a valid
/// state answers 200 echoing that state and directs the store to it, and a
/// following `GET /api/blocking` against the updated store reports exactly
/// that state, whatever else happened in between to the statistics.
pub proof fn lemma_blocking_write_then_read(
    body_field: Option<Seq<char>>,
    v: BlockingState,
    stats_at_post: StatsView,
    stats_at_get: StatsView,
    before: BlockingState,
    get_field: Option<Seq<char>>,
)
    requires
        spec_post_state(body_field) == Some(v),
    ensures
        ({
            let (post_resp, action) = spec_handle_api(
                Method::Post,
                "/api/blocking"@,
                body_field,
                stats_at_post,
                before,
            );
            let (get_resp, get_action) = spec_handle_api(
                Method::Get,
                "/api/blocking"@,
                get_field,
                stats_at_get,
                v,
            );
            &&& post_resp.status == 200
            &&& post_resp.body == BodyView::Text(spec_blocking_json(v))
            &&& action == Some(v)
            &&& get_resp.status == 200
            &&& get_resp.body == BodyView::Text(spec_blocking_json(v))
            &&& get_action is None
        }),
{
    reveal_strlit("/api/blocking");
    reveal_strlit("/api/statistics");
    assert("/api/blocking"@.len() == 13);
    assert("/api/statistics"@.len() == 15);
}

/// A `POST /api/blocking` whose body does not name a valid state answers 400
/// with an empty JSON object and directs no store change.
pub proof fn lemma_invalid_post_preserves_state(
    body_field: Option<Seq<char>>,
    stats: StatsView,
    blocking: BlockingState,
)
    requires
        spec_post_state(body_field) is None,
    ensures
        ({
            let (resp, action) = spec_handle_api(
                Method::Post,
                "/api/blocking"@,
                body_field,
                stats,
                blocking,
            );
            &&& resp.status == 400
            &&& resp.body == BodyView::Text("{}"@)
            &&& action is None
        }),
{
    reveal_strlit("/api/blocking");
    reveal_strlit("/api/statistics");
    assert("/api/blocking"@.len() == 13);
    assert("/api/statistics"@.len() == 15);
}

} // verus!
