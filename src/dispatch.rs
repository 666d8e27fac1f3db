//! Turning a connection's request into the response written back: the fixed
//! route table, the standard headers, and the JSON replies of the echo route.
use vstd::prelude::*;
use vstd::utf8::encode_utf8;
use crate::header::{Header, Headers};
use vstd::utf8::decode_utf8;
use crate::method::method_named;
use crate::request::{bare_request, headers_view, is_token, lemma_bare_request_parses, parse, parse_request, Request, RequestView};
use crate::response::{wire_form, Response};
use crate::status::Status;
use crate::text::{decimal, decimal_string, same_text};

verus! {

/// Where a request path leads.
#[derive(Debug, Clone, Copy, PartialEq, Eq, Structural)]
pub enum Route {
    Test,
    Post,
    Index,
    Missing,
}

/// The page contents that the routes serve.
pub struct Pages {
    pub index: String,
    pub not_found: String,
}

/// The route for a path; paths are matched exactly.
pub open spec fn route_for(path: Seq<char>) -> Route {
    if path == "/test"@ {
        Route::Test
    } else if path == "/post"@ {
        Route::Post
    } else if path == "/"@ {
        Route::Index
    } else {
        Route::Missing
    }
}

pub fn route_of(path: &str) -> (r: Route)
    ensures
        r == route_for(path@),
{
    if same_text(path, "/test") {
        Route::Test
    } else if same_text(path, "/post") {
        Route::Post
    } else if same_text(path, "/") {
        Route::Index
    } else {
        Route::Missing
    }
}

/// The name by which the server introduces itself.
pub open spec fn server_name() -> Seq<char> {
    "github.com/jorismertz/shitty-rust-http-server"@
}

/// The headers every response carries: the date, the caching policy and the server.
pub open spec fn base_headers_view(date: Seq<char>) -> Seq<(Seq<char>, Seq<char>)> {
    seq![
        (Header::Date.wire_name(), date),
        (Header::CacheControl.wire_name(), "public, max-age=3600"@),
        (Header::Server.wire_name(), server_name()),
    ]
}

pub fn base_headers(date: &str) -> (r: Headers)
    ensures
        headers_view(r@) == base_headers_view(date@),
{
    let mut hs: Headers = Vec::new();
    hs.push(Header::Date.new(date));
    hs.push(Header::CacheControl.new("public, max-age=3600"));
    hs.push(Header::Server.new("github.com/jorismertz/shitty-rust-http-server"));
    assert(headers_view(hs@) =~= base_headers_view(date@));
    hs
}

/// The Content-Length value of a text: its length in UTF-8 bytes.
pub open spec fn length_of(content: Seq<char>) -> Seq<char> {
    decimal(encode_utf8(content).len())
}

/// The headers of an HTML page: the base headers, its type and its length.
pub open spec fn page_headers_view(date: Seq<char>, content: Seq<char>) -> Seq<(Seq<char>, Seq<char>)> {
    base_headers_view(date) + seq![
        (Header::ContentType.wire_name(), "text/html;charset=utf-8"@),
        (Header::ContentLength.wire_name(), length_of(content)),
    ]
}

/// An HTML page with the given status.
pub open spec fn page_reply(status: Status, date: Seq<char>, content: Seq<char>) -> Seq<char> {
    wire_form(status, page_headers_view(date, content), Some(content))
}

/// A page that carries only its length as a header.
pub open spec fn bare_page_reply(content: Seq<char>) -> Seq<char> {
    wire_form(Status::Okay, seq![(Header::ContentLength.wire_name(), length_of(content))], Some(content))
}

/// The answer to a request that could not be read.
pub open spec fn bad_request_reply(date: Seq<char>) -> Seq<char> {
    wire_form(
        Status::BadRequest,
        base_headers_view(date) + seq![(Header::ContentLength.wire_name(), "0"@)],
        Some(Seq::empty()),
    )
}

/// What the JSON library writes for a string: the quoted, escaped literal.
pub uninterp spec fn json_string_of(s: Seq<char>) -> Seq<char>;

/// The string under `key` of the JSON object in `body`, where `body` is a
/// JSON object that holds a string there.
pub uninterp spec fn str_field_of(body: Seq<u8>, key: Seq<char>) -> Option<Seq<char>>;

/// The `message` string of the JSON object in `body`.
pub open spec fn message_of(body: Seq<u8>) -> Option<Seq<char>> {
    str_field_of(body, "message"@)
}

/// `{"ok":<ok>,"result":<text as a JSON string>}`.
pub open spec fn json_reply(ok: bool, text: Seq<char>) -> Seq<char> {
    "{\"ok\":"@ + (if ok {
        "true"@
    } else {
        "false"@
    }) + ",\"result\":"@ + json_string_of(text) + "}"@
}

/// The text of the echo route's reply to `message`.
pub open spec fn echo_text(message: Seq<char>) -> Seq<char> {
    "You said "@ + message
}

/// The text of the echo route's reply to a body it cannot read.
pub open spec fn refusal_text() -> Seq<char> {
    "That wont work"@
}

/// The echo route's answer, given what the body's `message` is.
pub open spec fn echo_reply(date: Seq<char>, message: Option<Seq<char>>) -> Seq<char> {
    match message {
        Some(m) => wire_form(
            Status::Okay,
            base_headers_view(date) + seq![(Header::AccessControlAllowOrigin.wire_name(), "*"@)],
            Some(json_reply(true, echo_text(m))),
        ),
        None => wire_form(Status::Okay, base_headers_view(date), Some(json_reply(false, refusal_text()))),
    }
}

/// The answer to a request, given the `message` read from its body (which
/// only the echo route looks at).
pub open spec fn reply(req: RequestView, message: Option<Seq<char>>, date: Seq<char>, index: Seq<char>, not_found: Seq<char>) -> Seq<char> {
    match route_for(req.path) {
        Route::Test => wire_form(
            Status::Okay,
            base_headers_view(date) + seq![
                (Header::ContentType.wire_name(), "text/html;charset=utf-8"@),
                (Header::ContentLength.wire_name(), "5"@),
            ],
            Some("hello"@),
        ),
        Route::Post => match req.body {
            Some(_) => echo_reply(date, message),
            None => bare_page_reply(index),
        },
        Route::Index => page_reply(Status::Okay, date, index),
        Route::Missing => page_reply(Status::NotFound, date, not_found),
    }
}

/// The `message` that the echo route reads from a request's body.
pub open spec fn request_message(req: RequestView) -> Option<Seq<char>> {
    match req.body {
        Some(b) => message_of(b),
        None => None,
    }
}

/// The answer to the bytes a connection sent: a request that cannot be read
/// gets a Bad Request answer.
pub open spec fn connection_reply(input: Seq<u8>, date: Seq<char>, index: Seq<char>, not_found: Seq<char>) -> Seq<char> {
    match parse(input) {
        Some(q) => reply(q, request_message(q), date, index, not_found),
        None => bad_request_reply(date),
    }
}

/// A reply body: whether the request succeeded, and its result or error.
pub struct ResponseResult<T, E> {
    pub ok: bool,
    pub result: Result<T, E>,
}

impl<'a> ResponseResult<&'a str, &'a str> {
    /// The text of the result or of the error.
    pub open spec fn text(&self) -> Seq<char> {
        match self.result {
            Ok(t) => t@,
            Err(e) => e@,
        }
    }

    /// The JSON object `{"ok":..,"result":".."}`, the result or the error
    /// written as a plain JSON string.
    pub fn to_json(&self) -> (r: String)
        ensures
            r@ == json_reply(self.ok, self.text()),
    {
        let text = match self.result {
            Ok(t) => t,
            Err(e) => e,
        };
        let mut out = String::from_str("{\"ok\":");
        if self.ok {
            out.append("true");
        } else {
            out.append("false");
        }
        out.append(",\"result\":");
        let quoted = json_string(text);
        out.append(quoted.as_str());
        out.append("}");
        out
    }
}

/// Relies on `serde_json::to_string` for a `str`: the JSON string literal
/// for `s`. Serialising a string does not fail.
#[verifier::external_body]
fn json_string(s: &str) -> (r: String)
    ensures
        r@ == json_string_of(s@),
{
    match serde_json::to_string(s) {
        Ok(t) => t,
        Err(_) => String::new(),
    }
}

/// Relies on `serde_json::from_slice` (into a JSON value), `Value::get` and
/// `Value::as_str`: the string under `key` where `body` is a JSON object
/// that holds a string there.
#[verifier::external_body]
fn json_str_field(body: &[u8], key: &str) -> (r: Option<String>)
    ensures
        match r {
            Some(m) => str_field_of(body@, key@) == Some(m@),
            None => str_field_of(body@, key@).is_none(),
        },
{
    let v: serde_json::Value = match serde_json::from_slice(body) {
        Ok(v) => v,
        Err(_) => return None,
    };
    v.get(key).and_then(|m| m.as_str()).map(|m| m.to_string())
}

/// The `message` string of the JSON object in `body`.
pub fn json_message(body: &[u8]) -> (r: Option<String>)
    ensures
        match r {
            Some(m) => message_of(body@) == Some(m@),
            None => message_of(body@).is_none(),
        },
{
    json_str_field(body, "message")
}

/// A text that can stand inside one header line.
pub open spec fn single_line(s: Seq<char>) -> bool {
    forall|i: int| 0 <= i < s.len() ==> #[trigger] s[i] != '\r' && s[i] != '\n'
}

/// Relies on `chrono::Utc::now` and `DateTime::to_rfc2822`: the current time
/// as an RFC 2822 date, written with day and month names, digits, spaces,
/// commas, colons and a signed offset, so on one line.
#[verifier::external_body]
fn now_rfc2822() -> (r: String)
    ensures
        single_line(r@),
{
    chrono::Utc::now().to_rfc2822()
}

/// An HTML page with its type and length, after the base headers.
pub fn page_response(status: &Status, date: &str, content: &str) -> (r: String)
    ensures
        r@ == page_reply(*status, date@, content@),
{
    let mut hs = base_headers(date);
    let length = decimal_string(content.as_bytes().len());
    hs.push(Header::ContentType.new("text/html;charset=utf-8"));
    hs.push(Header::ContentLength.new(length.as_str()));
    assert(headers_view(hs@) =~= page_headers_view(date@, content@));
    Response::new(status, Some(content), &hs).to_string()
}

/// The echo route's answer, given the `message` read from the body.
pub fn echo_response(date: &str, message: Option<&str>) -> (r: String)
    ensures
        r@ == echo_reply(
            date@,
            match message {
                Some(m) => Some(m@),
                None => None,
            },
        ),
{
    let mut hs = base_headers(date);
    match message {
        Some(m) => {
            let mut text = String::from_str("You said ");
            text.append(m);
            let body = ResponseResult { ok: true, result: Ok(text.as_str()) };
            let json = body.to_json();
            hs.push(Header::AccessControlAllowOrigin.new("*"));
            assert(headers_view(hs@) =~= base_headers_view(date@) + seq![
                (Header::AccessControlAllowOrigin.wire_name(), "*"@),
            ]);
            Response::new(&Status::Okay, Some(json.as_str()), &hs).to_string()
        },
        None => {
            let body: ResponseResult<&str, &str> = ResponseResult { ok: false, result: Err("That wont work") };
            let json = body.to_json();
            Response::new(&Status::Okay, Some(json.as_str()), &hs).to_string()
        },
    }
}

/// The answer to `req`, given the `message` read from its body.
pub fn respond_with(req: &Request, message: Option<&str>, date: &str, pages: &Pages) -> (r: String)
    ensures
        r@ == reply(
            req@,
            match message {
                Some(m) => Some(m@),
                None => None,
            },
            date@,
            pages.index@,
            pages.not_found@,
        ),
{
    match route_of(req.path.as_str()) {
        Route::Test => {
            let mut hs = base_headers(date);
            hs.push(Header::ContentType.new("text/html;charset=utf-8"));
            hs.push(Header::ContentLength.new("5"));
            assert(headers_view(hs@) =~= base_headers_view(date@) + seq![
                (Header::ContentType.wire_name(), "text/html;charset=utf-8"@),
                (Header::ContentLength.wire_name(), "5"@),
            ]);
            Response::new(&Status::Okay, Some("hello"), &hs).to_string()
        },
        Route::Post => match &req.body {
            Some(_) => echo_response(date, message),
            None => {
                let mut hs: Headers = Vec::new();
                let length = decimal_string(pages.index.as_str().as_bytes().len());
                hs.push(Header::ContentLength.new(length.as_str()));
                assert(headers_view(hs@) =~= seq![
                    (Header::ContentLength.wire_name(), length_of(pages.index@)),
                ]);
                Response::new(&Status::Okay, Some(pages.index.as_str()), &hs).to_string()
            },
        },
        Route::Index => page_response(&Status::Okay, date, pages.index.as_str()),
        Route::Missing => page_response(&Status::NotFound, date, pages.not_found.as_str()),
    }
}

/// The answer to `req`; the echo route reads the `message` of a JSON body.
pub fn respond(req: &Request, date: &str, pages: &Pages) -> (r: String)
    ensures
        r@ == reply(req@, request_message(req@), date@, pages.index@, pages.not_found@),
{
    let message = match &req.body {
        Some(b) => json_message(b.as_slice()),
        None => None,
    };
    match message {
        Some(m) => respond_with(req, Some(m.as_str()), date, pages),
        None => respond_with(req, None, date, pages),
    }
}

/// The answer to the bytes a connection sent, dated `date`.
pub fn handle_request(input: &[u8], date: &str, pages: &Pages) -> (r: String)
    ensures
        r@ == connection_reply(input@, date@, pages.index@, pages.not_found@),
{
    match parse_request(input) {
        Some(req) => respond(&req, date, pages),
        None => {
            let mut hs = base_headers(date);
            hs.push(Header::ContentLength.new("0"));
            assert(headers_view(hs@) =~= base_headers_view(date@) + seq![
                (Header::ContentLength.wire_name(), "0"@),
            ]);
            let r = Response::new(&Status::BadRequest, Some(""), &hs).to_string();
            assert(""@ =~= Seq::<char>::empty()) by {
                reveal_strlit("");
            }
            r
        },
    }
}

/// The answer to the bytes a connection sent, dated now.
pub fn handle_connection(input: &[u8], pages: &Pages) -> (r: String)
    ensures
        exists|date: Seq<char>|
            single_line(date) && r@ == #[trigger] connection_reply(input@, date, pages.index@, pages.not_found@),
{
    let date = now_rfc2822();
    let r = handle_request(input, date.as_str(), pages);
    assert(r@ == connection_reply(input@, date@, pages.index@, pages.not_found@));
    r
}

/// A request line with nothing after it is answered from the route table:
/// the path `/` gets the index page with status 200 and its length, and a path
/// outside the table gets the not-found page with status 404 and its length.
pub proof fn lemma_page_routes(
    method: Seq<u8>,
    path: Seq<u8>,
    version: Seq<u8>,
    date: Seq<char>,
    index: Seq<char>,
    not_found: Seq<char>,
)
    requires
        is_token(method),
        is_token(path),
        is_token(version),
        method.len() > 0,
        method_named(decode_utf8(method)).is_some(),
    ensures
        decode_utf8(path) == "/"@ ==> connection_reply(bare_request(method, path, version), date, index, not_found)
            == page_reply(Status::Okay, date, index),
        route_for(decode_utf8(path)) == Route::Missing ==> connection_reply(
            bare_request(method, path, version),
            date,
            index,
            not_found,
        ) == page_reply(Status::NotFound, date, not_found),
{
    lemma_bare_request_parses(method, path, version, method_named(decode_utf8(method)).unwrap());
    reveal_strlit("/");
    reveal_strlit("/test");
    reveal_strlit("/post");
    assert("/"@ != "/test"@ && "/"@ != "/post"@) by {
        assert("/"@.len() != "/test"@.len());
        assert("/"@.len() != "/post"@.len());
    }
}

} // verus!
