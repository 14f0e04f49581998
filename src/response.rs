use vstd::prelude::*;

use crate::fields::{has_name, set_entry, Entry, Fields};
use crate::request::{method_name, Body, BodyModel, Method};
use crate::text::{json_text, json_text_of};

verus! {

/// The status of a response.
#[derive(Clone, Copy, Debug, PartialEq, Eq, Structural)]
pub enum StatusCode {
    /// 200 OK
    Success,
    /// 404 Not Found
    NotFound,
    /// 400 Bad Request
    BadRequest,
    /// 405 Method Not Allowed
    MethodNotAllowed,
}

/// The text of a status line after the protocol version.
pub open spec fn status_text(c: StatusCode) -> Seq<char> {
    match c {
        StatusCode::Success => "200 OK"@,
        StatusCode::NotFound => "404 Not Found"@,
        StatusCode::BadRequest => "400 Bad Request"@,
        StatusCode::MethodNotAllowed => "405 Method Not Allowed"@,
    }
}

impl StatusCode {
    /// The code and reason phrase, as in `404 Not Found`.
    pub fn as_str(&self) -> (r: &'static str)
        ensures
            r@ == status_text(*self),
    {
        match self {
            StatusCode::Success => "200 OK",
            StatusCode::NotFound => "404 Not Found",
            StatusCode::BadRequest => "400 Bad Request",
            StatusCode::MethodNotAllowed => "405 Method Not Allowed",
        }
    }
}

/// A response as the contracts see it.
pub struct ResponseModel {
    pub status: StatusCode,
    pub headers: Seq<Entry>,
    pub body: BodyModel,
}

/// An HTTP/1.1 response.
#[derive(Clone, Debug)]
pub struct Response {
    /// The status.
    pub status_code: StatusCode,
    /// The headers.
    pub headers: Fields,
    /// The body.
    pub body: Body,
}

impl View for Response {
    type V = ResponseModel;

    open spec fn view(&self) -> ResponseModel {
        ResponseModel { status: self.status_code, headers: self.headers@, body: self.body@ }
    }
}

/// A 200 response with a `Content-Type` of `text/plain` and the given text.
pub open spec fn text_model(s: Seq<char>) -> ResponseModel {
    ResponseModel {
        status: StatusCode::Success,
        headers: seq![("Content-Type"@, "text/plain"@)],
        body: BodyModel::Text(s),
    }
}

/// The response that `not_found` builds.
pub open spec fn not_found_model() -> ResponseModel {
    ResponseModel { status: StatusCode::NotFound, ..text_model("Not Found"@) }
}

/// The response that `invalid_request` builds.
pub open spec fn invalid_request_model() -> ResponseModel {
    ResponseModel { status: StatusCode::BadRequest, ..text_model("Invalid Request"@) }
}

/// The single method `m` where `ms` holds it, else nothing.
pub open spec fn if_present(ms: Seq<Method>, m: Method) -> Seq<Method> {
    if ms.contains(m) {
        seq![m]
    } else {
        Seq::empty()
    }
}

/// The distinct methods of a list, each once, in alphabetical order of their
/// names (DELETE, GET, HEAD, POST, PUT).
pub open spec fn name_order(ms: Seq<Method>) -> Seq<Method> {
    if_present(ms, Method::Delete) + if_present(ms, Method::Get) + if_present(ms, Method::Head)
        + if_present(ms, Method::Post) + if_present(ms, Method::Put)
}

/// Appending one method to a list adds its name after a comma, or alone.
proof fn lemma_joined_push(order: Seq<Method>, m: Method)
    ensures
        joined_names(order.push(m)) == if order.len() == 0 {
            method_name(m)
        } else {
            joined_names(order) + ", "@ + method_name(m)
        },
{
    assert(order.push(m).drop_last() =~= order);
}

/// Whether a list of methods holds `m`.
pub(crate) fn contains_method(ms: &[Method], m: Method) -> (r: bool)
    ensures
        r == ms@.contains(m),
{
    let mut i: usize = 0;
    while i < ms.len()
        invariant
            i <= ms@.len(),
            forall|j: int| 0 <= j < i ==> ms@[j] != m,
        decreases ms@.len() - i,
    {
        if ms[i] == m {
            return true;
        }
        i = i + 1;
    }
    false
}

/// Appends the name of `m`, where `methods` holds it, to a list of names
/// joined with commas.
fn append_if_present(
    out: &mut String,
    started: &mut bool,
    Ghost(order): Ghost<Seq<Method>>,
    methods: &[Method],
    m: Method,
)
    requires
        old(out)@ == joined_names(order),
        *old(started) == (order.len() > 0),
    ensures
        final(out)@ == joined_names(order + if_present(methods@, m)),
        *final(started) == ((order + if_present(methods@, m)).len() > 0),
{
    if contains_method(methods, m) {
        proof {
            lemma_joined_push(order, m);
            assert(order + seq![m] =~= order.push(m));
        }
        if *started {
            out.append(", ");
        }
        out.append(m.name());
        *started = true;
    } else {
        assert(order + Seq::<Method>::empty() =~= order);
    }
}

/// The value of the `Allow` header: the distinct method names in alphabetical
/// order, joined with `", "`.
pub fn allow_value(methods: &[Method]) -> (r: String)
    ensures
        r@ == allow_text(methods@),
{
    let mut out = String::new();
    let mut started = false;
    let ghost s = methods@;
    let ghost d = if_present(s, Method::Delete);
    let ghost g = if_present(s, Method::Get);
    let ghost h = if_present(s, Method::Head);
    let ghost p = if_present(s, Method::Post);
    append_if_present(&mut out, &mut started, Ghost(Seq::empty()), methods, Method::Delete);
    assert(Seq::<Method>::empty() + d =~= d);
    append_if_present(&mut out, &mut started, Ghost(d), methods, Method::Get);
    append_if_present(&mut out, &mut started, Ghost(d + g), methods, Method::Head);
    append_if_present(&mut out, &mut started, Ghost(d + g + h), methods, Method::Post);
    append_if_present(&mut out, &mut started, Ghost(d + g + h + p), methods, Method::Put);
    out
}

/// Method names joined with `", "`.
pub open spec fn joined_names(ms: Seq<Method>) -> Seq<char>
    decreases ms.len(),
{
    if ms.len() == 0 {
        Seq::empty()
    } else if ms.len() == 1 {
        method_name(ms[0])
    } else {
        joined_names(ms.drop_last()) + ", "@ + method_name(ms.last())
    }
}

/// The value of the `Allow` header for a list of methods.
pub open spec fn allow_text(ms: Seq<Method>) -> Seq<char> {
    joined_names(name_order(ms))
}

/// The response that `method_not_allowed` builds.
pub open spec fn method_not_allowed_model(ms: Seq<Method>) -> ResponseModel {
    ResponseModel {
        status: StatusCode::MethodNotAllowed,
        headers: seq![("Content-Type"@, "text/plain"@), ("Allow"@, allow_text(ms))],
        body: BodyModel::Text("Method Not Allowed"@),
    }
}

/// The header lines of a list of entries.
pub open spec fn header_lines(h: Seq<Entry>) -> Seq<char>
    decreases h.len(),
{
    if h.len() == 0 {
        Seq::empty()
    } else {
        header_lines(h.drop_last()) + h.last().0 + ": "@ + h.last().1 + "\r\n"@
    }
}

/// The text of a body on the wire.
pub open spec fn body_text(b: BodyModel) -> Seq<char> {
    match b {
        BodyModel::Empty => Seq::empty(),
        BodyModel::Text(s) => s,
        BodyModel::Json(v) => json_text_of(v),
    }
}

/// The wire form of a response: status line, one line per header, a blank
/// line, then the body.
pub open spec fn wire(r: ResponseModel) -> Seq<char> {
    "HTTP/1.1 "@ + status_text(r.status) + "\r\n"@ + header_lines(r.headers) + "\r\n"@
        + body_text(r.body)
}

/// Writes a body as text.
pub fn body_string(b: &Body) -> (r: String)
    ensures
        r@ == body_text(b@),
{
    match b {
        Body::Empty => String::new(),
        Body::Text(s) => s.clone(),
        Body::Json(v) => json_text(v),
    }
}

/// Copies a body.
fn copy_body(b: &Body) -> (r: Body)
    ensures
        r@ == b@,
{
    match b {
        Body::Empty => Body::Empty,
        Body::Text(s) => Body::Text(s.clone()),
        Body::Json(v) => Body::Json(v.clone()),
    }
}

impl Response {
    /// A copy that owns its own data.
    fn copy(&self) -> (r: Response)
        ensures
            r@ == self@,
    {
        let headers = self.headers.duplicate();
        Response { status_code: self.status_code, headers, body: copy_body(&self.body) }
    }

    /// An empty 200 response with no headers.
    pub fn ok() -> (r: Response)
        ensures
            r@ == (ResponseModel {
                status: StatusCode::Success,
                headers: Seq::empty(),
                body: BodyModel::Empty,
            }),
    {
        Response { status_code: StatusCode::Success, headers: Fields::new(), body: Body::Empty }
    }

    /// A 200 text response with a `Content-Type` of `text/plain`.
    pub fn text(body: &str) -> (r: Response)
        ensures
            r@ == text_model(body@),
    {
        let mut r = Response::ok();
        let _ = r.header("Content-Type", "text/plain");
        let _ = r.body(Body::Text(String::from_str(body)));
        assert(r.headers@ =~= seq![("Content-Type"@, "text/plain"@)]);
        r
    }

    /// A 200 JSON response with a `Content-Type` of `application/json`.
    pub fn json(body: &serde_json::Value) -> (r: Response)
        ensures
            r@ == (ResponseModel {
                status: StatusCode::Success,
                headers: seq![("Content-Type"@, "application/json"@)],
                body: BodyModel::Json(*body),
            }),
    {
        let mut r = Response::ok();
        let _ = r.header("Content-Type", "application/json");
        let _ = r.body(Body::Json(body.clone()));
        assert(r.headers@ =~= seq![("Content-Type"@, "application/json"@)]);
        r
    }

    /// A 404 text response reading `Not Found`.
    pub fn not_found() -> (r: Response)
        ensures
            r@ == not_found_model(),
    {
        let mut r = Response::text("Not Found");
        let _ = r.status(StatusCode::NotFound);
        r
    }

    /// A 400 text response reading `Invalid Request`.
    pub fn invalid_request() -> (r: Response)
        ensures
            r@ == invalid_request_model(),
    {
        let mut r = Response::text("Invalid Request");
        let _ = r.status(StatusCode::BadRequest);
        r
    }

    /// A 405 text response reading `Method Not Allowed`, whose `Allow` header
    /// lists the distinct names of `methods`, each once, in alphabetical order.
    pub fn method_not_allowed(methods: &[Method]) -> (r: Response)
        ensures
            r@ == method_not_allowed_model(methods@),
    {
        let allow = allow_value(methods);
        let mut r = Response::text("Method Not Allowed");
        let _ = r.status(StatusCode::MethodNotAllowed);
        proof {
            reveal_strlit("Allow");
            reveal_strlit("Content-Type");
            assert("Allow"@.len() != "Content-Type"@.len());
            assert(!has_name(r.headers@, "Allow"@));
        }
        let _ = r.header("Allow", allow.as_str());
        assert(r.headers@ =~= seq![
            ("Content-Type"@, "text/plain"@),
            ("Allow"@, allow_text(methods@)),
        ]);
        r
    }

    /// Sets the status; returns a copy of the result.
    pub fn status(&mut self, code: StatusCode) -> (r: Response)
        ensures
            final(self)@ == (ResponseModel { status: code, ..old(self)@ }),
            r@ == final(self)@,
    {
        self.status_code = code;
        self.copy()
    }

    /// Sets a header, replacing a value of the same name; returns a copy of
    /// the result.
    pub fn header(&mut self, name: &str, value: &str) -> (r: Response)
        ensures
            final(self)@ == (ResponseModel {
                headers: set_entry(old(self)@.headers, name@, value@),
                ..old(self)@
            }),
            r@ == final(self)@,
    {
        self.headers.insert(String::from_str(name), String::from_str(value));
        self.copy()
    }

    /// Sets the body; returns a copy of the result.
    pub fn body(&mut self, body: Body) -> (r: Response)
        ensures
            final(self)@ == (ResponseModel { body: body@, ..old(self)@ }),
            r@ == final(self)@,
    {
        self.body = body;
        self.copy()
    }

    /// The wire form of the response.
    pub fn to_string(&self) -> (r: String)
        ensures
            r@ == wire(self@),
    {
        let mut out = String::from_str("HTTP/1.1 ");
        out.append(self.status_code.as_str());
        out.append("\r\n");
        push_headers(&mut out, &self.headers);
        out.append("\r\n");
        let b = body_string(&self.body);
        out.append(b.as_str());
        assert(out@ =~= wire(self@));
        out
    }
}

/// Appends one line per header.
pub fn push_headers(out: &mut String, headers: &Fields)
    ensures
        final(out)@ == old(out)@ + header_lines(headers@),
{
    let mut i: usize = 0;
    while i < headers.len()
        invariant
            i <= headers@.len(),
            out@ == old(out)@ + header_lines(headers@.subrange(0, i as int)),
        decreases headers@.len() - i,
    {
        let (n, v) = headers.entry(i);
        out.append(n.as_str());
        out.append(": ");
        out.append(v.as_str());
        out.append("\r\n");
        proof {
            let h = headers@;
            assert(h.subrange(0, i + 1).drop_last() =~= h.subrange(0, i as int));
            assert(header_lines(Seq::<Entry>::empty()) =~= Seq::<char>::empty());
        }
        i = i + 1;
    }
    proof {
        assert(headers@.subrange(0, headers@.len() as int) =~= headers@);
    }
}

} // verus!
