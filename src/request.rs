use vstd::prelude::*;

use crate::fields::{from_pairs, lookup, Entry, Fields};
use crate::response::{body_string, body_text, header_lines, push_headers};
use crate::text::{
    all_ascii, ascii_chars, is_white_space, lemma_trim_keeps, AMP, COLON, CR, EQUALS, LF, QUESTION, SP,
    find_byte, first_at, json_of, parse_json, parse_usize, str_is, text_at, text_of, usize_of,
};

verus! {

/// The HTTP method of a request.
#[derive(Clone, Copy, Debug, PartialEq, Eq, Hash, Structural)]
pub enum Method {
    /// HEAD
    Head,
    /// GET
    Get,
    /// POST
    Post,
    /// PUT
    Put,
    /// DELETE
    Delete,
}

/// The canonical upper-case name of a method.
pub open spec fn method_name(m: Method) -> Seq<char> {
    match m {
        Method::Head => "HEAD"@,
        Method::Get => "GET"@,
        Method::Post => "POST"@,
        Method::Put => "PUT"@,
        Method::Delete => "DELETE"@,
    }
}

/// The method that a request-line token names, if any.
pub open spec fn method_of(tok: Seq<u8>) -> Option<Method> {
    if tok == seq![72u8, 69, 65, 68] {
        Some(Method::Head)
    } else if tok == seq![71u8, 69, 84] {
        Some(Method::Get)
    } else if tok == seq![80u8, 79, 83, 84] {
        Some(Method::Post)
    } else if tok == seq![80u8, 85, 84] {
        Some(Method::Put)
    } else if tok == seq![68u8, 69, 76, 69, 84, 69] {
        Some(Method::Delete)
    } else {
        None
    }
}

impl Method {
    /// The canonical upper-case name.
    pub fn name(&self) -> (r: &'static str)
        ensures
            r@ == method_name(*self),
    {
        match self {
            Method::Head => "HEAD",
            Method::Get => "GET",
            Method::Post => "POST",
            Method::Put => "PUT",
            Method::Delete => "DELETE",
        }
    }

    /// The method named by a token; an unknown token gives `None`.
    pub fn from_token(tok: &[u8]) -> (r: Option<Method>)
        ensures
            r == method_of(tok@),
    {
        let n = tok.len();
        if n == 4 && tok[0] == 72 && tok[1] == 69 && tok[2] == 65 && tok[3] == 68 {
            assert(tok@ =~= seq![72u8, 69, 65, 68]);
            Some(Method::Head)
        } else if n == 3 && tok[0] == 71 && tok[1] == 69 && tok[2] == 84 {
            assert(tok@ =~= seq![71u8, 69, 84]);
            Some(Method::Get)
        } else if n == 4 && tok[0] == 80 && tok[1] == 79 && tok[2] == 83 && tok[3] == 84 {
            assert(tok@ =~= seq![80u8, 79, 83, 84]);
            Some(Method::Post)
        } else if n == 3 && tok[0] == 80 && tok[1] == 85 && tok[2] == 84 {
            assert(tok@ =~= seq![80u8, 85, 84]);
            Some(Method::Put)
        } else if n == 6 && tok[0] == 68 && tok[1] == 69 && tok[2] == 76 && tok[3] == 69
            && tok[4] == 84 && tok[5] == 69 {
            assert(tok@ =~= seq![68u8, 69, 76, 69, 84, 69]);
            Some(Method::Delete)
        } else {
            assert(tok@ != seq![72u8, 69, 65, 68]);
            assert(tok@ != seq![71u8, 69, 84]);
            assert(tok@ != seq![80u8, 79, 83, 84]);
            assert(tok@ != seq![80u8, 85, 84]);
            assert(tok@ != seq![68u8, 69, 76, 69, 84, 69]);
            None
        }
    }
}

/// Why a buffer is not a request.
#[derive(Clone, Copy, Debug, PartialEq, Eq, Structural)]
pub enum ParseError {
    /// The first byte is zero: nothing was read.
    EmptyRequest,
    /// The request line names no known method.
    UnknownMethod,
    /// The request line has no target, or a query pair has no `=`.
    MalformedRequestLine,
    /// A header line has no `:`.
    MalformedHeader,
    /// The `Content-Length` value is not an unsigned number.
    InvalidContentLength,
    /// The body is declared as JSON and does not parse.
    MalformedJsonBody,
}

/// A body as the contracts see it.
pub enum BodyModel {
    Empty,
    Text(Seq<char>),
    Json(serde_json::Value),
}

/// The body of a request or a response.
#[derive(Clone, Debug, PartialEq)]
pub enum Body {
    /// No body.
    Empty,
    /// A text body.
    Text(String),
    /// A parsed `application/json` body.
    Json(serde_json::Value),
}

impl View for Body {
    type V = BodyModel;

    open spec fn view(&self) -> BodyModel {
        match self {
            Body::Empty => BodyModel::Empty,
            Body::Text(s) => BodyModel::Text(s@),
            Body::Json(v) => BodyModel::Json(*v),
        }
    }
}

/// The body that a text makes under a content type: JSON where the type is
/// exactly `application/json` (`None` where the text is not JSON), else text.
pub open spec fn body_of(text: Seq<char>, content_type: Option<Seq<char>>) -> Option<BodyModel> {
    if content_type == Some("application/json"@) {
        match json_of(text) {
            Some(v) => Some(BodyModel::Json(v)),
            None => None,
        }
    } else {
        Some(BodyModel::Text(text))
    }
}

/// The characters of an optional string.
pub open spec fn opt_view(o: Option<&String>) -> Option<Seq<char>> {
    match o {
        Some(c) => Some(c@),
        None => None,
    }
}

impl Body {
    /// Builds a body from its text, as the content type says.
    pub fn parse(body: String, content_type: Option<&String>) -> (r: Result<Body, ParseError>)
        ensures
            match body_of(body@, opt_view(content_type)) {
                Some(b) => r is Ok && r->Ok_0@ == b,
                None => r == Err::<Body, ParseError>(ParseError::MalformedJsonBody),
            },
    {
        let is_json = match content_type {
            Some(c) => str_is(c, "application/json"),
            None => false,
        };
        if is_json {
            match parse_json(body.as_str()) {
                Some(v) => Ok(Body::Json(v)),
                None => Err(ParseError::MalformedJsonBody),
            }
        } else {
            Ok(Body::Text(body))
        }
    }
}

/// A request as the contracts see it.
pub struct RequestModel {
    pub method: Method,
    pub path: Seq<char>,
    pub query: Seq<Entry>,
    pub headers: Seq<Entry>,
    pub body: BodyModel,
}

/// An HTTP/1.1 request.
#[derive(Clone, Debug)]
pub struct Request {
    /// The method.
    pub method: Method,
    /// The path, without the query.
    pub path: String,
    /// The query pairs.
    pub query: Fields,
    /// The headers, with names as received.
    pub headers: Fields,
    /// The body.
    pub body: Body,
}

impl View for Request {
    type V = RequestModel;

    open spec fn view(&self) -> RequestModel {
        RequestModel {
            method: self.method,
            path: self.path@,
            query: self.query@,
            headers: self.headers@,
            body: self.body@,
        }
    }
}

/// The query pairs in `[lo, hi)`: pieces separated by `&`, each split on its
/// first `=` into a trimmed name and value; `None` where a piece has no `=`.
pub open spec fn query_pairs(s: Seq<u8>, lo: int, hi: int) -> Option<Seq<Entry>>
    decreases hi - lo,
{
    let a = first_at(s, lo, hi, AMP);
    let eq = first_at(s, lo, a, EQUALS);
    if eq >= a {
        None
    } else {
        let pair = (text_of(s, lo, eq), text_of(s, eq + 1, a));
        if lo <= a < hi {
            match query_pairs(s, a + 1, hi) {
                Some(rest) => Some(seq![pair] + rest),
                None => None,
            }
        } else {
            Some(seq![pair])
        }
    }
}

/// The header lines from position `p` up to the line that is a bare carriage
/// return: the pairs, each split on its first `:` and trimmed, and where the
/// body starts. `None` where a line before that has no `:`.
pub open spec fn header_block(s: Seq<u8>, p: int) -> Option<(Seq<Entry>, int)>
    decreases s.len() - p,
{
    let e = first_at(s, p, s.len() as int, LF);
    if s.subrange(p, e) == seq![CR] {
        Some((Seq::empty(), e + 1))
    } else {
        let c = first_at(s, p, e, COLON);
        if c >= e {
            None
        } else {
            let pair = (text_of(s, p, c), text_of(s, c + 1, e));
            if p <= e < s.len() {
                match header_block(s, e + 1) {
                    Some((rest, start)) => Some((seq![pair] + rest, start)),
                    None => None,
                }
            } else {
                Some((seq![pair], s.len() as int))
            }
        }
    }
}

/// The smaller of two integers.
pub open spec fn min(a: int, b: int) -> int {
    if a <= b {
        a
    } else {
        b
    }
}

/// What a buffer parses to. The request line runs to the first line feed; its
/// first space ends the method and the next space (or the line's end) ends
/// the target, which splits at its first `?` into path and query. Header
/// lines follow. A `Content-Length` header takes that many bytes after the
/// header block, cut at the buffer's end, as the body.
pub open spec fn parse_spec(s: Seq<u8>) -> Result<RequestModel, ParseError> {
    let e0 = first_at(s, 0, s.len() as int, LF);
    let sp1 = first_at(s, 0, e0, SP);
    let sp2 = first_at(s, sp1 + 1, e0, SP);
    let q = first_at(s, sp1 + 1, sp2, QUESTION);
    let block = if e0 < s.len() {
        header_block(s, e0 + 1)
    } else {
        Some((Seq::empty(), s.len() as int))
    };
    if s.len() == 0 || s[0] == 0 {
        Err(ParseError::EmptyRequest)
    } else if method_of(s.subrange(0, sp1)) is None {
        Err(ParseError::UnknownMethod)
    } else if sp1 >= e0 {
        Err(ParseError::MalformedRequestLine)
    } else if q < sp2 && query_pairs(s, q + 1, sp2) is None {
        Err(ParseError::MalformedRequestLine)
    } else if block is None {
        Err(ParseError::MalformedHeader)
    } else {
        let query = if q < sp2 {
            from_pairs(query_pairs(s, q + 1, sp2).unwrap())
        } else {
            Seq::empty()
        };
        let headers = from_pairs(block.unwrap().0);
        let start = block.unwrap().1;
        let with_body = |body: BodyModel|
            RequestModel {
                method: method_of(s.subrange(0, sp1)).unwrap(),
                path: text_of(s, sp1 + 1, q),
                query,
                headers,
                body,
            };
        match lookup(headers, "Content-Length"@) {
            None => Ok(with_body(BodyModel::Empty)),
            Some(v) => match usize_of(v) {
                None => Err(ParseError::InvalidContentLength),
                Some(n) => {
                    let text = text_of(
                        s,
                        min(start, s.len() as int),
                        min(start + n, s.len() as int),
                    );
                    match body_of(text, lookup(headers, "Content-Type"@)) {
                        Some(b) => Ok(with_body(b)),
                        None => Err(ParseError::MalformedJsonBody),
                    }
                },
            },
        }
    }
}

/// Parses the query pairs in `[lo, hi)`.
fn parse_query(buf: &[u8], from: usize, hi: usize) -> (r: Option<Fields>)
    requires
        from <= hi <= buf@.len(),
    ensures
        match query_pairs(buf@, from as int, hi as int) {
            Some(p) => r is Some && r->Some_0@ == from_pairs(p),
            None => r is None,
        },
{
    let ghost s = buf@;
    let ghost done: Seq<Entry> = Seq::empty();
    let mut fields = Fields::new();
    let mut lo = from;
    loop
        invariant
            lo <= hi <= buf@.len(),
            s == buf@,
            fields@ == from_pairs(done),
            query_pairs(s, from as int, hi as int) == match query_pairs(s, lo as int, hi as int) {
                Some(rest) => Some(done + rest),
                None => None::<Seq<Entry>>,
            },
        decreases hi - lo,
    {
        let a = find_byte(buf, lo, hi, AMP);
        let eq = find_byte(buf, lo, a, EQUALS);
        if eq >= a {
            return None;
        }
        let name = text_at(buf, lo, eq);
        let value = text_at(buf, eq + 1, a);
        let ghost pair = (name@, value@);
        proof {
            assert(done.push(pair).drop_last() =~= done);
        }
        fields.insert(name, value);
        if a >= hi {
            proof {
                assert(done + seq![pair] =~= done.push(pair));
            }
            return Some(fields);
        }
        proof {
            let rest = query_pairs(s, a + 1, hi as int);
            if rest is Some {
                assert(done + (seq![pair] + rest.unwrap()) =~= done.push(pair) + rest.unwrap());
            }
            done = done.push(pair);
        }
        lo = a + 1;
    }
}

/// Parses the header lines from position `from` on.
fn parse_headers(buf: &[u8], from: usize) -> (r: Option<(Fields, usize)>)
    requires
        from <= buf@.len() < usize::MAX,
    ensures
        match header_block(buf@, from as int) {
            Some((p, start)) => r is Some && r->Some_0.0@ == from_pairs(p)
                && r->Some_0.1 == start,
            None => r is None,
        },
{
    let ghost s = buf@;
    let ghost done: Seq<Entry> = Seq::empty();
    let mut fields = Fields::new();
    let mut p = from;
    let n = buf.len();
    loop
        invariant
            p <= n == buf@.len() < usize::MAX,
            s == buf@,
            fields@ == from_pairs(done),
            header_block(s, from as int) == match header_block(s, p as int) {
                Some((rest, start)) => Some((done + rest, start)),
                None => None::<(Seq<Entry>, int)>,
            },
        decreases n - p,
    {
        let e = find_byte(buf, p, n, LF);
        if e == p + 1 && buf[p] == CR {
            proof {
                assert(s.subrange(p as int, e as int) =~= seq![CR]);
                assert(done + Seq::<Entry>::empty() =~= done);
            }
            return Some((fields, e + 1));
        }
        assert(s.subrange(p as int, e as int) != seq![CR]) by {
            if e == p + 1 {
                assert(s.subrange(p as int, e as int)[0] == s[p as int]);
            } else {
                assert(s.subrange(p as int, e as int).len() != 1);
            }
        }
        let c = find_byte(buf, p, e, COLON);
        if c >= e {
            return None;
        }
        let name = text_at(buf, p, c);
        let value = text_at(buf, c + 1, e);
        let ghost pair = (name@, value@);
        proof {
            assert(done.push(pair).drop_last() =~= done);
        }
        fields.insert(name, value);
        if e >= n {
            proof {
                assert(done + seq![pair] =~= done.push(pair));
            }
            return Some((fields, n));
        }
        proof {
            let rest = header_block(s, e + 1);
            if rest is Some {
                assert(done + (seq![pair] + rest.unwrap().0) =~= done.push(pair) + rest.unwrap().0);
            }
            done = done.push(pair);
        }
        p = e + 1;
    }
}

/// The wire form of a request: request line, one line per header, a blank
/// line, then the body.
pub open spec fn request_wire(m: RequestModel) -> Seq<char> {
    method_name(m.method) + " "@ + m.path + " HTTP/1.1\r\n"@ + header_lines(m.headers) + "\r\n"@
        + body_text(m.body)
}

impl Request {
    /// The wire form of the request.
    pub fn to_string(&self) -> (r: String)
        ensures
            r@ == request_wire(self@),
    {
        let mut out = String::from_str(self.method.name());
        out.append(" ");
        out.append(self.path.as_str());
        out.append(" HTTP/1.1\r\n");
        push_headers(&mut out, &self.headers);
        out.append("\r\n");
        let b = body_string(&self.body);
        out.append(b.as_str());
        assert(out@ =~= request_wire(self@));
        out
    }

    /// Parses one buffer, the result of a single read, into a request.
    pub fn try_from(buf: &[u8; 1024]) -> (r: Result<Request, ParseError>)
        ensures
            match parse_spec(buf@) {
                Ok(m) => r is Ok && r->Ok_0@ == m,
                Err(e) => r == Err::<Request, ParseError>(e),
            },
    {
        let s = buf.as_slice();
        let n = s.len();
        if s[0] == 0 {
            return Err(ParseError::EmptyRequest);
        }
        let e0 = find_byte(s, 0, n, LF);
        let sp1 = find_byte(s, 0, e0, SP);
        let method = match Method::from_token(&s[0..sp1]) {
            Some(m) => m,
            None => return Err(ParseError::UnknownMethod),
        };
        if sp1 >= e0 {
            return Err(ParseError::MalformedRequestLine);
        }
        let sp2 = find_byte(s, sp1 + 1, e0, SP);
        let q = find_byte(s, sp1 + 1, sp2, QUESTION);
        let path = text_at(s, sp1 + 1, q);
        let query = if q < sp2 {
            match parse_query(s, q + 1, sp2) {
                Some(f) => f,
                None => return Err(ParseError::MalformedRequestLine),
            }
        } else {
            Fields::new()
        };
        let (headers, start) = if e0 < n {
            match parse_headers(s, e0 + 1) {
                Some(x) => x,
                None => return Err(ParseError::MalformedHeader),
            }
        } else {
            (Fields::new(), n)
        };
        let body = match headers.get("Content-Length") {
            None => Body::Empty,
            Some(v) => match parse_usize(v.as_str()) {
                None => return Err(ParseError::InvalidContentLength),
                Some(len) => {
                    let lo = if start < n {
                        start
                    } else {
                        n
                    };
                    let hi = if len <= n - lo {
                        lo + len
                    } else {
                        n
                    };
                    let text = text_at(s, lo, hi);
                    match Body::parse(text, headers.get("Content-Type")) {
                        Ok(b) => b,
                        Err(e) => return Err(e),
                    }
                },
            },
        };
        Ok(Request { method, path, query, headers, body })
    }
}

/// A buffer whose first byte is zero is an empty request.
pub proof fn lemma_zero_first_byte(s: Seq<u8>)
    requires
        s.len() > 0,
        s[0] == 0,
    ensures
        parse_spec(s) == Err::<RequestModel, ParseError>(ParseError::EmptyRequest),
{
}

/// A request that declares `Content-Type: application/json` and a
/// `Content-Length` of n has as body the JSON value of the n bytes after its
/// header block (cut at the buffer's end), decoded and trimmed; where those
/// bytes are ASCII and neither start nor end with white space, it is the JSON
/// value of exactly those characters.
pub proof fn lemma_json_body(s: Seq<u8>)
    requires
        parse_spec(s) is Ok,
        lookup(parse_spec(s)->Ok_0.headers, "Content-Type"@) == Some("application/json"@),
        lookup(parse_spec(s)->Ok_0.headers, "Content-Length"@) is Some,
    ensures
        ({
            let m = parse_spec(s)->Ok_0;
            let e0 = first_at(s, 0, s.len() as int, LF);
            let start = header_block(s, e0 + 1)->Some_0.1;
            let n = usize_of(lookup(m.headers, "Content-Length"@)->Some_0)->Some_0;
            let raw = s.subrange(min(start, s.len() as int), min(start + n, s.len() as int));
            let text = text_of(s, min(start, s.len() as int), min(start + n, s.len() as int));
            &&& e0 < s.len()
            &&& json_of(text) is Some
            &&& m.body == BodyModel::Json(json_of(text)->Some_0)
            &&& (all_ascii(raw) && (raw.len() == 0 || (!is_white_space(raw[0] as char)
                && !is_white_space(raw.last() as char)))) ==> m.body == BodyModel::Json(
                json_of(ascii_chars(raw))->Some_0,
            )
        }),
{
    let e0 = first_at(s, 0, s.len() as int, LF);
    let start = header_block(s, e0 + 1)->Some_0.1;
    let n = usize_of(lookup(parse_spec(s)->Ok_0.headers, "Content-Length"@)->Some_0)->Some_0;
    let raw = s.subrange(min(start, s.len() as int), min(start + n, s.len() as int));
    if all_ascii(raw) && (raw.len() == 0 || (!is_white_space(raw[0] as char) && !is_white_space(
        raw.last() as char,
    ))) {
        let c = ascii_chars(raw);
        if c.len() > 0 {
            assert(c[0] == raw[0] as char);
            assert(c.last() == raw.last() as char);
        }
        lemma_trim_keeps(c);
    }
    if e0 >= s.len() {
        let m = parse_spec(s)->Ok_0;
        assert(m.headers == from_pairs(Seq::<Entry>::empty()));
        assert(m.headers =~= Seq::<Entry>::empty());
        assert(false);
    }
}

} // verus!
