use lil_http::{Body, Method, ParseError, Request};

fn buffer(text: &str) -> [u8; 1024] {
    let mut buf = [0u8; 1024];
    let bytes = text.as_bytes();
    buf[..bytes.len()].copy_from_slice(bytes);
    buf
}

#[test]
fn parses_path_query_and_headers() {
    let buf = buffer("GET /a?x=1&y=2 HTTP/1.1\r\nHost: h\r\n\r\n");
    let request = Request::try_from(&buf).unwrap();
    assert_eq!(request.method, Method::Get);
    assert_eq!(request.path, "/a");
    assert_eq!(request.query.len(), 2);
    assert_eq!(request.query.get("x"), Some(&"1".to_string()));
    assert_eq!(request.query.get("y"), Some(&"2".to_string()));
    assert_eq!(request.headers.len(), 1);
    assert_eq!(request.headers.get("Host"), Some(&"h".to_string()));
    assert_eq!(request.body, Body::Empty);
}

#[test]
fn parses_json_body() {
    let json = "{\"name\": \"Miguel\"}";
    let text = format!(
        "POST / HTTP/1.1\r\nContent-Type: application/json\r\nContent-Length: {}\r\n\r\n{}",
        json.len(),
        json
    );
    let request = Request::try_from(&buffer(&text)).unwrap();
    let expected: serde_json::Value = serde_json::from_str(json).unwrap();
    assert_eq!(request.method, Method::Post);
    assert_eq!(request.body, Body::Json(expected));
}

#[test]
fn parses_text_body() {
    let buf = buffer("POST /t HTTP/1.1\r\nContent-Length: 5\r\n\r\nhello world");
    let request = Request::try_from(&buf).unwrap();
    assert_eq!(request.body, Body::Text("hello".to_string()));
}

#[test]
fn body_is_cut_at_buffer_end() {
    let buf = buffer("POST / HTTP/1.1\r\nContent-Length: 5000\r\n\r\nhello");
    let request = Request::try_from(&buf).unwrap();
    match request.body {
        Body::Text(t) => {
            assert!(t.starts_with("hello"));
            let start = "POST / HTTP/1.1\r\nContent-Length: 5000\r\n\r\n".len();
            assert_eq!(t.chars().count(), 1024 - start);
        }
        other => panic!("unexpected body {:?}", other),
    }
}

#[test]
fn zero_first_byte_is_empty_request() {
    let buf = [0u8; 1024];
    assert_eq!(Request::try_from(&buf).unwrap_err(), ParseError::EmptyRequest);
    let mut buf = buffer("GET / HTTP/1.1\r\n\r\n");
    buf[0] = 0;
    assert_eq!(Request::try_from(&buf).unwrap_err(), ParseError::EmptyRequest);
}

#[test]
fn unknown_method_is_an_error() {
    let buf = buffer("PATCH / HTTP/1.1\r\n\r\n");
    assert_eq!(Request::try_from(&buf).unwrap_err(), ParseError::UnknownMethod);
    let buf = buffer("get / HTTP/1.1\r\n\r\n");
    assert_eq!(Request::try_from(&buf).unwrap_err(), ParseError::UnknownMethod);
}

#[test]
fn request_line_without_target_is_an_error() {
    let buf = buffer("GET\n\r\n");
    assert_eq!(
        Request::try_from(&buf).unwrap_err(),
        ParseError::MalformedRequestLine
    );
}

#[test]
fn query_pair_without_equals_is_an_error() {
    let buf = buffer("GET /a?x HTTP/1.1\r\n\r\n");
    assert_eq!(
        Request::try_from(&buf).unwrap_err(),
        ParseError::MalformedRequestLine
    );
}

#[test]
fn header_without_colon_is_an_error() {
    let buf = buffer("GET / HTTP/1.1\r\nBad header\r\n\r\n");
    assert_eq!(Request::try_from(&buf).unwrap_err(), ParseError::MalformedHeader);
}

#[test]
fn missing_blank_line_is_an_error() {
    let buf = buffer("GET / HTTP/1.1\r\nHost: h\r\n");
    assert_eq!(Request::try_from(&buf).unwrap_err(), ParseError::MalformedHeader);
}

#[test]
fn bad_content_length_is_an_error() {
    let buf = buffer("POST / HTTP/1.1\r\nContent-Length: abc\r\n\r\nhello");
    assert_eq!(
        Request::try_from(&buf).unwrap_err(),
        ParseError::InvalidContentLength
    );
    let buf = buffer("POST / HTTP/1.1\r\nContent-Length: -1\r\n\r\nhello");
    assert_eq!(
        Request::try_from(&buf).unwrap_err(),
        ParseError::InvalidContentLength
    );
}

#[test]
fn malformed_json_is_an_error() {
    let buf = buffer(
        "POST / HTTP/1.1\r\nContent-Type: application/json\r\nContent-Length: 7\r\n\r\n{\"a\": }",
    );
    assert_eq!(
        Request::try_from(&buf).unwrap_err(),
        ParseError::MalformedJsonBody
    );
}

#[test]
fn later_query_value_wins_and_value_keeps_equals() {
    let buf = buffer("GET /q?x=1&x=2&a=b=c HTTP/1.1\r\n\r\n");
    let request = Request::try_from(&buf).unwrap();
    assert_eq!(request.path, "/q");
    assert_eq!(request.query.len(), 2);
    assert_eq!(request.query.get("x"), Some(&"2".to_string()));
    assert_eq!(request.query.get("a"), Some(&"b=c".to_string()));
}

#[test]
fn header_values_are_trimmed_and_names_kept() {
    let buf = buffer("DELETE /d HTTP/1.1\r\n  x-Name :   v  \r\nA: 1\r\nA: 2\r\n\r\n");
    let request = Request::try_from(&buf).unwrap();
    assert_eq!(request.method, Method::Delete);
    assert_eq!(request.headers.get("x-Name"), Some(&"v".to_string()));
    assert_eq!(request.headers.get("X-Name"), None);
    assert_eq!(request.headers.get("A"), Some(&"2".to_string()));
    assert_eq!(request.body, Body::Empty);
}

#[test]
fn all_methods_parse() {
    for (token, method) in [
        ("HEAD", Method::Head),
        ("GET", Method::Get),
        ("POST", Method::Post),
        ("PUT", Method::Put),
        ("DELETE", Method::Delete),
    ] {
        let buf = buffer(&format!("{} / HTTP/1.1\r\n\r\n", token));
        assert_eq!(Request::try_from(&buf).unwrap().method, method);
        assert_eq!(method.name(), token);
        assert_eq!(Method::from_token(token.as_bytes()), Some(method));
    }
    assert_eq!(Method::from_token(b"GETS"), None);
}

#[test]
fn body_parse_follows_content_type() {
    let json = "application/json".to_string();
    let plain = "text/plain".to_string();
    assert_eq!(
        Body::parse("[1, 2]".to_string(), Some(&json)),
        Ok(Body::Json(serde_json::from_str("[1,2]").unwrap()))
    );
    assert_eq!(
        Body::parse("[1, 2]".to_string(), Some(&plain)),
        Ok(Body::Text("[1, 2]".to_string()))
    );
    assert_eq!(
        Body::parse("x".to_string(), None),
        Ok(Body::Text("x".to_string()))
    );
    assert_eq!(
        Body::parse("nope".to_string(), Some(&json)),
        Err(ParseError::MalformedJsonBody)
    );
}

#[test]
fn invalid_utf8_is_replaced() {
    let mut buf = buffer("GET /a?b HTTP/1.1\r\n\r\n");
    buf[6] = 0xFF;
    let request = Request::try_from(&buf).unwrap();
    assert_eq!(request.path, "/a\u{FFFD}b");
}

#[test]
fn request_to_string_writes_wire_form() {
    let buf = buffer("PUT /x?k=v HTTP/1.1\r\nHost: h\r\nContent-Length: 2\r\n\r\nok");
    let request = Request::try_from(&buf).unwrap();
    assert_eq!(
        request.to_string(),
        "PUT /x HTTP/1.1\r\nHost: h\r\nContent-Length: 2\r\n\r\nok"
    );
}
