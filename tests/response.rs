use lil_http::{Body, Method, Response, StatusCode};

#[test]
fn test_response_to_string() {
    let response = Response::text("Hello, World!");

    assert_eq!(
        response.to_string(),
        "HTTP/1.1 200 OK\r\nContent-Type: text/plain\r\n\r\nHello, World!"
    );
}

#[test]
fn ok_is_empty_success() {
    let response = Response::ok();
    assert_eq!(response.status_code, StatusCode::Success);
    assert_eq!(response.body, Body::Empty);
    assert_eq!(response.headers.len(), 0);
    assert_eq!(response.to_string(), "HTTP/1.1 200 OK\r\n\r\n");
}

#[test]
fn text_sets_content_type() {
    let response = Response::text("Hello, World!");
    assert_eq!(response.status_code, StatusCode::Success);
    assert_eq!(response.body, Body::Text("Hello, World!".to_string()));
    assert_eq!(
        response.headers.get("Content-Type"),
        Some(&"text/plain".to_string())
    );
}

#[test]
fn json_sets_content_type_and_serializes() {
    let value: serde_json::Value = serde_json::from_str("{\"message\": \"Hello, World!\"}").unwrap();
    let response = Response::json(&value);
    assert_eq!(response.status_code, StatusCode::Success);
    assert_eq!(response.body, Body::Json(value));
    assert_eq!(
        response.headers.get("Content-Type"),
        Some(&"application/json".to_string())
    );
    assert_eq!(
        response.to_string(),
        "HTTP/1.1 200 OK\r\nContent-Type: application/json\r\n\r\n{\"message\":\"Hello, World!\"}"
    );
}

#[test]
fn not_found_response() {
    let response = Response::not_found();
    assert_eq!(response.status_code, StatusCode::NotFound);
    assert_eq!(response.body, Body::Text("Not Found".to_string()));
    assert_eq!(
        response.to_string(),
        "HTTP/1.1 404 Not Found\r\nContent-Type: text/plain\r\n\r\nNot Found"
    );
}

#[test]
fn invalid_request_response() {
    let response = Response::invalid_request();
    assert_eq!(response.status_code, StatusCode::BadRequest);
    assert_eq!(response.body, Body::Text("Invalid Request".to_string()));
    assert_eq!(
        response.to_string(),
        "HTTP/1.1 400 Bad Request\r\nContent-Type: text/plain\r\n\r\nInvalid Request"
    );
}

#[test]
fn method_not_allowed_sorts_names() {
    let response = Response::method_not_allowed(&[Method::Put, Method::Get, Method::Delete]);
    assert_eq!(response.status_code, StatusCode::MethodNotAllowed);
    assert_eq!(response.body, Body::Text("Method Not Allowed".to_string()));
    assert_eq!(
        response.headers.get("Allow"),
        Some(&"DELETE, GET, PUT".to_string())
    );
    assert_eq!(
        response.to_string(),
        "HTTP/1.1 405 Method Not Allowed\r\nContent-Type: text/plain\r\nAllow: DELETE, GET, PUT\r\n\r\nMethod Not Allowed"
    );
}

#[test]
fn method_not_allowed_lists_each_name_once() {
    let response =
        Response::method_not_allowed(&[Method::Post, Method::Head, Method::Get, Method::Post]);
    assert_eq!(
        response.headers.get("Allow"),
        Some(&"GET, HEAD, POST".to_string())
    );
    let response =
        Response::method_not_allowed(&[Method::Put, Method::Get, Method::Put, Method::Delete]);
    assert_eq!(
        response.headers.get("Allow"),
        Some(&"DELETE, GET, PUT".to_string())
    );
}

#[test]
fn method_not_allowed_with_no_methods() {
    let response = Response::method_not_allowed(&[]);
    assert_eq!(response.headers.get("Allow"), Some(&"".to_string()));
}

#[test]
fn status_returns_changed_copy() {
    let mut response = Response::text("Nope");
    let copy = response.status(StatusCode::NotFound);
    assert_eq!(copy.status_code, StatusCode::NotFound);
    assert_eq!(response.status_code, StatusCode::NotFound);
    assert_eq!(copy.body, Body::Text("Nope".to_string()));
}

#[test]
fn header_overwrites_same_name() {
    let mut response = Response::text("Hello, World!");
    let _ = response.header("X-Example", "first");
    let copy = response.header("X-Example", "test-header");
    assert_eq!(
        copy.headers.get("X-Example"),
        Some(&"test-header".to_string())
    );
    assert_eq!(copy.headers.len(), 2);
    assert_eq!(
        copy.to_string(),
        "HTTP/1.1 200 OK\r\nContent-Type: text/plain\r\nX-Example: test-header\r\n\r\nHello, World!"
    );
}

#[test]
fn body_replaces_body() {
    let mut response = Response::ok();
    let copy = response.body(Body::Text("hi".to_string()));
    assert_eq!(copy.body, Body::Text("hi".to_string()));
    assert_eq!(response.body, Body::Text("hi".to_string()));
}

#[test]
fn status_codes_render() {
    assert_eq!(StatusCode::Success.as_str(), "200 OK");
    assert_eq!(StatusCode::NotFound.as_str(), "404 Not Found");
    assert_eq!(StatusCode::BadRequest.as_str(), "400 Bad Request");
    assert_eq!(StatusCode::MethodNotAllowed.as_str(), "405 Method Not Allowed");
}
