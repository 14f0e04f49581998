use lil_http::{respond, Body, Request, Response, Router};

type Handler = fn(Request) -> Response;

fn buffer(text: &str) -> [u8; 1024] {
    let mut buf = [0u8; 1024];
    let bytes = text.as_bytes();
    buf[..bytes.len()].copy_from_slice(bytes);
    buf
}

fn hello_router() -> Router<Handler> {
    let mut router: Router<Handler> = Router::new();
    router.get("/", |_| Response::text("Hello, World!"));
    router
}

#[test]
fn get_root_end_to_end() {
    let router = hello_router();
    let reply = respond(&router, &buffer("GET / HTTP/1.1\r\n\r\n")).unwrap();
    assert_eq!(
        reply,
        "HTTP/1.1 200 OK\r\nContent-Type: text/plain\r\n\r\nHello, World!"
    );
}

#[test]
fn empty_read_closes() {
    let router = hello_router();
    assert_eq!(respond(&router, &[0u8; 1024]), None);
}

#[test]
fn malformed_request_gets_400() {
    let router = hello_router();
    let reply = respond(&router, &buffer("BREW / HTTP/1.1\r\n\r\n")).unwrap();
    assert_eq!(
        reply,
        "HTTP/1.1 400 Bad Request\r\nContent-Type: text/plain\r\n\r\nInvalid Request"
    );
}

#[test]
fn unknown_path_gets_404_and_wrong_method_405() {
    let router = hello_router();
    let reply = respond(&router, &buffer("GET /nope HTTP/1.1\r\n\r\n")).unwrap();
    assert!(reply.starts_with("HTTP/1.1 404 Not Found\r\n"));
    let reply = respond(&router, &buffer("POST / HTTP/1.1\r\n\r\n")).unwrap();
    assert_eq!(
        reply,
        "HTTP/1.1 405 Method Not Allowed\r\nContent-Type: text/plain\r\nAllow: GET\r\n\r\nMethod Not Allowed"
    );
}

#[test]
fn json_post_end_to_end() {
    let mut router: Router<Handler> = Router::new();
    router.post("/", |request| {
        let Body::Json(body) = request.body else {
            return Response::invalid_request();
        };
        let Some(name) = body.get("name") else {
            return Response::invalid_request();
        };
        let message = format!("{{\"message\": \"Hello, {}!\"}}", name.as_str().unwrap());
        Response::json(&serde_json::from_str(&message).unwrap())
    });
    let json = "{\"name\":\"Miguel\"}";
    let text = format!(
        "POST / HTTP/1.1\r\nContent-Type: application/json\r\nContent-Length: {}\r\n\r\n{}",
        json.len(),
        json
    );
    let reply = respond(&router, &buffer(&text)).unwrap();
    assert_eq!(
        reply,
        "HTTP/1.1 200 OK\r\nContent-Type: application/json\r\n\r\n{\"message\":\"Hello, Miguel!\"}"
    );
}
