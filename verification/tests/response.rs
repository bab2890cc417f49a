use http_server::http::{Response, StatusCode};

fn text_of(response: &Response) -> String {
    let mut out = String::new();
    response.send(&mut out);
    out
}

#[test]
fn sends_status_line_length_type_and_body() {
    let response = Response::new(StatusCode::OK, Some("Welcome".to_string()));
    assert_eq!(
        text_of(&response),
        "HTTP/1.1 200 OK\r\nContent-Length: 7\r\nContent-Type: text/plain\r\n\r\nWelcome"
    );
}

#[test]
fn sends_no_content_type_without_body() {
    let response = Response::new(StatusCode::NotFound, None);
    assert_eq!(
        text_of(&response),
        "HTTP/1.1 404 Not Found\r\nContent-Length: 0\r\n\r\n"
    );
    let response = Response::new(StatusCode::InternalServerError, Some(String::new()));
    assert_eq!(
        text_of(&response),
        "HTTP/1.1 500 Internal Server Error\r\nContent-Length: 0\r\n\r\n"
    );
}

#[test]
fn content_length_counts_bytes() {
    let response = Response::json(StatusCode::BadRequest, "\u{e9}t\u{e9}".to_string());
    assert_eq!(
        text_of(&response),
        "HTTP/1.1 400 Bad Request\r\nContent-Length: 5\r\nContent-Type: text/plain\r\n\r\n\u{e9}t\u{e9}"
    );
}

#[test]
fn send_appends() {
    let response = Response::new(StatusCode::OK, Some("x".to_string()));
    let mut out = String::from("before|");
    response.send(&mut out);
    assert!(out.starts_with("before|HTTP/1.1 200 OK\r\n"));
}
