use http_server::http::request::words_cut_on_char_boundaries;
use http_server::http::{Method, ParseError, Request, MAX_BODY_SIZE, MAX_HEADERS_SIZE};

fn parse(raw: &str) -> Result<Request<'_>, ParseError> {
    Request::try_from(raw.as_bytes())
}

#[test]
fn parses_get_with_headers_and_no_body() {
    let request = parse("GET /hello?q=1 HTTP/1.1\r\nHost: localhost\r\n\r\n").unwrap();

    assert_eq!(request.method(), Method::GET);
    assert_eq!(request.path(), "/hello");
    assert_eq!(request.query_string().unwrap().get("q"), Some("1"));
    assert_eq!(request.headers().get("host"), Some("localhost"));
    assert_eq!(request.body(), None);
}

#[test]
fn parses_post_with_content_length_and_body() {
    let request = parse("POST /items HTTP/1.1\r\nContent-Length: 5\r\n\r\nhello").unwrap();

    assert_eq!(request.method(), Method::POST);
    assert_eq!(request.path(), "/items");
    assert_eq!(request.body(), Some(&b"hello"[..]));
    assert_eq!(request.body_text().unwrap().unwrap(), "hello");
}

#[test]
fn incomplete_when_headers_truncated() {
    assert_eq!(
        parse("GET / HTTP/1.1\r\nHost: localhost\r\n").unwrap_err(),
        ParseError::Incomplete
    );
}

#[test]
fn incomplete_when_body_shorter_than_content_length() {
    assert_eq!(
        parse("POST / HTTP/1.1\r\nContent-Length: 10\r\n\r\nshort").unwrap_err(),
        ParseError::Incomplete
    );
}

#[test]
fn rejects_oversize_headers() {
    let mut raw = b"GET / HTTP/1.1\r\nHost: ".to_vec();
    raw.extend(std::iter::repeat(b'a').take(MAX_HEADERS_SIZE));
    assert_eq!(
        Request::try_from(raw.as_slice()).unwrap_err(),
        ParseError::InvalidHeader
    );
}

#[test]
fn rejects_oversize_body() {
    let header = format!(
        "POST / HTTP/1.1\r\nContent-Length: {}\r\n\r\n",
        MAX_BODY_SIZE + 1
    );
    assert_eq!(
        Request::try_from(header.as_bytes()).unwrap_err(),
        ParseError::BodyTooLarge
    );
}

#[test]
fn allows_binary_body_without_utf8() {
    let mut raw = b"POST / HTTP/1.1\r\nContent-Length: 3\r\n\r\n".to_vec();
    raw.extend_from_slice(&[0xff, 0xfe, 0xfd]);

    let request = Request::try_from(raw.as_slice()).unwrap();
    assert_eq!(request.body(), Some(&[0xff, 0xfe, 0xfd][..]));
    assert!(request.body_text().unwrap().is_err());
}

#[test]
fn reports_each_request_line_error() {
    assert_eq!(parse("\r\n\r\n").unwrap_err(), ParseError::InvalidMethod);
    assert_eq!(parse("GET\r\n\r\n").unwrap_err(), ParseError::InvalidRequest);
    assert_eq!(parse("GET /\r\n\r\n").unwrap_err(), ParseError::InvalidRequest);
    assert_eq!(
        parse("GET / HTTP/1.1 extra\r\n\r\n").unwrap_err(),
        ParseError::InvalidRequest
    );
    assert_eq!(
        parse("GET / HTTP/1.0\r\n\r\n").unwrap_err(),
        ParseError::InvalidProtocol
    );
    assert_eq!(
        parse("FETCH / HTTP/1.1\r\n\r\n").unwrap_err(),
        ParseError::InvalidMethod
    );
    assert_eq!(
        parse("GET / HTTP/1.1\r\nbad line\r\n\r\n").unwrap_err(),
        ParseError::InvalidHeader
    );
    assert_eq!(
        parse("GET / HTTP/1.1\r\nContent-Length: x\r\n\r\n").unwrap_err(),
        ParseError::InvalidHeader
    );
}

#[test]
fn rejects_head_that_is_not_utf8() {
    let mut raw = b"GET /".to_vec();
    raw.push(0xff);
    raw.extend_from_slice(b" HTTP/1.1\r\n\r\n");
    assert_eq!(
        Request::try_from(raw.as_slice()).unwrap_err(),
        ParseError::InvalidEncoding
    );
}

#[test]
fn short_buffer_without_blank_line_is_incomplete() {
    assert_eq!(parse("").unwrap_err(), ParseError::Incomplete);
    assert_eq!(parse("GET / HTTP/1.1\r\n").unwrap_err(), ParseError::Incomplete);
}

#[test]
fn ignores_bytes_after_the_body() {
    let request = parse("POST /a HTTP/1.1\r\nContent-Length: 2\r\n\r\nhiEXTRA").unwrap();
    assert_eq!(request.body(), Some(&b"hi"[..]));
}

#[test]
fn zero_content_length_gives_no_body() {
    let request = parse("POST /a HTTP/1.1\r\nContent-Length: 0\r\n\r\nabc").unwrap();
    assert_eq!(request.body(), None);
    assert!(request.body_text().is_none());
}

#[test]
fn path_and_query_split_at_first_question_mark() {
    let request = parse("GET /p?a=1&b&a=3&&c=x=y?z HTTP/1.1\r\n\r\n").unwrap();
    assert_eq!(request.path(), "/p");
    let query = request.query_string().unwrap();
    assert_eq!(query.get("a"), Some("3"));
    assert_eq!(query.get("b"), Some(""));
    assert_eq!(query.get("c"), Some("x=y?z"));
    assert_eq!(query.get("d"), None);
    let request = parse("GET /p HTTP/1.1\r\n\r\n").unwrap();
    assert!(request.query_string().is_none());
}

#[test]
fn request_line_may_use_carriage_return_as_separator() {
    let request = parse("GET\r/x HTTP/1.1\r\n\r\n").unwrap();
    assert_eq!(request.path(), "/x");
}

#[test]
fn request_line_is_cut_at_character_count_as_bytes() {
    // The separator is found by counting characters, and the line is then cut
    // at that many bytes: with non-ASCII text before it, the cut moves.
    let raw = "GET /\u{e9}?x HTTP/1.1\r\n\r\n";
    assert!(words_cut_on_char_boundaries(raw.as_bytes()));
    assert_eq!(parse(raw).unwrap_err(), ParseError::InvalidRequest);
}

#[test]
fn cut_inside_a_character_is_detected() {
    assert!(!words_cut_on_char_boundaries(
        "GET /caf\u{e9}?n=\u{e9}t\u{e9} HTTP/1.1\r\n\r\n".as_bytes()
    ));
    assert!(!words_cut_on_char_boundaries("GET /\u{e9} HTTP/1.1\r\n\r\n".as_bytes()));
    assert!(words_cut_on_char_boundaries("GET / HTTP/1.1\r\nX: \u{e9}\r\n\r\n".as_bytes()));
    assert!(words_cut_on_char_boundaries("GET / HTTP/1.1\r\n".as_bytes()));
    let request = parse("GET / HTTP/1.1\r\nX: \u{e9}\r\n\r\n").unwrap();
    assert_eq!(request.headers().get("x"), Some("\u{e9}"));
}

#[test]
fn error_messages() {
    assert_eq!(ParseError::InvalidRequest.message(), "Invalid Request");
    assert_eq!(ParseError::InvalidEncoding.message(), "Invalid Encoding");
    assert_eq!(ParseError::InvalidProtocol.message(), "Invalid Protocol");
    assert_eq!(ParseError::InvalidMethod.message(), "Invalid Method");
    assert_eq!(ParseError::Incomplete.message(), "Incomplete");
    assert_eq!(ParseError::InvalidHeader.message(), "Invalid Header");
    assert_eq!(ParseError::BodyTooLarge.message(), "Body Too Large");
}

#[test]
fn answer_is_final_once_head_is_complete() {
    let raw = "POST /a?x=1 HTTP/1.1\r\nContent-Length: 3\r\n\r\nabc";
    let first = parse(raw).unwrap();
    let longer = format!("{}GET / HTTP/1.1\r\n\r\n", raw);
    let second = parse(&longer).unwrap();
    assert_eq!(first.path(), second.path());
    assert_eq!(first.body(), second.body());
    assert_eq!(
        second.query_string().unwrap().get("x"),
        first.query_string().unwrap().get("x")
    );
    assert_eq!(
        parse("GET / HTTP/2\r\n\r\nmore bytes").unwrap_err(),
        parse("GET / HTTP/2\r\n\r\n").unwrap_err()
    );
}
