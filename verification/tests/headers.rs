use http_server::http::{Headers, ParseError};

#[test]
fn parses_headers_and_looks_up_case_insensitively() {
    let headers =
        Headers::try_from("Host: example.com\r\nContent-Type: text/plain\r\n\r\n").unwrap();

    assert_eq!(headers.get("host"), Some("example.com"));
    assert_eq!(headers.get("CONTENT-TYPE"), Some("text/plain"));
    assert_eq!(headers.get("missing"), None);
}

#[test]
fn content_length_parses_or_rejects() {
    let headers = Headers::try_from("Content-Length: 12\r\n\r\n").unwrap();
    assert_eq!(headers.content_length().unwrap(), Some(12));

    let headers = Headers::try_from("Host: a\r\n\r\n").unwrap();
    assert_eq!(headers.content_length().unwrap(), None);

    let headers = Headers::try_from("Content-Length: nope\r\n\r\n").unwrap();
    assert_eq!(headers.content_length(), Err(ParseError::InvalidHeader));
}

#[test]
fn rejects_header_without_colon() {
    assert_eq!(
        Headers::try_from("NotAHeader\r\n\r\n").unwrap_err(),
        ParseError::InvalidHeader
    );
}

#[test]
fn first_of_repeated_headers_wins() {
    let headers = Headers::try_from("X-A: one\r\nx-a: two\r\n").unwrap();
    assert_eq!(headers.get("X-A"), Some("one"));
}

#[test]
fn header_values_and_names_are_trimmed() {
    let headers = Headers::try_from("  Name \t:   spaced value \u{a0}\r\n\r\n").unwrap();
    assert_eq!(headers.get("name"), Some("spaced value"));
}

#[test]
fn value_may_hold_colons() {
    let headers = Headers::try_from("Host: localhost:8080\r\n\r\n").unwrap();
    assert_eq!(headers.get("host"), Some("localhost:8080"));
}

#[test]
fn rejects_header_with_empty_name() {
    assert_eq!(
        Headers::try_from("  : value\r\n\r\n").unwrap_err(),
        ParseError::InvalidHeader
    );
}

#[test]
fn stops_at_first_empty_line() {
    let headers = Headers::try_from("A: 1\r\n\r\nnot a header\r\n").unwrap();
    assert_eq!(headers.get("a"), Some("1"));
    let headers = Headers::try_from("").unwrap();
    assert_eq!(headers.get("a"), None);
}

#[test]
fn last_line_without_line_end_counts() {
    let headers = Headers::try_from("A: 1\r\nB: 2").unwrap();
    assert_eq!(headers.get("b"), Some("2"));
}

#[test]
fn content_length_number_forms() {
    let headers = Headers::try_from("Content-Length: +7\r\n").unwrap();
    assert_eq!(headers.content_length(), Ok(Some(7)));
    let headers = Headers::try_from("Content-Length: 007\r\n").unwrap();
    assert_eq!(headers.content_length(), Ok(Some(7)));
    let headers = Headers::try_from("Content-Length: -7\r\n").unwrap();
    assert_eq!(headers.content_length(), Err(ParseError::InvalidHeader));
    let headers = Headers::try_from("Content-Length: +\r\n").unwrap();
    assert_eq!(headers.content_length(), Err(ParseError::InvalidHeader));
    let headers = Headers::try_from("Content-Length:\r\n").unwrap();
    assert_eq!(headers.content_length(), Err(ParseError::InvalidHeader));
    let headers = Headers::try_from("Content-Length: 99999999999999999999999\r\n").unwrap();
    assert_eq!(headers.content_length(), Err(ParseError::InvalidHeader));
    let max = format!("Content-Length: {}\r\n", usize::MAX);
    let headers = Headers::try_from(max.as_str()).unwrap();
    assert_eq!(headers.content_length(), Ok(Some(usize::MAX)));
}
