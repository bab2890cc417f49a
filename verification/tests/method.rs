use http_server::http::Method;

#[test]
fn parses_known_methods() {
    for (raw, expected) in [
        ("GET", Method::GET),
        ("DELETE", Method::DELETE),
        ("POST", Method::POST),
        ("PUT", Method::PUT),
    ] {
        assert_eq!(raw.parse::<Method>().unwrap(), expected);
    }
}

#[test]
fn rejects_unknown_method() {
    assert!("FOO".parse::<Method>().is_err());
}

#[test]
fn parses_every_method_name_and_only_in_upper_case() {
    for (raw, expected) in [
        ("HEAD", Method::HEAD),
        ("OPTIONS", Method::OPTIONS),
        ("TRACE", Method::TRACE),
        ("PATCH", Method::PATCH),
    ] {
        assert_eq!(Method::from_name(raw).unwrap(), expected);
    }
    assert!(Method::from_name("get").is_err());
    assert!(Method::from_name("").is_err());
    assert!(Method::from_name("GET ").is_err());
}
