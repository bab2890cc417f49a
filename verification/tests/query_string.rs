use http_server::http::query_string::QueryString;

#[test]
fn splits_pairs_and_keeps_last_value() {
    let query = QueryString::from("q=berry&page=1&limit=2&page=3");
    assert_eq!(query.get("q"), Some("berry"));
    assert_eq!(query.get("page"), Some("3"));
    assert_eq!(query.get("limit"), Some("2"));
    assert_eq!(query.get("missing"), None);
}

#[test]
fn key_without_value_and_empty_pieces() {
    let query = QueryString::from("&flag&&=v&k=");
    assert_eq!(query.get("flag"), Some(""));
    assert_eq!(query.get(""), Some("v"));
    assert_eq!(query.get("k"), Some(""));
}

#[test]
fn empty_query_has_nothing() {
    let query = QueryString::from("");
    assert_eq!(query.get(""), None);
}

#[test]
fn joined_query_strings_prefer_the_second() {
    let query = QueryString::from("a=1&b=2&a=3&c=4");
    assert_eq!(query.get("a"), Some("3"));
    assert_eq!(query.get("b"), Some("2"));
    assert_eq!(query.get("c"), Some("4"));
}
