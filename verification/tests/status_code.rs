use http_server::http::StatusCode;

#[test]
fn reason_phrases_cover_all_variants() {
    assert_eq!(StatusCode::OK.reason_phrase(), "OK");
    assert_eq!(StatusCode::BadRequest.reason_phrase(), "Bad Request");
    assert_eq!(StatusCode::NotFound.reason_phrase(), "Not Found");
    assert_eq!(
        StatusCode::InternalServerError.reason_phrase(),
        "Internal Server Error"
    );
}

#[test]
fn numeric_codes() {
    assert_eq!(StatusCode::OK.as_u16(), 200);
    assert_eq!(StatusCode::BadRequest.as_u16(), 400);
    assert_eq!(StatusCode::NotFound.as_u16(), 404);
    assert_eq!(StatusCode::InternalServerError.as_u16(), 500);
}
