//! The example website: a welcome page and a greeting.
use vstd::prelude::*;
use vstd::string::*;
use vstd::utf8::*;

use crate::http::method::Method;
use crate::http::request::RequestView;
use crate::http::response::ResponseView;
use crate::http::{Request, Response, StatusCode};
use crate::server::Handler;
use crate::text::str_eq;

verus! {

/// What the website answers to a request: the request body back for
/// `POST /echo`, a page otherwise.
pub open spec fn website_response(req: RequestView) -> ResponseView {
    if req.method == Method::POST && req.path == "/echo"@ {
        echo_response(req)
    } else {
        page_response(req)
    }
}

/// The pages: one for `GET /`, one for `GET /hello`, "Not Found" for
/// anything else.
pub open spec fn page_response(req: RequestView) -> ResponseView {
    if req.method == Method::GET && req.path == "/"@ {
        ResponseView { status: StatusCode::OK, body: Some("Welcome"@) }
    } else if req.method == Method::GET && req.path == "/hello"@ {
        ResponseView { status: StatusCode::OK, body: Some("Hello"@) }
    } else {
        ResponseView { status: StatusCode::NotFound, body: Some("Not Found"@) }
    }
}

/// The answer to `POST /echo`: the body of the request, as text.
pub open spec fn echo_response(req: RequestView) -> ResponseView {
    match req.body {
        None => ResponseView { status: StatusCode::OK, body: None },
        Some(b) => if valid_utf8(b) {
            ResponseView { status: StatusCode::OK, body: Some(decode_utf8(b)) }
        } else {
            ResponseView { status: StatusCode::BadRequest, body: Some("Invalid UTF-8 body"@) }
        },
    }
}

/// `POST /echo` answers with the request body itself: a UTF-8 body comes back
/// with 200 as text whose UTF-8 bytes are exactly the body's bytes, no body
/// gives 200 with no body, and a body that is not UTF-8 is refused with 400.
pub proof fn lemma_echo_returns_body(req: RequestView)
    requires
        req.method == Method::POST,
        req.path == "/echo"@,
    ensures
        match req.body {
            Some(b) => if valid_utf8(b) {
                website_response(req).status == StatusCode::OK && (website_response(
                    req,
                ).body matches Some(t) && encode_utf8(t) == b)
            } else {
                website_response(req).status == StatusCode::BadRequest
            },
            None => website_response(req).status == StatusCode::OK && website_response(
                req,
            ).body is None,
        },
{
    if let Some(b) = req.body {
        if valid_utf8(b) {
            decode_utf8_encode_utf8(b);
        }
    }
}

/// Echoes the body of `request` back.
pub fn echo(request: &Request) -> (r: Response)
    ensures
        r@ == echo_response(request@),
{
    match request.body_text() {
        None => Response::new(StatusCode::OK, None),
        Some(Ok(text)) => Response::new(StatusCode::OK, Some(String::from_str(text))),
        Some(Err(_)) => Response::new(
            StatusCode::BadRequest,
            Some(String::from_str("Invalid UTF-8 body")),
        ),
    }
}

/// The pages of the example website.
pub struct WebsiteHandler;

impl WebsiteHandler {
    /// The page that answers `request`.
    pub fn page(&self, request: &Request) -> (r: Response)
        ensures
            r@ == page_response(request@),
    {
        match request.method() {
            Method::GET => {
                if str_eq(request.path(), "/") {
                    Response::new(StatusCode::OK, Some(String::from_str("Welcome")))
                } else if str_eq(request.path(), "/hello") {
                    Response::new(StatusCode::OK, Some(String::from_str("Hello")))
                } else {
                    Response::new(StatusCode::NotFound, Some(String::from_str("Not Found")))
                }
            },
            _ => Response::new(StatusCode::NotFound, Some(String::from_str("Not Found"))),
        }
    }
}

impl Handler for WebsiteHandler {
    fn handle_request(&mut self, request: &Request) -> (r: Response)
        ensures
            r@ == website_response(request@),
    {
        if request.method() == Method::POST && str_eq(request.path(), "/echo") {
            echo(request)
        } else {
            self.page(request)
        }
    }
}

} // verus!
