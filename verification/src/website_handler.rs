//! The website, with the API reachable under `/api`.
use vstd::prelude::*;

use crate::app_handler::routed_result;
use crate::example::api::ApiHandler;
use crate::http::method::Method;
use crate::http::{Request, Response, StatusCode};
use crate::server::Handler;
use crate::text::{str_eq, str_starts_with};
use vstd::string::*;

verus! {

pub struct WebsiteHandler {
    api: ApiHandler,
}

impl View for WebsiteHandler {
    type V = Seq<Seq<char>>;

    /// The items of the API.
    closed spec fn view(&self) -> Seq<Seq<char>> {
        self.api@
    }
}

impl WebsiteHandler {
    pub fn new(api: ApiHandler) -> (r: WebsiteHandler)
        ensures
            r@ == api@,
    {
        WebsiteHandler { api }
    }
}

impl Handler for WebsiteHandler {
    fn handle_request(&mut self, request: &Request) -> (r: Response)
        ensures
            (r@, final(self)@) == routed_result(old(self)@, request@),
    {
        if str_starts_with(request.path(), "/api") {
            return self.api.handle_request(request);
        }
        match request.method() {
            Method::GET => {
                if str_eq(request.path(), "/") {
                    Response::new(StatusCode::OK, Some(String::from_str("Welcome")))
                } else if str_eq(request.path(), "/hello") {
                    Response::new(StatusCode::OK, Some(String::from_str("Hello")))
                } else {
                    Response::new(StatusCode::NotFound, Some(String::from_str("Not Found")))
                }
            },
            _ => Response::new(StatusCode::NotFound, Some(String::from_str("Not Found"))),
        }
    }
}

} // verus!
