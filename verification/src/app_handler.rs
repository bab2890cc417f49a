//! One handler for both example applications: the API under `/api`, the
//! website elsewhere.
use vstd::prelude::*;

use crate::example::api::{api_result, ApiHandler};
use crate::example::website::{page_response, WebsiteHandler};
use crate::http::request::RequestView;
use crate::http::response::ResponseView;
use crate::http::{Request, Response};
use crate::server::Handler;
use crate::text::{starts_with, str_starts_with};

verus! {

/// The answer to a request whose path starts with `/api` comes from the API,
/// any other from the website's pages; and the API's items after it.
pub open spec fn routed_result(items: Seq<Seq<char>>, req: RequestView) -> (
    ResponseView,
    Seq<Seq<char>>,
) {
    if starts_with(req.path, "/api"@) {
        api_result(items, req)
    } else {
        (page_response(req), items)
    }
}

pub struct AppHandler {
    website: WebsiteHandler,
    api: ApiHandler,
}

impl View for AppHandler {
    type V = Seq<Seq<char>>;

    /// The items of the API.
    closed spec fn view(&self) -> Seq<Seq<char>> {
        self.api@
    }
}

impl AppHandler {
    pub fn new(api: ApiHandler) -> (r: AppHandler)
        ensures
            r@ == api@,
    {
        AppHandler { website: WebsiteHandler, api }
    }
}

impl Handler for AppHandler {
    fn handle_request(&mut self, request: &Request) -> (r: Response)
        ensures
            (r@, final(self)@) == routed_result(old(self)@, request@),
    {
        if str_starts_with(request.path(), "/api") {
            return self.api.handle_request(request);
        }
        self.website.page(request)
    }
}

} // verus!
