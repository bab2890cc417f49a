use http_server::app_handler::AppHandler;
use http_server::example::api::{escape_json, ApiHandler};
use http_server::example::website::WebsiteHandler;
use http_server::http::{Request, Response, StatusCode};
use http_server::server::Handler;
use http_server::website_handler::WebsiteHandler as RoutingWebsiteHandler;

fn text_of(response: &Response) -> String {
    let mut out = String::new();
    response.send(&mut out);
    out
}

fn body_of(response: &Response) -> String {
    let text = text_of(response);
    let start = text.find("\r\n\r\n").unwrap() + 4;
    text[start..].to_string()
}

fn status_of(response: &Response) -> u16 {
    let text = text_of(response);
    text[9..12].parse().unwrap()
}

fn call(handler: &mut impl Handler, raw: &str) -> Response {
    let request = Request::try_from(raw.as_bytes()).unwrap();
    handler.handle_request(&request)
}

fn api() -> ApiHandler {
    ApiHandler::from_text("apple\n  Blueberry  \r\n\n  \ncherry\nStrawberry\ngooseberry")
}

#[test]
fn website_pages() {
    let mut site = WebsiteHandler;
    let r = call(&mut site, "GET / HTTP/1.1\r\n\r\n");
    assert_eq!((status_of(&r), body_of(&r)), (200, "Welcome".to_string()));
    let r = call(&mut site, "GET /hello HTTP/1.1\r\n\r\n");
    assert_eq!((status_of(&r), body_of(&r)), (200, "Hello".to_string()));
    let r = call(&mut site, "GET /nope HTTP/1.1\r\n\r\n");
    assert_eq!((status_of(&r), body_of(&r)), (404, "Not Found".to_string()));
    let r = call(&mut site, "PUT / HTTP/1.1\r\n\r\n");
    assert_eq!((status_of(&r), body_of(&r)), (404, "Not Found".to_string()));
}

#[test]
fn website_echoes_post_body() {
    let mut site = WebsiteHandler;
    let r = call(&mut site, "POST /echo HTTP/1.1\r\nContent-Length: 4\r\n\r\nping");
    assert_eq!((status_of(&r), body_of(&r)), (200, "ping".to_string()));
    let r = call(&mut site, "POST /echo HTTP/1.1\r\n\r\n");
    assert_eq!((status_of(&r), body_of(&r)), (200, String::new()));
}

#[test]
fn echo_rejects_binary_body() {
    let mut site = WebsiteHandler;
    let mut raw = b"POST /echo HTTP/1.1\r\nContent-Length: 1\r\n\r\n".to_vec();
    raw.push(0xff);
    let request = Request::try_from(raw.as_slice()).unwrap();
    let r = site.handle_request(&request);
    assert_eq!((status_of(&r), body_of(&r)), (400, "Invalid UTF-8 body".to_string()));
}

#[test]
fn bad_request_default_answer() {
    let mut site = WebsiteHandler;
    let r = site.handle_bad_request(&http_server::http::ParseError::Incomplete);
    assert_eq!((status_of(&r), body_of(&r)), (400, "Bad Request".to_string()));
}

#[test]
fn api_ready_and_not_found() {
    let mut api = api();
    let r = call(&mut api, "GET / HTTP/1.1\r\n\r\n");
    assert_eq!(status_of(&r), 200);
    assert_eq!(
        body_of(&r),
        "{\"message\":\"API ready\",\"endpoints\":[\"GET /items?q=&page=1&limit=10\",\"POST /items\"]}"
    );
    let r = call(&mut api, "DELETE /items HTTP/1.1\r\n\r\n");
    assert_eq!((status_of(&r), body_of(&r)), (404, "Not Found".to_string()));
}

#[test]
fn api_lists_all_items_by_default() {
    let mut api = api();
    let r = call(&mut api, "GET /items HTTP/1.1\r\n\r\n");
    assert_eq!(
        body_of(&r),
        "{\"items\":[\"apple\",\"Blueberry\",\"cherry\",\"Strawberry\",\"gooseberry\"],\"page\":1,\"limit\":10,\"total\":5}"
    );
}

#[test]
fn api_searches_and_pages() {
    let mut api = api();
    let r = call(&mut api, "GET /items?q=BERRY&page=1&limit=2 HTTP/1.1\r\n\r\n");
    assert_eq!(
        body_of(&r),
        "{\"items\":[\"Blueberry\",\"Strawberry\"],\"page\":1,\"limit\":2,\"total\":3}"
    );
    let r = call(&mut api, "GET /items?q=berry&page=2&limit=2 HTTP/1.1\r\n\r\n");
    assert_eq!(
        body_of(&r),
        "{\"items\":[\"gooseberry\"],\"page\":2,\"limit\":2,\"total\":3}"
    );
    let r = call(&mut api, "GET /items?q=berry&page=9&limit=2 HTTP/1.1\r\n\r\n");
    assert_eq!(body_of(&r), "{\"items\":[],\"page\":9,\"limit\":2,\"total\":3}");
}

#[test]
fn api_ignores_bad_page_and_limit() {
    let mut api = api();
    let r = call(&mut api, "GET /items?page=0&limit=x HTTP/1.1\r\n\r\n");
    assert!(body_of(&r).ends_with("\"page\":1,\"limit\":10,\"total\":5}"));
    let huge = format!("GET /items?page={}&limit={} HTTP/1.1\r\n\r\n", usize::MAX, usize::MAX);
    let r = call(&mut api, &huge);
    assert_eq!(
        body_of(&r),
        format!("{{\"items\":[],\"page\":{},\"limit\":{},\"total\":5}}", usize::MAX, usize::MAX)
    );
}

#[test]
fn api_adds_items() {
    let mut api = api();
    let r = call(&mut api, "POST /items HTTP/1.1\r\nContent-Length: 16\r\n\r\n  dragon\"fruit\\ ");
    assert_eq!(status_of(&r), 200);
    assert_eq!(body_of(&r), "{\"item\":\"dragon\\\"fruit\\\\\",\"total\":6}");
    let r = call(&mut api, "GET /items?q=dragon HTTP/1.1\r\n\r\n");
    assert_eq!(
        body_of(&r),
        "{\"items\":[\"dragon\\\"fruit\\\\\"],\"page\":1,\"limit\":10,\"total\":1}"
    );
}

#[test]
fn api_rejects_bad_bodies() {
    let mut api = api();
    let r = call(&mut api, "POST /items HTTP/1.1\r\n\r\n");
    assert_eq!((status_of(&r), body_of(&r)), (400, "Missing body".to_string()));
    let r = call(&mut api, "POST /items HTTP/1.1\r\nContent-Length: 3\r\n\r\n \t ");
    assert_eq!((status_of(&r), body_of(&r)), (400, "Empty body".to_string()));
    let mut raw = b"POST /items HTTP/1.1\r\nContent-Length: 2\r\n\r\n".to_vec();
    raw.extend_from_slice(&[0xc3, 0x28]);
    let request = Request::try_from(raw.as_slice()).unwrap();
    let r = api.handle_request(&request);
    assert_eq!((status_of(&r), body_of(&r)), (400, "Invalid UTF-8 body".to_string()));
    let r = call(&mut api, "GET /items HTTP/1.1\r\n\r\n");
    assert!(body_of(&r).ends_with("\"total\":5}"));
}

#[test]
fn json_escaping() {
    assert_eq!(escape_json("a\"b\\c"), "a\\\"b\\\\c");
    assert_eq!(escape_json(""), "");
}

#[test]
fn search_lowercases_by_unicode() {
    let mut api = ApiHandler::from_text("\u{c9}CLAIR\nbread");
    let r = call(&mut api, "GET /items?q=%C3 HTTP/1.1\r\n\r\n");
    assert!(body_of(&r).ends_with("\"total\":0}"));
    let r = call(&mut api, "GET /items?q=CLAIR HTTP/1.1\r\n\r\n");
    assert_eq!(
        body_of(&r),
        "{\"items\":[\"\u{c9}CLAIR\"],\"page\":1,\"limit\":10,\"total\":1}"
    );
}

#[test]
fn app_routes_api_paths() {
    let mut app = AppHandler::new(api());
    let r = call(&mut app, "GET /hello HTTP/1.1\r\n\r\n");
    assert_eq!(body_of(&r), "Hello");
    let r = call(&mut app, "GET /api HTTP/1.1\r\n\r\n");
    assert_eq!((status_of(&r), body_of(&r)), (404, "Not Found".to_string()));
    let mut routed = RoutingWebsiteHandler::new(api());
    let r = call(&mut routed, "GET / HTTP/1.1\r\n\r\n");
    assert_eq!(body_of(&r), "Welcome");
    let r = call(&mut routed, "GET /api/items HTTP/1.1\r\n\r\n");
    assert_eq!(status_of(&r), 404);
}

#[test]
fn only_the_example_website_echoes() {
    let raw = "POST /echo HTTP/1.1\r\nContent-Length: 4\r\n\r\nping";
    let mut app = AppHandler::new(api());
    let r = call(&mut app, raw);
    assert_eq!((status_of(&r), body_of(&r)), (404, "Not Found".to_string()));
    let mut routed = RoutingWebsiteHandler::new(api());
    let r = call(&mut routed, raw);
    assert_eq!((status_of(&r), body_of(&r)), (404, "Not Found".to_string()));
}

#[test]
fn pages_together_give_every_match_once() {
    let mut api = ApiHandler::from_text("a1\nb\na2\na3\nc\na4\na5\na6\na7");
    let mut all = Vec::new();
    for page in 1..=3 {
        let r = call(&mut api, &format!("GET /items?q=a&page={}&limit=3 HTTP/1.1\r\n\r\n", page));
        let body = body_of(&r);
        assert!(body.ends_with("\"total\":7}"));
        let start = body.find('[').unwrap() + 1;
        let end = body.find(']').unwrap();
        all.push(body[start..end].to_string());
    }
    assert_eq!(all.join(","), "\"a1\",\"a2\",\"a3\",\"a4\",\"a5\",\"a6\",\"a7\"");
    let r = call(&mut api, "GET /items?q=a&page=4&limit=3 HTTP/1.1\r\n\r\n");
    assert!(body_of(&r).starts_with("{\"items\":[],"));
}

#[test]
fn bad_request_leaves_items_alone() {
    let mut api = api();
    let _ = api.handle_bad_request(&http_server::http::ParseError::InvalidHeader);
    let r = call(&mut api, "GET /items HTTP/1.1\r\n\r\n");
    assert!(body_of(&r).ends_with("\"total\":5}"));
}
