pub mod headers;
pub mod method;
pub mod query_string;
pub mod request;
pub mod response;
pub mod status_code;

pub use headers::Headers;
pub use method::Method;
pub use request::{ParseError, Request, MAX_BODY_SIZE, MAX_HEADERS_SIZE};
pub use response::Response;
pub use status_code::StatusCode;
