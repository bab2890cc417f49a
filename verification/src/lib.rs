//! A small HTTP/1.1 server library: request parsing, headers, query
//! strings, responses, and the handlers of two example applications.
pub mod http;
pub mod text;
pub mod server;
pub mod example;
pub mod app_handler;
pub mod website_handler;
