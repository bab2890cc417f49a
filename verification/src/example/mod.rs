pub mod api;
pub mod website;
