//! The decisions of a media proxy and of the database agent behind it.

pub mod agent;
pub mod config;
pub mod headers;
pub mod http;
pub mod http_laws;
pub mod ping;
pub mod request;
pub mod session;
pub mod text;
pub mod wire;
