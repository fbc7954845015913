//! HTTP/1.x messages: reading a request from text and writing a response as
//! text.

pub mod header;
pub mod path;
pub mod platform;
pub mod request;
pub mod response;
pub mod types;
