//! A minimal HTTP/1.1 message layer: request parsing, response building,
//! wire serialization and the per-connection decision logic of a static
//! file server.

pub mod connection;
pub mod decimal;
pub mod headers;
pub mod request;
pub mod response;
pub mod roundtrip;
pub mod text;
pub mod wire;

pub use crate::headers::HeaderMap;
pub use crate::request::{ParseFailure, RequestMessage};
pub use crate::response::ResponseMessage;
