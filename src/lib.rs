//! A static-asset responder core: a lazily filled, shared cache of file
//! payloads (optionally Brotli-compressed) and the formatting of the minimal
//! HTTP/1.1 responses that serve them.

pub mod cache;
pub mod payload;
pub mod response;
