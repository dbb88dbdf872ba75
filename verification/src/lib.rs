//! A verified core for a minimal static-file HTTP server.
//!
//! The library holds everything a request's handling decides or computes:
//! parsing the request line, percent-decoding the target, containing the
//! served path inside the root, choosing a MIME type, rendering a directory
//! listing, and framing the HTTP response. The surrounding program performs
//! the socket and filesystem calls and hands their results in as plain
//! values.

pub mod bytes;
pub mod codec;
pub mod listing;
pub mod mime;
pub mod paths;
pub mod request;
pub mod response;
