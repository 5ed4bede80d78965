//! An embedded HTTP/1.1 request/response engine for a file-sharing server.
//!
//! The engine turns the raw bytes read from a connection into structured
//! request facts (requested path, byte-range bounds, Basic/Digest
//! authorization claims), verifies client identity against server-held
//! credentials, and assembles correctly framed, status-coded responses,
//! including the header block for streaming a bounded byte window of a file.
//!
//! All transport, filesystem and console work lives outside this crate; the
//! engine itself is pure: bytes in, decisions and bytes out.

pub mod bytes_util;
pub mod digest;
pub mod request;
pub mod response;

pub use digest::{DigestError, DigestParams};
pub use request::{HTTPRequest, RangeError};
pub use response::HTTPResponse;
