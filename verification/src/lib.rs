//! Incremental extraction of MessagePack values from a chunked byte stream.
//!
//! Bytes arrive from a transport in chunks of arbitrary size and are kept in
//! an accumulation buffer. A decode attempt reads the buffer through a
//! [`Cursor`], which never changes it; only a successful attempt removes
//! bytes, and then exactly those of the value that was decoded.
//!
//! - [`cursor`]: sequential reads over a deque that may lie in two segments.
//! - [`decode`]: one decode attempt, made by `rmp_serde`.
//! - [`error`]: the two ways in which a receive fails.
//! - [`reader`]: the reader, and what one attempt and one fetch do to it.
//! - [`stream`]: whole receives over a stream held in memory, and what holds
//!   of them however the stream is cut into chunks.

pub mod cursor;
pub mod decode;
pub mod error;
pub mod reader;
pub mod stream;

pub use cursor::Cursor;
pub use error::ReadError;
pub use reader::RpcReader;
