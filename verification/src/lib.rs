//! A FastCGI (version 1) client core: record framing, the name-value
//! parameter codec, request encoding, response assembly and the state of one
//! connection, all free of I/O.
//!
//! - [`meta`]: record kinds, headers, the bodies of the discrete records, and
//!   the name-value pairs with their encoding.
//! - [`framer`]: records and streams of records, written to and read from
//!   byte buffers.
//! - [`params`]: the parameters of a request.
//! - [`request`]: a request and the records that carry it.
//! - [`response`]: a response and the assembler that collects it.
//! - [`client`]: the client of one connection.
//! - [`error`]: the errors of an exchange.
//! - [`endian`]: numbers in big-endian order.
//! - [`buffer`]: the byte buffers, `bytes::BytesMut` and `bytes::Bytes`. What
//!   they hold is described by [`buffer::buf_view`] and
//!   [`buffer::bytes_view`]; what their operations do is stated there and
//!   not proved.

pub mod buffer;
pub mod client;
pub mod endian;
pub mod error;
pub mod framer;
pub mod meta;
pub mod params;
pub mod request;
pub mod response;

pub use client::Client;
pub use error::{ClientError, ClientResult};
pub use params::Params;
pub use request::Request;
pub use response::Response;
