//! A minimal HTTP/1.1 request/response engine over a borrowed duplex connection.
//!
//! The library holds the byte-level logic: encoding a request head, finding the
//! header terminator, parsing the status line and the headers that matter, and
//! planning how much of the payload is still to be read into the caller's buffer.
//! Whoever owns the connection performs the reads and writes that these steps call for.
pub mod client;
pub mod decode;
pub mod encode;
pub mod lexical;
pub mod number;
pub mod request;
pub mod roundtrip;
