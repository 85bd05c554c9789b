use vstd::prelude::*;

verus! {

#[verifier::external_type_specification]
#[verifier::external_body]
pub struct ExErrorKind(embedded_io::ErrorKind);

/// Errors that can be returned by the HTTP client.
#[derive(Debug)]
pub enum Error {
    /// An error of the underlying connection, as the connection reported it.
    Network(embedded_io::ErrorKind),
    /// Bytes that could not be encoded or decoded.
    Codec,
}

impl From<embedded_io::ErrorKind> for Error {
    fn from(e: embedded_io::ErrorKind) -> (r: Error) {
        Error::Network(e)
    }
}

impl vstd::std_specs::convert::FromSpecImpl<embedded_io::ErrorKind> for Error {
    open spec fn obeys_from_spec() -> bool {
        true
    }

    open spec fn from_spec(e: embedded_io::ErrorKind) -> Error {
        Error::Network(e)
    }
}

/// An HTTP client for one connection handle and one target host.
///
/// The connection is borrowed for the lifetime of the client and is never closed by it.
pub struct HttpClient<'a, N> {
    pub connection: N,
    pub host: &'a str,
}

impl<'a, N> HttpClient<'a, N> {
    /// Creates a client for a given connection handle and a target host.
    pub fn new(connection: N, host: &'a str) -> (r: Self)
        ensures
            r.connection == connection,
            r.host == host,
    {
        HttpClient { connection, host }
    }
}

} // verus!
