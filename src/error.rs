//! The errors the client reports.
use vstd::prelude::*;

verus! {

/// What went wrong in a call.
#[derive(Debug)]
pub enum Error {
    /// The connection failed: connect, read, write, flush or a timeout.
    Io(String),
    /// Bytes that do not decode as a message, or a message too large to frame.
    Protobuf(String),
    /// The server answered with `ok` unset or false; its error text.
    Riemann(String),
    /// The CA certificate could not be loaded.
    CACert(String),
    /// The client certificate or key could not be loaded.
    Key(String),
    /// The TLS session could not be set up.
    Tls(String),
}

impl Error {
    /// The text the error carries.
    pub open spec fn text(&self) -> Seq<char> {
        match self {
            Error::Io(s) => s@,
            Error::Protobuf(s) => s@,
            Error::Riemann(s) => s@,
            Error::CACert(s) => s@,
            Error::Key(s) => s@,
            Error::Tls(s) => s@,
        }
    }

    /// The text the error carries: for a server rejection, exactly the
    /// server's error string.
    pub fn message(&self) -> (r: &str)
        ensures
            r@ == self.text(),
    {
        match self {
            Error::Io(s) => s.as_str(),
            Error::Protobuf(s) => s.as_str(),
            Error::Riemann(s) => s.as_str(),
            Error::CACert(s) => s.as_str(),
            Error::Key(s) => s.as_str(),
            Error::Tls(s) => s.as_str(),
        }
    }
}

} // verus!
