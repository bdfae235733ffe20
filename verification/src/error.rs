//! The closed failure taxonomy of the proxy.
//!
//! Every failure the proxy can meet is collapsed into one of these
//! variants at the boundary where it is first observed.

use vstd::prelude::*;

verus! {

/// What can go wrong while a session is handled.
///
/// - `AddressParse`: the target of an HTTP request line or of a
///   CONNECT request is malformed or missing.
/// - `Certificate`: certificate-store reads or writes failed, or the
///   signing collaborator could not produce a leaf certificate.
/// - `TlsIntercept`: the handshake with the real client (the proxy
///   acting as a server) failed.
/// - `TlsUpstream`: the handshake with the real destination (the proxy
///   acting as a client) failed.
/// - `MessageParse`: accumulated bytes cannot be interpreted as an
///   HTTP message; forwarding is never stopped by it.
/// - `Transport`: an underlying socket read or write failed.
/// - `Channel`: the observer channel is closed or a send failed.
#[derive(Clone, Copy, Debug, PartialEq, Eq, Structural)]
pub enum ProxyError {
    AddressParse,
    Certificate,
    TlsIntercept,
    TlsUpstream,
    MessageParse,
    Transport,
    Channel,
}

impl ProxyError {
    /// A short fixed description, one per variant.
    pub fn label(&self) -> (r: &'static str)
        ensures
            r@ == match *self {
                ProxyError::AddressParse => "address parse error"@,
                ProxyError::Certificate => "certificate error"@,
                ProxyError::TlsIntercept => "tls intercept error"@,
                ProxyError::TlsUpstream => "tls upstream error"@,
                ProxyError::MessageParse => "message parse error"@,
                ProxyError::Transport => "transport error"@,
                ProxyError::Channel => "channel error"@,
            },
    {
        match *self {
            ProxyError::AddressParse => "address parse error",
            ProxyError::Certificate => "certificate error",
            ProxyError::TlsIntercept => "tls intercept error",
            ProxyError::TlsUpstream => "tls upstream error",
            ProxyError::MessageParse => "message parse error",
            ProxyError::Transport => "transport error",
            ProxyError::Channel => "channel error",
        }
    }
}

} // verus!
