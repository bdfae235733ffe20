//! Core logic of a man-in-the-middle HTTP/HTTPS forward proxy.
//!
//! The crate holds the verified parts of the proxy: protocol sniffing,
//! target-address extraction and request-line rewriting, progressive
//! HTTP message accumulation, the per-direction copy step, the
//! certificate cache, and the acceptor's failure-isolation rule.
//! Sockets, TLS handshakes and the observer loop live outside, in the
//! surrounding program, which drives these functions with plain bytes.

pub mod acceptor;
pub mod accumulator;
pub mod bytes;
pub mod cert_cache;
pub mod copier;
pub mod data;
pub mod error;
pub mod proxy;
pub mod session;

pub use error::ProxyError;
