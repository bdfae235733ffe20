//! The connection acceptor's life cycle and failure-isolation rule.
//!
//! The acceptor owns the listening socket. It fails fatally only if
//! binding fails; once accepting, no session's outcome — however the
//! session ended — moves it out of the accepting state. The
//! surrounding program performs the bind and the accept calls and
//! reports each outcome here.

use vstd::prelude::*;

use crate::error::ProxyError;

verus! {

/// Where the acceptor stands in its life cycle.
#[derive(Clone, Copy, Debug, PartialEq, Eq, Structural)]
pub enum AcceptorState {
    /// The listening address is not bound yet.
    Binding,
    /// Bound; inbound connections are being accepted, forever.
    Accepting,
    /// The bind failed: the one fatal failure the acceptor knows.
    Failed,
}

/// The acceptor's decision state.
pub struct Acceptor {
    /// The current life-cycle state.
    pub state: AcceptorState,
}

impl Acceptor {
    /// A fresh acceptor, about to bind.
    pub fn new() -> (r: Acceptor)
        ensures
            r.state == AcceptorState::Binding,
    {
        Acceptor { state: AcceptorState::Binding }
    }

    /// Record the outcome of the bind: the only step that can end the
    /// acceptor.
    pub fn on_bind(&mut self, ok: bool) -> (fatal: bool)
        requires
            old(self).state == AcceptorState::Binding,
        ensures
            final(self).state == if ok {
                AcceptorState::Accepting
            } else {
                AcceptorState::Failed
            },
            fatal == !ok,
    {
        if ok {
            self.state = AcceptorState::Accepting;
        } else {
            self.state = AcceptorState::Failed;
        }
        !ok
    }

    /// Isolation law: record one session's end. Whatever the outcome —
    /// clean close, malformed input, a failed handshake, a transport
    /// error — the acceptor stays accepting, so every subsequent
    /// connection is still served; a failure is only handed back to be
    /// logged.
    pub fn on_session_end(&mut self, outcome: Result<(), ProxyError>) -> (log: Option<
        ProxyError,
    >)
        requires
            old(self).state == AcceptorState::Accepting,
        ensures
            final(self).state == AcceptorState::Accepting,
            log == (match outcome {
                Ok(_) => None::<ProxyError>,
                Err(e) => Some(e),
            }),
    {
        match outcome {
            Ok(_) => None,
            Err(e) => Some(e),
        }
    }
}

} // verus!
