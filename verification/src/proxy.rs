//! Per-session parameters: the session identifier and the per-direction
//! copier state handed to each directional copy loop.

use vstd::prelude::*;

use crate::copier::Copier;
use crate::data::Direction;

verus! {

/// Relies on `uuid::Uuid::new_v4` and the `Display` impl of `Uuid`:
/// a freshly generated random version-4 UUID, rendered hyphenated,
/// which is exactly 36 ASCII characters. The value is random — that is
/// what makes it collision-resistant — so nothing is promised of it
/// beyond its length.
#[verifier::external_body]
fn fresh_session_id() -> (r: String)
    ensures
        r@.len() == 36,
{
    uuid::Uuid::new_v4().to_string()
}

/// What one directional copy loop carries: the session it belongs to
/// and the copier state of its one direction.
pub struct ProxyParam {
    /// The session identifier, shared by both directions of a session.
    pub sid: String,
    /// The direction tag and in-progress message.
    pub copier: Copier,
}

impl ProxyParam {
    /// Parameters for a fresh session: a new collision-resistant
    /// identifier, the client-to-server direction, and an empty
    /// in-progress message.
    pub fn new() -> (r: ProxyParam)
        ensures
            r.sid@.len() == 36,
            r.copier.direction == Direction::ClientToServer,
            r.copier.message@ == Seq::<u8>::empty(),
    {
        ProxyParam { sid: fresh_session_id(), copier: Copier::new(Direction::ClientToServer) }
    }

    /// Parameters for the other copy loop of the same session: the
    /// same identifier, the given direction, and a fresh empty
    /// message. The two loops get two independent instances; no
    /// direction value is ever flipped in place.
    pub fn fresh_for(&self, direction: Direction) -> (r: ProxyParam)
        ensures
            r.sid@ == self.sid@,
            r.copier.direction == direction,
            r.copier.message@ == Seq::<u8>::empty(),
    {
        ProxyParam { sid: self.sid.clone(), copier: Copier::new(direction) }
    }
}

} // verus!
