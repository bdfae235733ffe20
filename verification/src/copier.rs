//! The directional copier's per-read decision.
//!
//! A copier owns one direction of one session: it is handed each chunk
//! the source half yielded and says what to do — which bytes to write
//! to the destination half first, whether a completed message is owed
//! to the observer channel afterwards, and whether the copier is done.
//! The surrounding program performs the socket reads and writes and
//! the channel send; everything decided about the bytes is decided
//! here.

use vstd::prelude::*;

use crate::accumulator::{
    MessageAccumulator, spec_response_complete, spec_response_malformed,
};
use crate::bytes::{bytes_eq, copy_range, find_from, find_subseq};
use crate::data::Direction;

verus! {

/// The first space-delimited token of a read.
pub open spec fn spec_method_token(s: Seq<u8>) -> Seq<u8> {
    match find_from(s, seq![32u8], 0) {
        Some(sp) => s.take(sp),
        None => s,
    }
}

/// The tokens accepted as HTTP method names.
pub open spec fn is_http_method(t: Seq<u8>) -> bool {
    ||| t == seq![71u8, 69, 84]
    ||| t == seq![80u8, 79, 83, 84]
    ||| t == seq![80u8, 85, 84]
    ||| t == seq![68u8, 69, 76, 69, 84, 69]
    ||| t == seq![72u8, 69, 65, 68]
    ||| t == seq![79u8, 80, 84, 73, 79, 78, 83]
    ||| t == seq![67u8, 79, 78, 78, 69, 67, 84]
    ||| t == seq![84u8, 82, 65, 67, 69]
    ||| t == seq![80u8, 65, 84, 67, 72]
}

/// The request-boundary heuristic: a freshly read chunk opens a new
/// request exactly when its first space-delimited token is a method
/// name. A method token starting in mid-chunk is not seen.
pub open spec fn spec_starts_new_request(s: Seq<u8>) -> bool {
    is_http_method(spec_method_token(s))
}

/// Does this chunk begin a new request?
pub fn starts_new_request(chunk: &[u8]) -> (r: bool)
    ensures
        r == spec_starts_new_request(chunk@),
{
    let space: [u8; 1] = [32];
    proof {
        assert(space@ =~= seq![32u8]);
    }
    let n = chunk.len();
    let end = match find_subseq(chunk, space.as_slice(), 0) {
        Some(sp) => sp,
        None => n,
    };
    let token = &chunk[0..end];
    proof {
        assert(chunk@.subrange(0, end as int) == chunk@.take(end as int));
        if end == n {
            assert(chunk@.take(end as int) =~= chunk@);
        }
    }
    let m_get: [u8; 3] = [71, 69, 84];
    let m_post: [u8; 4] = [80, 79, 83, 84];
    let m_put: [u8; 3] = [80, 85, 84];
    let m_delete: [u8; 6] = [68, 69, 76, 69, 84, 69];
    let m_head: [u8; 4] = [72, 69, 65, 68];
    let m_options: [u8; 7] = [79, 80, 84, 73, 79, 78, 83];
    let m_connect: [u8; 7] = [67, 79, 78, 78, 69, 67, 84];
    let m_trace: [u8; 5] = [84, 82, 65, 67, 69];
    let m_patch: [u8; 5] = [80, 65, 84, 67, 72];
    proof {
        assert(m_get@ =~= seq![71u8, 69, 84]);
        assert(m_post@ =~= seq![80u8, 79, 83, 84]);
        assert(m_put@ =~= seq![80u8, 85, 84]);
        assert(m_delete@ =~= seq![68u8, 69, 76, 69, 84, 69]);
        assert(m_head@ =~= seq![72u8, 69, 65, 68]);
        assert(m_options@ =~= seq![79u8, 80, 84, 73, 79, 78, 83]);
        assert(m_connect@ =~= seq![67u8, 79, 78, 78, 69, 67, 84]);
        assert(m_trace@ =~= seq![84u8, 82, 65, 67, 69]);
        assert(m_patch@ =~= seq![80u8, 65, 84, 67, 72]);
    }
    bytes_eq(token, m_get.as_slice()) || bytes_eq(token, m_post.as_slice())
        || bytes_eq(token, m_put.as_slice()) || bytes_eq(token, m_delete.as_slice())
        || bytes_eq(token, m_head.as_slice()) || bytes_eq(token, m_options.as_slice())
        || bytes_eq(token, m_connect.as_slice()) || bytes_eq(token, m_trace.as_slice())
        || bytes_eq(token, m_patch.as_slice())
}

/// What the in-progress message holds after one step.
pub open spec fn spec_step_acc(dir: Direction, acc: Seq<u8>, chunk: Seq<u8>) -> Seq<u8> {
    if chunk.len() == 0 {
        acc
    } else if dir == Direction::ClientToServer {
        if spec_starts_new_request(chunk) {
            chunk
        } else {
            acc + chunk
        }
    } else {
        if spec_response_complete(acc + chunk) {
            Seq::empty()
        } else {
            acc + chunk
        }
    }
}

/// The message one step completes, if any: for the request direction
/// the previously assembled request once a new one opens, for the
/// response direction the assembled response once its declared body
/// is fully present.
pub open spec fn spec_step_completed(dir: Direction, acc: Seq<u8>, chunk: Seq<u8>) -> Option<
    Seq<u8>,
> {
    if chunk.len() == 0 {
        None
    } else if dir == Direction::ClientToServer {
        if spec_starts_new_request(chunk) {
            Some(acc)
        } else {
            None
        }
    } else {
        if spec_response_complete(acc + chunk) {
            Some(acc + chunk)
        } else {
            None
        }
    }
}

/// Whether one step finds the observation side-channel unable to parse
/// its bytes. Forwarding is never affected by it.
pub open spec fn spec_step_malformed(dir: Direction, acc: Seq<u8>, chunk: Seq<u8>) -> bool {
    chunk.len() > 0 && spec_response_malformed(spec_step_acc(dir, acc, chunk))
}

/// The concatenation of a run of reads, in read order.
pub open spec fn concat_all(chunks: Seq<Seq<u8>>) -> Seq<u8>
    decreases chunks.len(),
{
    if chunks.len() == 0 {
        Seq::empty()
    } else {
        concat_all(chunks.drop_last()) + chunks.last()
    }
}

/// One more read extends the concatenation by exactly that read.
proof fn lemma_concat_all_step(chunks: Seq<Seq<u8>>, i: int)
    requires
        0 <= i < chunks.len(),
    ensures
        concat_all(chunks.take(i + 1)) == concat_all(chunks.take(i)) + chunks[i],
{
    assert(chunks.take(i + 1).drop_last() =~= chunks.take(i));
    assert(chunks.take(i + 1).last() == chunks[i]);
}

/// The byte sequences a run of reads holds.
pub open spec fn chunk_views(chunks: Seq<Vec<u8>>) -> Seq<Seq<u8>> {
    chunks.map_values(|c: Vec<u8>| c@)
}

/// What one copy-loop iteration owes the surrounding program, in
/// order: first the forwarded bytes go to the destination half, only
/// then is a completed message handed to the observer channel.
pub struct StepOutcome {
    /// The exact bytes read, owed to the destination half before
    /// anything else is done.
    pub forward: Vec<u8>,
    /// A message completed by this read, owed to the observer channel
    /// after the bytes were forwarded.
    pub completed: Option<Vec<u8>>,
    /// The source half closed (zero-length read): the copier is done.
    pub done: bool,
    /// The bytes could not be parsed as HTTP; observation of this
    /// message is degraded, forwarding goes on.
    pub parse_failed: bool,
}

/// One direction of one session: the immutable direction tag and the
/// in-progress message being reassembled from the forwarded bytes.
pub struct Copier {
    /// Which way this copier forwards. Never changes.
    pub direction: Direction,
    /// The in-progress message of this direction.
    pub message: MessageAccumulator,
}

impl Copier {
    /// A fresh copier for one direction, with an empty message.
    pub fn new(direction: Direction) -> (r: Copier)
        ensures
            r.direction == direction,
            r.message@ == Seq::<u8>::empty(),
    {
        Copier { direction, message: MessageAccumulator::new() }
    }

    /// Decide one copy-loop iteration from the bytes one read yielded.
    ///
    /// The forwarded bytes are exactly the read bytes, whatever the
    /// in-progress message holds and whether or not parsing succeeds:
    /// observation never changes what is forwarded. A zero-length read
    /// ends the copier. The direction never changes.
    pub fn step(&mut self, chunk: &[u8]) -> (r: StepOutcome)
        ensures
            final(self).direction == old(self).direction,
            r.forward@ == chunk@,
            r.done == (chunk@.len() == 0),
            final(self).message@ == spec_step_acc(
                old(self).direction,
                old(self).message@,
                chunk@,
            ),
            (match r.completed {
                Some(m) => spec_step_completed(old(self).direction, old(self).message@, chunk@)
                    == Some(m@),
                None => spec_step_completed(old(self).direction, old(self).message@, chunk@)
                    is None,
            }),
            r.parse_failed == spec_step_malformed(
                old(self).direction,
                old(self).message@,
                chunk@,
            ),
    {
        let n = chunk.len();
        let forward = copy_range(chunk, 0, n);
        proof {
            assert(chunk@.subrange(0, n as int) =~= chunk@);
        }
        if n == 0 {
            return StepOutcome { forward, completed: None, done: true, parse_failed: false };
        }
        match self.direction {
            Direction::ClientToServer => {
                let boundary = starts_new_request(chunk);
                let mut completed: Option<Vec<u8>> = None;
                if boundary {
                    let mut fresh = MessageAccumulator::new();
                    core::mem::swap(&mut self.message, &mut fresh);
                    completed = Some(fresh.into_bytes());
                }
                let fed = self.message.feed(chunk);
                StepOutcome {
                    forward,
                    completed,
                    done: false,
                    parse_failed: fed.is_err(),
                }
            },
            Direction::ServerToClient => {
                let fed = self.message.feed(chunk);
                match fed {
                    Ok(true) => {
                        let mut fresh = MessageAccumulator::new();
                        core::mem::swap(&mut self.message, &mut fresh);
                        StepOutcome {
                            forward,
                            completed: Some(fresh.into_bytes()),
                            done: false,
                            parse_failed: false,
                        }
                    },
                    Ok(false) => StepOutcome {
                        forward,
                        completed: None,
                        done: false,
                        parse_failed: false,
                    },
                    Err(_) => StepOutcome {
                        forward,
                        completed: None,
                        done: false,
                        parse_failed: true,
                    },
                }
            },
        }
    }

    /// Round-trip law: drive the copier over a whole buffered source,
    /// one read at a time, collecting the bytes owed to the
    /// destination. The destination receives exactly the source bytes
    /// in order — the concatenation of the reads — however the source
    /// was chunked into reads and whatever this copier's in-progress
    /// message held: observation never changes the forwarded stream.
    pub fn run_chunks(&mut self, chunks: &Vec<Vec<u8>>) -> (out: Vec<u8>)
        ensures
            out@ == concat_all(chunk_views(chunks@)),
            final(self).direction == old(self).direction,
    {
        let ghost dir0 = self.direction;
        let mut out: Vec<u8> = Vec::new();
        let mut i: usize = 0;
        proof {
            assert(chunk_views(chunks@).take(0) =~= Seq::<Seq<u8>>::empty());
        }
        while i < chunks.len()
            invariant
                i <= chunks@.len(),
                out@ == concat_all(chunk_views(chunks@).take(i as int)),
                self.direction == dir0,
            decreases chunks@.len() - i,
        {
            let r = self.step(chunks[i].as_slice());
            proof {
                lemma_concat_all_step(chunk_views(chunks@), i as int);
            }
            let mut fw = r.forward;
            out.append(&mut fw);
            i = i + 1;
        }
        proof {
            assert(chunk_views(chunks@).take(chunks@.len() as int) =~= chunk_views(chunks@));
        }
        out
    }
}

} // verus!
