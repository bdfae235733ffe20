//! Progressive HTTP message accumulation.
//!
//! An accumulator is fed the raw bytes of one direction of one session
//! and decides when a complete message has been assembled. For the
//! response direction, completion is decided here: the header block
//! ends at the first blank line, and a body of the declared
//! `Content-Length` completes the message. A response that declares no
//! length runs until its connection closes and is never completed by
//! `feed`. For the request direction the copier decides boundaries
//! itself, by method-token sniffing, and ignores `feed`'s verdict.

use vstd::prelude::*;

use crate::bytes::{
    dec_value, find_from, find_subseq, is_digit, is_match_at, lower_seq, lemma_find_from,
    lemma_find_from_exact, lemma_find_from_none, lemma_is_match_take, match_at, parse_dec_u64,
    to_lower,
};
use crate::error::ProxyError;

verus! {

/// The ASCII bytes of the blank line ending a header block.
pub open spec fn crlfcrlf() -> Seq<u8> {
    seq![13u8, 10, 13, 10]
}

/// The case-folded ASCII bytes of `\r\ncontent-length:`.
pub open spec fn cl_pattern() -> Seq<u8> {
    seq![13u8, 10, 99, 111, 110, 116, 101, 110, 116, 45, 108, 101, 110, 103, 116, 104, 58]
}

/// The offset just past the first blank line, where the header block
/// of `s` ends — if `s` holds one yet.
pub open spec fn spec_header_end(s: Seq<u8>) -> Option<int> {
    match find_from(s, crlfcrlf(), 0) {
        Some(t) => Some(t + 4),
        None => None,
    }
}

/// The first index at or after `i` that is not a space or tab.
pub open spec fn skip_ws(s: Seq<u8>, i: int) -> int
    decreases s.len() - i + 1,
{
    if 0 <= i < s.len() && (s[i] == 32 || s[i] == 9) {
        skip_ws(s, i + 1)
    } else {
        i
    }
}

/// The first index at or after `i` that is not a decimal digit.
pub open spec fn digits_end(s: Seq<u8>, i: int) -> int
    decreases s.len() - i + 1,
{
    if 0 <= i < s.len() && is_digit(s[i]) {
        digits_end(s, i + 1)
    } else {
        i
    }
}

/// The run between `i` and `digits_end` is made of digits.
proof fn lemma_digits_end_digits(s: Seq<u8>, i: int)
    requires
        0 <= i <= s.len(),
    ensures
        i <= digits_end(s, i) <= s.len(),
        forall|k: int| i <= k < digits_end(s, i) ==> is_digit(#[trigger] s[k]),
    decreases s.len() - i,
{
    if i < s.len() && is_digit(s[i]) {
        lemma_digits_end_digits(s, i + 1);
    }
}

/// The digit run of the first `Content-Length` header of the header
/// block `hdr`: the digits after the header name, once case is folded
/// and leading blanks are skipped. `None` when no such header occurs.
pub open spec fn spec_cl_digits(hdr: Seq<u8>) -> Option<Seq<u8>> {
    let f = lower_seq(hdr);
    match find_from(f, cl_pattern(), 0) {
        Some(q) => {
            let b = skip_ws(f, q + 17);
            Some(f.subrange(b, digits_end(f, b)))
        },
        None => None,
    }
}

/// A usable declared length: at least one digit, and a value the
/// machine can hold.
pub open spec fn cl_wellformed(d: Seq<u8>) -> bool {
    d.len() > 0 && dec_value(d) <= u64::MAX
}

/// The case-folded ASCII bytes of `\r\ntransfer-encoding:`.
pub open spec fn te_pattern() -> Seq<u8> {
    seq![
        13u8, 10, 116, 114, 97, 110, 115, 102, 101, 114, 45, 101, 110, 99, 111, 100, 105, 110,
        103, 58,
    ]
}

/// The case-folded ASCII bytes of `chunked`.
pub open spec fn chunked_token() -> Seq<u8> {
    seq![99u8, 104, 117, 110, 107, 101, 100]
}

/// Chunked declaration over an already case-folded header block: the
/// first `transfer-encoding` header's value begins with `chunked`
/// after leading blanks.
pub open spec fn spec_chunked_declared_folded(f: Seq<u8>) -> bool {
    match find_from(f, te_pattern(), 0) {
        Some(q) => is_match_at(f, chunked_token(), skip_ws(f, q + 20)),
        None => false,
    }
}

/// Does the header block `hdr` declare a chunked body?
pub open spec fn spec_chunked_declared(hdr: Seq<u8>) -> bool {
    spec_chunked_declared_folded(lower_seq(hdr))
}

/// The ASCII bytes closing a chunked body: a line feed, the terminal
/// zero-size chunk, and the blank line after it.
pub open spec fn chunk_terminal() -> Seq<u8> {
    seq![10u8, 48, 13, 10, 13, 10]
}

/// A chunked body is taken as complete once at least the bare terminal
/// chunk follows the header block and the bytes end with the terminal
/// sequence. This is a documented heuristic: it recognises the end of
/// every well-formed chunked stream without trailers, and chunk data
/// cannot legally close a stream with these bytes.
pub open spec fn spec_chunked_complete(s: Seq<u8>, he: int) -> bool {
    s.len() - he >= 5 && is_match_at(s, chunk_terminal(), s.len() - 6)
}

/// A complete response: a finished header block, then a body of the
/// declared `Content-Length`, or — where no length is declared — a
/// chunked body closed by its terminal chunk.
pub open spec fn spec_response_complete(s: Seq<u8>) -> bool {
    match spec_header_end(s) {
        Some(he) => match spec_cl_digits(s.take(he)) {
            Some(d) => cl_wellformed(d) && s.len() - he >= dec_value(d),
            None => spec_chunked_declared(s.take(he)) && spec_chunked_complete(s, he),
        },
        None => false,
    }
}

/// Bytes that cannot be interpreted: a finished header block whose
/// `Content-Length` header carries no usable decimal value.
pub open spec fn spec_response_malformed(s: Seq<u8>) -> bool {
    match spec_header_end(s) {
        Some(he) => match spec_cl_digits(s.take(he)) {
            Some(d) => !cl_wellformed(d),
            None => false,
        },
        None => false,
    }
}

/// Boundary law: in a response stream whose header block ends at `he`
/// and declares the usable length written as the digit run `d`, a
/// prefix of the stream is complete exactly from the offset ending the
/// body onward — never a byte earlier, and at every longer prefix,
/// even when the body is followed by further bytes such as the next
/// response's status line.
pub proof fn lemma_response_boundary(s: Seq<u8>, he: int, d: Seq<u8>, k: int)
    requires
        spec_header_end(s) == Some(he),
        spec_cl_digits(s.take(he)) == Some(d),
        cl_wellformed(d),
        0 <= k <= s.len(),
    ensures
        spec_response_complete(s.take(k)) <==> k >= he + dec_value(d),
{
    let term = crlfcrlf();
    let t = he - 4;
    lemma_find_from(s, term, 0);
    if k < he {
        assert forall|q: int| q >= 0 implies !is_match_at(s.take(k), term, q) by {
            lemma_is_match_take(s, term, k, q);
        }
        lemma_find_from_none(s.take(k), term, 0);
        assert(!spec_response_complete(s.take(k)));
    } else {
        lemma_is_match_take(s, term, k, t);
        assert forall|q: int| 0 <= q < t implies !is_match_at(s.take(k), term, q) by {
            lemma_is_match_take(s, term, k, q);
        }
        lemma_find_from_exact(s.take(k), term, 0, t);
        assert(spec_header_end(s.take(k)) == Some(he));
        assert(s.take(k).take(he) =~= s.take(he));
    }
}

/// Is a chunked body declared by this case-folded header block?
fn chunked_declared_bytes(folded: &[u8]) -> (r: bool)
    ensures
        r == spec_chunked_declared_folded(folded@),
{
    let pat: [u8; 20] = [
        13, 10, 116, 114, 97, 110, 115, 102, 101, 114, 45, 101, 110, 99, 111, 100, 105, 110, 103,
        58,
    ];
    proof {
        assert(pat@ =~= te_pattern());
    }
    let q = match find_subseq(folded, pat.as_slice(), 0) {
        Some(q) => q,
        None => {
            return false;
        },
    };
    let fl = folded.len();
    let mut b: usize = q + 20;
    while b < fl && (folded[b] == 32 || folded[b] == 9)
        invariant
            q + 20 <= b <= fl,
            fl == folded@.len(),
            skip_ws(folded@, q + 20) == skip_ws(folded@, b as int),
        decreases fl - b,
    {
        b = b + 1;
    }
    assert(skip_ws(folded@, q + 20) == b as int);
    let tok: [u8; 7] = [99, 104, 117, 110, 107, 101, 100];
    proof {
        assert(tok@ =~= chunked_token());
    }
    if fl >= 7 && b <= fl - 7 {
        match_at(folded, tok.as_slice(), b)
    } else {
        false
    }
}

/// The partially assembled HTTP message of one direction of one
/// session. At most one exists per direction; completing it replaces
/// it with a fresh empty one.
pub struct MessageAccumulator {
    data: Vec<u8>,
}

impl View for MessageAccumulator {
    type V = Seq<u8>;

    closed spec fn view(&self) -> Seq<u8> {
        self.data@
    }
}

impl MessageAccumulator {
    /// A fresh, empty in-progress message.
    pub fn new() -> (r: Self)
        ensures
            r@ == Seq::<u8>::empty(),
    {
        MessageAccumulator { data: Vec::new() }
    }

    /// How many bytes have been assembled.
    pub fn len(&self) -> (r: usize)
        ensures
            r == self@.len(),
    {
        self.data.len()
    }

    /// The assembled bytes, surrendering the accumulator.
    pub fn into_bytes(self) -> (r: Vec<u8>)
        ensures
            r@ == self@,
    {
        self.data
    }

    /// Append one read's bytes and judge the result.
    ///
    /// The bytes are kept in all cases — observation must never lose
    /// what was forwarded. The verdict is `Ok(true)` exactly when the
    /// assembled bytes now form a complete response, `Ok(false)` when
    /// more bytes are owed, and `MessageParse` exactly when a declared
    /// `Content-Length` is unusable.
    pub fn feed(&mut self, chunk: &[u8]) -> (r: Result<bool, ProxyError>)
        ensures
            final(self)@ == old(self)@ + chunk@,
            (match r {
                Ok(c) => !spec_response_malformed(final(self)@) && c == spec_response_complete(final(self)@),
                Err(e) => e == ProxyError::MessageParse && spec_response_malformed(final(self)@),
            }),
    {
        self.data.extend_from_slice(chunk);
        let n = self.data.len();
        let term: [u8; 4] = [13, 10, 13, 10];
        proof {
            assert(term@ =~= crlfcrlf());
        }
        let t = match find_subseq(self.data.as_slice(), term.as_slice(), 0) {
            Some(t) => t,
            None => {
                return Ok(false);
            },
        };
        let he = t + 4;
        let folded = to_lower(&self.data.as_slice()[0..he]);
        proof {
            assert(self.data@.subrange(0, he as int) == self.data@.take(he as int));
        }
        let pat: [u8; 17] = [13, 10, 99, 111, 110, 116, 101, 110, 116, 45, 108, 101, 110, 103, 116, 104, 58];
        proof {
            assert(pat@ =~= cl_pattern());
        }
        let q = match find_subseq(folded.as_slice(), pat.as_slice(), 0) {
            Some(q) => q,
            None => {
                // no declared length: a chunked body may still end here
                if !chunked_declared_bytes(folded.as_slice()) {
                    return Ok(false);
                }
                let term6: [u8; 6] = [10, 48, 13, 10, 13, 10];
                proof {
                    assert(term6@ =~= chunk_terminal());
                }
                if n - he >= 5 {
                    return Ok(match_at(self.data.as_slice(), term6.as_slice(), n - 6));
                }
                return Ok(false);
            },
        };
        let fl = folded.len();
        let mut b: usize = q + 17;
        while b < fl && (folded[b] == 32 || folded[b] == 9)
            invariant
                q + 17 <= b <= fl,
                fl == folded@.len(),
                skip_ws(folded@, q + 17) == skip_ws(folded@, b as int),
            decreases fl - b,
        {
            b = b + 1;
        }
        assert(skip_ws(folded@, q + 17) == b as int);
        let mut de: usize = b;
        while de < fl && folded[de] >= 48 && folded[de] <= 57
            invariant
                b <= de <= fl,
                fl == folded@.len(),
                digits_end(folded@, b as int) == digits_end(folded@, de as int),
            decreases fl - de,
        {
            de = de + 1;
        }
        assert(digits_end(folded@, b as int) == de as int);
        proof {
            lemma_digits_end_digits(folded@, b as int);
            assert(crate::bytes::all_digits(folded@.subrange(b as int, de as int)));
        }
        match parse_dec_u64(&folded.as_slice()[b..de]) {
            Some(cl) => {
                let body_len = n - he;
                Ok(body_len as u64 >= cl)
            },
            None => Err(ProxyError::MessageParse),
        }
    }
}

/// The request and response of one proxied exchange, assembled side by
/// side.
pub struct HttpStream {
    request: MessageAccumulator,
    response: MessageAccumulator,
}

impl HttpStream {
    /// The bytes assembled for the request so far.
    pub closed spec fn req_bytes(&self) -> Seq<u8> {
        self.request@
    }

    /// The bytes assembled for the response so far.
    pub closed spec fn resp_bytes(&self) -> Seq<u8> {
        self.response@
    }

    /// A fresh exchange with nothing assembled.
    pub fn new() -> (r: HttpStream)
        ensures
            r.req_bytes() == Seq::<u8>::empty(),
            r.resp_bytes() == Seq::<u8>::empty(),
    {
        HttpStream { request: MessageAccumulator::new(), response: MessageAccumulator::new() }
    }

    /// Feed one read into the chosen side: the request side when `req`
    /// holds, the response side otherwise. The other side is untouched;
    /// the verdict is the fed side's.
    pub fn extend(&mut self, buffer: &[u8], req: bool) -> (r: Result<bool, ProxyError>)
        ensures
            req ==> final(self).req_bytes() == old(self).req_bytes() + buffer@
                && final(self).resp_bytes() == old(self).resp_bytes(),
            !req ==> final(self).resp_bytes() == old(self).resp_bytes() + buffer@
                && final(self).req_bytes() == old(self).req_bytes(),
            ({
                let fed = if req {
                    final(self).req_bytes()
                } else {
                    final(self).resp_bytes()
                };
                match r {
                    Ok(c) => !spec_response_malformed(fed) && c == spec_response_complete(fed),
                    Err(e) => e == ProxyError::MessageParse && spec_response_malformed(fed),
                }
            }),
    {
        if req {
            self.request.feed(buffer)
        } else {
            self.response.feed(buffer)
        }
    }
}

} // verus!
