//! Per-connection protocol handling: sniffing the first bytes of an
//! inbound connection, extracting the real target address, and
//! rewriting an absolute-form HTTP request line to origin form.
//!
//! These functions decide everything a session does before its two
//! directional copiers start; the surrounding program only performs
//! the socket and TLS work the returned plans call for.

use vstd::prelude::*;

use crate::bytes::{
    all_digits, dec_value, find_from, find_subseq, is_match_at, lemma_find_from_exact,
    parse_dec_u16, starts_with, copy_range,
};
use crate::error::ProxyError;

verus! {

/// The ASCII bytes of `CONNECT`.
pub open spec fn connect_token() -> Seq<u8> {
    seq![67u8, 79, 78, 78, 69, 67, 84]
}

/// The ASCII bytes of `CONNECT` followed by one space.
pub open spec fn connect_prefix() -> Seq<u8> {
    seq![67u8, 79, 78, 78, 69, 67, 84, 32]
}

/// The ASCII bytes of `http://`.
pub open spec fn http_scheme() -> Seq<u8> {
    seq![104u8, 116, 116, 112, 58, 47, 47]
}

/// The ASCII bytes of `HTTP/1.1 200 OK\r\n\r\n`, the tunnel-established
/// response owed to a client whose CONNECT request was accepted.
pub open spec fn established_response() -> Seq<u8> {
    seq![72u8, 84, 84, 80, 47, 49, 46, 49, 32, 50, 48, 48, 32, 79, 75, 13, 10, 13, 10]
}

fn connect_token_bytes() -> (r: [u8; 7])
    ensures
        r@ =~= connect_token(),
{
    [67, 79, 78, 78, 69, 67, 84]
}

fn connect_prefix_bytes() -> (r: [u8; 8])
    ensures
        r@ =~= connect_prefix(),
{
    [67, 79, 78, 78, 69, 67, 84, 32]
}

fn http_scheme_bytes() -> (r: [u8; 7])
    ensures
        r@ =~= http_scheme(),
{
    [104, 116, 116, 112, 58, 47, 47]
}

/// The tunnel-established response as owned bytes.
pub fn established_response_bytes() -> (r: Vec<u8>)
    ensures
        r@ =~= established_response(),
{
    let a: [u8; 19] = [72, 84, 84, 80, 47, 49, 46, 49, 32, 50, 48, 48, 32, 79, 75, 13, 10, 13, 10];
    let mut r: Vec<u8> = Vec::new();
    r.extend_from_slice(a.as_slice());
    r
}

/// How a freshly sniffed connection is to be handled.
#[derive(Clone, Copy, Debug, PartialEq, Eq, Structural)]
pub enum Protocol {
    /// Plain HTTP: rewrite the request line and forward in clear.
    HttpForward,
    /// A CONNECT request: answer it and intercept the TLS session.
    HttpsIntercept,
}

/// The protocol chosen for a first read: interception exactly when the
/// bytes begin with the literal `CONNECT`.
pub open spec fn spec_sniff(s: Seq<u8>) -> Protocol {
    if s.len() >= 7 && s.take(7) == connect_token() {
        Protocol::HttpsIntercept
    } else {
        Protocol::HttpForward
    }
}

/// Decide HTTP versus CONNECT/HTTPS from the first bytes read.
pub fn sniff_protocol(buf: &[u8]) -> (r: Protocol)
    ensures
        r == spec_sniff(buf@),
{
    let tok = connect_token_bytes();
    if starts_with(buf, tok.as_slice()) {
        Protocol::HttpsIntercept
    } else {
        Protocol::HttpForward
    }
}

/// A byte a hostname may hold: printable ASCII, but not a colon.
pub open spec fn is_host_byte(b: u8) -> bool {
    33 <= b <= 126 && b != 58
}

/// A nonempty token of host bytes.
pub open spec fn valid_host(h: Seq<u8>) -> bool {
    h.len() > 0 && forall|i: int| 0 <= i < h.len() ==> is_host_byte(#[trigger] h[i])
}

/// What a `host[:port]` token denotes.
///
/// The host is everything before the first colon; the digits after it
/// are the port. Without a colon the token is the host and the port is
/// 80, but only where a default is allowed (`CONNECT` targets name
/// their port themselves).
pub open spec fn spec_host_port(t: Seq<u8>, allow_default: bool) -> Option<(Seq<u8>, int)> {
    match find_from(t, seq![58u8], 0) {
        Some(c) => {
            let h = t.take(c);
            let p = t.subrange(c + 1, t.len() as int);
            if valid_host(h) && p.len() > 0 && all_digits(p) && dec_value(p) <= 65535 {
                Some((h, dec_value(p) as int))
            } else {
                None
            }
        },
        None => {
            if allow_default && valid_host(t) {
                Some((t, 80))
            } else {
                None
            }
        },
    }
}

/// Is every byte of `h` a host byte, and is `h` nonempty?
fn check_host(h: &[u8]) -> (r: bool)
    ensures
        r == valid_host(h@),
{
    if h.len() == 0 {
        return false;
    }
    let mut i: usize = 0;
    while i < h.len()
        invariant
            i <= h@.len(),
            forall|k: int| 0 <= k < i ==> is_host_byte(#[trigger] h@[k]),
        decreases h@.len() - i,
    {
        let b = h[i];
        if b < 33 || b > 126 || b == 58 {
            return false;
        }
        i = i + 1;
    }
    true
}

/// Split a `host[:port]` token.
fn parse_host_port(t: &[u8], allow_default: bool) -> (r: Option<(Vec<u8>, u16)>)
    ensures
        (match r {
            Some(hp) => spec_host_port(t@, allow_default) == Some((hp.0@, hp.1 as int)),
            None => spec_host_port(t@, allow_default) is None,
        }),
{
    let n = t.len();
    let colon: [u8; 1] = [58];
    proof {
        assert(colon@ =~= seq![58u8]);
    }
    match find_subseq(t, colon.as_slice(), 0) {
        Some(c) => {
            proof {
                assert(t@.subrange(0, c as int) == t@.take(c as int));
            }
            let host_ok = check_host(&t[0..c]);
            let port = parse_dec_u16(&t[c + 1..n]);
            if host_ok {
                match port {
                    Some(p) => Some((copy_range(t, 0, c), p)),
                    None => None,
                }
            } else {
                None
            }
        },
        None => {
            if allow_default && check_host(t) {
                proof {
                    assert(t@.subrange(0, t@.len() as int) =~= t@);
                }
                Some((copy_range(t, 0, t.len()), 80))
            } else {
                None
            }
        },
    }
}

/// The real destination a CONNECT request names.
#[derive(Debug)]
pub struct ConnectTarget {
    /// The hostname, also used as the SNI value of the interception.
    pub host: Vec<u8>,
    /// The destination port.
    pub port: u16,
}

/// What a CONNECT request denotes: the `host:port` token between the
/// literal `CONNECT ` and the following space, with a mandatory port.
pub open spec fn spec_parse_connect(s: Seq<u8>) -> Option<(Seq<u8>, int)> {
    if s.len() >= 8 && s.take(8) == connect_prefix() {
        match find_from(s, seq![32u8], 8) {
            Some(e) => spec_host_port(s.subrange(8, e), false),
            None => None,
        }
    } else {
        None
    }
}

/// Extract the destination of a CONNECT request.
///
/// Fails with `AddressParse` exactly when the bytes do not hold a
/// well-formed `CONNECT host:port ` prefix.
pub fn parse_connect_target(buf: &[u8]) -> (r: Result<ConnectTarget, ProxyError>)
    ensures
        (match r {
            Ok(t) => spec_parse_connect(buf@) == Some((t.host@, t.port as int)),
            Err(e) => e == ProxyError::AddressParse && spec_parse_connect(buf@) is None,
        }),
{
    let pre = connect_prefix_bytes();
    if !starts_with(buf, pre.as_slice()) {
        return Err(ProxyError::AddressParse);
    }
    let space: [u8; 1] = [32];
    proof {
        assert(space@ =~= seq![32u8]);
    }
    let e = match find_subseq(buf, space.as_slice(), 8) {
        Some(e) => e,
        None => {
            return Err(ProxyError::AddressParse);
        },
    };
    match parse_host_port(&buf[8..e], false) {
        Some(hp) => Ok(ConnectTarget { host: hp.0, port: hp.1 }),
        None => Err(ProxyError::AddressParse),
    }
}

/// Everything the surrounding program needs to intercept a CONNECT
/// session: where to connect, and the exact bytes owed to the client
/// before any TLS byte is exchanged.
#[derive(Debug)]
pub struct HttpsPlan {
    /// The destination and SNI value.
    pub target: ConnectTarget,
    /// Exactly `HTTP/1.1 200 OK\r\n\r\n`.
    pub established: Vec<u8>,
}

/// Decide a CONNECT session from its first bytes.
///
/// On success the plan's response bytes are exactly the
/// tunnel-established literal; on failure nothing is produced to
/// write, and the session is to be aborted with `AddressParse`.
pub fn plan_https(buf: &[u8]) -> (r: Result<HttpsPlan, ProxyError>)
    ensures
        (match r {
            Ok(p) => spec_parse_connect(buf@) == Some((p.target.host@, p.target.port as int))
                && p.established@ == established_response(),
            Err(e) => e == ProxyError::AddressParse && spec_parse_connect(buf@) is None,
        }),
{
    match parse_connect_target(buf) {
        Ok(target) => Ok(HttpsPlan { target, established: established_response_bytes() }),
        Err(e) => Err(e),
    }
}

/// Where an absolute-form request line keeps its authority: `st` is
/// the first occurrence of `http://`, `sl` the first slash after it.
pub open spec fn spec_http_bounds(s: Seq<u8>) -> Option<(int, int)> {
    match find_from(s, http_scheme(), 0) {
        Some(st) => match find_from(s, seq![47u8], st + 7) {
            Some(sl) => Some((st, sl)),
            None => None,
        },
        None => None,
    }
}

/// What a plain HTTP first read denotes: the destination host and
/// port, and the same bytes with the `http://host[:port]` segment
/// spliced out, turning the absolute-form request line into origin
/// form.
pub open spec fn spec_plan_http(s: Seq<u8>) -> Option<(Seq<u8>, int, Seq<u8>)> {
    match spec_http_bounds(s) {
        Some(bounds) => {
            let addr = s.subrange(bounds.0 + 7, bounds.1);
            match spec_host_port(addr, true) {
                Some(hp) => Some((hp.0, hp.1, s.take(bounds.0) + s.skip(bounds.1))),
                None => None,
            }
        },
        None => None,
    }
}

/// Everything the surrounding program needs to forward a plain HTTP
/// session: where to connect, and the rewritten bytes to send there.
#[derive(Debug)]
pub struct HttpForwardPlan {
    /// The destination host from the absolute URI.
    pub host: Vec<u8>,
    /// The destination port; 80 where the URI names none.
    pub port: u16,
    /// The first read, with the scheme-and-authority segment removed.
    pub rewritten: Vec<u8>,
}

/// Decide a plain HTTP session from its first bytes.
///
/// Fails with `AddressParse` exactly when no `http://` occurs, no
/// slash follows the authority, or the authority is not a well-formed
/// `host[:port]`; nothing is forwarded then.
pub fn plan_http(buf: &[u8]) -> (r: Result<HttpForwardPlan, ProxyError>)
    ensures
        (match r {
            Ok(p) => spec_plan_http(buf@) == Some((p.host@, p.port as int, p.rewritten@)),
            Err(e) => e == ProxyError::AddressParse && spec_plan_http(buf@) is None,
        }),
{
    let n = buf.len();
    let scheme = http_scheme_bytes();
    let st = match find_subseq(buf, scheme.as_slice(), 0) {
        Some(st) => st,
        None => {
            return Err(ProxyError::AddressParse);
        },
    };
    let slash: [u8; 1] = [47];
    proof {
        assert(slash@ =~= seq![47u8]);
    }
    let sl = match find_subseq(buf, slash.as_slice(), st + 7) {
        Some(sl) => sl,
        None => {
            return Err(ProxyError::AddressParse);
        },
    };
    match parse_host_port(&buf[st + 7..sl], true) {
        Some(hp) => {
            let mut rewritten = copy_range(buf, 0, st);
            rewritten.extend_from_slice(&buf[sl..n]);
            proof {
                assert(rewritten@ == buf@.take(st as int) + buf@.skip(sl as int));
            }
            Ok(HttpForwardPlan { host: hp.0, port: hp.1, rewritten })
        },
        None => Err(ProxyError::AddressParse),
    }
}

/// Rewriting law: for every first read of the shape
/// `<method-part>http://<authority><tail>` — where the method part
/// holds no earlier occurrence of the scheme, the authority holds no
/// slash and denotes host `h` and port `p`, and the tail begins with
/// the path's slash — the planned outbound bytes are exactly the
/// method part followed by the tail, so the method token and
/// everything from the path onward are preserved byte for byte while
/// the scheme and authority are spliced out.
pub proof fn lemma_http_rewrite(m: Seq<u8>, hp: Seq<u8>, tail: Seq<u8>, h: Seq<u8>, p: int)
    requires
        tail.len() > 0,
        tail[0] == 47,
        forall|i: int| 0 <= i < hp.len() ==> #[trigger] hp[i] != 47,
        spec_host_port(hp, true) == Some((h, p)),
        forall|q: int| 0 <= q < m.len()
            ==> !is_match_at(m + http_scheme() + hp + tail, http_scheme(), q),
    ensures
        spec_plan_http(m + http_scheme() + hp + tail) == Some((h, p, m + tail)),
{
    let s = m + http_scheme() + hp + tail;
    let st = m.len() as int;
    let sl = st + 7 + hp.len();
    assert(is_match_at(s, http_scheme(), st)) by {
        assert(s.subrange(st, st + 7) =~= http_scheme());
    }
    lemma_find_from_exact(s, http_scheme(), 0, st);
    assert(is_match_at(s, seq![47u8], sl)) by {
        assert(s.subrange(sl, sl + 1) =~= seq![47u8]);
    }
    assert forall|k: int| st + 7 <= k < sl implies !is_match_at(s, seq![47u8], k) by {
        assert(s[k] == hp[k - st - 7]);
        if is_match_at(s, seq![47u8], k) {
            assert(s.subrange(k, k + 1)[0] == s[k]);
        }
    }
    lemma_find_from_exact(s, seq![47u8], st + 7, sl);
    assert(s.subrange(st + 7, sl) =~= hp);
    assert(s.take(st) =~= m);
    assert(s.skip(sl) =~= tail);
}

/// Extraction law: for every CONNECT request of the shape
/// `CONNECT <target> <rest>` whose target holds no space and denotes
/// host `h` and port `p`, parsing yields exactly that host and port.
pub proof fn lemma_connect_parse(hp: Seq<u8>, rest: Seq<u8>, h: Seq<u8>, p: int)
    requires
        forall|i: int| 0 <= i < hp.len() ==> #[trigger] hp[i] != 32,
        spec_host_port(hp, false) == Some((h, p)),
    ensures
        spec_parse_connect(connect_prefix() + hp + seq![32u8] + rest) == Some((h, p)),
{
    let s = connect_prefix() + hp + seq![32u8] + rest;
    assert(s.take(8) =~= connect_prefix());
    let e: int = 8 + hp.len() as int;
    assert(is_match_at(s, seq![32u8], e)) by {
        assert(s.subrange(e, e + 1) =~= seq![32u8]);
    }
    assert forall|k: int| 8 <= k < e implies !is_match_at(s, seq![32u8], k) by {
        assert(s[k] == hp[k - 8]);
        if is_match_at(s, seq![32u8], k) {
            assert(s.subrange(k, k + 1)[0] == s[k]);
        }
    }
    lemma_find_from_exact(s, seq![32u8], 8, e);
    assert(s.subrange(8, e) =~= hp);
}

} // verus!
