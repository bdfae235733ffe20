use mitm_proxy::acceptor::{Acceptor, AcceptorState};
use mitm_proxy::bytes::{find_subseq, parse_dec_u16, parse_dec_u64, starts_with, to_lower};
use mitm_proxy::cert_cache::{CertCache, CertEntry};
use mitm_proxy::data::{Direction, FilterMode};
use mitm_proxy::error::ProxyError;
use mitm_proxy::proxy::ProxyParam;

#[test]
fn cache_obtain_is_idempotent_per_hostname() {
    let mut cache = CertCache::new();
    assert!(cache.lookup(b"example.com").is_none());
    let first = cache.obtain(
        b"example.com",
        CertEntry { cert: b"PEM-ONE".to_vec(), key: b"KEY-ONE".to_vec() },
    );
    assert_eq!(first.cert, b"PEM-ONE".to_vec());
    assert_eq!(first.key, b"KEY-ONE".to_vec());
    // a second obtain for the same hostname ignores the new pair and
    // returns byte-identical contents
    let second = cache.obtain(
        b"example.com",
        CertEntry { cert: b"PEM-TWO".to_vec(), key: b"KEY-TWO".to_vec() },
    );
    assert_eq!(second.cert, b"PEM-ONE".to_vec());
    assert_eq!(second.key, b"KEY-ONE".to_vec());
    let cached = cache.lookup(b"example.com").unwrap();
    assert_eq!(cached.cert, b"PEM-ONE".to_vec());
    assert_eq!(cached.key, b"KEY-ONE".to_vec());
}

#[test]
fn cache_keeps_hostnames_apart() {
    let mut cache = CertCache::new();
    cache.obtain(b"a.example", CertEntry { cert: b"CA".to_vec(), key: b"KA".to_vec() });
    cache.obtain(b"b.example", CertEntry { cert: b"CB".to_vec(), key: b"KB".to_vec() });
    assert_eq!(cache.lookup(b"a.example").unwrap().cert, b"CA".to_vec());
    assert_eq!(cache.lookup(b"b.example").unwrap().cert, b"CB".to_vec());
    assert!(cache.lookup(b"c.example").is_none());
}

#[test]
fn acceptor_survives_session_failures() {
    let mut acceptor = Acceptor::new();
    assert!(!acceptor.on_bind(true));
    assert_eq!(acceptor.state, AcceptorState::Accepting);
    let log = acceptor.on_session_end(Err(ProxyError::Transport));
    assert_eq!(log, Some(ProxyError::Transport));
    assert_eq!(acceptor.state, AcceptorState::Accepting);
    let log = acceptor.on_session_end(Err(ProxyError::TlsIntercept));
    assert_eq!(log, Some(ProxyError::TlsIntercept));
    assert_eq!(acceptor.state, AcceptorState::Accepting);
    assert_eq!(acceptor.on_session_end(Ok(())), None);
    assert_eq!(acceptor.state, AcceptorState::Accepting);
}

#[test]
fn failed_bind_is_fatal() {
    let mut acceptor = Acceptor::new();
    assert!(acceptor.on_bind(false));
    assert_eq!(acceptor.state, AcceptorState::Failed);
}

#[test]
fn session_identifiers_are_fresh_and_shared_per_session() {
    let a = ProxyParam::new();
    let b = ProxyParam::new();
    assert_eq!(a.sid.len(), 36);
    assert_eq!(b.sid.len(), 36);
    assert_ne!(a.sid, b.sid);
    // the canonical hyphen positions of the rendered identifier
    let bytes = a.sid.as_bytes();
    assert_eq!(bytes[8], b'-');
    assert_eq!(bytes[13], b'-');
    assert_eq!(bytes[18], b'-');
    assert_eq!(bytes[23], b'-');
    let other = a.fresh_for(Direction::ServerToClient);
    assert_eq!(other.sid, a.sid);
    assert_eq!(other.copier.direction, Direction::ServerToClient);
    assert_eq!(a.copier.direction, Direction::ClientToServer);
}

#[test]
fn filter_modes_are_complete_and_labelled() {
    let modes = FilterMode::modes();
    assert_eq!(modes.len(), 9);
    assert_eq!(modes[0], FilterMode::NoFilter);
    assert_eq!(modes[0].label(), "无");
    assert_eq!(modes[1].label(), "XHR");
    assert_eq!(modes[8].label(), "套接字");
}

#[test]
fn direction_labels() {
    assert_eq!(Direction::ClientToServer.label(), "ClientToServer");
    assert_eq!(Direction::ServerToClient.label(), "ServerToClient");
}

#[test]
fn error_labels_cover_the_taxonomy() {
    assert_eq!(ProxyError::AddressParse.label(), "address parse error");
    assert_eq!(ProxyError::Certificate.label(), "certificate error");
    assert_eq!(ProxyError::TlsIntercept.label(), "tls intercept error");
    assert_eq!(ProxyError::TlsUpstream.label(), "tls upstream error");
    assert_eq!(ProxyError::MessageParse.label(), "message parse error");
    assert_eq!(ProxyError::Transport.label(), "transport error");
    assert_eq!(ProxyError::Channel.label(), "channel error");
}

#[test]
fn byte_scanning_primitives() {
    assert_eq!(find_subseq(b"abcdef", b"cd", 0), Some(2));
    assert_eq!(find_subseq(b"abcdef", b"cd", 3), None);
    assert_eq!(find_subseq(b"aaab", b"ab", 0), Some(2));
    assert!(starts_with(b"CONNECT x", b"CONNECT"));
    assert!(!starts_with(b"CON", b"CONNECT"));
    assert_eq!(to_lower(b"Content-LENGTH"), b"content-length".to_vec());
}

#[test]
fn decimal_parsing_is_exact() {
    assert_eq!(parse_dec_u16(b"80"), Some(80));
    assert_eq!(parse_dec_u16(b"65535"), Some(65535));
    assert_eq!(parse_dec_u16(b"65536"), None);
    assert_eq!(parse_dec_u16(b""), None);
    assert_eq!(parse_dec_u16(b"12a"), None);
    assert_eq!(parse_dec_u16(b"007"), Some(7));
    assert_eq!(parse_dec_u64(b"18446744073709551615"), Some(u64::MAX));
    assert_eq!(parse_dec_u64(b"18446744073709551616"), None);
}
