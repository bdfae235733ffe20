use mitm_proxy::accumulator::{HttpStream, MessageAccumulator};
use mitm_proxy::error::ProxyError;

#[test]
fn completion_waits_for_declared_body() {
    let mut acc = MessageAccumulator::new();
    assert_eq!(acc.feed(b"HTTP/1.1 200 OK\r\nContent-Length: 5\r\n\r\n"), Ok(false));
    assert_eq!(acc.feed(b"hel"), Ok(false));
    assert_eq!(acc.feed(b"lo"), Ok(true));
}

#[test]
fn completion_is_at_the_body_end_not_later() {
    // the first body ends mid-chunk; the second response's status line
    // follows immediately, and completion is still signalled now
    let mut acc = MessageAccumulator::new();
    let stream = b"HTTP/1.1 200 OK\r\nContent-Length: 5\r\n\r\nhelloHTTP/1.1 404 Not Found\r\n";
    assert_eq!(acc.feed(stream), Ok(true));
}

#[test]
fn completion_is_not_signalled_one_byte_early() {
    let mut acc = MessageAccumulator::new();
    assert_eq!(acc.feed(b"HTTP/1.1 200 OK\r\nContent-Length: 5\r\n\r\nhell"), Ok(false));
    assert_eq!(acc.feed(b"o"), Ok(true));
}

#[test]
fn headers_without_length_never_complete_by_feed() {
    let mut acc = MessageAccumulator::new();
    assert_eq!(acc.feed(b"HTTP/1.1 204 No Content\r\nServer: x\r\n\r\n"), Ok(false));
    assert_eq!(acc.feed(b"trailing bytes until close"), Ok(false));
}

#[test]
fn header_name_case_is_folded() {
    let mut acc = MessageAccumulator::new();
    assert_eq!(acc.feed(b"HTTP/1.1 200 OK\r\ncOnTeNt-LeNgTh: 2\r\n\r\nok"), Ok(true));
}

#[test]
fn zero_length_body_completes_at_header_end() {
    let mut acc = MessageAccumulator::new();
    assert_eq!(acc.feed(b"HTTP/1.1 200 OK\r\nContent-Length: 0\r\n\r\n"), Ok(true));
}

#[test]
fn chunked_body_completes_at_terminal_chunk() {
    let mut acc = MessageAccumulator::new();
    assert_eq!(acc.feed(b"HTTP/1.1 200 OK\r\nTransfer-Encoding: chunked\r\n\r\n"), Ok(false));
    assert_eq!(acc.feed(b"5\r\nhello\r\n"), Ok(false));
    assert_eq!(acc.feed(b"0\r\n\r\n"), Ok(true));
}

#[test]
fn empty_chunked_body_completes() {
    let mut acc = MessageAccumulator::new();
    assert_eq!(
        acc.feed(b"HTTP/1.1 200 OK\r\ntransfer-encoding: chunked\r\n\r\n0\r\n\r\n"),
        Ok(true)
    );
}

#[test]
fn unusable_length_is_a_parse_error() {
    let mut acc = MessageAccumulator::new();
    assert_eq!(
        acc.feed(b"HTTP/1.1 200 OK\r\nContent-Length: abc\r\n\r\n"),
        Err(ProxyError::MessageParse)
    );
    let mut acc2 = MessageAccumulator::new();
    assert_eq!(
        acc2.feed(b"HTTP/1.1 200 OK\r\nContent-Length: \r\n\r\n"),
        Err(ProxyError::MessageParse)
    );
}

#[test]
fn accumulated_bytes_are_kept_verbatim() {
    let mut acc = MessageAccumulator::new();
    let _ = acc.feed(b"HTTP/1.1 200 OK\r\nContent-Length: 5\r\n\r\n");
    let _ = acc.feed(b"hello");
    assert_eq!(acc.len(), 43);
    assert_eq!(
        acc.into_bytes(),
        b"HTTP/1.1 200 OK\r\nContent-Length: 5\r\n\r\nhello".to_vec()
    );
}

#[test]
fn http_stream_feeds_each_side_independently() {
    let mut s = HttpStream::new();
    assert_eq!(s.extend(b"GET / HTTP/1.1\r\n\r\n", true), Ok(false));
    assert_eq!(s.extend(b"HTTP/1.1 200 OK\r\nContent-Length: 2\r\n\r\n", false), Ok(false));
    assert_eq!(s.extend(b"ok", false), Ok(true));
}
