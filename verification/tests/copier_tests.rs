use mitm_proxy::copier::{starts_new_request, Copier};
use mitm_proxy::data::Direction;

fn response_bytes() -> Vec<u8> {
    b"HTTP/1.1 200 OK\r\nContent-Length: 5\r\n\r\nhello".to_vec()
}

#[test]
fn method_token_opens_new_request() {
    assert!(starts_new_request(b"GET / HTTP/1.1\r\n\r\n"));
    assert!(starts_new_request(b"POST /x HTTP/1.1\r\n\r\n"));
    assert!(starts_new_request(b"DELETE /x HTTP/1.1\r\n\r\n"));
    assert!(!starts_new_request(b"XYZ / HTTP/1.1\r\n\r\n"));
    assert!(!starts_new_request(b"ost /x HTTP/1.1\r\n\r\n"));
    assert!(!starts_new_request(b""));
}

#[test]
fn forward_equals_read_bytes_in_both_directions() {
    let mut c2s = Copier::new(Direction::ClientToServer);
    let mut s2c = Copier::new(Direction::ServerToClient);
    let chunk = b"GET / HTTP/1.1\r\nHost: example.com\r\n\r\n";
    assert_eq!(c2s.step(chunk).forward, chunk.to_vec());
    assert_eq!(s2c.step(chunk).forward, chunk.to_vec());
}

#[test]
fn round_trip_is_chunking_independent() {
    let whole = response_bytes();
    let chunking_a: Vec<Vec<u8>> = vec![whole.clone()];
    let chunking_b: Vec<Vec<u8>> = vec![
        whole[..10].to_vec(),
        whole[10..11].to_vec(),
        whole[11..40].to_vec(),
        whole[40..].to_vec(),
    ];
    let mut copier_a = Copier::new(Direction::ServerToClient);
    let mut copier_b = Copier::new(Direction::ServerToClient);
    let out_a = copier_a.run_chunks(&chunking_a);
    let out_b = copier_b.run_chunks(&chunking_b);
    assert_eq!(out_a, whole);
    assert_eq!(out_b, whole);
}

#[test]
fn zero_length_read_terminates() {
    let mut c = Copier::new(Direction::ServerToClient);
    let r = c.step(b"");
    assert!(r.done);
    assert!(r.completed.is_none());
    assert!(r.forward.is_empty());
}

#[test]
fn response_completion_is_signalled_and_message_flushed() {
    let mut c = Copier::new(Direction::ServerToClient);
    let r1 = c.step(b"HTTP/1.1 200 OK\r\nContent-Length: 5\r\n\r\nhel");
    assert!(r1.completed.is_none());
    let r2 = c.step(b"lo");
    assert_eq!(r2.completed.unwrap(), response_bytes());
}

#[test]
fn new_request_flushes_previous_one() {
    let mut c = Copier::new(Direction::ClientToServer);
    let first = b"GET /a HTTP/1.1\r\nHost: x\r\n\r\n";
    let r1 = c.step(first);
    // the fresh session had nothing assembled yet: the flushed message is empty
    assert_eq!(r1.completed.unwrap(), Vec::<u8>::new());
    let r2 = c.step(b"POST /b HTTP/1.1\r\n");
    assert_eq!(r2.completed.unwrap(), first.to_vec());
}

#[test]
fn continuation_chunk_extends_request() {
    let mut c = Copier::new(Direction::ClientToServer);
    c.step(b"GET /a HTTP/1.1\r\n");
    let r = c.step(b"Host: x\r\n\r\n");
    assert!(r.completed.is_none());
}

#[test]
fn forwarding_survives_unparsable_bytes() {
    let mut c = Copier::new(Direction::ServerToClient);
    let chunk = b"HTTP/1.1 200 OK\r\nContent-Length: abc\r\n\r\n";
    let r = c.step(chunk);
    assert!(r.parse_failed);
    assert_eq!(r.forward, chunk.to_vec());
    assert!(!r.done);
    // and the copier keeps forwarding afterwards
    let r2 = c.step(b"more bytes");
    assert_eq!(r2.forward, b"more bytes".to_vec());
}

#[test]
fn forwarding_does_not_wait_for_observation() {
    // a completed message is handed out beside the forwarded bytes,
    // never instead of them: the bytes reach the destination whatever
    // the observer does with the message
    let mut c = Copier::new(Direction::ServerToClient);
    let r = c.step(response_bytes().as_slice());
    assert_eq!(r.forward, response_bytes());
    assert_eq!(r.completed.unwrap(), response_bytes());
}
