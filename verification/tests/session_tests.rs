use mitm_proxy::error::ProxyError;
use mitm_proxy::session::{plan_http, plan_https, parse_connect_target, sniff_protocol, Protocol};

#[test]
fn sniff_connect_is_intercepted() {
    assert_eq!(
        sniff_protocol(b"CONNECT example.com:443 HTTP/1.1\r\n\r\n"),
        Protocol::HttpsIntercept
    );
}

#[test]
fn sniff_plain_request_is_forwarded() {
    assert_eq!(sniff_protocol(b"GET http://example.com/ HTTP/1.1\r\n\r\n"), Protocol::HttpForward);
    assert_eq!(sniff_protocol(b""), Protocol::HttpForward);
    assert_eq!(sniff_protocol(b"CONNEC"), Protocol::HttpForward);
}

#[test]
fn rewrite_absolute_uri_to_origin_form() {
    let input = b"GET http://example.com/a HTTP/1.1\r\nHost: example.com\r\n\r\n";
    let plan = plan_http(input).unwrap();
    assert_eq!(plan.host, b"example.com".to_vec());
    assert_eq!(plan.port, 80);
    assert_eq!(plan.rewritten, b"GET /a HTTP/1.1\r\nHost: example.com\r\n\r\n".to_vec());
}

#[test]
fn rewrite_keeps_explicit_port() {
    let input = b"POST http://example.com:8080/api/v1 HTTP/1.1\r\n\r\nbody";
    let plan = plan_http(input).unwrap();
    assert_eq!(plan.host, b"example.com".to_vec());
    assert_eq!(plan.port, 8080);
    assert_eq!(plan.rewritten, b"POST /api/v1 HTTP/1.1\r\n\r\nbody".to_vec());
}

#[test]
fn rewrite_without_scheme_fails() {
    assert_eq!(plan_http(b"GET /a HTTP/1.1\r\n\r\n").unwrap_err(), ProxyError::AddressParse);
}

#[test]
fn rewrite_without_path_slash_fails() {
    assert_eq!(plan_http(b"GET http://example.com").unwrap_err(), ProxyError::AddressParse);
}

#[test]
fn rewrite_with_bad_port_fails() {
    assert_eq!(
        plan_http(b"GET http://example.com:99999/ HTTP/1.1\r\n\r\n").unwrap_err(),
        ProxyError::AddressParse
    );
    assert_eq!(
        plan_http(b"GET http://example.com:/ HTTP/1.1\r\n\r\n").unwrap_err(),
        ProxyError::AddressParse
    );
}

#[test]
fn connect_target_is_extracted() {
    let t = parse_connect_target(b"CONNECT example.com:443 HTTP/1.1\r\n\r\n").unwrap();
    assert_eq!(t.host, b"example.com".to_vec());
    assert_eq!(t.port, 443);
}

#[test]
fn connect_plan_promises_exact_established_response() {
    let plan = plan_https(b"CONNECT example.com:443 HTTP/1.1\r\n\r\n").unwrap();
    assert_eq!(plan.established, b"HTTP/1.1 200 OK\r\n\r\n".to_vec());
    assert_eq!(plan.target.host, b"example.com".to_vec());
    assert_eq!(plan.target.port, 443);
}

#[test]
fn malformed_connect_target_aborts_without_response() {
    let r = plan_https(b"CONNECT garbage HTTP/1.1\r\n\r\n");
    assert_eq!(r.unwrap_err(), ProxyError::AddressParse);
}

#[test]
fn connect_without_port_fails() {
    assert_eq!(
        plan_https(b"CONNECT example.com HTTP/1.1\r\n\r\n").unwrap_err(),
        ProxyError::AddressParse
    );
}

#[test]
fn connect_without_trailing_space_fails() {
    assert_eq!(plan_https(b"CONNECT example.com:443").unwrap_err(), ProxyError::AddressParse);
}
