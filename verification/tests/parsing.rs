//! Tests of the incremental parser: streaming invariance, body handling,
//! header parsing quirks.

use http_core::parser::Parser;
use http_core::method::Method;

fn feed_all(p: &mut Parser, bytes: &[u8]) -> bool {
    p.parse(bytes)
}

fn feed_one_by_one(p: &mut Parser, bytes: &[u8]) -> bool {
    let mut complete = false;
    for b in bytes {
        if !p.done() {
            complete = p.parse(&[*b]);
        }
    }
    complete
}

#[test]
fn simple_request_one_chunk() {
    let mut p = Parser::new();
    let done = feed_all(&mut p, b"GET /index.html HTTP/1.1\r\nHost: example\r\n\r\n");
    assert!(done);
    assert!(p.done());
    let req = p.request();
    assert!(matches!(req.method, Method::Get));
    assert_eq!(req.path, b"/index.html".to_vec());
    assert_eq!(req.protocol, b"HTTP".to_vec());
    assert_eq!(req.version, b"1.1".to_vec());
    assert_eq!(req.headers.get(b"Host"), Some(&b"example".to_vec()));
    assert_eq!(p.body().len(), 0);
}

#[test]
fn streaming_invariance_byte_at_a_time() {
    let raw = b"POST /submit HTTP/1.1\r\nHost: a\r\nContent-Length: 5\r\n\r\nhello";
    let mut whole = Parser::new();
    let done_whole = feed_all(&mut whole, raw);
    let mut split = Parser::new();
    let done_split = feed_one_by_one(&mut split, raw);
    assert!(done_whole);
    assert!(done_split);
    let a = whole.request();
    let b = split.request();
    assert!(a.method == b.method);
    assert_eq!(a.path, b.path);
    assert_eq!(a.protocol, b.protocol);
    assert_eq!(a.version, b.version);
    assert_eq!(a.headers.len(), b.headers.len());
    assert_eq!(a.headers.get(b"Host"), b.headers.get(b"Host"));
    assert_eq!(a.headers.get(b"Content-Length"), b.headers.get(b"Content-Length"));
    assert_eq!(whole.body(), split.body());
    assert_eq!(whole.body(), &b"hello".to_vec());
}

#[test]
fn streaming_invariance_odd_boundaries() {
    let raw: &[u8] = b"PUT /x HTTP/1.0\r\nA: 1\r\nB: 2\r\nContent-Length: 3\r\n\r\nabc";
    let mut whole = Parser::new();
    feed_all(&mut whole, raw);
    let mut chunked = Parser::new();
    // split in the middle of the request line, a header name, and the body
    let cuts = [3usize, 9, 17, 25, 40, 52];
    let mut start = 0usize;
    for cut in cuts {
        if !chunked.done() {
            chunked.parse(&raw[start..cut]);
        }
        start = cut;
    }
    if !chunked.done() {
        chunked.parse(&raw[start..]);
    }
    assert!(whole.done() && chunked.done());
    assert!(whole.request().method == chunked.request().method);
    assert_eq!(whole.request().path, chunked.request().path);
    assert_eq!(whole.body(), chunked.body());
    assert_eq!(whole.body(), &b"abc".to_vec());
}

#[test]
fn no_content_length_done_at_blank_line() {
    let mut p = Parser::new();
    // complete headers, no Content-Length: done right after the blank line
    let done = p.parse(b"GET / HTTP/1.1\r\nHost: x\r\n\r\n");
    assert!(done);
    assert_eq!(p.body().len(), 0);
}

#[test]
fn body_exactly_n_bytes() {
    let mut p = Parser::new();
    let not_yet = p.parse(b"POST /u HTTP/1.1\r\nContent-Length: 10\r\n\r\n12345");
    assert!(!not_yet);
    let done = p.parse(b"67890trailing-ignored");
    assert!(done);
    assert_eq!(p.body(), &b"1234567890".to_vec());
}

#[test]
fn body_truncated_to_cap() {
    let mut p = Parser::new();
    let header = format!("POST /big HTTP/1.1\r\nContent-Length: {}\r\n\r\n", 70000);
    let not_yet = p.parse(header.as_bytes());
    assert!(!not_yet);
    let chunk = vec![0x61u8; 70000];
    let done = p.parse(&chunk);
    assert!(done);
    assert_eq!(p.body().len(), 65535);
}

#[test]
fn unparseable_content_length_means_empty_body() {
    let mut p = Parser::new();
    let done = p.parse(b"GET / HTTP/1.1\r\nContent-Length: ten\r\n\r\n");
    assert!(done);
    assert_eq!(p.body().len(), 0);
}

#[test]
fn overflowing_content_length_means_empty_body() {
    let mut p = Parser::new();
    let done = p.parse(b"GET / HTTP/1.1\r\nContent-Length: 99999999999999999999999999\r\n\r\n");
    assert!(done);
    assert_eq!(p.body().len(), 0);
}

#[test]
fn content_length_with_plus_sign_parses() {
    let mut p = Parser::new();
    let done = p.parse(b"POST / HTTP/1.1\r\nContent-Length: +3\r\n\r\nxyz");
    assert!(done);
    assert_eq!(p.body(), &b"xyz".to_vec());
}

#[test]
fn duplicate_header_last_wins() {
    let mut p = Parser::new();
    p.parse(b"GET / HTTP/1.1\r\nX: one\r\nX: two\r\n\r\n");
    assert_eq!(p.request().headers.get(b"X"), Some(&b"two".to_vec()));
    assert_eq!(p.request().headers.len(), 1);
}

#[test]
fn header_without_colon_is_ignored() {
    let mut p = Parser::new();
    p.parse(b"GET / HTTP/1.1\r\nnocolonhere\r\nA: 1\r\n\r\n");
    assert_eq!(p.request().headers.len(), 1);
    assert_eq!(p.request().headers.get(b"A"), Some(&b"1".to_vec()));
}

#[test]
fn header_value_is_trimmed() {
    let mut p = Parser::new();
    p.parse(b"GET / HTTP/1.1\r\nA:   padded value \t \r\n\r\n");
    assert_eq!(p.request().headers.get(b"A"), Some(&b"padded value".to_vec()));
}

#[test]
fn content_length_name_is_case_sensitive() {
    let mut p = Parser::new();
    // lower-case name does not set the body length
    let done = p.parse(b"POST / HTTP/1.1\r\ncontent-length: 4\r\n\r\nabcd");
    assert!(done);
    assert_eq!(p.body().len(), 0);
}

#[test]
fn last_parsing_content_length_wins() {
    let mut p = Parser::new();
    let done = p.parse(b"POST / HTTP/1.1\r\nContent-Length: 3\r\nContent-Length: 5\r\n\r\nabcde");
    assert!(done);
    assert_eq!(p.body(), &b"abcde".to_vec());
    // an unparseable repeat leaves the earlier declared length standing
    let mut q = Parser::new();
    let done = q.parse(b"POST / HTTP/1.1\r\nContent-Length: 2\r\nContent-Length: no\r\n\r\nxy");
    assert!(done);
    assert_eq!(q.body(), &b"xy".to_vec());
}

#[test]
fn custom_method_kept_verbatim() {
    let mut p = Parser::new();
    p.parse(b"FROBNICATE / HTTP/1.1\r\n\r\n");
    match &p.request().method {
        Method::Custom(name) => assert_eq!(name, &b"FROBNICATE".to_vec()),
        _ => panic!("expected a custom method"),
    }
}

#[test]
fn carriage_returns_ignored_in_version_and_headers() {
    let mut lf_only = Parser::new();
    lf_only.parse(b"GET / HTTP/1.1\nHost: x\n\n");
    assert!(lf_only.done());
    assert_eq!(lf_only.request().headers.get(b"Host"), Some(&b"x".to_vec()));
}
