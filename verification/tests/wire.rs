//! Tests of the response encoder, the demo handler, the connection table,
//! and a full request/response cycle over raw bytes.

use http_core::bytes::{parse_usize, usize_to_dec};
use http_core::conn::{Client, ConnTable, Token};
use http_core::demo::try_handle_default;
use http_core::http::{html, HttpResponse};
use http_core::method::Method;
use http_core::parser::Parser;
use http_core::router::Router;
use http_core::status::ResponseCode;

#[test]
fn decimal_formatting() {
    assert_eq!(usize_to_dec(0), b"0".to_vec());
    assert_eq!(usize_to_dec(7), b"7".to_vec());
    assert_eq!(usize_to_dec(65535), b"65535".to_vec());
    assert_eq!(usize_to_dec(1000), b"1000".to_vec());
}

#[test]
fn decimal_parsing() {
    assert_eq!(parse_usize(b"0"), Some(0));
    assert_eq!(parse_usize(b"65535"), Some(65535));
    assert_eq!(parse_usize(b"+12"), Some(12));
    assert_eq!(parse_usize(b""), None);
    assert_eq!(parse_usize(b"+"), None);
    assert_eq!(parse_usize(b"12a"), None);
    assert_eq!(parse_usize(b"-3"), None);
    assert_eq!(parse_usize(b"99999999999999999999999999"), None);
}

#[test]
fn html_sets_headers_and_body() {
    let r = html(b"hello".to_vec());
    assert!(matches!(r.code, ResponseCode::OK));
    assert_eq!(r.body, b"hello".to_vec());
    assert_eq!(r.header.len(), 2);
    assert_eq!(r.header[0], (b"Content-Type".to_vec(), b"text/html".to_vec()));
    assert_eq!(r.header[1], (b"Content-Length".to_vec(), b"5".to_vec()));
}

#[test]
fn encoder_wire_format() {
    let resp = HttpResponse {
        code: ResponseCode::NotFound,
        header: vec![
            (b"A".to_vec(), b"1".to_vec()),
            (b"A".to_vec(), b"2".to_vec()),
        ],
        body: b"gone".to_vec(),
    };
    let out = http_core::encode::encode_response(&resp);
    assert_eq!(out, b"HTTP/1.1 404 Not Found\r\nA: 1\r\nA: 2\r\n\r\ngone".to_vec());
}

#[test]
fn full_cycle_default_handler_raw_bytes() {
    // only a default handler, returning body "custom!"
    let mut router = Router::new();
    router.register_default(0);
    let mut p = Parser::new();
    let done = p.parse(b"GET /test HTTP/1.1\r\nHost: x\r\n\r\n");
    assert!(done);
    let req = p.request();
    let hits: [bool; 0] = [];
    let choice = router.dispatch(&req.method, &req.path, &hits);
    assert_eq!(choice, Some(0));
    let resp = html(b"custom!".to_vec());
    let out = http_core::encode::encode_response(&resp);
    let expected =
        b"HTTP/1.1 200 OK\r\nContent-Type: text/html\r\nContent-Length: 7\r\n\r\ncustom!".to_vec();
    assert_eq!(out, expected);
}

#[test]
fn exact_handler_response_not_default() {
    let mut router = Router::new();
    router.register_default(0);
    router.register_handler(Method::Get, b"/test".to_vec(), 1);
    let mut p = Parser::new();
    p.parse(b"GET /test HTTP/1.1\r\nHost: x\r\n\r\n");
    let req = p.request();
    let hits: [bool; 0] = [];
    // handler 1 (the exact route), not handler 0 (the default)
    assert_eq!(router.dispatch(&req.method, &req.path, &hits), Some(1));
}

#[test]
fn demo_page_shows_path_and_headers() {
    let mut p = Parser::new();
    p.parse(b"GET /somewhere HTTP/1.1\r\nHost: here\r\n\r\n");
    let resp = try_handle_default(p.request()).expect("small page fits");
    assert!(matches!(resp.code, ResponseCode::OK));
    let page = String::from_utf8(resp.body.clone()).expect("ascii page");
    assert!(page.contains("<h1>/somewhere</h1>"));
    assert!(page.contains("<tr><th>Host</th><th>here</th></tr>"));
}

#[test]
fn token_assignment_is_monotonic() {
    let mut t = Token(5);
    let first = t.add_one();
    let second = t.add_one();
    assert_eq!(first, Token(5));
    assert_eq!(second, Token(6));
    assert_eq!(t, Token(7));
}

#[test]
fn client_cycle_parse_dispatch_write() {
    let mut c = Client::new();
    assert!(!c.request_ready());
    let complete = c.on_data(b"GET /a HTTP/1.1\r\nHost: h\r\n\r\n");
    assert!(complete);
    assert!(c.request_ready());
    assert!(c.response_bytes().is_none());
    c.set_response(html(b"ok".to_vec()));
    let out = c.response_bytes().expect("a response is cached");
    assert_eq!(
        out,
        b"HTTP/1.1 200 OK\r\nContent-Type: text/html\r\nContent-Length: 2\r\n\r\nok".to_vec()
    );
}

#[test]
fn finished_client_ignores_further_bytes() {
    let mut c = Client::new();
    c.on_data(b"GET / HTTP/1.1\r\n\r\n");
    assert!(c.request_ready());
    let still_complete = c.on_data(b"garbage after the request");
    assert!(still_complete);
    assert_eq!(c.request().path, b"/".to_vec());
    assert_eq!(c.body().len(), 0);
}

#[test]
fn connection_removed_after_cycle() {
    let mut table = ConnTable::new();
    let mut next = Token(1);
    let tok = next.add_one().0;
    table.insert(tok, Client::new());
    assert!(table.contains(tok));
    assert_eq!(table.len(), 1);
    let complete = table.feed_data(tok, b"GET /x HTTP/1.1\r\n\r\n");
    assert_eq!(complete, Some(true));
    assert!(table.set_response(tok, html(b"done".to_vec())));
    let bytes = table.response_bytes(tok).expect("cached response encodes");
    assert!(bytes.starts_with(b"HTTP/1.1 200 OK\r\n"));
    // one full request/response cycle ends with removal: the token leaves
    // the active set and no further reads or writes reach it
    table.remove(tok);
    assert!(!table.contains(tok));
    assert_eq!(table.len(), 0);
    assert_eq!(table.feed_data(tok, b"more"), None);
    assert!(table.response_bytes(tok).is_none());
}

#[test]
fn table_tracks_several_connections() {
    let mut table = ConnTable::new();
    table.insert(2, Client::new());
    table.insert(3, Client::new());
    table.feed_data(2, b"GET /two HTTP/1.1\r\n\r\n");
    table.feed_data(3, b"GET /three HTTP/1.1\r\n\r\n");
    assert_eq!(table.request(2).unwrap().path, b"/two".to_vec());
    assert_eq!(table.request(3).unwrap().path, b"/three".to_vec());
    table.remove(2);
    assert!(!table.contains(2));
    assert!(table.contains(3));
}
