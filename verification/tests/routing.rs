//! Tests of the routing table, the method tokens, and the status codes.

use http_core::method::Method;
use http_core::router::Router;
use http_core::status::ResponseCode;

#[test]
fn known_methods_round_trip() {
    let names: [&[u8]; 9] = [
        b"GET", b"POST", b"HEAD", b"PUT", b"DELETE", b"CONNECT", b"OPTIONS", b"TRACE", b"PATCH",
    ];
    for name in names {
        let m = Method::from_bytes(name);
        assert!(!matches!(m, Method::Custom(_)));
        assert_eq!(m.stringify(), name);
    }
}

#[test]
fn unknown_method_round_trips_verbatim() {
    let m = Method::from_bytes(b"get");
    assert!(matches!(m, Method::Custom(_)));
    assert_eq!(m.stringify(), b"get");
    let n = Method::parse("Purge");
    assert_eq!(n.stringify(), b"Purge");
}

#[test]
fn method_equality_by_content() {
    assert!(Method::Get == Method::Get);
    assert!(Method::Get != Method::Post);
    assert!(Method::Custom(b"A".to_vec()) == Method::Custom(b"A".to_vec()));
    assert!(Method::Custom(b"A".to_vec()) != Method::Custom(b"B".to_vec()));
}

#[test]
fn response_codes_give_code_and_reason() {
    assert_eq!(ResponseCode::OK.get(), (200, b"OK".to_vec()));
    assert_eq!(ResponseCode::NotFound.get(), (404, b"Not Found".to_vec()));
    assert_eq!(ResponseCode::HTTPVersionNotSupported.get(), (505, b"HTTP Version not supported".to_vec()));
    assert_eq!(ResponseCode::Custom(799, b"Odd".to_vec()).get(), (799, b"Odd".to_vec()));
}

#[test]
fn exact_route_beats_default() {
    let mut r = Router::new();
    r.register_default(0);
    r.register_handler(Method::Get, b"/test".to_vec(), 1);
    let hits: [bool; 0] = [];
    assert_eq!(r.dispatch(&Method::Get, b"/test", &hits), Some(1));
}

#[test]
fn exact_route_beats_patterns() {
    let mut r = Router::new();
    r.register_matching_handler(Method::Get, 5);
    r.register_handler(Method::Get, b"/a".to_vec(), 7);
    r.register_default(0);
    // the pattern accepts everything, yet the exact route wins
    assert_eq!(r.dispatch(&Method::Get, b"/a", &[true]), Some(7));
}

#[test]
fn first_matching_pattern_wins() {
    let mut r = Router::new();
    r.register_matching_handler(Method::Get, 1);
    r.register_matching_handler(Method::Get, 2);
    r.register_default(9);
    assert_eq!(r.dispatch(&Method::Get, b"/p", &[true, true]), Some(1));
    assert_eq!(r.dispatch(&Method::Get, b"/p", &[false, true]), Some(2));
}

#[test]
fn pattern_requires_matching_method() {
    let mut r = Router::new();
    r.register_matching_handler(Method::Post, 1);
    r.register_default(9);
    // predicate accepts, but the method differs: the default fires
    assert_eq!(r.dispatch(&Method::Get, b"/p", &[true]), Some(9));
}

#[test]
fn default_fires_when_nothing_matches() {
    let mut r = Router::new();
    r.register_handler(Method::Get, b"/a".to_vec(), 1);
    r.register_default(4);
    let hits: [bool; 0] = [];
    assert_eq!(r.dispatch(&Method::Get, b"/b", &hits), Some(4));
    assert_eq!(r.dispatch(&Method::Post, b"/a", &hits), Some(4));
}

#[test]
fn no_route_and_no_default_resolves_nothing() {
    let mut r = Router::new();
    r.register_handler(Method::Get, b"/a".to_vec(), 1);
    let hits: [bool; 0] = [];
    assert_eq!(r.dispatch(&Method::Get, b"/b", &hits), None);
    assert!(!r.has_default());
}

#[test]
fn reregistering_same_key_overwrites() {
    let mut r = Router::new();
    r.register_handler(Method::Get, b"/a".to_vec(), 1);
    r.register_handler(Method::Get, b"/a".to_vec(), 2);
    let hits: [bool; 0] = [];
    assert_eq!(r.dispatch(&Method::Get, b"/a", &hits), Some(2));
}

#[test]
fn custom_method_routes_exactly() {
    let mut r = Router::new();
    r.register_handler(Method::Custom(b"PURGE".to_vec()), b"/c".to_vec(), 3);
    r.register_default(0);
    let hits: [bool; 0] = [];
    assert_eq!(r.dispatch(&Method::Custom(b"PURGE".to_vec()), b"/c", &hits), Some(3));
    assert_eq!(r.dispatch(&Method::Custom(b"PURGe".to_vec()), b"/c", &hits), Some(0));
}
