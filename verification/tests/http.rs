use huio::{decode_component, decode_query, HttpMethod, Response, StrMap};

#[test]
fn method_parse_exact() {
    assert_eq!(HttpMethod::from("GET"), Some(HttpMethod::GET));
    assert_eq!(HttpMethod::from("POST"), Some(HttpMethod::POST));
    assert_eq!(HttpMethod::from("PUT"), Some(HttpMethod::PUT));
    assert_eq!(HttpMethod::from("DELETE"), Some(HttpMethod::DELETE));
    assert_eq!(HttpMethod::from("PATCH"), Some(HttpMethod::PATCH));
    assert_eq!(HttpMethod::from("HEAD"), Some(HttpMethod::HEAD));
    assert_eq!(HttpMethod::from("OPTIONS"), Some(HttpMethod::OPTIONS));
}

#[test]
fn method_parse_case_insensitive() {
    assert_eq!(HttpMethod::from("get"), Some(HttpMethod::GET));
    assert_eq!(HttpMethod::from("DeLeTe"), Some(HttpMethod::DELETE));
    assert_eq!(HttpMethod::from("options"), Some(HttpMethod::OPTIONS));
}

#[test]
fn method_parse_rejects_unknown() {
    assert_eq!(HttpMethod::from("BREW"), None);
    assert_eq!(HttpMethod::from(""), None);
    assert_eq!(HttpMethod::from("GETS"), None);
}

#[test]
fn method_name_round_trip() {
    assert_eq!(HttpMethod::GET.name(), "GET");
    assert_eq!(HttpMethod::OPTIONS.name(), "OPTIONS");
    assert_eq!(HttpMethod::from(&HttpMethod::PATCH.name()), Some(HttpMethod::PATCH));
}

#[test]
fn decode_component_percent() {
    assert_eq!(decode_component("a%20b"), "a b");
    assert_eq!(decode_component("%4A%4a"), "JJ");
    assert_eq!(decode_component("caf%C3%A9"), "café");
}

#[test]
fn decode_component_plus_is_space() {
    assert_eq!(decode_component("a+b+c"), "a b c");
}

#[test]
fn decode_component_malformed_escape_kept() {
    assert_eq!(decode_component("%zz"), "%zz");
    assert_eq!(decode_component("100%"), "100%");
    assert_eq!(decode_component("%a"), "%a");
}

#[test]
fn decode_component_invalid_utf8_replaced() {
    // %FF is not valid UTF-8; the lossy reading substitutes U+FFFD
    assert_eq!(decode_component("%FF"), "\u{FFFD}");
}

#[test]
fn decode_query_basic() {
    let q = decode_query("a=1&b=two");
    assert_eq!(q.get("a").map(|s| s.as_str()), Some("1"));
    assert_eq!(q.get("b").map(|s| s.as_str()), Some("two"));
    assert_eq!(q.get("c").map(|s| s.as_str()), None);
}

#[test]
fn decode_query_later_pair_wins() {
    let q = decode_query("a=1&a=2");
    assert_eq!(q.get("a").map(|s| s.as_str()), Some("2"));
}

#[test]
fn decode_query_valueless_and_empty_pairs() {
    let q = decode_query("flag&&x=1&");
    assert_eq!(q.get("flag").map(|s| s.as_str()), Some(""));
    assert_eq!(q.get("x").map(|s| s.as_str()), Some("1"));
    assert_eq!(q.get("").map(|s| s.as_str()), None);
}

#[test]
fn decode_query_decodes_both_sides() {
    let q = decode_query("my+key=%41+%42");
    assert_eq!(q.get("my key").map(|s| s.as_str()), Some("A B"));
}

#[test]
fn response_ok_sets_length_and_type() {
    let r = Response::ok(b"hi".to_vec());
    assert_eq!(r.status_code(), 200);
    assert_eq!(r.body().as_slice(), b"hi");
    assert_eq!(r.headers().get("Content-Length").map(|s| s.as_str()), Some("2"));
    assert_eq!(
        r.headers().get("Content-Type").map(|s| s.as_str()),
        Some("text/plain; charset=utf-8")
    );
}

#[test]
fn response_not_found_shape() {
    let r = Response::not_found();
    assert_eq!(r.status_code(), 404);
    assert_eq!(r.body().as_slice(), b"Not Found");
    assert_eq!(r.headers().get("Content-Length").map(|s| s.as_str()), Some("9"));
}

#[test]
fn response_internal_error_shape() {
    let r = Response::internal_error();
    assert_eq!(r.status_code(), 500);
    assert_eq!(r.body().as_slice(), b"Internal Server Error");
}

#[test]
fn response_method_not_allowed_shape() {
    let allowed = vec!["GET".to_string(), "POST".to_string()];
    let r = Response::method_not_allowed(&allowed);
    assert_eq!(r.status_code(), 405);
    assert_eq!(r.headers().get("Allow").map(|s| s.as_str()), Some("GET, POST"));
    assert_eq!(r.body().as_slice(), b"Method Not Allowed");
}

#[test]
fn response_status_round_trip() {
    let r = Response::ok(b"x".to_vec()).status(204).unwrap();
    assert_eq!(r.status_code(), 204);
    assert_eq!(r.body().as_slice(), b"x");
}

#[test]
fn response_status_rejects_out_of_range() {
    assert!(Response::ok(b"".to_vec()).status(99).is_err());
    assert!(Response::ok(b"".to_vec()).status(1000).is_err());
    assert!(Response::ok(b"".to_vec()).status(100).is_ok());
    assert!(Response::ok(b"".to_vec()).status(999).is_ok());
}

#[test]
fn response_header_set_and_overwrite() {
    let r = Response::ok(b"x".to_vec()).header("X-A", "1").header("X-A", "2");
    assert_eq!(r.headers().get("X-A").map(|s| s.as_str()), Some("2"));
    assert_eq!(r.status_code(), 200);
}

#[test]
fn response_clear_body_resets_length_keeps_rest() {
    let r = Response::ok(b"hello".to_vec()).header("X-A", "1").clear_body();
    assert_eq!(r.status_code(), 200);
    assert!(r.body().is_empty());
    assert_eq!(r.headers().get("Content-Length").map(|s| s.as_str()), Some("0"));
    assert_eq!(r.headers().get("X-A").map(|s| s.as_str()), Some("1"));
}

#[test]
fn response_into_parts_round_trip() {
    let r = Response::ok(b"abc".to_vec()).header("X-B", "7");
    let (status, headers, body) = r.into_parts();
    assert_eq!(status, 200);
    assert_eq!(body, b"abc".to_vec());
    assert_eq!(headers.get("X-B").map(|s| s.as_str()), Some("7"));
}

#[test]
fn response_json_bytes_shape() {
    let r = Response::json_bytes(b"{\"a\":1}".to_vec());
    assert_eq!(r.status_code(), 200);
    assert_eq!(r.headers().get("Content-Type").map(|s| s.as_str()), Some("application/json"));
    assert_eq!(r.headers().get("Content-Length").map(|s| s.as_str()), Some("7"));
}

#[test]
fn strmap_insert_get_overwrite() {
    let m = StrMap::new();
    assert!(!m.contains_key("k"));
    let m = m.insert("k".to_string(), "1".to_string());
    let m = m.insert("other".to_string(), "x".to_string());
    assert_eq!(m.get("k").map(|s| s.as_str()), Some("1"));
    let m = m.insert("k".to_string(), "2".to_string());
    assert_eq!(m.get("k").map(|s| s.as_str()), Some("2"));
    assert_eq!(m.get("other").map(|s| s.as_str()), Some("x"));
    assert!(m.contains_key("k"));
    assert_eq!(m.entries().len(), 2);
}
