use restrictions_server::http::get_body_and_headers;
use restrictions_server::http::Headers;
use restrictions_server::http::HttpTypes;
use restrictions_server::http::parse_request_text;
use restrictions_server::text::chars_of;

#[test]
fn parses_request_line_headers_and_body() {
    let data = b"GET /restrictions HTTP/1.1\r\nHost: example.com\r\nUpgrade: websocket\r\n\r\nhello\nworld";
    let req = get_body_and_headers(data).unwrap();
    assert_eq!(req.request.http_type, HttpTypes::Get);
    assert_eq!(req.request.request, "/restrictions");
    assert_eq!(req.body, "helloworld");
    assert_eq!(req.headers.get("Host").map(|s| s.as_str()), Some("example.com"));
    assert_eq!(req.headers.get("Upgrade").map(|s| s.as_str()), Some("websocket"));
    assert_eq!(req.headers.get("Missing"), None);
}

#[test]
fn parses_post_requests() {
    let req = get_body_and_headers(b"POST /send HTTP/1.1\n\nbody").unwrap();
    assert_eq!(req.request.http_type, HttpTypes::Post);
    assert_eq!(req.request.request, "/send");
    assert_eq!(req.body, "body");
}

#[test]
fn rejects_other_methods() {
    assert!(get_body_and_headers(b"PUT / HTTP/1.1\r\n\r\n").is_none());
    assert!(get_body_and_headers(b"get / HTTP/1.1\r\n\r\n").is_none());
}

#[test]
fn rejects_request_line_without_path() {
    assert!(get_body_and_headers(b"GET\r\n\r\n").is_none());
}

#[test]
fn rejects_text_without_blank_line() {
    assert!(get_body_and_headers(b"GET / HTTP/1.1\r\nHost: a.b\r\n").is_none());
    assert!(get_body_and_headers(b"").is_none());
}

#[test]
fn rejects_invalid_utf8() {
    assert!(get_body_and_headers(&[0x47, 0x45, 0x54, 0x20, 0xff, 0x0a, 0x0a]).is_none());
}

#[test]
fn empty_header_block_is_a_get_of_the_empty_path() {
    let req = get_body_and_headers(b"\r\nrest").unwrap();
    assert_eq!(req.request.http_type, HttpTypes::Get);
    assert_eq!(req.request.request, "");
    assert_eq!(req.body, "rest");
}

#[test]
fn header_value_is_the_second_word_and_last_field_wins() {
    let req = get_body_and_headers(
        b"GET / HTTP/1.1\r\nX-Thing: first second\r\nX-Thing: again\r\nLonely:\r\n\r\n",
    )
    .unwrap();
    assert_eq!(req.headers.get("X-Thing").map(|s| s.as_str()), Some("again"));
    assert_eq!(req.headers.get("Lonely"), None);
    assert_eq!(req.headers.get("Lonely:"), None);
}

#[test]
fn a_line_of_two_bytes_ends_the_header_block() {
    let req = get_body_and_headers("GET / HTTP/1.1\n\u{e9}\nafter".as_bytes()).unwrap();
    assert_eq!(req.body, "after");
    let req = get_body_and_headers("GET / HTTP/1.1\nab\r\nafter".as_bytes()).unwrap();
    assert_eq!(req.body, "after");
}

#[test]
fn a_line_of_three_bytes_does_not_end_the_header_block() {
    assert!(get_body_and_headers("GET / HTTP/1.1\nabc\n".as_bytes()).is_none());
    let req = get_body_and_headers("GET / HTTP/1.1\nabc\n\nz".as_bytes()).unwrap();
    assert_eq!(req.body, "z");
}

#[test]
fn parses_from_characters() {
    let chars = chars_of("GET /base HTTP/1.0\n\n");
    let req = parse_request_text(&chars).unwrap();
    assert_eq!(req.request.request, "/base");
    assert_eq!(req.body, "");
}

#[test]
fn headers_give_back_what_was_set() {
    let mut h = Headers::new();
    assert_eq!(h.get("a"), None);
    h.insert("a".to_string(), "1".to_string());
    h.insert("b".to_string(), "2".to_string());
    h.insert("a".to_string(), "3".to_string());
    assert_eq!(h.get("a").map(|s| s.as_str()), Some("3"));
    assert_eq!(h.get("b").map(|s| s.as_str()), Some("2"));
    assert_eq!(h.fields().len(), 3);
}
