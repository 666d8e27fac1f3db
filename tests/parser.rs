use http_server::{parse_request, Method};

#[test]
fn bare_request_line() {
    let r = parse_request(b"GET / HTTP/1.1\r\n\r\n").unwrap();
    assert_eq!(r.method, Method::GET);
    assert_eq!(r.path, "/");
    assert_eq!(r.protocol_version, "HTTP/1.1");
    assert!(r.headers.is_empty());
    assert_eq!(r.body, None);
}

#[test]
fn bare_request_line_other_triples() {
    let r = parse_request(b"delete /a/b?c HTTP/1.0\r\n\r\n").unwrap();
    assert_eq!(r.method, Method::DELETE);
    assert_eq!(r.path, "/a/b?c");
    assert_eq!(r.protocol_version, "HTTP/1.0");
    assert!(r.headers.is_empty());
    assert_eq!(r.body, None);
    let r = parse_request("PUT /caf\u{e9} X\r\n\r\n".as_bytes()).unwrap();
    assert_eq!(r.method, Method::PUT);
    assert_eq!(r.path, "/caf\u{e9}");
    assert_eq!(r.protocol_version, "X");
}

#[test]
fn body_of_content_length() {
    let r = parse_request(b"POST /post HTTP/1.1\r\nContent-Length: 5\r\n\r\nhello").unwrap();
    assert_eq!(r.body, Some(b"hello".to_vec()));
}

#[test]
fn no_content_length_no_body() {
    let r = parse_request(b"POST /post HTTP/1.1\r\nHost: x\r\n\r\nhello").unwrap();
    assert_eq!(r.body, None);
}

#[test]
fn zero_content_length_empty_body() {
    let r = parse_request(b"POST /post HTTP/1.1\r\nContent-Length: 0\r\n\r\n").unwrap();
    assert_eq!(r.body, Some(Vec::new()));
}

#[test]
fn content_length_any_case_and_extra_bytes() {
    let r = parse_request(b"POST / HTTP/1.1\r\ncontent-LENGTH: 3\r\n\r\nabcdef").unwrap();
    assert_eq!(r.body, Some(b"abc".to_vec()));
}

#[test]
fn content_length_with_plus() {
    let r = parse_request(b"POST / HTTP/1.1\r\nContent-Length: +2\r\n\r\nxyz").unwrap();
    assert_eq!(r.body, Some(b"xy".to_vec()));
}

#[test]
fn short_body_is_absent() {
    let r = parse_request(b"POST / HTTP/1.1\r\nContent-Length: 10\r\n\r\nabc").unwrap();
    assert_eq!(r.body, None);
}

#[test]
fn unparsable_length_is_absent() {
    let r = parse_request(b"POST / HTTP/1.1\r\nContent-Length: five\r\n\r\nfive!").unwrap();
    assert_eq!(r.body, None);
    let r = parse_request(b"POST / HTTP/1.1\r\nContent-Length: -1\r\n\r\nx").unwrap();
    assert_eq!(r.body, None);
    let r = parse_request(b"POST / HTTP/1.1\r\nContent-Length: 99999999999999999999999\r\n\r\nx").unwrap();
    assert_eq!(r.body, None);
}

#[test]
fn first_content_length_decides() {
    let r = parse_request(b"POST / HTTP/1.1\r\nContent-Length: 1\r\nContent-Length: 2\r\n\r\nab").unwrap();
    assert_eq!(r.body, Some(b"a".to_vec()));
}

#[test]
fn headers_kept_in_order_with_duplicates() {
    let r = parse_request(b"GET / HTTP/1.1\r\nHost: a\r\nAccept: x\r\nHost: b\r\n\r\n").unwrap();
    assert_eq!(
        r.headers,
        vec![
            ("Host".to_string(), "a".to_string()),
            ("Accept".to_string(), "x".to_string()),
            ("Host".to_string(), "b".to_string()),
        ]
    );
}

#[test]
fn malformed_header_lines_skipped() {
    let r = parse_request(b"GET / HTTP/1.1\r\nNoSeparator\r\nA: b: c\r\nKey: value\r\nEmpty: \r\n\r\n").unwrap();
    assert_eq!(
        r.headers,
        vec![
            ("A".to_string(), "b: c".to_string()),
            ("Key".to_string(), "value".to_string()),
            ("Empty".to_string(), "".to_string()),
        ]
    );
}

#[test]
fn lines_after_blank_line_ignored() {
    let r = parse_request(b"GET / HTTP/1.1\r\n\r\nHost: late\r\n").unwrap();
    assert!(r.headers.is_empty());
}

#[test]
fn bare_line_feeds_accepted() {
    let r = parse_request(b"GET /x HTTP/1.1\nHost: h\n\n").unwrap();
    assert_eq!(r.path, "/x");
    assert_eq!(r.headers, vec![("Host".to_string(), "h".to_string())]);
}

#[test]
fn extra_request_line_tokens_ignored() {
    let r = parse_request(b"GET / HTTP/1.1 extra\r\n\r\n").unwrap();
    assert_eq!(r.protocol_version, "HTTP/1.1");
}

#[test]
fn too_few_tokens_rejected() {
    assert!(parse_request(b"GET /\r\n\r\n").is_none());
    assert!(parse_request(b"GET\r\n\r\n").is_none());
}

#[test]
fn unknown_method_rejected() {
    assert!(parse_request(b"FETCH / HTTP/1.1\r\n\r\n").is_none());
}

#[test]
fn empty_input_rejected() {
    assert!(parse_request(b"").is_none());
    assert!(parse_request(b"\r\n").is_none());
}

#[test]
fn invalid_utf8_field_rejected() {
    assert!(parse_request(b"GET /\xff HTTP/1.1\r\n\r\n").is_none());
    assert!(parse_request(b"GET / HTTP/1.1\r\nHost: \xfe\r\n\r\n").is_none());
}

#[test]
fn unterminated_head_still_parses() {
    let r = parse_request(b"GET / HTTP/1.1\r\nHost: a").unwrap();
    assert_eq!(r.headers, vec![("Host".to_string(), "a".to_string())]);
    assert_eq!(r.body, None);
}

#[test]
fn method_token_folded_by_unicode_upper_case() {
    let r = parse_request("po\u{17f}t / v\r\n\r\n".as_bytes()).unwrap();
    assert_eq!(r.method, Method::POST);
    assert_eq!(r.path, "/");
    assert_eq!(r.protocol_version, "v");
}
