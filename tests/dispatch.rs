use http_server::dispatch::json_message;
use http_server::{handle_connection, handle_request, Pages, ResponseResult};

fn pages() -> Pages {
    Pages { index: "<h1>home</h1>".to_string(), not_found: "<h1>missing</h1>".to_string() }
}

const DATE: &str = "Tue, 1 Jul 2003 10:52:37 +0000";

fn base() -> String {
    format!(
        "Date: {}\r\nCache-Control: public, max-age=3600\r\nServer: github.com/jorismertz/shitty-rust-http-server\r\n",
        DATE
    )
}

#[test]
fn index_route_serves_index() {
    let r = handle_request(b"GET / HTTP/1.1\r\n\r\n", DATE, &pages());
    let expected = format!(
        "HTTP/1.1 200 OK\r\n{}Content-Type: text/html;charset=utf-8\r\nContent-Length: 13\r\n\r\n<h1>home</h1>",
        base()
    );
    assert_eq!(r, expected);
}

#[test]
fn unknown_route_serves_not_found() {
    let r = handle_request(b"GET /nowhere HTTP/1.1\r\n\r\n", DATE, &pages());
    let expected = format!(
        "HTTP/1.1 404 NOT FOUND\r\n{}Content-Type: text/html;charset=utf-8\r\nContent-Length: 16\r\n\r\n<h1>missing</h1>",
        base()
    );
    assert_eq!(r, expected);
}

#[test]
fn content_length_counts_bytes() {
    let p = Pages { index: "caf\u{e9}".to_string(), not_found: String::new() };
    let r = handle_request(b"GET / HTTP/1.1\r\n\r\n", DATE, &p);
    assert!(r.ends_with("Content-Length: 5\r\n\r\ncaf\u{e9}"));
}

#[test]
fn test_route() {
    let r = handle_request(b"GET /test HTTP/1.1\r\n\r\n", DATE, &pages());
    let expected = format!(
        "HTTP/1.1 200 OK\r\n{}Content-Type: text/html;charset=utf-8\r\nContent-Length: 5\r\n\r\nhello",
        base()
    );
    assert_eq!(r, expected);
}

#[test]
fn post_route_echoes_message() {
    let input = b"POST /post HTTP/1.1\r\nContent-Length: 17\r\n\r\n{\"message\":\"hey\"}";
    let r = handle_request(input, DATE, &pages());
    let expected = format!(
        "HTTP/1.1 200 OK\r\n{}Access-Control-Allow-Origin: *\r\n\r\n{{\"ok\":true,\"result\":\"You said hey\"}}",
        base()
    );
    assert_eq!(r, expected);
}

#[test]
fn post_route_refuses_bad_json() {
    let input = b"POST /post HTTP/1.1\r\nContent-Length: 3\r\n\r\nabc";
    let r = handle_request(input, DATE, &pages());
    let expected = format!(
        "HTTP/1.1 200 OK\r\n{}\r\n{{\"ok\":false,\"result\":\"That wont work\"}}",
        base()
    );
    assert_eq!(r, expected);
}

#[test]
fn post_route_without_body_serves_index() {
    let r = handle_request(b"POST /post HTTP/1.1\r\n\r\n", DATE, &pages());
    assert_eq!(r, "HTTP/1.1 200 OK\r\nContent-Length: 13\r\n\r\n<h1>home</h1>");
}

#[test]
fn malformed_request_gets_bad_request() {
    let r = handle_request(b"NONSENSE\r\n\r\n", DATE, &pages());
    let expected = format!("HTTP/1.1 400 BAD REQUEST\r\n{}Content-Length: 0\r\n\r\n", base());
    assert_eq!(r, expected);
}

#[test]
fn live_date_header_is_filled() {
    let r = handle_connection(b"GET / HTTP/1.1\r\n\r\n", &pages());
    assert!(r.starts_with("HTTP/1.1 200 OK\r\nDate: "));
    let date_line = r.lines().nth(1).unwrap();
    assert!(date_line.len() > "Date: ".len());
    assert!(r.ends_with("\r\n\r\n<h1>home</h1>"));
}

#[test]
fn json_result_escapes_text() {
    let ok: ResponseResult<&str, &str> = ResponseResult { ok: true, result: Ok("a \"quoted\" word") };
    assert_eq!(ok.to_json(), "{\"ok\":true,\"result\":\"a \\\"quoted\\\" word\"}");
    let err: ResponseResult<&str, &str> = ResponseResult { ok: false, result: Err("no") };
    assert_eq!(err.to_json(), "{\"ok\":false,\"result\":\"no\"}");
}

#[test]
fn json_message_reads_field() {
    assert_eq!(json_message(b"{\"message\":\"a\\nb\",\"x\":1}"), Some("a\nb".to_string()));
    assert_eq!(json_message(b"{\"other\":\"a\"}"), None);
    assert_eq!(json_message(b"{\"message\":3}"), None);
    assert_eq!(json_message(b"not json"), None);
}
