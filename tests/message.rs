use http_server::{Header, Method, Response, Status};

#[test]
fn reason_phrase_internal_server_error() {
    assert_eq!(Status::InternalServerError.reason_phrase(), "INTERNAL SERVER ERROR");
}

#[test]
fn reason_phrase_ok() {
    assert_eq!(Status::Okay.reason_phrase(), "OK");
}

#[test]
fn reason_phrase_bad_request() {
    assert_eq!(Status::BadRequest.reason_phrase(), "BAD REQUEST");
}

#[test]
fn reason_phrase_not_found() {
    assert_eq!(Status::NotFound.reason_phrase(), "NOT FOUND");
}

#[test]
fn status_codes() {
    assert_eq!(Status::Okay.status_code(), 200);
    assert_eq!(Status::Created.status_code(), 201);
    assert_eq!(Status::Accepted.status_code(), 202);
    assert_eq!(Status::BadRequest.status_code(), 400);
    assert_eq!(Status::NotFound.status_code(), 404);
    assert_eq!(Status::InternalServerError.status_code(), 500);
}

#[test]
fn status_line_text() {
    assert_eq!(Status::Okay.response_string(), "HTTP/1.1 200 OK");
    assert_eq!(Status::InternalServerError.response_string(), "HTTP/1.1 500 INTERNAL SERVER ERROR");
    assert_eq!(Status::Created.response_string(), "HTTP/1.1 201 CREATED");
}

#[test]
fn header_wire_names() {
    assert_eq!(Header::ContentType.to_str(), "Content-Type");
    assert_eq!(Header::ContentLength.to_str(), "Content-Length");
    assert_eq!(Header::Host.to_str(), "Host");
    assert_eq!(Header::AccessControlAllowOrigin.to_str(), "Access-Control-Allow-Origin");
    assert_eq!(Header::CacheControl.to_str(), "Cache-Control");
}

#[test]
fn header_pair() {
    let pair = Header::ContentType.new("text/plain");
    assert_eq!(pair, ("Content-Type".to_string(), "text/plain".to_string()));
}

#[test]
fn header_round_trip_every_variant() {
    let all = [
        Header::ContentType,
        Header::ContentLength,
        Header::Accept,
        Header::AcceptCharset,
        Header::AcceptEncoding,
        Header::AcceptLanguage,
        Header::Authorization,
        Header::CacheControl,
        Header::Connection,
        Header::Cookie,
        Header::Host,
        Header::Referer,
        Header::Server,
        Header::Date,
        Header::AccessControlAllowOrigin,
    ];
    for h in all {
        let name = h.to_str();
        assert_eq!(Header::from_wire_name(&name), Some(h));
        assert_eq!(Header::from_wire_name(&name.to_lowercase()), Some(h));
        assert_eq!(Header::from_wire_name(&name.to_uppercase()), Some(h));
    }
}

#[test]
fn header_unknown_name() {
    assert_eq!(Header::from_wire_name("X-Custom"), None);
    assert_eq!(Header::from_wire_name("ContentType"), None);
}

#[test]
fn method_parse_any_case() {
    assert_eq!(Method::parse("GET"), Some(Method::GET));
    assert_eq!(Method::parse("get"), Some(Method::GET));
    assert_eq!(Method::parse("Patch"), Some(Method::PATCH));
    assert_eq!(Method::parse("options"), Some(Method::OPTIONS));
    assert_eq!(Method::parse("FETCH"), None);
    assert_eq!(Method::parse(""), None);
}

#[test]
fn method_from_str() {
    let m: Result<Method, ()> = "delete".parse();
    assert_eq!(m, Ok(Method::DELETE));
    let bad: Result<Method, ()> = "GETS".parse();
    assert_eq!(bad, Err(()));
}

#[test]
fn response_with_body() {
    let headers = vec![("Content-Length".to_string(), "2".to_string())];
    let response = Response::new(&Status::Okay, Some("hi"), &headers);
    assert_eq!(response.to_string(), "HTTP/1.1 200 OK\r\nContent-Length: 2\r\n\r\nhi");
}

#[test]
fn response_without_body() {
    let headers = vec![
        ("Server".to_string(), "x".to_string()),
        ("Server".to_string(), "y".to_string()),
    ];
    let response = Response::new(&Status::NotFound, None, &headers);
    assert_eq!(response.to_string(), "HTTP/1.1 404 NOT FOUND\r\nServer: x\r\nServer: y\r\n");
}

#[test]
fn response_empty_body_differs_from_none() {
    let headers: Vec<(String, String)> = Vec::new();
    let with = Response::new(&Status::Accepted, Some(""), &headers);
    let without = Response::new(&Status::Accepted, None, &headers);
    assert_eq!(with.to_string(), "HTTP/1.1 202 ACCEPTED\r\n\r\n");
    assert_eq!(without.to_string(), "HTTP/1.1 202 ACCEPTED\r\n");
}

#[test]
fn method_parse_unicode_case() {
    assert_eq!(Method::parse("po\u{17f}t"), Some(Method::POST));
    assert_eq!(Method::parse("opt\u{131}ons"), Some(Method::OPTIONS));
    let m: Result<Method, ()> = "po\u{17f}t".parse();
    assert_eq!(m, Ok(Method::POST));
}
