use saba_core::error::Error;
use saba_core::http::{HttpClient, HttpResponse};

#[test]
fn test_invalid() {
    let raw = "HTTP/1.1 200 OK".to_string();
    assert!(HttpResponse::new(raw).is_err());
}

#[test]
fn test_status_line_only() {
    let raw = "HTTP/1.1 200 OK\n\n".to_string();
    let res = HttpResponse::new(raw).expect("Failed to parse http response");
    assert_eq!(res.version(), "HTTP/1.1");
    assert_eq!(res.status_code(), 200);
    assert_eq!(res.reason(), "OK");
}

#[test]
fn test_one_header() {
    let raw = "HTTP/1.1 200 OK\nDate:xx xx xx\n\n".to_string();
    let res = HttpResponse::new(raw).expect("Failed to parse http response");
    assert_eq!(res.version(), "HTTP/1.1");
    assert_eq!(res.status_code(), 200);
    assert_eq!(res.reason(), "OK");
    assert_eq!(res.header_value("Date"), Ok("xx xx xx".to_string()));
}

#[test]
fn test_two_headers_with_white_space() {
    let raw = "HTTP/1.1 200 OK\nDate: xx xx xx\nContent-Length: 42\n\n".to_string();
    let res = HttpResponse::new(raw).expect("Failed to parse http response");
    assert_eq!(res.version(), "HTTP/1.1");
    assert_eq!(res.status_code(), 200);
    assert_eq!(res.reason(), "OK");
    assert_eq!(res.header_value("Date"), Ok("xx xx xx".to_string()));
    assert_eq!(res.header_value("Content-Length"), Ok("42".to_string()));
}

#[test]
fn http_test_body() {
    let raw = "HTTP/1.1 200 OK\nDate: xx xx xx\n\nbody message".to_string();
    let res = HttpResponse::new(raw).expect("Failed to parse http response");
    assert_eq!(res.version(), "HTTP/1.1");
    assert_eq!(res.status_code(), 200);
    assert_eq!(res.reason(), "OK");
    assert_eq!(res.header_value("Date"), Ok("xx xx xx".to_string()));
    assert_eq!(res.body(), "body message".to_string());
}

#[test]
fn http_crlf_and_leading_whitespace() {
    let raw = "  \r\nHTTP/1.1 302 Found\r\nLocation: http://a/b\r\n\r\nhi".to_string();
    let res = HttpResponse::new(raw).expect("should parse");
    assert_eq!(res.status_code(), 302);
    assert_eq!(res.reason(), "Found");
    assert_eq!(res.header_value("Location"), Ok("http://a/b".to_string()));
    assert_eq!(res.body(), "hi");
    assert_eq!(res.headers().len(), 1);
}

#[test]
fn http_bad_status_code_is_404() {
    let res = HttpResponse::new("HTTP/1.1 abc Bad\n\n".to_string()).expect("should parse");
    assert_eq!(res.status_code(), 404);
}

#[test]
fn http_reason_keeps_spaces() {
    let res = HttpResponse::new("HTTP/1.1 404 Not Found\n\n".to_string()).expect("should parse");
    assert_eq!(res.reason(), "Not Found");
}

#[test]
fn http_missing_header() {
    let res = HttpResponse::new("HTTP/1.1 200 OK\nA: b\n\n".to_string()).expect("should parse");
    assert_eq!(res.header_value("B"), Err("failed to find B in headers".to_string()));
}

#[test]
fn http_invalid_is_network_error() {
    match HttpResponse::new("garbage".to_string()) {
        Err(Error::Network(msg)) => assert_eq!(msg, "invalid http response: garbage"),
        _ => panic!("expected a network error"),
    }
}

#[test]
fn http_request_text() {
    let client = HttpClient::new();
    assert_eq!(
        client.request_text("example.com", "index.html"),
        "GET /index.html HTTP/1.1\nHost: example.com\nAccept: text/html\nConnection: close\n\n"
    );
}
