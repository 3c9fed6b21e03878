use sentinel::http::decode_chunked;
use sentinel::http::find_header_end;
use sentinel::http::get_header;
use sentinel::http::parse_response;
use sentinel::http::parse_status_line;
use sentinel::http::parse_url;
use sentinel::http::HttpError;

#[test]
fn test_parse_url_basic() {
    let url = parse_url("https://api.example.com/v1/messages").unwrap();
    assert_eq!(url.host, "api.example.com");
    assert_eq!(url.port, 443);
    assert_eq!(url.path, "/v1/messages");
}

#[test]
fn test_parse_url_with_port() {
    let url = parse_url("https://localhost:8443/test").unwrap();
    assert_eq!(url.host, "localhost");
    assert_eq!(url.port, 8443);
    assert_eq!(url.path, "/test");
}

#[test]
fn test_parse_url_no_path() {
    let url = parse_url("https://example.com").unwrap();
    assert_eq!(url.host, "example.com");
    assert_eq!(url.path, "/");
}

#[test]
fn test_parse_url_rejects_http() {
    assert!(parse_url("http://example.com").is_err());
}

#[test]
fn test_parse_url_bad_port() {
    let err = parse_url("https://h:70000/x").unwrap_err();
    assert!(matches!(err, HttpError::InvalidUrl(m) if m == "invalid port"));
    let err = parse_url("https://:443/x").unwrap_err();
    assert!(matches!(err, HttpError::InvalidUrl(m) if m == "empty host"));
}

#[test]
fn test_parse_response_basic() {
    let raw = b"HTTP/1.1 200 OK\r\nContent-Length: 5\r\n\r\nhello";
    let resp = parse_response(&raw[..]).unwrap();
    assert_eq!(resp.status, 200);
    assert_eq!(resp.body, b"hello");
}

#[test]
fn test_parse_response_404() {
    let raw = b"HTTP/1.1 404 Not Found\r\nContent-Length: 9\r\n\r\nnot found";
    let resp = parse_response(&raw[..]).unwrap();
    assert_eq!(resp.status, 404);
    assert_eq!(resp.body_string().unwrap(), "not found");
}

#[test]
fn test_parse_response_chunked() {
    let raw =
        b"HTTP/1.1 200 OK\r\nTransfer-Encoding: chunked\r\n\r\n5\r\nhello\r\n6\r\n world\r\n0\r\n\r\n";
    let resp = parse_response(&raw[..]).unwrap();
    assert_eq!(resp.body_string().unwrap(), "hello world");
}

#[test]
fn test_parse_response_headers() {
    let raw = b"HTTP/1.1 200 OK\r\ncontent-type: application/json\r\nX-Custom: test\r\n\r\n{}";
    let resp = parse_response(&raw[..]).unwrap();
    assert_eq!(
        get_header(&resp.headers, "content-type").map(|v| v.as_str()),
        Some("application/json")
    );
    assert_eq!(
        get_header(&resp.headers, "x-custom").map(|v| v.as_str()),
        Some("test")
    );
}

#[test]
fn test_find_header_end() {
    let data = b"Header1: val\r\nHeader2: val\r\n\r\nbody";
    assert_eq!(find_header_end(&data[..]), Some(26));
}

#[test]
fn test_decode_chunked() {
    let data = b"3\r\nabc\r\n4\r\ndefg\r\n0\r\n\r\n";
    let result = decode_chunked(&data[..]).unwrap();
    assert_eq!(result, b"abcdefg");
}

#[test]
fn test_parse_status_line_errors() {
    assert!(matches!(
        parse_status_line("HTTP/1.1"),
        Err(HttpError::Protocol(m)) if m == "malformed status line"
    ));
    assert!(matches!(
        parse_status_line("HTTP/1.1 abc OK"),
        Err(HttpError::Protocol(m)) if m == "invalid status code"
    ));
    assert_eq!(parse_status_line("HTTP/1.1 204 No Content").unwrap(), 204);
}

#[test]
fn test_body_string_rejects_bad_utf8() {
    let raw = b"HTTP/1.1 200 OK\r\nContent-Length: 2\r\n\r\n\xff\xfe";
    let resp = parse_response(&raw[..]).unwrap();
    let err = resp.body_string().unwrap_err();
    assert!(matches!(err, HttpError::Protocol(m) if m == "response body is not valid UTF-8"));
}

#[test]
fn test_decode_chunked_bad_size() {
    let data = b"zz\r\nabc\r\n0\r\n\r\n";
    let err = decode_chunked(&data[..]).unwrap_err();
    assert!(matches!(err, HttpError::Protocol(m) if m == "invalid chunk size: 'zz'"));
}
