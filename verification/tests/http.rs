use light_tool::http;

#[test]
fn test_parse_url() {
    let parts = http::parse_url("http://127.0.0.1:9090/ping").unwrap();
    assert_eq!(parts.host, "127.0.0.1");
    assert_eq!(parts.port, 9090);
    assert_eq!(parts.path, "/ping");

    let parts = http::parse_url("https://example.com").unwrap();
    assert_eq!(parts.host, "example.com");
    assert_eq!(parts.port, 80);
    assert_eq!(parts.path, "/");

    let parts = http::parse_url("http://192.168.110.106:9900/api/v1/sys/node/dtu").unwrap();
    assert_eq!(parts.host, "192.168.110.106");
    assert_eq!(parts.port, 9900);
    assert_eq!(parts.path, "/api/v1/sys/node/dtu");
}

#[test]
fn test_parse_url_signed_port() {
    // Integer parsing accepts a leading plus sign.
    let parts = http::parse_url("http://h:+80/x").unwrap();
    assert_eq!(parts.port, 80);
    assert_eq!(http::parse_url("http://h:+/x").unwrap_err(), "Invalid port");
}

#[test]
fn test_parse_url_errors() {
    assert_eq!(
        http::parse_url("example.com").unwrap_err(),
        "Invalid URL: Missing protocol (http or https)"
    );
    assert_eq!(http::parse_url("http://host:99999/x").unwrap_err(), "Invalid port");
    assert_eq!(http::parse_url("http://host:12ab/x").unwrap_err(), "Invalid port");
    assert_eq!(http::parse_url("http://host:/x").unwrap_err(), "Invalid port");
}

#[test]
fn test_build_request() {
    let headers: Vec<(String, String)> = Vec::new();
    let request = http::build_request("GET", "/ping", "127.0.0.1", &headers, None);
    assert_eq!(
        request,
        "GET /ping HTTP/1.1\r\nHost: 127.0.0.1\r\nUser-Agent: Rust HTTP Client\r\nConnection: close\r\n\r\n"
    );

    let headers = vec![("Accept".to_string(), "application/json".to_string())];
    let request = http::build_request("POST", "/api", "example.com", &headers, Some("{}"));
    assert_eq!(
        request,
        "POST /api HTTP/1.1\r\nHost: example.com\r\nUser-Agent: Rust HTTP Client\r\nAccept: application/json\r\nConnection: close\r\nContent-Length: 2\r\n\r\n{}"
    );
}

#[test]
fn test_parse_http_response() {
    let raw = b"HTTP/1.1 200 OK\r\nContent-Type: text/plain\r\n\r\nhello";
    let (headers, body) = http::parse_http_response(raw).unwrap();
    assert_eq!(headers, b"HTTP/1.1 200 OK\r\nContent-Type: text/plain");
    assert_eq!(body, b"hello");

    let no_sep = b"HTTP/1.1 200 OK\r\n";
    assert_eq!(http::parse_http_response(no_sep).unwrap_err(), "Invalid HTTP response");
}
