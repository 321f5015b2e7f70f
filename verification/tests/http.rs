use lazy::daemon::http::{
    http_response, parse_header, parse_host, request_method_path, rewrite_path_route, route_name_from_referer,
    scan_request_head, HeadScan, MAX_REQUEST_HEADER_BYTES,
};

#[test]
fn parse_host_accepts_a_port() {
    let request = b"GET / HTTP/1.1\r\nHost: vite-192-0-2-10.xip.example.com:18443\r\n\r\n";

    assert_eq!(
        parse_host(request).as_deref(),
        Some("vite-192-0-2-10.xip.example.com")
    );
}

#[test]
fn request_method_path_returns_method_and_path() {
    assert_eq!(
        request_method_path(b"GET / HTTP/1.1\r\nHost: localhost\r\n\r\n"),
        Some(("GET", "/"))
    );
    assert_eq!(
        request_method_path(b"GET /api/status HTTP/1.1\r\nHost: localhost\r\n\r\n"),
        Some(("GET", "/api/status"))
    );
    assert_eq!(
        request_method_path(b"POST / HTTP/1.1\r\nHost: localhost\r\n\r\n"),
        Some(("POST", "/"))
    );
    assert_eq!(
        request_method_path(b"GET /vite HTTP/1.1\r\nHost: localhost\r\n\r\n"),
        Some(("GET", "/vite"))
    );
    assert_eq!(request_method_path(b"not-http"), None);
}

#[test]
fn host_header_is_found_in_any_case_and_trimmed() {
    assert_eq!(parse_host(b"GET / HTTP/1.1\r\nhOsT:   api.localhost  \r\n\r\n").as_deref(), Some("api.localhost"));
    assert_eq!(parse_host(b"GET / HTTP/1.1\r\nAccept: */*\r\n\r\n"), None);
    assert_eq!(parse_host(&[0xff, 0xfe, b'\r', b'\n']), None);
}

#[test]
fn header_values_are_trimmed() {
    let request = b"POST /api/stop HTTP/1.1\r\nContent-Type:  application/json ; charset=utf-8\r\nX-Lazy-Service: vite\r\n\r\n";
    assert_eq!(parse_header(request, "content-type"), Some("application/json ; charset=utf-8"));
    assert_eq!(parse_header(request, "x-lazy-service"), Some("vite"));
    assert_eq!(parse_header(request, "referer"), None);
}

#[test]
fn path_routes_lose_their_first_segment() {
    let mut buffer = b"GET /vite/src/main.ts?x=1 HTTP/1.1\r\nHost: node\r\n\r\n".to_vec();
    assert_eq!(rewrite_path_route(&mut buffer), Some("vite".to_string()));
    assert_eq!(buffer, b"GET /src/main.ts?x=1 HTTP/1.1\r\nHost: node\r\n\r\n".to_vec());

    let mut buffer = b"GET /vite HTTP/1.1\r\n\r\n".to_vec();
    assert_eq!(rewrite_path_route(&mut buffer), Some("vite".to_string()));
    assert_eq!(buffer, b"GET / HTTP/1.1\r\n\r\n".to_vec());

    let mut buffer = b"GET /vite?q HTTP/1.1\r\n\r\n".to_vec();
    assert_eq!(rewrite_path_route(&mut buffer), Some("vite".to_string()));
    assert_eq!(buffer, b"GET /?q HTTP/1.1\r\n\r\n".to_vec());

    let mut buffer = b"GET / HTTP/1.1\r\n\r\n".to_vec();
    assert_eq!(rewrite_path_route(&mut buffer), None);
    assert_eq!(buffer, b"GET / HTTP/1.1\r\n\r\n".to_vec());

    let mut buffer = b"GET /a b HTTP/1.1\r\n\r\n".to_vec();
    assert_eq!(rewrite_path_route(&mut buffer), None);
}

#[test]
fn referer_names_the_route_on_the_route_host() {
    let request = b"GET /assets/x.js HTTP/1.1\r\nReferer: https://Node.Example:8443/vite/page\r\n\r\n";
    assert_eq!(route_name_from_referer(request, "node.example"), Some("vite".to_string()));
    assert_eq!(route_name_from_referer(request, "other.example"), None);
    let bare = b"GET / HTTP/1.1\r\nReferer: https://node.example/\r\n\r\n";
    assert_eq!(route_name_from_referer(bare, "node.example"), None);
}

#[test]
fn request_heads_are_complete_incomplete_or_too_large() {
    assert_eq!(scan_request_head(b"GET / HTTP/1.1\r\n\r\nbody"), HeadScan::Complete);
    assert_eq!(scan_request_head(b"GET / HTTP/1.1\r\n"), HeadScan::Incomplete);
    let mut big = b"GET / HTTP/1.1\r\n".to_vec();
    big.resize(MAX_REQUEST_HEADER_BYTES, b'a');
    assert_eq!(scan_request_head(&big), HeadScan::TooLarge);
    let mut late = vec![b'a'; MAX_REQUEST_HEADER_BYTES];
    late.extend_from_slice(b"\r\n\r\n");
    assert_eq!(scan_request_head(&late), HeadScan::TooLarge);
    let mut body_after = b"GET / HTTP/1.1\r\n\r\n".to_vec();
    body_after.resize(MAX_REQUEST_HEADER_BYTES * 2, b'b');
    assert_eq!(scan_request_head(&body_after), HeadScan::Complete);
    assert_eq!(MAX_REQUEST_HEADER_BYTES, 65536);
}

#[test]
fn responses_carry_length_and_close() {
    assert_eq!(
        http_response("200 OK", "text/plain", "hé"),
        "HTTP/1.1 200 OK\r\nContent-Type: text/plain\r\nContent-Length: 3\r\nConnection: close\r\n\r\nhé"
    );
}

/// Reads `input` in chunks of 1024 bytes, as the daemon does, until the
/// head is complete or too large; `None` for an empty input.
fn read_head(input: &[u8]) -> Result<Option<Vec<u8>>, String> {
    let mut buffer = Vec::new();
    for chunk in input.chunks(1024) {
        buffer.extend_from_slice(chunk);
        match scan_request_head(&buffer) {
            HeadScan::Complete => return Ok(Some(buffer)),
            HeadScan::TooLarge => {
                return Err(format!("HTTP request headers exceed {MAX_REQUEST_HEADER_BYTES} bytes"))
            }
            HeadScan::Incomplete => {}
        }
    }
    if buffer.is_empty() {
        Ok(None)
    } else {
        Err("connection closed before HTTP headers completed".to_string())
    }
}

#[test]
fn reads_a_complete_request_header() {
    let request = b"GET / HTTP/1.1\r\nHost: vite.localhost\r\n\r\n";
    let headers = read_head(request).unwrap().unwrap();
    assert_eq!(headers, request);
}

#[test]
fn rejects_oversized_request_headers() {
    let mut request = vec![b'a'; MAX_REQUEST_HEADER_BYTES + 1];
    request.extend_from_slice(b"\r\n\r\n");
    let error = read_head(&request).unwrap_err();
    assert!(error.contains("exceed"));
}

#[test]
fn header_limit_does_not_count_buffered_request_body() {
    let mut request = b"POST / HTTP/1.1\r\nHost: vite.localhost\r\n\r\n".to_vec();
    request.extend(std::iter::repeat_n(b'a', MAX_REQUEST_HEADER_BYTES + 1));
    let buffered = read_head(&request).unwrap().unwrap();
    assert!(buffered.starts_with(b"POST / HTTP/1.1"));
}

#[test]
fn empty_and_truncated_requests() {
    assert_eq!(read_head(b""), Ok(None));
    assert!(read_head(b"GET / HTTP/1.1\r\n").is_err());
}
