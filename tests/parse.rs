use tiny_rust_server::parse::{build_request, find_first, parse_header_line, parse_request_line};

#[test]
fn parses_request_with_headers_and_body() {
    let req = build_request("POST /test HTTP/1.1\r\nHost: localhost\r\nX-Empty:\r\n\r\nname=value").unwrap();
    assert_eq!(req.method, "POST");
    assert_eq!(req.path, "/test");
    assert_eq!(
        req.headers,
        vec![
            (String::from("Host"), String::from("localhost")),
            (String::from("X-Empty"), String::new())
        ]
    );
    assert_eq!(req.body, "name=value");
    assert!(req.static_request_data.is_none());
}

#[test]
fn parses_bare_newlines_and_empty_body() {
    let req = build_request("GET / HTTP/1.0\n\n").unwrap();
    assert_eq!(req.method, "GET");
    assert_eq!(req.path, "/");
    assert!(req.headers.is_empty());
    assert_eq!(req.body, "");
}

#[test]
fn rejects_malformed_requests() {
    assert!(build_request("").is_none());
    assert!(build_request("GET / HTTP/1.1").is_none());
    assert!(build_request("GET / HTTP/1.1\r\nHost: x\r\n").is_none());
    assert!(build_request("GET nopath HTTP/1.1\r\n\r\n").is_none());
    assert!(build_request("GET /\r\n\r\n").is_none());
    assert!(build_request("GET / HTTP/1.1\r\nno colon\r\n\r\n").is_none());
    assert!(build_request(" / HTTP/1.1\r\n\r\n").is_none());
}

#[test]
fn line_parts() {
    assert_eq!(
        parse_request_line("GET /a/b.css HTTP/1.1"),
        Some((String::from("GET"), String::from("/a/b.css")))
    );
    assert_eq!(parse_request_line("GET /a HTTP/1.1 extra"), None);
    assert_eq!(
        parse_header_line("Accept: text/html: yes"),
        Some((String::from("Accept"), String::from("text/html: yes")))
    );
    assert_eq!(parse_header_line(": v"), None);
    assert_eq!(find_first("ab\ncd\n", '\n'), Some(2));
}
