use tiny_rust_server::message::{decimal_string, Response};
use tiny_rust_server::path::{covers_path, extension, find_last, join_path, same_text};
use tiny_rust_server::router::join_route_path;
use tiny_rust_server::server::{guess_mime_type, is_static_file};

#[test]
fn extensions_of_paths() {
    assert_eq!(extension("/a/b.html"), Some(String::from("html")));
    assert_eq!(extension("/x.tar.gz"), Some(String::from("gz")));
    assert_eq!(extension("/a.b/c"), None);
    assert_eq!(extension("/.hidden"), None);
    assert_eq!(extension("/name."), Some(String::new()));
    assert_eq!(extension(""), None);
}

#[test]
fn coverage_stops_at_segment_boundaries() {
    assert!(covers_path("/", "/anything"));
    assert!(covers_path("/static", "/static"));
    assert!(covers_path("/static", "/static/img/a.png"));
    assert!(!covers_path("/static", "/statics"));
    assert!(covers_path("/static/", "/static/x"));
    assert!(!covers_path("/static/x", "/static"));
}

#[test]
fn route_paths_join_with_one_slash() {
    assert_eq!(join_route_path("/", "/test"), "/test");
    assert_eq!(join_route_path("/static", ""), "/static");
    assert_eq!(join_route_path("/api", "/users"), "/api/users");
    assert_eq!(join_route_path("/", ""), "/");
}

#[test]
fn static_paths_join_under_root() {
    assert_eq!(join_path("root", "/a.css"), "root/a.css");
    assert_eq!(join_path("root", "a.css"), "root/a.css");
}

#[test]
fn text_helpers() {
    assert_eq!(find_last("a/b/c", '/'), Some(3));
    assert_eq!(find_last("abc", '/'), None);
    assert!(same_text("GET", "GET"));
    assert!(!same_text("GET", "GETS"));
    assert_eq!(decimal_string(0), "0");
    assert_eq!(decimal_string(404), "404");
    assert_eq!(decimal_string(1234567), "1234567");
}

#[test]
fn media_types() {
    assert_eq!(guess_mime_type("html"), "text/html");
    assert_eq!(guess_mime_type("css"), "text/css");
    assert_eq!(guess_mime_type("js"), "text/javascript");
    assert_eq!(guess_mime_type("jpeg"), "image/jpeg");
    assert_eq!(guess_mime_type("svg"), "image/svg+xml");
    assert_eq!(guess_mime_type("bin"), "text/plain");
    assert!(is_static_file("png"));
    assert!(!is_static_file("exe"));
}

#[test]
fn headers_are_replaced_not_repeated() {
    let mut response = Response::new();
    response.set_status(200, "OK");
    response.set_header("X-A", "1");
    response.set_header("X-B", "2");
    response.set_header("X-A", "3");
    assert_eq!(response.to_wire(), Some(String::from("HTTP/1.1 200 OK\r\nX-A: 3\r\nX-B: 2\r\n\r\n")));
    response.set_content("héllo");
    assert_eq!(
        response.to_wire(),
        Some(String::from(
            "HTTP/1.1 200 OK\r\nX-A: 3\r\nX-B: 2\r\nContent-Type: text/plain\r\nContent-Length: 6\r\n\r\nhéllo"
        ))
    );
}
