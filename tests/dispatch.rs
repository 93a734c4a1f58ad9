use tiny_rust_server::message::{Request, Response};
use tiny_rust_server::router::{Router, RouterTable};
use tiny_rust_server::server::{
    check_static_request, dispatch, get_static_file_details, resource_details, route_request,
    select_handler, serve_file, static_router, StaticFile,
};

const GET_ROOT: usize = 0;
const GET_TEST: usize = 1;
const POST_TEST: usize = 2;
const STATIC: usize = 3;

fn run_handler(id: usize, response: &mut Response) {
    match id {
        GET_ROOT => {
            response.set_status_code(404);
            response.set_status_message("Not Found");
        }
        GET_TEST => {
            response.set_status_code(200);
            response.set_status_message("OK");
            response.set_content("Hello World!");
        }
        _ => {}
    }
}

fn demo_table() -> RouterTable {
    let mut table = RouterTable::new();
    table.route("/", "GET", GET_ROOT);
    table.route("/test", "GET", GET_TEST);
    table.route("/test", "POST", POST_TEST);
    table
}

fn serve(table: &RouterTable, method: &str, path: &str) -> Option<String> {
    let mut request = Request::new(method, path);
    let handler = dispatch(table, &mut request)?;
    let mut response = Response::new();
    run_handler(handler, &mut response);
    response.to_wire()
}

#[test]
fn get_test_answers_hello_world() {
    let table = demo_table();
    assert_eq!(
        serve(&table, "GET", "/test"),
        Some(String::from(
            "HTTP/1.1 200 OK\r\nContent-Type: text/plain\r\nContent-Length: 12\r\n\r\nHello World!"
        ))
    );
}

#[test]
fn post_test_sends_nothing() {
    let table = demo_table();
    let mut request = Request::new("POST", "/test");
    assert_eq!(dispatch(&table, &mut request), Some(POST_TEST));
    assert_eq!(serve(&table, "POST", "/test"), None);
}

#[test]
fn unregistered_path_reaches_no_handler() {
    let table = demo_table();
    let mut request = Request::new("GET", "/unregistered");
    assert_eq!(dispatch(&table, &mut request), None);
}

#[test]
fn root_handler_answers_not_found_when_reached() {
    let mut response = Response::new();
    run_handler(GET_ROOT, &mut response);
    assert_eq!(response.to_wire(), Some(String::from("HTTP/1.1 404 Not Found\r\n\r\n")));
}

#[test]
fn root_request_is_rewritten_to_static() {
    let table = demo_table();
    let mut request = Request::new("GET", "/");
    let group = route_request(&table, &mut request);
    assert_eq!(request.path, "/static");
    let data = request.static_request_data.as_ref().unwrap();
    assert!(data.path.is_none());
    // only the root group covers `/static` here, and it has no route there
    assert_eq!(group, Some(0));
    assert_eq!(select_handler(&table, 0, &request), None);
}

#[test]
fn root_request_goes_to_registered_static_group() {
    let mut table = demo_table();
    table.router(static_router(STATIC));
    let mut request = Request::new("GET", "/");
    assert_eq!(dispatch(&table, &mut request), Some(STATIC));
}

#[test]
fn unknown_method_on_matched_route_reaches_nothing() {
    let table = demo_table();
    let mut request = Request::new("DELETE", "/test");
    assert_eq!(dispatch(&table, &mut request), None);
}

#[test]
fn deepest_prefix_wins() {
    let mut table = RouterTable::new();
    let mut api = Router::new("/api");
    api.route("/users/list", "GET", 7);
    let mut users = Router::new("/api/users");
    users.route("/list", "GET", 8);
    table.router(api);
    table.router(users);
    assert_eq!(table.search("/api/users/list"), Some(1));
    assert_eq!(table.search("/api/other"), Some(0));
    assert_eq!(table.search("/apis"), None);
    let mut request = Request::new("GET", "/api/users/list");
    assert_eq!(dispatch(&table, &mut request), Some(8));
}

#[test]
fn registration_order_does_not_change_deepest_match() {
    let mut table = RouterTable::new();
    table.router(Router::new("/a/b"));
    table.router(Router::new("/a"));
    table.router(Router::new("/"));
    assert_eq!(table.search("/a/b/c"), Some(0));
    assert_eq!(table.search("/a/bc"), Some(1));
    assert_eq!(table.search("/x"), Some(2));
}

#[test]
fn same_base_path_replaces_group() {
    let mut table = RouterTable::new();
    let mut first = Router::new("/x");
    first.route("", "GET", 1);
    let mut second = Router::new("/x");
    second.route("", "GET", 2);
    table.router(first);
    table.router(second);
    assert_eq!(table.routers.len(), 1);
    let mut request = Request::new("GET", "/x");
    assert_eq!(dispatch(&table, &mut request), Some(2));
}

#[test]
fn reregistering_a_method_overwrites_it() {
    let mut group = Router::new("/");
    group.route("/a", "GET", 1);
    group.route("/a", "GET", 5);
    group.route("/a", "PUT", 6);
    assert_eq!(group.find_handler("/a", "GET"), Some(5));
    assert_eq!(group.find_handler("/a", "PUT"), Some(6));
    assert_eq!(group.routes.len(), 1);
}

#[test]
fn static_extension_is_rewritten() {
    let mut request = Request::new("GET", "/css/site.css");
    check_static_request(&mut request);
    assert_eq!(request.path, "/static");
    let data = request.static_request_data.as_ref().unwrap();
    assert_eq!(data.path.as_deref(), Some("/css/site.css"));
}

#[test]
fn unknown_extension_is_left_untouched() {
    for path in ["/data.bin", "/archive.tar.zz", "/plain", "/.css", "/dir.css/file"] {
        let mut request = Request::new("GET", path);
        check_static_request(&mut request);
        assert_eq!(request.path, path);
        assert!(request.static_request_data.is_none());
    }
}

#[test]
fn fresh_response_is_default() {
    let response = Response::new();
    assert_eq!(response.status_code, None);
    assert!(response.status_message.is_empty());
    assert!(response.headers.is_empty());
    assert!(response.body.is_empty());
    assert_eq!(response.to_wire(), None);
}

#[test]
fn static_root_serves_index_page() {
    let mut table = RouterTable::new();
    table.router(static_router(STATIC));
    let mut request = Request::new("GET", "/");
    assert_eq!(dispatch(&table, &mut request), Some(STATIC));
    let details = get_static_file_details(&request, "public");
    assert!(matches!(details, Some(StaticFile::FirstHtml)));
    let (location, mime) = resource_details("public", "index.html");
    assert_eq!(location, "public/index.html");
    assert_eq!(mime, "text/html");
    let mut response = Response::new();
    serve_file(&mut response, mime, Some("<p>hi</p>"));
    assert_eq!(
        response.to_wire(),
        Some(String::from(
            "HTTP/1.1 200 OK\r\nContent-Type: text/html\r\nContent-Length: 9\r\n\r\n<p>hi</p>"
        ))
    );
}

#[test]
fn missing_static_file_gives_not_found() {
    let mut response = Response::new();
    serve_file(&mut response, "text/html", None);
    assert_eq!(response.to_wire(), Some(String::from("HTTP/1.1 404 Not Found\r\n\r\n")));
}

#[test]
fn concrete_static_file_details() {
    let mut request = Request::new("GET", "/img/logo.png");
    check_static_request(&mut request);
    match get_static_file_details(&request, "www") {
        Some(StaticFile::File(location, mime)) => {
            assert_eq!(location, "www/img/logo.png");
            assert_eq!(mime, "image/png");
        }
        _ => panic!("expected a concrete file"),
    }
    let plain = Request::new("GET", "/img");
    assert!(get_static_file_details(&plain, "www").is_none());
}
