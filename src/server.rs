//! The per-request decisions: rewriting static-file requests, choosing the
//! group and the handler, and what the static-file handler does with a file.
use vstd::prelude::*;
use crate::message::{Request, Response, StaticRequestData, decimal};
use crate::path::{extension, extension_of, joined, join_path, same_text};
use crate::router::{Router, RouterTable, lemma_deepest, route_path};
use crate::path::{covers, is_prefix_of};

verus! {

/// The extensions whose requests are served as static files.
pub open spec fn is_static_extension(e: Seq<char>) -> bool {
    ||| e == "html"@ ||| e == "htm"@ ||| e == "css"@ ||| e == "js"@
    ||| e == "png"@ ||| e == "jpg"@ ||| e == "jpeg"@ ||| e == "gif"@
    ||| e == "svg"@ ||| e == "ico"@ ||| e == "txt"@ ||| e == "json"@
}

/// The media type served for a file with extension `e`.
pub open spec fn mime_of(e: Seq<char>) -> Seq<char> {
    if e == "html"@ || e == "htm"@ {
        "text/html"@
    } else if e == "css"@ {
        "text/css"@
    } else if e == "js"@ {
        "text/javascript"@
    } else if e == "png"@ {
        "image/png"@
    } else if e == "jpg"@ || e == "jpeg"@ {
        "image/jpeg"@
    } else if e == "gif"@ {
        "image/gif"@
    } else if e == "svg"@ {
        "image/svg+xml"@
    } else if e == "ico"@ {
        "image/x-icon"@
    } else if e == "json"@ {
        "application/json"@
    } else {
        "text/plain"@
    }
}

/// A request path names a static file: its extension is a static one.
pub open spec fn is_static_request_path(p: Seq<char>) -> bool {
    extension_of(p) matches Some(e) && is_static_extension(e)
}

/// The media type served for the file at `p`.
pub open spec fn mime_of_path(p: Seq<char>) -> Seq<char> {
    match extension_of(p) {
        Some(e) => mime_of(e),
        None => "text/plain"@,
    }
}

/// Where a request for `p` is routed: `/` and static files go to `/static`.
pub open spec fn routed_path(p: Seq<char>) -> Seq<char> {
    if p == "/"@ || is_static_request_path(p) {
        "/static"@
    } else {
        p
    }
}

/// The handler a request for `p` with `method` reaches in `table`, where no
/// middleware changes it.
pub open spec fn dispatch_target(table: RouterTable, method: Seq<char>, p: Seq<char>) -> Option<usize> {
    table.handler_for(routed_path(p), method)
}

/// Whether `ext` is a static-file extension.
pub fn is_static_file(ext: &str) -> (r: bool)
    ensures
        r == is_static_extension(ext@),
{
    same_text(ext, "html") || same_text(ext, "htm") || same_text(ext, "css") || same_text(ext, "js")
        || same_text(ext, "png") || same_text(ext, "jpg") || same_text(ext, "jpeg")
        || same_text(ext, "gif") || same_text(ext, "svg") || same_text(ext, "ico")
        || same_text(ext, "txt") || same_text(ext, "json")
}

/// The media type of a file with extension `ext`.
pub fn guess_mime_type(ext: &str) -> (r: &'static str)
    ensures
        r@ == mime_of(ext@),
{
    if same_text(ext, "html") || same_text(ext, "htm") {
        "text/html"
    } else if same_text(ext, "css") {
        "text/css"
    } else if same_text(ext, "js") {
        "text/javascript"
    } else if same_text(ext, "png") {
        "image/png"
    } else if same_text(ext, "jpg") || same_text(ext, "jpeg") {
        "image/jpeg"
    } else if same_text(ext, "gif") {
        "image/gif"
    } else if same_text(ext, "svg") {
        "image/svg+xml"
    } else if same_text(ext, "ico") {
        "image/x-icon"
    } else if same_text(ext, "json") {
        "application/json"
    } else {
        "text/plain"
    }
}

/// Whether the request's path names a static file, and the path itself.
pub fn is_static_path(request: &Request) -> (r: (bool, String))
    ensures
        r.0 == is_static_request_path(request.path@),
        r.1@ == request.path@,
{
    let is_static = match extension(request.path.as_str()) {
        Some(e) => is_static_file(e.as_str()),
        None => false,
    };
    (is_static, request.path.clone())
}

/// Rewrites a request for `/` or for a static file to the path `/static`, and
/// marks it: with no file for `/`, with the requested path otherwise. Other
/// requests are left as they are.
pub fn check_static_request(request: &mut Request)
    ensures
        final(request).method == old(request).method,
        final(request).headers == old(request).headers,
        final(request).body == old(request).body,
        final(request).path@ == routed_path(old(request).path@),
        old(request).path@ == "/"@ ==> (final(request).static_request_data matches Some(d) && d.path is None),
        old(request).path@ != "/"@ && is_static_request_path(old(request).path@) ==> (
            final(request).static_request_data matches Some(d) && d.path matches Some(p)
                && p@ == old(request).path@),
        old(request).path@ != "/"@ && !is_static_request_path(old(request).path@)
            ==> final(request).static_request_data == old(request).static_request_data,
{
    if same_text(request.path.as_str(), "/") {
        request.static_request_data = Some(StaticRequestData { path: None });
        request.path = String::from_str("/static");
    } else {
        let static_info = is_static_path(request);
        if static_info.0 {
            request.static_request_data = Some(StaticRequestData { path: Some(static_info.1) });
            request.path = String::from_str("/static");
        }
    }
}

/// Rewrites a static request, then picks the group it goes to.
pub fn route_request(table: &RouterTable, request: &mut Request) -> (r: Option<usize>)
    ensures
        final(request).path@ == routed_path(old(request).path@),
        final(request).method == old(request).method,
        r matches Some(i) ==> table.group_for(final(request).path@) == Some(i as int)
            && i < table.routers@.len(),
        r is None ==> table.group_for(final(request).path@) is None,
{
    check_static_request(request);
    table.search(request.path.as_str())
}

/// The handler of the group at `group` for the request as it stands, after
/// that group's middleware.
pub fn select_handler(table: &RouterTable, group: usize, request: &Request) -> (r: Option<usize>)
    requires
        group < table.routers@.len(),
    ensures
        r == table.routers@[group as int].handler_for(request.path@, request.method@),
{
    table.routers[group].find_handler(request.path.as_str(), request.method.as_str())
}

/// The handler that a request reaches where no middleware changes it; the
/// request is rewritten as a static one where it is one.
pub fn dispatch(table: &RouterTable, request: &mut Request) -> (r: Option<usize>)
    ensures
        r == dispatch_target(*table, old(request).method@, old(request).path@),
        final(request).path@ == routed_path(old(request).path@),
{
    match route_request(table, request) {
        Some(g) => select_handler(table, g, request),
        None => None,
    }
}

/// The group `/static` with `handler` as its one handler: `GET` on the
/// group's own path, where every rewritten static request lands.
pub fn static_router(handler: usize) -> (r: Router)
    ensures
        r.base_path@ == "/static"@,
        r.middleware@.len() == 0,
        forall|p: Seq<char>, m: Seq<char>| #[trigger] r.handler_for(p, m)
            == if p == "/static"@ && m == "GET"@ { Some(handler) } else { None },
{
    let mut r = Router::new("/static");
    r.route("", "GET", handler);
    proof {
        reveal_strlit("");
        assert(route_path("/static"@, ""@) =~= "/static"@);
    }
    r
}

/// What the static-file handler is to serve.
pub enum StaticFile {
    /// The file at this location, with this media type.
    File(String, &'static str),
    /// The first HTML file under the static root.
    FirstHtml,
}

/// The location of the resource `resource` under `root_path` and its media type.
pub fn resource_details(root_path: &str, resource: &str) -> (r: (String, &'static str))
    ensures
        r.0@ == joined(root_path@, resource@),
        r.1@ == mime_of_path(resource@),
{
    let mime = match extension(resource) {
        Some(e) => guess_mime_type(e.as_str()),
        None => "text/plain",
    };
    (join_path(root_path, resource), mime)
}

/// What a request marked as static asks for under the directory `root_path`;
/// nothing for an unmarked request.
pub fn get_static_file_details(request: &Request, root_path: &str) -> (r: Option<StaticFile>)
    ensures
        request.static_request_data is None ==> r is None,
        request.static_request_data matches Some(d) ==> match d.path {
            None => r matches Some(StaticFile::FirstHtml),
            Some(p) => r matches Some(StaticFile::File(loc, mime))
                && loc@ == joined(root_path@, p@) && mime@ == mime_of_path(p@),
        },
{
    match &request.static_request_data {
        None => None,
        Some(data) => match &data.path {
            None => Some(StaticFile::FirstHtml),
            Some(p) => {
                let (loc, mime) = resource_details(root_path, p.as_str());
                Some(StaticFile::File(loc, mime))
            },
        },
    }
}

/// Fills the response of the static-file handler from what reading the file
/// gave: its text, served as `200 OK` with the media type, or `404 Not Found`
/// where it could not be read.
pub fn serve_file(response: &mut Response, mime: &str, content: Option<&str>)
    ensures
        content matches Some(c) ==> {
            &&& final(response).status_code == Some(200u16)
            &&& final(response).status_message@ == "OK"@
            &&& final(response).body@ == c@
            &&& final(response).header("Content-Type"@) matches Some(v) && v@ == mime@
            &&& final(response).header("Content-Length"@) matches Some(v) && v@ == decimal(c.len() as nat)
        },
        content is None ==> {
            &&& final(response).status_code == Some(404u16)
            &&& final(response).status_message@ == "Not Found"@
            &&& final(response).headers == old(response).headers
            &&& final(response).body == old(response).body
        },
{
    match content {
        Some(c) => {
            response.set_status(200, "OK");
            response.set_contents(mime, c);
        },
        None => {
            response.set_status(404, "Not Found");
        },
    }
}

/// A request for a path goes to the group with the deepest covering base:
/// where two registered bases both cover it and one is strictly shorter, the
/// chosen group is never the shorter one, and is at least as deep as the
/// longer one.
pub proof fn law_deepest_prefix_wins(table: RouterTable, p: Seq<char>, shallow: int, deep: int)
    requires
        0 <= shallow < table.bases().len(),
        0 <= deep < table.bases().len(),
        covers(table.bases()[shallow], p),
        covers(table.bases()[deep], p),
        table.bases()[shallow].len() < table.bases()[deep].len(),
    ensures
        table.group_for(p) matches Some(i) && table.bases()[i] != table.bases()[shallow]
            && table.bases()[i].len() >= table.bases()[deep].len(),
{
    lemma_deepest(table.bases(), p);
}

/// A request for `/` is routed to `/static` and marked with no file; where a
/// `/static` group is registered, that group receives it.
pub proof fn law_root_goes_to_static(table: RouterTable)
    ensures
        routed_path("/"@) == "/static"@,
        (exists|j: int| 0 <= j < table.bases().len() && table.bases()[j] == "/static"@)
            ==> (table.group_for("/static"@) matches Some(i) && table.bases()[i] == "/static"@),
{
    let bases = table.bases();
    lemma_deepest(bases, "/static"@);
    if exists|j: int| 0 <= j < bases.len() && bases[j] == "/static"@ {
        let j = choose|j: int| 0 <= j < bases.len() && bases[j] == "/static"@;
        reveal_strlit("/static");
        assert("/static"@.subrange(0, 7) =~= "/static"@);
        assert(covers(bases[j], "/static"@));
        let i = table.group_for("/static"@)->0;
        assert(is_prefix_of(bases[i], "/static"@));
        assert(bases[i] =~= "/static"@.subrange(0, bases[i].len() as int));
        assert(bases[i].len() == 7);
        assert(bases[i] =~= "/static"@);
    }
}

/// A handler registered in a group under a sub-path and method is the one a
/// request for that group's path joined with the sub-path, and that method,
/// reaches, where the path is not rewritten as static and the group is the one
/// the path selects. `before` and `after` are the group around the
/// registration, related as `Router::route` states.
pub proof fn law_registered_handler_dispatched(
    before: Router,
    after: Router,
    table: RouterTable,
    g: int,
    sub: Seq<char>,
    method: Seq<char>,
    handler: usize,
)
    requires
        after.base_path == before.base_path,
        forall|p: Seq<char>, m: Seq<char>| #[trigger] after.handler_for(p, m)
            == if p == route_path(before.base_path@, sub) && m == method {
                Some(handler)
            } else {
                before.handler_for(p, m)
            },
        0 <= g < table.routers@.len(),
        table.routers@[g] == after,
        route_path(before.base_path@, sub) != "/"@,
        !is_static_request_path(route_path(before.base_path@, sub)),
        table.group_for(route_path(before.base_path@, sub)) == Some(g),
    ensures
        dispatch_target(table, method, route_path(before.base_path@, sub)) == Some(handler),
{
    let p = route_path(before.base_path@, sub);
    assert(after.handler_for(p, method) == Some(handler));
}

/// A request whose path reaches a route that has no handler for its method
/// reaches no handler.
pub proof fn law_unregistered_method_dispatches_nothing(table: RouterTable, method: Seq<char>, p: Seq<char>)
    requires
        table.group_for(routed_path(p)) matches Some(g)
            && table.routers@[g].route_at(routed_path(p)) matches Some(route)
            && route.handler(method) is None,
    ensures
        dispatch_target(table, method, p) is None,
{
}

} // verus!
