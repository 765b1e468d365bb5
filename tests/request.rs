use yanos::request::{route, route_request, should_rebuild, ChangeKind, Route};

fn file_of(r: Route) -> String {
    match r {
        Route::File(p) => p,
        other => panic!("expected a file, got {:?}", other),
    }
}

#[test]
fn get_of_root_serves_index() {
    assert_eq!(file_of(route_request("GET / HTTP/1.1\r\nHost: x\r\n")), "index.html");
}

#[test]
fn get_of_path_serves_file() {
    assert_eq!(file_of(route_request("GET /rust/a.html HTTP/1.1")), "rust/a.html");
}

#[test]
fn path_is_percent_decoded() {
    assert_eq!(file_of(route_request("GET /my%20post.html HTTP/1.1")), "my post.html");
}

#[test]
fn method_is_case_insensitive() {
    assert_eq!(file_of(route("get", "/x.html")), "x.html");
    assert_eq!(file_of(route("GeT", "/x.html")), "x.html");
}

#[test]
fn other_methods_are_refused() {
    assert!(matches!(route_request("POST /x.html HTTP/1.1"), Route::MethodNotAllowed));
}

#[test]
fn malformed_requests() {
    assert!(matches!(route_request("GET"), Route::Malformed));
    assert!(matches!(route_request("GET x.html HTTP/1.1"), Route::Malformed));
    assert!(matches!(route_request("GET /%FF HTTP/1.1"), Route::Malformed));
}

#[test]
fn double_slash_keeps_absolute_path() {
    assert_eq!(file_of(route_request("GET //etc/passwd HTTP/1.1")), "/etc/passwd");
}

#[test]
fn rebuild_on_content_changes_only() {
    assert!(should_rebuild(ChangeKind::Write));
    assert!(should_rebuild(ChangeKind::Create));
    assert!(should_rebuild(ChangeKind::Remove));
    assert!(should_rebuild(ChangeKind::Rename));
    assert!(!should_rebuild(ChangeKind::Other));
}
