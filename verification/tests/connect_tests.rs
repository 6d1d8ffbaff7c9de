use rws::connect::{
    content_type_for, decimal, extension_of, not_found_path, not_found_reply, ok_reply,
    parse_request_line, resolve_uri, response_head, route_request, Route, Status,
};

#[test]
fn parse_get_line() {
    assert_eq!(
        parse_request_line("GET /about HTTP/1.1"),
        Some(String::from("/about"))
    );
}

#[test]
fn parse_root_line() {
    assert_eq!(parse_request_line("GET / HTTP/1.1"), Some(String::from("/")));
}

#[test]
fn parse_unsupported_method() {
    assert_eq!(parse_request_line("POST / HTTP/1.1"), None);
    assert_eq!(parse_request_line("PUT /x HTTP/1.1"), None);
}

#[test]
fn parse_unsupported_version() {
    assert_eq!(parse_request_line("GET / HTTP/1.0"), None);
    assert_eq!(parse_request_line("GET / HTTP/2.0"), None);
}

#[test]
fn parse_malformed_lines() {
    assert_eq!(parse_request_line(""), None);
    assert_eq!(parse_request_line("GET"), None);
    assert_eq!(parse_request_line("GET  HTTP/1.1"), None);
    assert_eq!(parse_request_line("GET a b HTTP/1.1"), None);
    assert_eq!(parse_request_line("xGET / HTTP/1.1"), None);
    assert_eq!(parse_request_line("GET / HTTP/1.1 "), None);
}

#[test]
fn resolve_root_document() {
    assert_eq!(resolve_uri("root", "/"), "root/root.html");
}

#[test]
fn resolve_appends_default_extension() {
    assert_eq!(resolve_uri("root", "/about"), "root/about.html");
}

#[test]
fn resolve_keeps_existing_extension() {
    assert_eq!(resolve_uri("root", "/data.json"), "root/data.json");
}

#[test]
fn resolve_nested_paths() {
    assert_eq!(resolve_uri("root", "/a/b.css"), "root/a/b.css");
    assert_eq!(resolve_uri("root", "/a/b"), "root/a/b.html");
    assert_eq!(resolve_uri(".", "/about"), "./about.html");
}

#[test]
fn resolve_hidden_file_has_no_extension() {
    assert_eq!(resolve_uri("root", "/.profile"), "root/.profile.html");
}

#[test]
fn extension_of_paths() {
    assert_eq!(extension_of("a/b.tar"), Some(String::from("tar")));
    assert_eq!(extension_of("a.b/c"), None);
    assert_eq!(extension_of(".profile"), None);
    assert_eq!(extension_of("foo."), Some(String::from("")));
    assert_eq!(extension_of("Makefile"), None);
}

#[test]
fn content_type_table() {
    assert_eq!(content_type_for("x.css"), Some(String::from("text/css")));
    assert_eq!(content_type_for("x.html"), Some(String::from("text/html")));
    assert_eq!(content_type_for("x.txt"), Some(String::from("text/txt")));
    assert_eq!(
        content_type_for("x.json"),
        Some(String::from("application/json"))
    );
    assert_eq!(
        content_type_for("x.wasm"),
        Some(String::from("application/wasm"))
    );
    assert_eq!(content_type_for("x.png"), Some(String::from("image/png")));
    assert_eq!(
        content_type_for("x.svg"),
        Some(String::from("image/svg+xml"))
    );
    assert_eq!(
        content_type_for("x.ico"),
        Some(String::from("image/vnd.microsoft.icon"))
    );
}

#[test]
fn content_type_unrecognized_extension() {
    assert_eq!(content_type_for("archive.exe"), None);
    assert_eq!(content_type_for("no_extension"), None);
}

#[test]
fn decimal_numerals() {
    assert_eq!(decimal(0), "0");
    assert_eq!(decimal(7), "7");
    assert_eq!(decimal(10), "10");
    assert_eq!(decimal(404), "404");
    assert_eq!(decimal(65535), "65535");
}

#[test]
fn response_head_layout() {
    assert_eq!(
        response_head(Status::Okay, "text/html", 5),
        "HTTP/1.1 200 OK\r\nContent-Type: text/html\r\nContent-Length: 5\r\n\r\n"
    );
    assert_eq!(
        response_head(Status::NotFound, "text/html", 0),
        "HTTP/1.1 404 NOT FOUND\r\nContent-Type: text/html\r\nContent-Length: 0\r\n\r\n"
    );
}

#[test]
fn ok_reply_serves_known_bytes() {
    let body = b"<p>Hi</p>".to_vec();
    let reply = ok_reply("root/about.html", body.clone()).unwrap();
    assert_eq!(
        reply.head,
        "HTTP/1.1 200 OK\r\nContent-Type: text/html\r\nContent-Length: 9\r\n\r\n"
    );
    assert_eq!(reply.body, body);
}

#[test]
fn ok_reply_refuses_unrecognized_extension() {
    assert!(ok_reply("root/archive.exe", b"bytes".to_vec()).is_none());
}

#[test]
fn not_found_reply_uses_canned_document() {
    let canned = b"<h1>gone</h1>".to_vec();
    let reply = not_found_reply(Some(canned.clone()));
    assert_eq!(
        reply.head,
        "HTTP/1.1 404 NOT FOUND\r\nContent-Type: text/html\r\nContent-Length: 13\r\n\r\n"
    );
    assert_eq!(reply.body, canned);
}

#[test]
fn not_found_reply_without_document_is_empty() {
    let reply = not_found_reply(None);
    assert_eq!(
        reply.head,
        "HTTP/1.1 404 NOT FOUND\r\nContent-Type: text/html\r\nContent-Length: 0\r\n\r\n"
    );
    assert!(reply.body.is_empty());
}

#[test]
fn not_found_path_under_root() {
    assert_eq!(not_found_path("root"), "root/error/404.html");
}

#[test]
fn route_ignores_bad_lines() {
    assert!(matches!(route_request("POST / HTTP/1.1", "root"), Route::Ignore));
    assert!(matches!(route_request("junk", "root"), Route::Ignore));
}

#[test]
fn route_refuses_parent_segments() {
    assert!(matches!(
        route_request("GET /../secret.html HTTP/1.1", "root"),
        Route::Refuse
    ));
    assert!(matches!(
        route_request("GET /a/../../b HTTP/1.1", "root"),
        Route::Refuse
    ));
}

#[test]
fn route_fetches_resolved_path() {
    match route_request("GET / HTTP/1.1", "root") {
        Route::Fetch(p) => assert_eq!(p, "root/root.html"),
        _ => panic!("expected a fetch"),
    }
    match route_request("GET /about HTTP/1.1", "root") {
        Route::Fetch(p) => assert_eq!(p, "root/about.html"),
        _ => panic!("expected a fetch"),
    }
}

#[test]
fn full_request_to_reply() {
    let root = "site";
    let body = b"known bytes".to_vec();
    let path = match route_request("GET /about HTTP/1.1", root) {
        Route::Fetch(p) => p,
        _ => panic!("expected a fetch"),
    };
    assert_eq!(path, "site/about.html");
    let reply = ok_reply(&path, body.clone()).unwrap();
    assert_eq!(
        reply.head,
        "HTTP/1.1 200 OK\r\nContent-Type: text/html\r\nContent-Length: 11\r\n\r\n"
    );
    assert_eq!(reply.body, body);
}
