use ballballu::http::{get_content_type, HttpServer};

#[test]
fn content_types_by_extension() {
    assert_eq!(get_content_type("index.html"), "text/html; charset=utf-8");
    assert_eq!(get_content_type("styles/site.css"), "text/css; charset=utf-8");
    assert_eq!(get_content_type("app.js"), "application/javascript; charset=utf-8");
    assert_eq!(get_content_type("data.json"), "application/json");
    assert_eq!(get_content_type("logo.png"), "image/png");
    assert_eq!(get_content_type("photo.jpg"), "image/jpeg");
    assert_eq!(get_content_type("photo.jpeg"), "image/jpeg");
    assert_eq!(get_content_type("icon.svg"), "image/svg+xml");
    // only the last dot decides
    assert_eq!(get_content_type("bundle.min.js"), "application/javascript; charset=utf-8");
    assert_eq!(get_content_type("a.b.c.png"), "image/png");
}

#[test]
fn unknown_or_missing_extension_is_plain_text() {
    assert_eq!(get_content_type("README"), "text/plain");
    assert_eq!(get_content_type("archive.tar"), "text/plain");
    assert_eq!(get_content_type("dir.html/file"), "text/plain");
    assert_eq!(get_content_type("trailing."), "text/plain");
    assert_eq!(get_content_type(""), "text/plain");
}

#[test]
fn http_server_keeps_configuration() {
    let server = HttpServer::new("127.0.0.1:8080", String::from("static"));
    assert_eq!(server.addr, "127.0.0.1:8080");
    assert_eq!(server.static_dir, "static");
}
