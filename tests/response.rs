use std::sync::Arc;

use asset_server::cache::{prepare, FileManager, GetError};
use asset_server::payload::File;
use asset_server::response::{
    answer, decimal_text, disk_path, has_parent_segment, head_for, mentions_game, mime_type,
    needs_isolation, not_found_answer, request_target, resource_for, response_bytes,
    response_head, Answer,
};

const ISOLATION: [&str; 3] = [
    "Cross-Origin-Embedder-Policy: require-corp\r\n",
    "Cross-Origin-Opener-Policy: same-origin\r\n",
    "Cross-Origin-Resource-Policy: cross-origin\r\n",
];

#[test]
fn index_is_served_for_root() {
    let mut files = FileManager::new();
    let target = request_target("GET / HTTP/1.1").unwrap();
    assert_eq!(target, "/");
    let resource = resource_for(target);
    assert_eq!(resource, "index.html");
    let body = b"<html>hi</html>".to_vec();
    let payload = files.settle(resource, prepare(resource, Some(body))).unwrap();
    let head = head_for(target, true, &payload);
    let len = payload.bytes().len();
    assert!(head.starts_with("HTTP/1.1 200 OK\r\n"));
    assert!(head.contains(&format!("Content-Length: {len}\r\n")));
    assert!(head.contains("Content-Encoding: br\r\n"));
    assert!(head.ends_with("\r\n\r\n"));
}

#[test]
fn missing_path_gets_not_found_page() {
    let mut files = FileManager::new();
    let target = request_target("GET /missing.xyz HTTP/1.1").unwrap();
    let resource = resource_for(target);
    assert!(files.cached(resource).is_none());
    assert!(files.settle(resource, prepare(resource, None)).is_err());
    assert!(files.cached(resource).is_none());
    let page = b"<h1>404</h1>".to_vec();
    let payload = files.settle("404.html", prepare("404.html", Some(page.clone()))).unwrap();
    let head = head_for(target, false, &payload);
    assert!(head.starts_with("HTTP/1.1 404 NOT FOUND\r\n"));
    let mut writer = brotlic::DecompressorWriter::new(Vec::new());
    std::io::Write::write_all(&mut writer, payload.bytes()).unwrap();
    assert_eq!(writer.into_inner().unwrap(), page);
}

#[test]
fn game_script_is_compressed_and_isolated() {
    let mut files = FileManager::new();
    let target = request_target("GET /game/level1.js HTTP/1.1").unwrap();
    let payload = files.settle(resource_for(target), prepare(resource_for(target), Some(b"let x = 1;".to_vec()))).unwrap();
    let head = head_for(target, true, &payload);
    assert!(head.contains("Content-Encoding: br\r\n"));
    assert!(head.contains("Content-Type: text/javascript \r\n"));
    for line in ISOLATION {
        assert!(head.contains(line));
    }
}

#[test]
fn plain_image_has_no_encoding_nor_isolation() {
    let mut files = FileManager::new();
    let target = request_target("GET /app.png HTTP/1.1").unwrap();
    let payload = files.settle(resource_for(target), prepare(resource_for(target), Some(vec![137, 80, 78, 71]))).unwrap();
    let head = head_for(target, true, &payload);
    assert_eq!(
        head,
        "HTTP/1.1 200 OK\r\nContent-Length: 4\r\nContent-Type: text \r\n\r\n"
    );
    assert!(!head.contains("Content-Encoding"));
    assert!(!head.contains("Cross-Origin"));
}

#[test]
fn head_in_full() {
    let head = response_head(false, 1234, true, true, "text/html");
    assert_eq!(
        head,
        "HTTP/1.1 404 NOT FOUND\r\nContent-Length: 1234\r\nContent-Encoding: br\r\n\
         Cross-Origin-Embedder-Policy: require-corp\r\n\
         Cross-Origin-Opener-Policy: same-origin\r\n\
         Cross-Origin-Resource-Policy: cross-origin\r\n\
         Content-Type: text/html \r\n\r\n"
    );
}

#[test]
fn mime_types_by_extension() {
    assert_eq!(mime_type("/data.pck"), "application/octet-stream");
    assert_eq!(mime_type("/app.wasm"), "application/wasm");
    assert_eq!(mime_type("/game/level1.js"), "text/javascript");
    assert_eq!(mime_type("index.html"), "text/html");
    assert_eq!(mime_type("/app.png"), "text");
    assert_eq!(mime_type("/"), "text");
    assert_eq!(mime_type("/a.b/js"), "text");
    assert_eq!(mime_type("js"), "text/javascript");
    assert_eq!(mime_type("/x.tar.wasm"), "application/wasm");
    assert_eq!(mime_type(""), "text");
}

#[test]
fn isolation_is_case_insensitive() {
    assert!(needs_isolation("/GAME/x.js"));
    assert!(needs_isolation("/MyGame.html"));
    assert!(needs_isolation("/game"));
    assert!(!needs_isolation("/gam/e"));
    assert!(!needs_isolation("/"));
    assert!(mentions_game("xgamex"));
    assert!(!mentions_game("GAME"));
    assert!(!mentions_game("gam"));
}

#[test]
fn decimal_lengths() {
    assert_eq!(decimal_text(0), "0");
    assert_eq!(decimal_text(7), "7");
    assert_eq!(decimal_text(10), "10");
    assert_eq!(decimal_text(1024), "1024");
    assert_eq!(decimal_text(usize::MAX), usize::MAX.to_string());
}

#[test]
fn request_line_fields() {
    assert_eq!(request_target("GET /a/b.css HTTP/1.1"), Some("/a/b.css"));
    assert_eq!(request_target("GET /x"), Some("/x"));
    assert_eq!(request_target("GET  /x HTTP/1.1"), Some(""));
    assert_eq!(request_target("GET"), None);
    assert_eq!(request_target(""), None);
    assert_eq!(resource_for("/index.html"), "/index.html");
    assert_eq!(resource_for(""), "");
}

#[test]
fn parent_segments_are_refused() {
    assert!(has_parent_segment("/../secret"));
    assert!(has_parent_segment(".."));
    assert!(has_parent_segment("/a/.."));
    assert!(has_parent_segment("../x"));
    assert!(!has_parent_segment("/a..b.txt"));
    assert!(!has_parent_segment("/.../x"));
    assert!(!has_parent_segment("/a/b.js"));
    assert!(!has_parent_segment(""));
    assert_eq!(disk_path("/../etc/passwd"), None);
    assert_eq!(disk_path("/app.png"), Some("res//app.png".to_string()));
    assert_eq!(disk_path("index.html"), Some("res/index.html".to_string()));
}

#[test]
fn response_is_head_then_body() {
    let payload = File::Plain(vec![1, 2, 3]);
    let bytes = response_bytes("/a.wasm", true, &payload);
    let mut expected =
        b"HTTP/1.1 200 OK\r\nContent-Length: 3\r\nContent-Type: application/wasm \r\n\r\n".to_vec();
    expected.extend_from_slice(&[1, 2, 3]);
    assert_eq!(bytes, expected);
}

#[test]
fn answers_by_lookup_outcome() {
    let page = Arc::new(File::Plain(b"ok".to_vec()));
    match answer("/x.txt", Ok(page.clone())) {
        Answer::Send(b) => assert!(b.starts_with(b"HTTP/1.1 200 OK\r\n") && b.ends_with(b"\r\n\r\nok")),
        _ => panic!("expected bytes to send"),
    }
    assert!(matches!(answer("/x.txt", Err(GetError::NotFound)), Answer::NotFoundPage));
    assert!(matches!(answer("/x.txt", Err(GetError::CompressionFailed)), Answer::Drop));
    let nf = not_found_answer("/missing.xyz", Ok(page)).unwrap();
    assert!(nf.starts_with(b"HTTP/1.1 404 NOT FOUND\r\nContent-Length: 2\r\n"));
    assert!(nf.ends_with(b"ok"));
    assert!(not_found_answer("/missing.xyz", Err(GetError::NotFound)).is_none());
}
