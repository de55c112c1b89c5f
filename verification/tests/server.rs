use rm_support_http::bundle::Meta;
use rm_support_http::catalog::DirEntry;
use rm_support_http::page::serve_index;
use rm_support_http::request::Request;
use rm_support_http::response::{http_400, http_403, http_404, http_405, Body, Response};
use rm_support_http::server::{handle, handle_text, route, serve_file, serve_latest, Step};
use rm_support_http::stream::{stream_step, StreamAction, StreamEvent};

fn entry(name: &str, len: u64, modified: i128) -> DirEntry {
    DirEntry { name: name.to_string(), meta: Some(Meta { len, modified: Some(modified) }) }
}

fn meta(len: u64) -> Option<Meta> {
    Some(Meta { len, modified: Some(1) })
}

fn bare(r: Response) -> Response {
    Response { status: r.status, head: r.head, body: Body::Empty }
}

fn reply_of(step: Step) -> Response {
    match step {
        Step::Reply(r) => r,
        other => panic!("no reply settled: {:?}", other),
    }
}

#[test]
fn nothing_received_closes_the_connection() {
    assert_eq!(handle(b""), Step::Close);
}

#[test]
fn index_is_served_at_two_paths() {
    assert_eq!(handle(b"GET / HTTP/1.1\r\nHost: x\r\n\r\n"), Step::Index { head_only: false });
    assert_eq!(handle(b"GET /index.html HTTP/1.1\r\n\r\n"), Step::Index { head_only: false });
    assert_eq!(handle(b"HEAD / HTTP/1.1\r\n\r\n"), Step::Index { head_only: true });
    assert_eq!(handle(b"HEAD /index.html HTTP/1.1\r\n\r\n"), Step::Index { head_only: true });
    assert_eq!(handle(b"GET"), Step::Index { head_only: false });
}

#[test]
fn latest_alias_asks_for_a_scan() {
    assert_eq!(handle(b"GET /download/latest HTTP/1.1\r\n\r\n"), Step::Latest { head_only: false });
    assert_eq!(handle(b"HEAD /download/latest HTTP/1.1\r\n\r\n"), Step::Latest { head_only: true });
}

#[test]
fn other_methods_are_not_allowed() {
    for raw in [
        &b"POST / HTTP/1.1\r\n\r\n"[..],
        b"PUT /download/latest HTTP/1.1\r\n\r\n",
        b"DELETE /download/rm-debug-1.tgz HTTP/1.1\r\n\r\n",
        b"get / HTTP/1.1\r\n\r\n",
        b"GETX / HTTP/1.1\r\n\r\n",
        b"OPTIONS /download/../etc/passwd HTTP/1.1\r\n\r\n",
        b"\r\n",
        b" ",
        b"\xff",
    ] {
        assert_eq!(handle(raw), Step::Reply(http_405()), "{:?}", raw);
    }
    assert_eq!(http_405().status, 405);
}

#[test]
fn traversal_is_a_bad_request() {
    let step = handle(b"GET /download/../etc/passwd HTTP/1.1\r\n\r\n");
    assert_eq!(step, Step::Reply(http_400("bad filename")));
    assert_eq!(reply_of(step).status, 400);
}

#[test]
fn unsafe_names_are_bad_requests() {
    for path in [
        "/download/../etc/passwd",
        "/download/..",
        "/download/.",
        "/download/.hidden",
        "/download/.rm-debug-1.tgz",
        "/download/a/b",
        "/download//",
        "/download/rm-debug-a/b.tgz",
        "/download/rm-debug-1.tgz/",
        "/download//rm-debug-1.tgz",
        "/download/latest/",
    ] {
        let get = handle(format!("GET {} HTTP/1.1\r\n\r\n", path).as_bytes());
        assert_eq!(get, Step::Reply(http_400("bad filename")), "{}", path);
        let head = handle(format!("HEAD {} HTTP/1.1\r\n\r\n", path).as_bytes());
        assert_eq!(head, Step::Reply(bare(http_400("bad filename"))), "{}", path);
    }
}

#[test]
fn names_outside_the_allowlist_are_forbidden() {
    for path in [
        "/download/secret.txt",
        "/download/",
        "/download/passwd",
        "/download/rm-debug-1.tar",
        "/download/Latest",
        "/download/latest?x",
        "/download/rm-debug-",
    ] {
        let get = handle(format!("GET {} HTTP/1.1\r\n\r\n", path).as_bytes());
        assert_eq!(get, Step::Reply(http_403()), "{}", path);
        let head = handle(format!("HEAD {} HTTP/1.1\r\n\r\n", path).as_bytes());
        assert_eq!(head, Step::Reply(bare(http_403())), "{}", path);
    }
    assert_eq!(http_403().status, 403);
}

#[test]
fn unknown_paths_are_not_found() {
    for path in ["/download", "/favicon.ico", "/index.htm", "//", "/Download/latest", "download/latest"] {
        let get = handle(format!("GET {} HTTP/1.1\r\n\r\n", path).as_bytes());
        assert_eq!(get, Step::Reply(http_404()), "{}", path);
        let head = handle(format!("HEAD {} HTTP/1.1\r\n\r\n", path).as_bytes());
        assert_eq!(head, Step::Reply(bare(http_404())), "{}", path);
    }
}

#[test]
fn an_allowed_name_is_opened() {
    assert_eq!(
        handle(b"GET /download/rm-debug-1.tgz HTTP/1.1\r\n\r\n"),
        Step::Open { name: "rm-debug-1.tgz".to_string(), head_only: false }
    );
    assert_eq!(
        handle(b"HEAD /download/rm-debug-1.tgz HTTP/1.1\r\n\r\n"),
        Step::Open { name: "rm-debug-1.tgz".to_string(), head_only: true }
    );
}

#[test]
fn a_bundle_that_does_not_exist_is_not_found() {
    let step = handle(b"GET /download/rm-debug-notreal.tgz HTTP/1.1\r\n\r\n");
    assert_eq!(step, Step::Open { name: "rm-debug-notreal.tgz".to_string(), head_only: false });
    let r = serve_file("rm-debug-notreal.tgz", None, false);
    assert_eq!(r, http_404());
    assert_eq!(r.status, 404);
}

#[test]
fn a_file_outside_the_allowlist_is_forbidden() {
    let step = handle(b"GET /download/secret.txt HTTP/1.1\r\n\r\n");
    assert_eq!(reply_of(step).status, 403);
    assert_eq!(serve_file("secret.txt", meta(10), false), http_403());
    assert_eq!(serve_file("secret.txt", None, false), http_403());
    assert_eq!(serve_file("secret.txt", None, true), bare(http_403()));
}

#[test]
fn an_admitted_file_is_announced_with_its_length() {
    let r = serve_file("rm-debug-1.tgz", meta(100), false);
    assert_eq!(r.status, 200);
    assert_eq!(
        r.head,
        "HTTP/1.1 200 OK\r\nContent-Type: application/gzip\r\nContent-Length: 100\r\nContent-Disposition: attachment; filename=\"rm-debug-1.tgz\"\r\nCache-Control: no-store\r\nConnection: close\r\n\r\n"
    );
    assert_eq!(r.body, Body::File);
}

#[test]
fn head_and_get_differ_only_in_the_body() {
    let cases: Vec<(&str, Option<Meta>)> = vec![
        ("rm-debug-1.tgz", meta(100)),
        ("rm-debug-1.tgz", None),
        ("secret.txt", meta(1)),
        ("", None),
    ];
    for (name, found) in cases {
        let get = serve_file(name, found, false);
        let head = serve_file(name, found, true);
        assert_eq!(head, bare(get.clone()), "{}", name);
        assert_ne!(get.body, Body::Empty, "{}", name);
    }
}

#[test]
fn latest_of_an_empty_directory_is_not_found() {
    assert_eq!(serve_latest(&vec![], false), Step::Reply(http_404()));
    assert_eq!(serve_latest(&vec![], true), Step::Reply(bare(http_404())));
    let no_bundles = vec![entry("notes.txt", 1, 1)];
    assert_eq!(serve_latest(&no_bundles, false), Step::Reply(http_404()));
}

#[test]
fn latest_opens_the_newest_bundle() {
    let entries = vec![entry("rm-debug-1.tgz", 100, 10), entry("rm-debug-2.tgz", 50, 20)];
    assert_eq!(
        serve_latest(&entries, false),
        Step::Open { name: "rm-debug-2.tgz".to_string(), head_only: false }
    );
    assert_eq!(
        serve_latest(&entries, true),
        Step::Open { name: "rm-debug-2.tgz".to_string(), head_only: true }
    );
}

#[test]
fn text_and_bytes_are_handled_alike() {
    for text in ["GET / HTTP/1.1", "HEAD /download/rm-debug-1.tgz x", "POST /", "GET /nope", ""] {
        if text.is_empty() {
            assert_eq!(handle_text(text), Step::Reply(http_405()));
        } else {
            assert_eq!(handle_text(text), handle(text.as_bytes()), "{:?}", text);
        }
    }
}

#[test]
fn route_follows_the_table() {
    let req = |m: &str, p: &str| Request { method: m.to_string(), path: p.to_string() };
    assert_eq!(route(&req("GET", "/")), Step::Index { head_only: false });
    assert_eq!(route(&req("HEAD", "/download/latest")), Step::Latest { head_only: true });
    assert_eq!(route(&req("", "/")), Step::Reply(http_405()));
    assert_eq!(route(&req("GET", "")), Step::Reply(http_404()));
    assert_eq!(route(&req("GET", "/download/x y.tgz")), Step::Reply(http_403()));
    assert_eq!(
        route(&req("GET", "/download/rm-debug-x y.tgz")),
        Step::Open { name: "rm-debug-x y.tgz".to_string(), head_only: false }
    );
}

#[test]
fn invalid_bytes_in_a_name_are_replaced_before_the_name_is_checked() {
    assert_eq!(
        handle(b"GET /download/rm-debug-\xff.tgz HTTP/1.1\r\n\r\n"),
        Step::Open { name: "rm-debug-\u{FFFD}.tgz".to_string(), head_only: false }
    );
}

#[test]
fn two_bundles_end_to_end() {
    let entries = vec![entry("rm-debug-1.tgz", 100, 1_000), entry("rm-debug-2.tgz", 50, 2_000)];

    assert_eq!(handle(b"GET / HTTP/1.0\r\n\r\n"), Step::Index { head_only: false });
    let index = serve_index(&entries, false);
    assert_eq!(index.status, 200);
    let page = match index.body {
        Body::Bytes(bytes) => String::from_utf8(bytes).unwrap(),
        other => panic!("unexpected body {:?}", other),
    };
    assert!(page.contains(
        "<p><strong>Siste bundle:</strong> <a href=\"/download/latest\">rm-debug-2.tgz</a> (50 bytes)</p>"
    ));
    assert!(page.contains(
        "<ul><li><a href=\"/download/rm-debug-2.tgz\">rm-debug-2.tgz</a> (50 bytes)</li><li><a href=\"/download/rm-debug-1.tgz\">rm-debug-1.tgz</a> (100 bytes)</li></ul>"
    ));

    assert_eq!(handle(b"GET /download/latest HTTP/1.0\r\n\r\n"), Step::Latest { head_only: false });
    let name = match serve_latest(&entries, false) {
        Step::Open { name, head_only: false } => name,
        other => panic!("unexpected step {:?}", other),
    };
    assert_eq!(name, "rm-debug-2.tgz");
    let reply = serve_file(&name, meta(50), false);
    assert_eq!(reply.status, 200);
    assert!(reply.head.contains("\r\nContent-Length: 50\r\n"));
    assert_eq!(reply.body, Body::File);

    let file = vec![1u8; 50];
    let mut sent = 0usize;
    let mut action = stream_step(StreamEvent::Started);
    loop {
        match action {
            StreamAction::Fill => action = stream_step(StreamEvent::Read(file.len() - sent)),
            StreamAction::Forward { len } => {
                sent += len;
                action = stream_step(StreamEvent::Written);
            }
            StreamAction::Finish => break,
        }
    }
    assert_eq!(sent, 50);
}
