use rm_support_http::response::{
    http_400, http_403, http_404, http_405, http_ok_file, http_ok_html, Body, Response,
};

#[test]
fn not_found_reply_is_exact() {
    assert_eq!(
        http_404(),
        Response {
            status: 404,
            head: "HTTP/1.1 404 Not Found\r\nContent-Type: text/plain\r\nContent-Length: 9\r\nConnection: close\r\n\r\n".to_string(),
            body: Body::Bytes(b"Not Found".to_vec()),
        }
    );
}

#[test]
fn forbidden_reply_is_exact() {
    assert_eq!(
        http_403(),
        Response {
            status: 403,
            head: "HTTP/1.1 403 Forbidden\r\nContent-Type: text/plain\r\nContent-Length: 9\r\nConnection: close\r\n\r\n".to_string(),
            body: Body::Bytes(b"Forbidden".to_vec()),
        }
    );
}

#[test]
fn method_not_allowed_reply_advertises_the_methods() {
    assert_eq!(
        http_405(),
        Response {
            status: 405,
            head: "HTTP/1.1 405 Method Not Allowed\r\nAllow: GET, HEAD\r\nContent-Type: text/plain\r\nContent-Length: 18\r\nConnection: close\r\n\r\n".to_string(),
            body: Body::Bytes(b"Method Not Allowed".to_vec()),
        }
    );
}

#[test]
fn bad_request_reply_gives_the_reason() {
    assert_eq!(
        http_400("bad filename"),
        Response {
            status: 400,
            head: "HTTP/1.1 400 Bad Request\r\nContent-Type: text/plain\r\nContent-Length: 25\r\nConnection: close\r\n\r\n".to_string(),
            body: Body::Bytes(b"Bad Request: bad filename".to_vec()),
        }
    );
    assert_eq!(
        http_400(""),
        Response {
            status: 400,
            head: "HTTP/1.1 400 Bad Request\r\nContent-Type: text/plain\r\nContent-Length: 13\r\nConnection: close\r\n\r\n".to_string(),
            body: Body::Bytes(b"Bad Request: ".to_vec()),
        }
    );
}

#[test]
fn content_length_counts_bytes_not_characters() {
    let r = http_400("né");
    assert_eq!(r.body, Body::Bytes("Bad Request: né".as_bytes().to_vec()));
    assert!(r.head.contains("\r\nContent-Length: 16\r\n"));
}

#[test]
fn html_reply_carries_the_page() {
    let page = b"<p>hi</p>".to_vec();
    assert_eq!(
        http_ok_html(page.clone(), false),
        Response {
            status: 200,
            head: "HTTP/1.1 200 OK\r\nContent-Type: text/html; charset=utf-8\r\nContent-Length: 9\r\nCache-Control: no-store\r\nConnection: close\r\n\r\n".to_string(),
            body: Body::Bytes(page),
        }
    );
}

#[test]
fn html_reply_to_head_has_the_same_headers_and_no_body() {
    let page = b"<p>hi</p>".to_vec();
    let get = http_ok_html(page.clone(), false);
    let head = http_ok_html(page, true);
    assert_eq!(head.status, get.status);
    assert_eq!(head.head, get.head);
    assert_eq!(head.body, Body::Empty);
    let empty = http_ok_html(Vec::new(), false);
    assert!(empty.head.contains("\r\nContent-Length: 0\r\n"));
    assert_eq!(empty.body, Body::Bytes(Vec::new()));
}

#[test]
fn file_reply_announces_the_download() {
    assert_eq!(
        http_ok_file("rm-debug-2.tgz", 50, false),
        Response {
            status: 200,
            head: "HTTP/1.1 200 OK\r\nContent-Type: application/gzip\r\nContent-Length: 50\r\nContent-Disposition: attachment; filename=\"rm-debug-2.tgz\"\r\nCache-Control: no-store\r\nConnection: close\r\n\r\n".to_string(),
            body: Body::File,
        }
    );
}

#[test]
fn file_reply_to_head_has_the_same_headers_and_no_body() {
    let get = http_ok_file("rm-debug-2.tgz", 18_446_744_073_709_551_615, false);
    let head = http_ok_file("rm-debug-2.tgz", 18_446_744_073_709_551_615, true);
    assert_eq!(head.status, get.status);
    assert_eq!(head.head, get.head);
    assert_eq!(head.body, Body::Empty);
    assert!(get.head.contains("\r\nContent-Length: 18446744073709551615\r\n"));
}

#[test]
fn fit_drops_the_body_for_head_only() {
    let whole = http_404().fit(false);
    assert_eq!(whole, http_404());
    let bare = http_404().fit(true);
    assert_eq!(bare.status, 404);
    assert_eq!(bare.head, http_404().head);
    assert_eq!(bare.body, Body::Empty);
}

#[test]
fn every_header_block_closes_the_connection_and_ends_with_a_blank_line() {
    let replies = vec![
        http_400("x"),
        http_403(),
        http_404(),
        http_405(),
        http_ok_html(b"x".to_vec(), false),
        http_ok_html(b"x".to_vec(), true),
        http_ok_file("rm-debug-1.tgz", 1, false),
        http_ok_file("rm-debug-1.tgz", 1, true),
    ];
    for r in replies {
        assert!(r.head.starts_with(&format!("HTTP/1.1 {} ", r.status)));
        assert!(r.head.ends_with("\r\nConnection: close\r\n\r\n"));
        assert_eq!(r.head.matches("\r\n\r\n").count(), 1);
        if let Body::Bytes(bytes) = &r.body {
            assert!(r.head.contains(&format!("\r\nContent-Length: {}\r\n", bytes.len())));
        }
    }
}
