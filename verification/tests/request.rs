use rm_support_http::request::{parse_request, read_request, Request, REQUEST_LIMIT};

fn req(method: &str, path: &str) -> Request {
    Request { method: method.to_string(), path: path.to_string() }
}

#[test]
fn request_line_gives_method_and_path() {
    assert_eq!(parse_request("GET / HTTP/1.1\r\nHost: x\r\n\r\n"), req("GET", "/"));
    assert_eq!(parse_request("HEAD /index.html HTTP/1.0\r\n\r\n"), req("HEAD", "/index.html"));
    assert_eq!(
        parse_request("GET /download/rm-debug-1.tgz HTTP/1.1\r\n"),
        req("GET", "/download/rm-debug-1.tgz")
    );
}

#[test]
fn missing_tokens_get_their_defaults() {
    assert_eq!(parse_request(""), req("", "/"));
    assert_eq!(parse_request("   \t "), req("", "/"));
    assert_eq!(parse_request("GET"), req("GET", "/"));
    assert_eq!(parse_request("GET   "), req("GET", "/"));
    assert_eq!(parse_request("\r\nGET /x HTTP/1.1\r\n"), req("", "/"));
    assert_eq!(parse_request("\nGET /x"), req("", "/"));
}

#[test]
fn only_the_first_line_is_read() {
    assert_eq!(parse_request("GET\n/download/latest HTTP/1.1"), req("GET", "/"));
    assert_eq!(parse_request("GET /a\nPOST /b"), req("GET", "/a"));
    assert_eq!(parse_request("GET /a\r\nX: /b\r\n"), req("GET", "/a"));
}

#[test]
fn a_carriage_return_alone_does_not_end_the_line() {
    assert_eq!(parse_request("GET\r/a HTTP/1.1"), req("GET", "/a"));
}

#[test]
fn tokens_are_delimited_by_any_run_of_white_space() {
    assert_eq!(parse_request("  GET \t  /x   HTTP/1.1"), req("GET", "/x"));
    assert_eq!(parse_request("GET\t/x"), req("GET", "/x"));
    assert_eq!(parse_request("GET\u{A0}/x\u{3000}HTTP/1.1"), req("GET", "/x"));
    assert_eq!(parse_request("\u{2003}GET\u{85}\u{0B}/x"), req("GET", "/x"));
}

#[test]
fn characters_that_are_no_white_space_stay_in_the_token() {
    assert_eq!(parse_request("GET /a\u{200B}b\0c HTTP/1.1"), req("GET", "/a\u{200B}b\0c"));
    assert_eq!(parse_request("GÉT /bündel"), req("GÉT", "/bündel"));
}

#[test]
fn parsing_agrees_with_std_splitting() {
    let samples = [
        "GET / HTTP/1.1\r\n\r\n",
        "",
        " ",
        "\n",
        "a",
        "a b",
        " a  b  c ",
        "a\tb\r\nc d",
        "a\u{A0}b",
        "\u{3000}a\r\n",
        "POST\r/x y\nz",
        "GET /download/../etc/passwd HTTP/1.1",
    ];
    for text in samples {
        let mut parts = text.lines().next().unwrap_or("").split_whitespace();
        let method = parts.next().unwrap_or("");
        let path = parts.next().unwrap_or("/");
        assert_eq!(parse_request(text), req(method, path), "{:?}", text);
    }
}

#[test]
fn bytes_are_decoded_before_they_are_parsed() {
    assert_eq!(read_request(b"GET /index.html HTTP/1.1\r\n\r\n"), req("GET", "/index.html"));
    assert_eq!(read_request("GET /b\u{FC}ndel".as_bytes()), req("GET", "/b\u{FC}ndel"));
    assert_eq!(read_request("GET\u{A0}/x".as_bytes()), req("GET", "/x"));
}

#[test]
fn invalid_bytes_become_replacement_characters() {
    assert_eq!(read_request(b"GET /download/\xff.tgz HTTP/1.0"), req("GET", "/download/\u{FFFD}.tgz"));
    assert_eq!(read_request(b"G\xc3T /"), req("G\u{FFFD}T", "/"));
    assert_eq!(read_request(b"\xe2\x80"), req("\u{FFFD}", "/"));
}

#[test]
fn nothing_received_gives_the_defaults() {
    assert_eq!(read_request(b""), req("", "/"));
}

#[test]
fn bytes_beyond_the_limit_are_ignored() {
    assert_eq!(REQUEST_LIMIT, 4096);
    let mut raw = vec![b' '; 4090];
    raw.extend_from_slice(b"GET /index.html HTTP/1.1\r\n");
    assert_eq!(read_request(&raw), req("GET", "/i"));
    let mut raw = vec![b' '; 4096];
    raw.extend_from_slice(b"GET /index.html HTTP/1.1\r\n");
    assert_eq!(read_request(&raw), req("", "/"));
    let mut raw = b"GET /".to_vec();
    raw.resize(5000, b'a');
    let got = read_request(&raw);
    assert_eq!(got.method, "GET");
    assert_eq!(got.path.len(), 4096 - 4);
}

#[test]
fn a_request_of_exactly_the_limit_is_read_whole() {
    let mut raw = b"GET /".to_vec();
    raw.resize(4096, b'a');
    let got = read_request(&raw);
    assert_eq!(got.path.len(), 4092);
}
