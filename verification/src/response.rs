//! The response writer: status line, headers and body of every reply.
//!
//! A reply is text for the header block and, apart from that, either no
//! body, a body held in memory, or the order to stream the admitted file.
//! Every header block closes the connection and ends with a blank line.

use vstd::prelude::*;
use vstd::string::*;
use vstd::utf8::encode_utf8;
use crate::text::{decimal, decimal_string};

verus! {

/// What follows the header block of a reply.
#[derive(Clone, Debug, PartialEq, Eq)]
pub enum Body {
    /// Nothing: the reply to a `HEAD` request.
    Empty,
    /// These bytes.
    Bytes(Vec<u8>),
    /// The contents of the admitted file, streamed in chunks.
    File,
}

/// The mathematical value of a [`Body`].
pub enum BodyView {
    Empty,
    Bytes(Seq<u8>),
    File,
}

impl View for Body {
    type V = BodyView;

    open spec fn view(&self) -> BodyView {
        match self {
            Body::Empty => BodyView::Empty,
            Body::Bytes(bytes) => BodyView::Bytes(bytes@),
            Body::File => BodyView::File,
        }
    }
}

/// One reply: the status, the header block as it goes on the wire, and
/// the body.
#[derive(Clone, Debug, PartialEq, Eq)]
pub struct Response {
    /// Status code, as the first line of `head` names it.
    pub status: u16,
    /// Status line and headers, up to and including the blank line.
    pub head: String,
    /// What to send after `head`.
    pub body: Body,
}

/// The mathematical value of a [`Response`].
pub struct ResponseView {
    pub status: u16,
    pub head: Seq<char>,
    pub body: BodyView,
}

impl View for Response {
    type V = ResponseView;

    open spec fn view(&self) -> ResponseView {
        ResponseView { status: self.status, head: self.head@, body: self.body@ }
    }
}

/// The status line for `status` with the reason phrase `reason`.
pub open spec fn status_line(status: u16, reason: Seq<char>) -> Seq<char> {
    "HTTP/1.1 "@ + decimal(status as nat) + " "@ + reason + "\r\n"@
}

/// One header line.
pub open spec fn header(name: Seq<char>, value: Seq<char>) -> Seq<char> {
    name + ": "@ + value + "\r\n"@
}

/// How every header block ends: the order to close the connection, and a
/// blank line.
pub open spec fn closing() -> Seq<char> {
    header("Connection"@, "close"@) + "\r\n"@
}

/// The header block of a plain-text reply whose body is `len` bytes long;
/// `allow` lists the methods to advertise, if any.
pub open spec fn plain_head(
    status: u16,
    reason: Seq<char>,
    allow: Option<Seq<char>>,
    len: nat,
) -> Seq<char> {
    status_line(status, reason) + (match allow {
        Some(methods) => header("Allow"@, methods),
        None => Seq::<char>::empty(),
    }) + header("Content-Type"@, "text/plain"@) + header("Content-Length"@, decimal(len))
        + closing()
}

/// A plain-text reply with the body `body`.
pub open spec fn plain_reply(
    status: u16,
    reason: Seq<char>,
    allow: Option<Seq<char>>,
    body: Seq<char>,
) -> ResponseView {
    ResponseView {
        status,
        head: plain_head(status, reason, allow, encode_utf8(body).len()),
        body: BodyView::Bytes(encode_utf8(body)),
    }
}

/// The reply to a request with an unsafe file name; `reason` says what is
/// wrong with it.
pub open spec fn bad_request(reason: Seq<char>) -> ResponseView {
    plain_reply(400, "Bad Request"@, None, "Bad Request: "@ + reason)
}

/// The reply to a request for a name outside the allowlist.
pub open spec fn forbidden() -> ResponseView {
    plain_reply(403, "Forbidden"@, None, "Forbidden"@)
}

/// The reply to a request for what does not exist.
pub open spec fn not_found() -> ResponseView {
    plain_reply(404, "Not Found"@, None, "Not Found"@)
}

/// The reply to a request whose method is neither `GET` nor `HEAD`.
pub open spec fn method_not_allowed() -> ResponseView {
    plain_reply(405, "Method Not Allowed"@, Some("GET, HEAD"@), "Method Not Allowed"@)
}

/// The header block that announces an HTML page of `len` bytes.
pub open spec fn html_head(len: nat) -> Seq<char> {
    status_line(200, "OK"@) + header("Content-Type"@, "text/html; charset=utf-8"@) + header(
        "Content-Length"@,
        decimal(len),
    ) + header("Cache-Control"@, "no-store"@) + closing()
}

/// The reply that carries the HTML page `page`; without the page itself
/// where only the headers were asked for.
pub open spec fn ok_html(page: Seq<u8>, head_only: bool) -> ResponseView {
    ResponseView {
        status: 200,
        head: html_head(page.len()),
        body: if head_only {
            BodyView::Empty
        } else {
            BodyView::Bytes(page)
        },
    }
}

/// The header block that announces the download of the file `name`, `len`
/// bytes long.
pub open spec fn file_head(name: Seq<char>, len: nat) -> Seq<char> {
    status_line(200, "OK"@) + header("Content-Type"@, "application/gzip"@) + header(
        "Content-Length"@,
        decimal(len),
    ) + header("Content-Disposition"@, "attachment; filename=\""@ + name + "\""@) + header(
        "Cache-Control"@,
        "no-store"@,
    ) + closing()
}

/// The reply that delivers the file `name`, `len` bytes long; without its
/// contents where only the headers were asked for.
pub open spec fn ok_file(name: Seq<char>, len: nat, head_only: bool) -> ResponseView {
    ResponseView {
        status: 200,
        head: file_head(name, len),
        body: if head_only {
            BodyView::Empty
        } else {
            BodyView::File
        },
    }
}

/// The reply `r` as a `HEAD` request gets it: the same status and header
/// block, and no body.
pub open spec fn headers_only(r: ResponseView) -> ResponseView {
    ResponseView { status: r.status, head: r.head, body: BodyView::Empty }
}

/// The reply `r` as the request's method asks for it: whole, or the headers
/// only.
pub open spec fn fitted(r: ResponseView, head_only: bool) -> ResponseView {
    if head_only {
        headers_only(r)
    } else {
        r
    }
}

/// Whether `head` is a complete header block for `status`: it begins with
/// the protocol version and the status code, and ends with the order to
/// close the connection and a blank line.
pub open spec fn is_header_block(head: Seq<char>, status: u16) -> bool {
    &&& ("HTTP/1.1 "@ + decimal(status as nat) + " "@).is_prefix_of(head)
    &&& closing().is_suffix_of(head)
    &&& "\r\n\r\n"@.is_suffix_of(head)
}

proof fn lemma_block(status: u16, reason: Seq<char>, middle: Seq<char>)
    ensures
        is_header_block(status_line(status, reason) + middle + closing(), status),
{
    reveal_strlit("\r\n\r\n");
    reveal_strlit("\r\n");
    reveal_strlit(": ");
    reveal_strlit("Connection");
    reveal_strlit("close");
    let front = "HTTP/1.1 "@ + decimal(status as nat) + " "@;
    let head = status_line(status, reason) + middle + closing();
    assert(front =~= head.subrange(0, front.len() as int));
    assert(closing() =~= head.subrange(head.len() - closing().len(), head.len() as int));
    assert("\r\n\r\n"@ =~= closing().subrange(closing().len() - 4, closing().len() as int));
    assert("\r\n\r\n"@ =~= head.subrange(head.len() - 4, head.len() as int));
}

/// Every reply of this module carries a complete header block for its
/// status.
pub proof fn lemma_header_blocks(
    status: u16,
    reason: Seq<char>,
    allow: Option<Seq<char>>,
    body: Seq<char>,
    page: Seq<u8>,
    name: Seq<char>,
    len: nat,
    head_only: bool,
)
    ensures
        is_header_block(plain_reply(status, reason, allow, body).head, status),
        is_header_block(ok_html(page, head_only).head, ok_html(page, head_only).status),
        is_header_block(ok_file(name, len, head_only).head, ok_file(name, len, head_only).status),
{
    let n = encode_utf8(body).len();
    let extra = match allow {
        Some(methods) => header("Allow"@, methods),
        None => Seq::<char>::empty(),
    };
    let plain_middle = extra + header("Content-Type"@, "text/plain"@) + header(
        "Content-Length"@,
        decimal(n),
    );
    lemma_block(status, reason, plain_middle);
    assert(plain_head(status, reason, allow, n) =~= status_line(status, reason) + plain_middle
        + closing());
    let html_middle = header("Content-Type"@, "text/html; charset=utf-8"@) + header(
        "Content-Length"@,
        decimal(page.len()),
    ) + header("Cache-Control"@, "no-store"@);
    lemma_block(200, "OK"@, html_middle);
    assert(html_head(page.len()) =~= status_line(200, "OK"@) + html_middle + closing());
    let file_middle = header("Content-Type"@, "application/gzip"@) + header(
        "Content-Length"@,
        decimal(len),
    ) + header("Content-Disposition"@, "attachment; filename=\""@ + name + "\""@) + header(
        "Cache-Control"@,
        "no-store"@,
    );
    lemma_block(200, "OK"@, file_middle);
    assert(file_head(name, len) =~= status_line(200, "OK"@) + file_middle + closing());
}

/// Starts a header block with the status line.
fn start_head(status: u16, reason: &str) -> (head: String)
    ensures
        head@ == status_line(status, reason@),
{
    let mut head = String::from_str("HTTP/1.1 ");
    let code = decimal_string(status as u64);
    head.append(code.as_str());
    head.append(" ");
    head.append(reason);
    head.append("\r\n");
    head
}

/// Adds one header line to a header block.
fn push_header(head: &mut String, name: &str, value: &str)
    ensures
        final(head)@ == old(head)@ + header(name@, value@),
{
    head.append(name);
    head.append(": ");
    head.append(value);
    head.append("\r\n");
    assert(final(head)@ =~= old(head)@ + header(name@, value@));
}

/// Ends a header block.
fn finish_head(head: &mut String)
    ensures
        final(head)@ == old(head)@ + closing(),
{
    push_header(head, "Connection", "close");
    head.append("\r\n");
    assert(final(head)@ =~= old(head)@ + closing());
}

/// Makes a plain-text reply.
fn plain_text(status: u16, reason: &str, allow: Option<&str>, body: &str) -> (r: Response)
    ensures
        r@ == plain_reply(
            status,
            reason@,
            match allow {
                Some(methods) => Some(methods@),
                None => None,
            },
            body@,
        ),
{
    let bytes = body.as_bytes_vec();
    let mut head = start_head(status, reason);
    match allow {
        Some(methods) => {
            push_header(&mut head, "Allow", methods);
        },
        None => {
            assert(head@ =~= head@ + Seq::<char>::empty());
        },
    }
    push_header(&mut head, "Content-Type", "text/plain");
    let len = decimal_string(bytes.len() as u64);
    push_header(&mut head, "Content-Length", len.as_str());
    finish_head(&mut head);
    Response { status, head, body: Body::Bytes(bytes) }
}

/// The reply to a request with an unsafe file name: status 400, with a
/// body that gives `reason`.
pub fn http_400(reason: &str) -> (r: Response)
    ensures
        r@ == bad_request(reason@),
{
    let mut body = String::from_str("Bad Request: ");
    body.append(reason);
    plain_text(400, "Bad Request", None, body.as_str())
}

/// The reply to a request for a name outside the allowlist: status 403.
pub fn http_403() -> (r: Response)
    ensures
        r@ == forbidden(),
{
    plain_text(403, "Forbidden", None, "Forbidden")
}

/// The reply to a request for what does not exist: status 404.
pub fn http_404() -> (r: Response)
    ensures
        r@ == not_found(),
{
    plain_text(404, "Not Found", None, "Not Found")
}

/// The reply to a request whose method is neither `GET` nor `HEAD`:
/// status 405, with the methods that are allowed.
pub fn http_405() -> (r: Response)
    ensures
        r@ == method_not_allowed(),
{
    plain_text(405, "Method Not Allowed", Some("GET, HEAD"), "Method Not Allowed")
}

/// The reply that carries the HTML page `page`: status 200, and the page
/// itself unless only the headers were asked for.
pub fn http_ok_html(page: Vec<u8>, head_only: bool) -> (r: Response)
    ensures
        r@ == ok_html(page@, head_only),
{
    let mut head = start_head(200, "OK");
    push_header(&mut head, "Content-Type", "text/html; charset=utf-8");
    let len = decimal_string(page.len() as u64);
    push_header(&mut head, "Content-Length", len.as_str());
    push_header(&mut head, "Cache-Control", "no-store");
    finish_head(&mut head);
    let body = if head_only {
        Body::Empty
    } else {
        Body::Bytes(page)
    };
    Response { status: 200, head, body }
}

/// The reply that delivers the file `name`, `len` bytes long: status 200,
/// and the order to stream the file unless only the headers were asked for.
pub fn http_ok_file(name: &str, len: u64, head_only: bool) -> (r: Response)
    ensures
        r@ == ok_file(name@, len as nat, head_only),
{
    let mut head = start_head(200, "OK");
    push_header(&mut head, "Content-Type", "application/gzip");
    let digits = decimal_string(len);
    push_header(&mut head, "Content-Length", digits.as_str());
    let mut disposition = String::from_str("attachment; filename=\"");
    disposition.append(name);
    disposition.append("\"");
    push_header(&mut head, "Content-Disposition", disposition.as_str());
    push_header(&mut head, "Cache-Control", "no-store");
    finish_head(&mut head);
    let body = if head_only {
        Body::Empty
    } else {
        Body::File
    };
    Response { status: 200, head, body }
}

impl Response {
    /// This reply as the request's method asks for it: whole for `GET`,
    /// without the body for `HEAD`.
    pub fn fit(self, head_only: bool) -> (r: Response)
        ensures
            r@ == fitted(self@, head_only),
    {
        if head_only {
            Response { status: self.status, head: self.head, body: Body::Empty }
        } else {
            self
        }
    }
}

} // verus!
