//! The request line: the only part of a request that is ever looked at.
//!
//! A request is the method and the path, the first two white-space-delimited
//! tokens of the first line. Headers and body are never read.

use vstd::prelude::*;
use vstd::slice::slice_subrange;
use vstd::string::*;
use vstd::utf8::{decode_utf8, valid_utf8};
use crate::text::{chars_of, is_space, is_whitespace};

verus! {

/// What a scan over a text stops at.
#[derive(Clone, Copy, Debug, PartialEq, Eq)]
pub enum Stop {
    /// A line feed.
    LineFeed,
    /// A white-space character.
    Space,
    /// A character that is not white space.
    Token,
}

/// Whether a scan for `stop` ends on the character `c`.
pub open spec fn stops(stop: Stop, c: char) -> bool {
    match stop {
        Stop::LineFeed => c == '\n',
        Stop::Space => is_space(c),
        Stop::Token => !is_space(c),
    }
}

/// The least index at or after `from` at which `t` holds a character that
/// `stop` asks for, or the length of `t` if there is none.
pub open spec fn scan(t: Seq<char>, from: int, stop: Stop) -> int
    decreases t.len() - from,
{
    if from >= t.len() {
        t.len() as int
    } else if from >= 0 && stops(stop, t[from]) {
        from
    } else {
        scan(t, from + 1, stop)
    }
}

/// A scan ends at the first character asked for and passes over none.
pub proof fn lemma_scan(t: Seq<char>, from: int, stop: Stop)
    requires
        0 <= from <= t.len(),
    ensures
        from <= scan(t, from, stop) <= t.len(),
        forall|k: int| from <= k < scan(t, from, stop) ==> !stops(stop, #[trigger] t[k]),
        scan(t, from, stop) < t.len() ==> stops(stop, t[scan(t, from, stop)]),
    decreases t.len() - from,
{
    if from < t.len() && !stops(stop, t[from]) {
        lemma_scan(t, from + 1, stop);
    }
}

/// A scan ends at `to` if that is the first place to hold a character
/// asked for.
pub proof fn lemma_scan_ends(t: Seq<char>, from: int, to: int, stop: Stop)
    requires
        0 <= from <= to <= t.len(),
        forall|k: int| from <= k < to ==> !stops(stop, #[trigger] t[k]),
        to < t.len() ==> stops(stop, t[to]),
    ensures
        scan(t, from, stop) == to,
    decreases to - from,
{
    if from < to {
        lemma_scan_ends(t, from + 1, to, stop);
    }
}

/// The method and the path of a request.
#[derive(Clone, Debug, PartialEq, Eq)]
pub struct Request {
    /// The first token of the request line; empty if the line has none.
    pub method: String,
    /// The second token of the request line; `/` if the line has none.
    pub path: String,
}

/// The mathematical value of a [`Request`].
pub struct RequestView {
    pub method: Seq<char>,
    pub path: Seq<char>,
}

impl View for Request {
    type V = RequestView;

    open spec fn view(&self) -> RequestView {
        RequestView { method: self.method@, path: self.path@ }
    }
}

/// The first line of `text`: everything before its first line feed.
pub open spec fn first_line(text: Seq<char>) -> Seq<char> {
    text.take(scan(text, 0, Stop::LineFeed))
}

/// The request that `text` carries: the first two tokens of its first line,
/// with an empty method and the path `/` where a token is missing.
pub open spec fn request_of(text: Seq<char>) -> RequestView {
    let line = first_line(text);
    let a = scan(line, 0, Stop::Token);
    let b = scan(line, a, Stop::Space);
    let c = scan(line, b, Stop::Token);
    let d = scan(line, c, Stop::Space);
    RequestView {
        method: line.subrange(a, b),
        path: if c < line.len() {
            line.subrange(c, d)
        } else {
            "/"@
        },
    }
}

/// Neither token of a request holds white space, a line feed included,
/// and the path is never empty.
pub proof fn lemma_request_tokens(text: Seq<char>)
    ensures
        forall|k: int|
            0 <= k < request_of(text).method.len() ==> !is_space(
                #[trigger] request_of(text).method[k],
            ),
        forall|k: int|
            0 <= k < request_of(text).path.len() ==> !is_space(#[trigger] request_of(text).path[k]),
        request_of(text).path.len() > 0,
{
    let line = first_line(text);
    lemma_scan(text, 0, Stop::LineFeed);
    lemma_scan(line, 0, Stop::Token);
    let a = scan(line, 0, Stop::Token);
    lemma_scan(line, a, Stop::Space);
    let b = scan(line, a, Stop::Space);
    lemma_scan(line, b, Stop::Token);
    let c = scan(line, b, Stop::Token);
    lemma_scan(line, c, Stop::Space);
    let d = scan(line, c, Stop::Space);
    let method = line.subrange(a, b);
    assert forall|k: int| 0 <= k < method.len() implies !is_space(#[trigger] method[k]) by {
        assert(method[k] == line[a + k]);
    }
    if c < line.len() {
        let path = line.subrange(c, d);
        assert forall|k: int| 0 <= k < path.len() implies !is_space(#[trigger] path[k]) by {
            assert(path[k] == line[c + k]);
        }
        assert(c < d);
    } else {
        reveal_strlit("/");
    }
}

/// Whether `s` is white space that stays on one line.
pub open spec fn is_gap(s: Seq<char>) -> bool {
    forall|k: int| 0 <= k < s.len() ==> is_space(#[trigger] s[k]) && s[k] != '\n'
}

/// Whether `s` is a token: one character at least, and none of them white
/// space.
pub open spec fn is_token(s: Seq<char>) -> bool {
    s.len() > 0 && forall|k: int| 0 <= k < s.len() ==> !is_space(#[trigger] s[k])
}

/// Whether nothing more of the line follows: `s` is empty or begins with a
/// line feed.
pub open spec fn ends_line(s: Seq<char>) -> bool {
    s.len() == 0 || s[0] == '\n'
}

/// A text that begins with a method and a path, each set off by white
/// space on the same line, carries exactly that method and that path,
/// whatever follows.
pub proof fn lemma_request_with_path(
    lead: Seq<char>,
    method: Seq<char>,
    gap: Seq<char>,
    path: Seq<char>,
    rest: Seq<char>,
)
    requires
        is_gap(lead),
        is_token(method),
        is_gap(gap),
        gap.len() > 0,
        is_token(path),
        rest.len() == 0 || is_space(rest[0]),
    ensures
        request_of(lead + method + gap + path + rest) == (RequestView { method, path }),
{
    let text = lead + method + gap + path + rest;
    let n1 = lead.len() as int;
    let n2 = n1 + method.len();
    let n3 = n2 + gap.len();
    let n4 = n3 + path.len();
    assert forall|k: int| 0 <= k < n4 implies #[trigger] text[k] != '\n' && is_space(text[k]) == (k
        < n1 || n2 <= k < n3) by {
        if k < n1 {
            assert(text[k] == lead[k]);
        } else if k < n2 {
            assert(text[k] == method[k - n1]);
        } else if k < n3 {
            assert(text[k] == gap[k - n2]);
        } else {
            assert(text[k] == path[k - n3]);
        }
    }
    lemma_scan(text, 0, Stop::LineFeed);
    let end = scan(text, 0, Stop::LineFeed);
    assert(end >= n4) by {
        if end < n4 {
            assert(text[end] == '\n');
        }
    }
    let line = first_line(text);
    assert forall|k: int| 0 <= k < end implies #[trigger] line[k] == text[k] by {}
    if n4 < end {
        assert(line[n4] == rest[0]);
    }
    lemma_scan_ends(line, 0, n1, Stop::Token);
    lemma_scan_ends(line, n1, n2, Stop::Space);
    lemma_scan_ends(line, n2, n3, Stop::Token);
    lemma_scan_ends(line, n3, n4, Stop::Space);
    assert(line.subrange(n1, n2) =~= method);
    assert(line.subrange(n3, n4) =~= path);
}

/// A text whose first line holds a method and nothing else carries that
/// method and the path `/`.
pub proof fn lemma_request_without_path(
    lead: Seq<char>,
    method: Seq<char>,
    gap: Seq<char>,
    rest: Seq<char>,
)
    requires
        is_gap(lead),
        is_token(method),
        is_gap(gap),
        ends_line(rest),
    ensures
        request_of(lead + method + gap + rest) == (RequestView { method, path: "/"@ }),
{
    let text = lead + method + gap + rest;
    let n1 = lead.len() as int;
    let n2 = n1 + method.len();
    let n3 = n2 + gap.len();
    assert forall|k: int| 0 <= k < n3 implies #[trigger] text[k] != '\n' && is_space(text[k]) == (k
        < n1 || n2 <= k) by {
        if k < n1 {
            assert(text[k] == lead[k]);
        } else if k < n2 {
            assert(text[k] == method[k - n1]);
        } else {
            assert(text[k] == gap[k - n2]);
        }
    }
    if rest.len() > 0 {
        assert(text[n3] == rest[0]);
    }
    lemma_scan_ends(text, 0, n3, Stop::LineFeed);
    let line = first_line(text);
    assert forall|k: int| 0 <= k < n3 implies #[trigger] line[k] == text[k] by {}
    lemma_scan_ends(line, 0, n1, Stop::Token);
    lemma_scan_ends(line, n1, n2, Stop::Space);
    lemma_scan_ends(line, n2, n3, Stop::Token);
    assert(line.subrange(n1, n2) =~= method);
}

/// A text whose first line is empty or white space carries the empty
/// method and the path `/`.
pub proof fn lemma_request_without_method(lead: Seq<char>, rest: Seq<char>)
    requires
        is_gap(lead),
        ends_line(rest),
    ensures
        request_of(lead + rest) == (RequestView { method: Seq::<char>::empty(), path: "/"@ }),
{
    let text = lead + rest;
    let n1 = lead.len() as int;
    assert forall|k: int| 0 <= k < n1 implies #[trigger] text[k] != '\n' && is_space(text[k]) by {
        assert(text[k] == lead[k]);
    }
    if rest.len() > 0 {
        assert(text[n1] == rest[0]);
    }
    lemma_scan_ends(text, 0, n1, Stop::LineFeed);
    let line = first_line(text);
    assert forall|k: int| 0 <= k < n1 implies #[trigger] line[k] == text[k] by {}
    lemma_scan_ends(line, 0, n1, Stop::Token);
    lemma_scan_ends(line, n1, n1, Stop::Space);
    lemma_scan_ends(line, n1, n1, Stop::Token);
    assert(line.subrange(n1, n1) =~= Seq::<char>::empty());
}

/// Index of the first character at or after `from` and before `end` that
/// `stop` asks for, or `end`.
fn find(chars: &Vec<char>, end: usize, from: usize, stop: Stop) -> (r: usize)
    requires
        from <= end <= chars.len(),
    ensures
        r == scan(chars@.take(end as int), from as int, stop),
        from <= r <= end,
{
    let ghost t = chars@.take(end as int);
    let mut i: usize = from;
    while i < end
        invariant
            from <= i <= end <= chars.len(),
            t == chars@.take(end as int),
            scan(t, i as int, stop) == scan(t, from as int, stop),
        decreases end - i,
    {
        let c = chars[i];
        assert(t[i as int] == c);
        let hit = match stop {
            Stop::LineFeed => c == '\n',
            Stop::Space => is_whitespace(c),
            Stop::Token => !is_whitespace(c),
        };
        if hit {
            return i;
        }
        i += 1;
    }
    i
}

/// How many bytes of a request are looked at; what lies beyond is ignored.
pub const REQUEST_LIMIT: usize = 4096;

/// The text that `String::from_utf8_lossy` makes of `bytes`: their decoding
/// as UTF-8, with U+FFFD in place of every sequence that is not valid.
pub uninterp spec fn lossy_text(bytes: Seq<u8>) -> Seq<char>;

/// Decodes `bytes` with `String::from_utf8_lossy`.
///
/// Trusted: the text is the one that [`lossy_text`] names, and valid UTF-8
/// is decoded as it stands.
#[verifier::external_body]
fn decode_lossy(bytes: &[u8]) -> (text: String)
    ensures
        text@ == lossy_text(bytes@),
        valid_utf8(bytes@) ==> text@ == decode_utf8(bytes@),
{
    String::from_utf8_lossy(bytes).into_owned()
}

/// The part of the received bytes that is looked at.
pub open spec fn considered(raw: Seq<u8>) -> Seq<u8> {
    if raw.len() > REQUEST_LIMIT {
        raw.take(REQUEST_LIMIT as int)
    } else {
        raw
    }
}

/// Reads the request out of `text`.
pub fn parse_request(text: &str) -> (req: Request)
    ensures
        req@ == request_of(text@),
{
    let chars = chars_of(text);
    let end = find(&chars, chars.len(), 0, Stop::LineFeed);
    assert(chars@.take(chars@.len() as int) =~= chars@);
    let ghost line = first_line(text@);
    let a = find(&chars, end, 0, Stop::Token);
    let b = find(&chars, end, a, Stop::Space);
    let c = find(&chars, end, b, Stop::Token);
    let d = find(&chars, end, c, Stop::Space);
    let method = String::from_str(text.substring_char(a, b));
    assert(method@ =~= line.subrange(a as int, b as int));
    let path = if c < end {
        let p = String::from_str(text.substring_char(c, d));
        assert(p@ =~= line.subrange(c as int, d as int));
        p
    } else {
        String::from_str("/")
    };
    Request { method, path }
}

/// Reads the request out of the bytes received on a connection.
pub fn read_request(raw: &[u8]) -> (req: Request)
    ensures
        req@ == request_of(lossy_text(considered(raw@))),
        valid_utf8(considered(raw@)) ==> req@ == request_of(decode_utf8(considered(raw@))),
{
    let n = if raw.len() > REQUEST_LIMIT {
        REQUEST_LIMIT
    } else {
        raw.len()
    };
    let seen = slice_subrange(raw, 0, n);
    assert(seen@ =~= considered(raw@));
    let text = decode_lossy(seen);
    parse_request(text.as_str())
}

} // verus!
