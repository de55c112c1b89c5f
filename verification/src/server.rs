//! The request router: from a request to what has to be done about it.
//!
//! Handling a connection takes at most three steps. [`handle`] looks at the
//! bytes received and either settles the reply or names the one thing that
//! has to be looked up: the directory, for the index page and for the
//! newest bundle, or a file. [`serve_latest`] turns a scan of the directory
//! into the file to open; [`serve_file`] and
//! [`serve_index`](crate::page::serve_index) make the reply from what was
//! found. Nothing here touches the file system, so a reply that [`handle`]
//! settles has cost no access to it.

use vstd::prelude::*;
use vstd::string::*;
use vstd::utf8::{decode_utf8, valid_utf8};
use crate::bundle::{
    admit_file,
    admit_of,
    is_allowed,
    is_bundle_name,
    is_unsafe,
    is_unsafe_name,
    Denied,
    Meta,
};
use crate::catalog::{
    bundle_at,
    entry_views,
    latest,
    lemma_listing,
    listing,
    newest_bundle,
    qualifies,
    DirEntry,
    DirEntryView,
};
use crate::page::index_reply;
use crate::request::{
    considered,
    is_gap,
    is_token,
    lemma_request_with_path,
    lossy_text,
    parse_request,
    read_request,
    request_of,
    Request,
    RequestView,
};
use crate::response::{
    bad_request,
    fitted,
    forbidden,
    headers_only,
    http_400,
    http_403,
    http_404,
    http_405,
    http_ok_file,
    method_not_allowed,
    not_found,
    ok_file,
    Response,
    ResponseView,
};
use crate::text::{chars_of, has_prefix, is_space, is_text};

verus! {

/// What to do next for a connection.
#[derive(Clone, Debug, PartialEq, Eq)]
pub enum Step {
    /// Close the connection without a reply: nothing was received.
    Close,
    /// Send this reply and close the connection.
    Reply(Response),
    /// Scan the base directory and answer with
    /// [`serve_index`](crate::page::serve_index).
    Index { head_only: bool },
    /// Scan the base directory and go on with [`serve_latest`].
    Latest { head_only: bool },
    /// Open the file `name` in the base directory and answer with
    /// [`serve_file`].
    Open { name: String, head_only: bool },
}

/// The mathematical value of a [`Step`].
pub enum StepView {
    Close,
    Reply(ResponseView),
    Index { head_only: bool },
    Latest { head_only: bool },
    Open { name: Seq<char>, head_only: bool },
}

impl View for Step {
    type V = StepView;

    open spec fn view(&self) -> StepView {
        match self {
            Step::Close => StepView::Close,
            Step::Reply(r) => StepView::Reply(r@),
            Step::Index { head_only } => StepView::Index { head_only: *head_only },
            Step::Latest { head_only } => StepView::Latest { head_only: *head_only },
            Step::Open { name, head_only } => StepView::Open {
                name: name@,
                head_only: *head_only,
            },
        }
    }
}

/// The routing table: what to do about the request `req`. The first rule
/// that applies decides.
pub open spec fn route_of(req: RequestView) -> StepView {
    if req.method != "GET"@ && req.method != "HEAD"@ {
        StepView::Reply(method_not_allowed())
    } else {
        let head_only = req.method == "HEAD"@;
        if req.path == "/"@ || req.path == "/index.html"@ {
            StepView::Index { head_only }
        } else if req.path == "/download/latest"@ {
            StepView::Latest { head_only }
        } else if "/download/"@.is_prefix_of(req.path) {
            let name = req.path.skip("/download/"@.len() as int);
            if is_unsafe_name(name) {
                StepView::Reply(fitted(bad_request("bad filename"@), head_only))
            } else if !is_bundle_name(name) {
                StepView::Reply(fitted(forbidden(), head_only))
            } else {
                StepView::Open { name, head_only }
            }
        } else {
            StepView::Reply(fitted(not_found(), head_only))
        }
    }
}

/// What to do about the bytes `raw` received on a connection.
pub open spec fn step_for(raw: Seq<u8>) -> StepView {
    if raw.len() == 0 {
        StepView::Close
    } else {
        route_of(request_of(lossy_text(considered(raw))))
    }
}

/// What to do about a request for the newest bundle, given the entries of
/// a scan of the base directory.
pub open spec fn latest_step(entries: Seq<DirEntryView>, head_only: bool) -> StepView {
    match latest(entries) {
        Some(bundle) => StepView::Open { name: bundle.name, head_only },
        None => StepView::Reply(fitted(not_found(), head_only)),
    }
}

/// The reply to a request for the file `name`, of which the file system
/// told `found`.
pub open spec fn file_reply(name: Seq<char>, found: Option<Meta>, head_only: bool) -> ResponseView {
    match admit_of(name, found) {
        Ok(bundle) => ok_file(bundle.name, bundle.len, head_only),
        Err(Denied::Forbidden) => fitted(forbidden(), head_only),
        Err(Denied::NotFound) => fitted(not_found(), head_only),
    }
}

/// The step that a `HEAD` request takes where a `GET` request takes `step`.
pub open spec fn for_head(step: StepView) -> StepView {
    match step {
        StepView::Close => StepView::Close,
        StepView::Reply(r) => StepView::Reply(headers_only(r)),
        StepView::Index { head_only } => StepView::Index { head_only: true },
        StepView::Latest { head_only } => StepView::Latest { head_only: true },
        StepView::Open { name, head_only } => StepView::Open { name, head_only: true },
    }
}

/// Whether `step` settles a reply without a body.
pub open spec fn is_bare(step: StepView) -> bool {
    step matches StepView::Reply(r) && r.body is Empty
}

/// A `HEAD` request is routed and checked as the `GET` request for the
/// same path is, and at every step its reply has the status and the header
/// block of the reply to that `GET` request, and no body. The reply to the
/// `GET` request always has a body.
pub proof fn lemma_head_mirrors_get(
    path: Seq<char>,
    entries: Seq<DirEntryView>,
    name: Seq<char>,
    found: Option<Meta>,
)
    ensures
        route_of(RequestView { method: "HEAD"@, path }) == for_head(
            route_of(RequestView { method: "GET"@, path }),
        ),
        index_reply(entries, true) == headers_only(index_reply(entries, false)),
        latest_step(entries, true) == for_head(latest_step(entries, false)),
        file_reply(name, found, true) == headers_only(file_reply(name, found, false)),
        !is_bare(route_of(RequestView { method: "GET"@, path })),
        !is_bare(latest_step(entries, false)),
        !(index_reply(entries, false).body is Empty),
        !(file_reply(name, found, false).body is Empty),
{
    reveal_strlit("GET");
    reveal_strlit("HEAD");
    assert("GET"@.len() != "HEAD"@.len());
}

/// A request whose method is neither `GET` nor `HEAD` is answered with
/// status 405 whatever it asks for, and a download of an unsafe name with
/// status 400. Both replies are settled at once: neither the directory nor
/// any file is looked at.
pub proof fn lemma_rejected_at_once(method: Seq<char>, path: Seq<char>, name: Seq<char>)
    ensures
        method != "GET"@ && method != "HEAD"@ ==> route_of(RequestView { method, path })
            == StepView::Reply(method_not_allowed()),
        method_not_allowed().status == 405,
        is_unsafe_name(name) ==> route_of(RequestView { method: "GET"@, path: "/download/"@ + name })
            == StepView::Reply(bad_request("bad filename"@)),
        is_unsafe_name(name) ==> route_of(
            RequestView { method: "HEAD"@, path: "/download/"@ + name },
        ) == StepView::Reply(headers_only(bad_request("bad filename"@))),
        bad_request("bad filename"@).status == 400,
{
    reveal_strlit("GET");
    reveal_strlit("HEAD");
    reveal_strlit("/");
    reveal_strlit("/index.html");
    reveal_strlit("/download/latest");
    reveal_strlit("/download/");
    assert("GET"@.len() != "HEAD"@.len());
    if is_unsafe_name(name) {
        let path = "/download/"@ + name;
        assert(path[1] == 'd');
        assert(path != "/"@);
        assert(path != "/index.html"@);
        assert(path.skip(10) =~= name);
        assert(path.subrange(0, 10) =~= "/download/"@);
        if path == "/download/latest"@ {
            assert(name.len() == 6);
            assert(name[0] == path[10]);
            assert forall|k: int| 0 <= k < name.len() implies name[k] != '/' by {
                assert(name[k] == path[10 + k]);
            }
        }
    }
}

/// The same holds of the texts that carry the requests: where a text with
/// the method `GET` leads to some step, the text with `HEAD` in its place
/// leads to the step that mirrors it.
pub proof fn lemma_head_text_mirrors_get(
    lead: Seq<char>,
    gap: Seq<char>,
    path: Seq<char>,
    rest: Seq<char>,
)
    requires
        is_gap(lead),
        is_gap(gap),
        gap.len() > 0,
        is_token(path),
        rest.len() == 0 || is_space(rest[0]),
    ensures
        route_of(request_of(lead + "HEAD"@ + gap + path + rest)) == for_head(
            route_of(request_of(lead + "GET"@ + gap + path + rest)),
        ),
{
    reveal_strlit("GET");
    reveal_strlit("HEAD");
    lemma_request_with_path(lead, "GET"@, gap, path, rest);
    lemma_request_with_path(lead, "HEAD"@, gap, path, rest);
    lemma_head_mirrors_get(path, Seq::empty(), Seq::empty(), None);
}

/// A text that asks for the download of an unsafe name is answered with
/// status 400 at once, wherever the name is unsafe and whatever follows
/// the request line.
pub proof fn lemma_unsafe_download_rejected(
    lead: Seq<char>,
    gap: Seq<char>,
    name: Seq<char>,
    rest: Seq<char>,
)
    requires
        is_gap(lead),
        is_gap(gap),
        gap.len() > 0,
        is_token("/download/"@ + name),
        is_unsafe_name(name),
        rest.len() == 0 || is_space(rest[0]),
    ensures
        route_of(request_of(lead + "GET"@ + gap + ("/download/"@ + name) + rest))
            == StepView::Reply(bad_request("bad filename"@)),
        route_of(request_of(lead + "HEAD"@ + gap + ("/download/"@ + name) + rest))
            == StepView::Reply(headers_only(bad_request("bad filename"@))),
{
    reveal_strlit("GET");
    reveal_strlit("HEAD");
    let path = "/download/"@ + name;
    lemma_request_with_path(lead, "GET"@, gap, path, rest);
    lemma_request_with_path(lead, "HEAD"@, gap, path, rest);
    lemma_rejected_at_once("GET"@, path, name);
}

/// Whatever is requested and whatever the directory holds, a file that is
/// opened or delivered has a name on the allowlist, and so has every
/// bundle of a listing. A file is delivered exactly if it is admitted;
/// every other reply to a download names one of the error statuses.
pub proof fn lemma_only_bundles_surface(
    req: RequestView,
    entries: Seq<DirEntryView>,
    name: Seq<char>,
    found: Option<Meta>,
    head_only: bool,
)
    ensures
        route_of(req) matches StepView::Open { name, .. } ==> is_bundle_name(name),
        latest_step(entries, head_only) matches StepView::Open { name, .. } ==> is_bundle_name(
            name,
        ),
        forall|k: int|
            0 <= k < listing(entries).len() ==> is_bundle_name(
                (#[trigger] listing(entries)[k]).name,
            ),
        route_of(req) matches StepView::Reply(r) ==> r.status == 400 || r.status == 403 || r.status
            == 404 || r.status == 405,
        latest_step(entries, head_only) matches StepView::Reply(r) ==> r.status == 404,
        file_reply(name, found, head_only).status == 200 <==> admit_of(name, found) is Ok,
        file_reply(name, found, head_only).status == 403 <==> !is_bundle_name(name),
        file_reply(name, found, head_only).status == 404 <==> is_bundle_name(name) && found is None,
{
    lemma_listing(entries);
    assert forall|k: int| 0 <= k < listing(entries).len() implies is_bundle_name(
        (#[trigger] listing(entries)[k]).name,
    ) by {
        let i = choose|i: int|
            0 <= i < entries.len() && qualifies(entries, i) && listing(entries)[k] == bundle_at(
                entries,
                i,
            );
    }
}

/// Routes a request.
pub fn route(req: &Request) -> (step: Step)
    ensures
        step@ == route_of(req@),
{
    let get = is_text(req.method.as_str(), "GET");
    let head_only = is_text(req.method.as_str(), "HEAD");
    if !get && !head_only {
        return Step::Reply(http_405());
    }
    let path = req.path.as_str();
    if is_text(path, "/") || is_text(path, "/index.html") {
        return Step::Index { head_only };
    }
    if is_text(path, "/download/latest") {
        return Step::Latest { head_only };
    }
    let chars = chars_of(path);
    let prefix = chars_of("/download/");
    if !has_prefix(&chars, &prefix) {
        return Step::Reply(http_404().fit(head_only));
    }
    let name = path.substring_char(prefix.len(), chars.len());
    assert(name@ =~= path@.skip("/download/"@.len() as int));
    if is_unsafe(name) {
        return Step::Reply(http_400("bad filename").fit(head_only));
    }
    if !is_allowed(name) {
        return Step::Reply(http_403().fit(head_only));
    }
    Step::Open { name: String::from_str(name), head_only }
}

/// Decides what to do about the request that the text `text` carries.
pub fn handle_text(text: &str) -> (step: Step)
    ensures
        step@ == route_of(request_of(text@)),
{
    let req = parse_request(text);
    route(&req)
}

/// Decides what to do about the bytes `raw` received on a connection.
///
/// With nothing received the connection is closed without a reply.
/// Otherwise the bytes, as far as
/// [`REQUEST_LIMIT`](crate::request::REQUEST_LIMIT) reaches, are decoded as
/// text, invalid sequences and all, and the request on their first line is
/// routed. Of bytes that are valid UTF-8 the text is their decoding.
pub fn handle(raw: &[u8]) -> (step: Step)
    ensures
        step@ == step_for(raw@),
        raw@.len() > 0 && valid_utf8(considered(raw@)) ==> step@ == route_of(
            request_of(decode_utf8(considered(raw@))),
        ),
{
    if raw.len() == 0 {
        return Step::Close;
    }
    let req = read_request(raw);
    route(&req)
}

/// Decides what to do about a request for the newest bundle, given the
/// entries of a scan of the base directory: open that bundle, or answer
/// with status 404 where the directory holds none.
pub fn serve_latest(entries: &Vec<DirEntry>, head_only: bool) -> (step: Step)
    ensures
        step@ == latest_step(entry_views(entries@), head_only),
{
    match newest_bundle(entries) {
        Some(bundle) => Step::Open { name: bundle.name, head_only },
        None => Step::Reply(http_404().fit(head_only)),
    }
}

/// Answers a request for the file `name`, given what opening it told: its
/// metadata, or `None` where it is missing or unreadable.
///
/// The name is held against the allowlist once more. A name outside it
/// gets status 403 whether or not the file exists; an allowed name without
/// a file gets status 404; an admitted file is announced with its exact
/// length.
pub fn serve_file(name: &str, found: Option<Meta>, head_only: bool) -> (r: Response)
    ensures
        r@ == file_reply(name@, found, head_only),
{
    match admit_file(name, found) {
        Ok(bundle) => http_ok_file(bundle.name.as_str(), bundle.len, head_only),
        Err(Denied::Forbidden) => http_403().fit(head_only),
        Err(Denied::NotFound) => http_404().fit(head_only),
    }
}

} // verus!
