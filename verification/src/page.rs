//! The index page: the newest bundle, and a link to every bundle.

use vstd::prelude::*;
use vstd::string::*;
use vstd::utf8::encode_utf8;
use crate::bundle::{Bundle, BundleView};
use crate::catalog::{bundle_views, entry_views, list_bundles, listing, DirEntry, DirEntryView};
use crate::response::{http_ok_html, ok_html, Response, ResponseView};
use crate::text::{decimal, decimal_string};

verus! {

/// What every index page begins with.
pub open spec fn page_intro() -> Seq<char> {
    "<!doctype html><meta charset=utf-8>"@ + "<title>reMarkable Support Bundles</title>"@
        + "<style>body{font:14px system-ui, sans-serif;max-width:720px;margin:2rem auto;padding:0 1rem}</style>"@
        + "<h1>reMarkable Support Bundles</h1>"@
}

/// The paragraph on the newest bundle of `list`, or the one that says that
/// there is none.
pub open spec fn latest_line(list: Seq<BundleView>) -> Seq<char> {
    if list.len() == 0 {
        "<p><em>Ingen bundles funnet i /home/root.</em></p>"@
    } else {
        "<p><strong>Siste bundle:</strong> <a href=\"/download/latest\">"@ + list[0].name
            + "</a> ("@ + decimal(list[0].len) + " bytes)</p>"@
    }
}

/// The list item that links to `bundle`.
pub open spec fn item(bundle: BundleView) -> Seq<char> {
    "<li><a href=\"/download/"@ + bundle.name + "\">"@ + bundle.name + "</a> ("@ + decimal(
        bundle.len,
    ) + " bytes)</li>"@
}

/// The list items for `list`, in its order.
pub open spec fn items(list: Seq<BundleView>) -> Seq<char>
    decreases list.len(),
{
    if list.len() == 0 {
        Seq::<char>::empty()
    } else {
        items(list.drop_last()) + item(list.last())
    }
}

/// The index page for the listing `list`.
pub open spec fn index_page(list: Seq<BundleView>) -> Seq<char> {
    page_intro() + latest_line(list) + "<h2>Alle bundles</h2><ul>"@ + items(list) + "</ul>"@
}

/// The reply to a request for the index page, given the entries of a scan
/// of the base directory.
pub open spec fn index_reply(entries: Seq<DirEntryView>, head_only: bool) -> ResponseView {
    ok_html(encode_utf8(index_page(listing(entries))), head_only)
}

/// Writes the index page for `list`.
pub fn render_index(list: &Vec<Bundle>) -> (page: String)
    ensures
        page@ == index_page(bundle_views(list@)),
{
    let ghost views = bundle_views(list@);
    let mut page = String::from_str("<!doctype html><meta charset=utf-8>");
    page.append("<title>reMarkable Support Bundles</title>");
    page.append(
        "<style>body{font:14px system-ui, sans-serif;max-width:720px;margin:2rem auto;padding:0 1rem}</style>",
    );
    page.append("<h1>reMarkable Support Bundles</h1>");
    if list.len() == 0 {
        page.append("<p><em>Ingen bundles funnet i /home/root.</em></p>");
    } else {
        let newest = &list[0];
        assert(views[0] == newest@);
        let size = decimal_string(newest.len);
        page.append("<p><strong>Siste bundle:</strong> <a href=\"/download/latest\">");
        page.append(newest.name.as_str());
        page.append("</a> (");
        page.append(size.as_str());
        page.append(" bytes)</p>");
    }
    page.append("<h2>Alle bundles</h2><ul>");
    let ghost front = page@;
    assert(front =~= page_intro() + latest_line(views) + "<h2>Alle bundles</h2><ul>"@);
    let mut i: usize = 0;
    while i < list.len()
        invariant
            i <= list.len(),
            views == bundle_views(list@),
            page@ == front + items(views.take(i as int)),
        decreases list.len() - i,
    {
        let bundle = &list[i];
        let size = decimal_string(bundle.len);
        page.append("<li><a href=\"/download/");
        page.append(bundle.name.as_str());
        page.append("\">");
        page.append(bundle.name.as_str());
        page.append("</a> (");
        page.append(size.as_str());
        page.append(" bytes)</li>");
        proof {
            let next = views.take(i + 1);
            assert(next.drop_last() =~= views.take(i as int));
            assert(next.last() == bundle@);
            assert(page@ =~= front + items(next));
        }
        i += 1;
    }
    assert(views.take(list.len() as int) =~= views);
    page.append("</ul>");
    assert(page@ =~= index_page(views));
    page
}

/// Answers a request for the index page, given the entries of a scan of
/// the base directory.
pub fn serve_index(entries: &Vec<DirEntry>, head_only: bool) -> (r: Response)
    ensures
        r@ == index_reply(entry_views(entries@), head_only),
{
    let list = list_bundles(entries);
    let page = render_index(&list);
    http_ok_html(page.as_str().as_bytes_vec(), head_only)
}

} // verus!
