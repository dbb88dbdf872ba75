//! Rendering a directory listing as an HTML document.
//!
//! The page shows the directory's display path, a go-back link (`/` when
//! the directory is its own parent, `../` otherwise), and one list item per
//! entry: the entry's name, percent-encoded in the link's href — with a
//! trailing slash for subdirectories — and shown beside a folder or file
//! icon. Entries appear in the order they are handed in; an unreadable
//! entry is simply not handed in, so the listing degrades to a partial one.

use crate::bytes::push_bytes;
use crate::codec::{percent_encode_component, spec_percent_encode};
use vstd::prelude::*;
use vstd::string::StringSliceAdditionalSpecFns;

verus! {

/// One immediate child of a directory.
pub struct Entry {
    /// The entry's file name, as bytes.
    pub name: Vec<u8>,
    /// True when the entry is itself a directory.
    pub is_dir: bool,
}

/// The document head, up to the display path.
pub open spec fn spec_listing_head() -> Seq<u8> {
    "\n    <!DOCTYPE html>\n    <html lang=\"en\">\n    <head>\n        <meta charset=\"UTF-8\">\n        <meta name=\"viewport\" content=\"width=device-width, initial-scale=1.0\">\n        <title>Directory Listing</title>\n        <style>\n            body { font-family: Arial, sans-serif; background-color: #f4f4f4; margin: 20px; }\n            h1 { color: #333; }\n            a { text-decoration: none; color: #007bff; }\n            a:hover { text-decoration: underline; }\n            ul { list-style-type: none; padding-left: 0; }\n            li { margin: 10px 0; }\n            .file { padding: 10px; background-color: #fff; border: 1px solid #ddd; border-radius: 5px; display: inline-block; }\n            hr { margin-top: 20px; border: none; height: 2px; background-color: #ddd; }\n        </style>\n    </head>\n    <body>\n        <h1>Currently in ".spec_bytes()
}

/// Between the display path and the go-back link's href.
pub open spec fn spec_listing_mid() -> Seq<u8> {
    "</h1>\n        <a href=\"".spec_bytes()
}

/// From the go-back link's href to the start of the list.
pub open spec fn spec_listing_tail() -> Seq<u8> {
    "\" class=\"file\">Go back to directory</a>\n        <hr>\n        <ul>\n    ".spec_bytes()
}

/// The close of the list and of the document.
pub open spec fn spec_listing_foot() -> Seq<u8> {
    "\n        </ul>\n    </body>\n    </html>\n    ".spec_bytes()
}

/// A list item's opening, up to its href.
pub open spec fn spec_item_pre() -> Seq<u8> {
    "<li><a href=\"".spec_bytes()
}

/// From a subdirectory's href to its shown name: the href's trailing slash,
/// then the folder icon.
pub open spec fn spec_item_dir_mid() -> Seq<u8> {
    "/\" class=\"file\">📁 ".spec_bytes()
}

/// From a file's href to its shown name, with the file icon.
pub open spec fn spec_item_file_mid() -> Seq<u8> {
    "\" class=\"file\">📄 ".spec_bytes()
}

/// A list item's closing.
pub open spec fn spec_item_post() -> Seq<u8> {
    "</a></li>".spec_bytes()
}

/// The list item for one entry: a link whose href is the percent-encoded
/// name — plus a trailing slash for a directory — and whose text is an icon
/// and the name itself.
pub open spec fn spec_item(e: Entry) -> Seq<u8> {
    if e.is_dir {
        spec_item_pre() + spec_percent_encode(e.name@) + spec_item_dir_mid() + e.name@
            + spec_item_post()
    } else {
        spec_item_pre() + spec_percent_encode(e.name@) + spec_item_file_mid() + e.name@
            + spec_item_post()
    }
}

/// The list items of all entries, in order.
pub open spec fn spec_items(es: Seq<Entry>) -> Seq<u8>
    decreases es.len(),
{
    if es.len() == 0 {
        Seq::empty()
    } else {
        spec_item(es[0]) + spec_items(es.skip(1))
    }
}

/// Everything before the list items.
pub open spec fn spec_listing_pre(display: Seq<u8>, is_top: bool) -> Seq<u8> {
    spec_listing_head() + display + spec_listing_mid() + (if is_top {
        "/".spec_bytes()
    } else {
        "../".spec_bytes()
    }) + spec_listing_tail()
}

/// The whole listing document for a directory shown as `display`, with
/// `is_top` true when the directory is its own parent.
pub open spec fn spec_listing(display: Seq<u8>, is_top: bool, es: Seq<Entry>) -> Seq<u8> {
    spec_listing_pre(display, is_top) + spec_items(es) + spec_listing_foot()
}

/// Appending one entry extends the rendered items by that entry's item.
proof fn lemma_items_snoc(es: Seq<Entry>, e: Entry)
    ensures
        spec_items(es.push(e)) == spec_items(es) + spec_item(e),
    decreases es.len(),
{
    if es.len() == 0 {
        assert(es.push(e)[0] == e);
        assert(es.push(e).skip(1) =~= Seq::<Entry>::empty());
        assert(spec_items(Seq::<Entry>::empty()) == Seq::<u8>::empty());
        assert(spec_items(es.push(e)) == spec_item(e) + Seq::<u8>::empty());
        assert(spec_item(e) + Seq::<u8>::empty() =~= spec_item(e));
        assert(Seq::<u8>::empty() + spec_item(e) =~= spec_item(e));
    } else {
        lemma_items_snoc(es.skip(1), e);
        assert(es.push(e).skip(1) =~= es.skip(1).push(e));
        assert(es.push(e)[0] == es[0]);
        assert(spec_items(es.push(e)) == spec_item(es[0]) + (spec_items(es.skip(1)) + spec_item(
            e,
        )));
        assert(spec_item(es[0]) + (spec_items(es.skip(1)) + spec_item(e)) =~= (spec_item(es[0])
            + spec_items(es.skip(1))) + spec_item(e));
    }
}

/// The list item for one entry, matching `spec_item`.
pub fn render_item(e: &Entry) -> (r: Vec<u8>)
    ensures
        r@ == spec_item(*e),
{
    let mut r: Vec<u8> = Vec::new();
    push_bytes(&mut r, "<li><a href=\"".as_bytes());
    let enc = percent_encode_component(e.name.as_slice());
    push_bytes(&mut r, enc.as_slice());
    if e.is_dir {
        push_bytes(&mut r, "/\" class=\"file\">📁 ".as_bytes());
    } else {
        push_bytes(&mut r, "\" class=\"file\">📄 ".as_bytes());
    }
    push_bytes(&mut r, e.name.as_slice());
    push_bytes(&mut r, "</a></li>".as_bytes());
    r
}

/// Renders the full listing document, matching `spec_listing`.
pub fn list_directory_contents(display: &[u8], is_top: bool, entries: &Vec<Entry>) -> (html: Vec<
    u8,
>)
    ensures
        html@ == spec_listing(display@, is_top, entries@),
{
    let mut html: Vec<u8> = Vec::new();
    push_bytes(
        &mut html,
        "\n    <!DOCTYPE html>\n    <html lang=\"en\">\n    <head>\n        <meta charset=\"UTF-8\">\n        <meta name=\"viewport\" content=\"width=device-width, initial-scale=1.0\">\n        <title>Directory Listing</title>\n        <style>\n            body { font-family: Arial, sans-serif; background-color: #f4f4f4; margin: 20px; }\n            h1 { color: #333; }\n            a { text-decoration: none; color: #007bff; }\n            a:hover { text-decoration: underline; }\n            ul { list-style-type: none; padding-left: 0; }\n            li { margin: 10px 0; }\n            .file { padding: 10px; background-color: #fff; border: 1px solid #ddd; border-radius: 5px; display: inline-block; }\n            hr { margin-top: 20px; border: none; height: 2px; background-color: #ddd; }\n        </style>\n    </head>\n    <body>\n        <h1>Currently in ".as_bytes(),
    );
    push_bytes(&mut html, display);
    push_bytes(&mut html, "</h1>\n        <a href=\"".as_bytes());
    if is_top {
        push_bytes(&mut html, "/".as_bytes());
    } else {
        push_bytes(&mut html, "../".as_bytes());
    }
    push_bytes(
        &mut html,
        "\" class=\"file\">Go back to directory</a>\n        <hr>\n        <ul>\n    ".as_bytes(),
    );
    assert(html@ == spec_listing_pre(display@, is_top));
    let n: usize = entries.len();
    let mut i: usize = 0;
    proof {
        assert(entries@.take(0) =~= Seq::<Entry>::empty());
        assert(html@ + Seq::<u8>::empty() =~= html@);
    }
    while i < n
        invariant
            n == entries@.len(),
            i <= n,
            html@ == spec_listing_pre(display@, is_top) + spec_items(entries@.take(i as int)),
        decreases n - i,
    {
        let item = render_item(&entries[i]);
        let ghost pre = html@;
        push_bytes(&mut html, item.as_slice());
        proof {
            lemma_items_snoc(entries@.take(i as int), entries@[i as int]);
            assert(entries@.take(i as int).push(entries@[i as int]) =~= entries@.take(i + 1));
            assert(pre + item@ =~= spec_listing_pre(display@, is_top) + spec_items(
                entries@.take(i + 1),
            ));
        }
        i += 1;
    }
    proof {
        assert(entries@.take(n as int) =~= entries@);
    }
    push_bytes(&mut html, "\n        </ul>\n    </body>\n    </html>\n    ".as_bytes());
    html
}

} // verus!
