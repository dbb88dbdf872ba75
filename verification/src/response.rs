//! HTTP response framing and the one-request dispatch.
//!
//! Every response is a status line, a Content-Type header, a Content-Length
//! header holding the body's exact byte count, a blank line, and the body,
//! with CRLF line endings throughout. A directory is answered with its
//! rendered listing, a regular file with its bytes under the extension's
//! MIME type, and anything else with the static not-found page.

use crate::bytes::{push_bytes, spec_decimal, u64_to_decimal};
use crate::listing::{list_directory_contents, spec_listing, Entry};
use crate::mime::{get_mime_type, spec_mime};
use vstd::prelude::*;
use vstd::string::StringSliceAdditionalSpecFns;

verus! {

/// The statuses this server answers with.
pub enum Status {
    /// 200 OK.
    Success,
    /// 404 NOT FOUND.
    NotFound,
}

/// The status line's bytes, without its CRLF.
pub open spec fn spec_status_line(s: Status) -> Seq<u8> {
    match s {
        Status::Success => "HTTP/1.1 200 OK".spec_bytes(),
        Status::NotFound => "HTTP/1.1 404 NOT FOUND".spec_bytes(),
    }
}

/// A whole response: status line, Content-Type, Content-Length holding the
/// body's exact byte count, a blank line, and the body.
pub open spec fn spec_response(s: Status, ctype: Seq<u8>, body: Seq<u8>) -> Seq<u8> {
    spec_status_line(s) + "\r\nContent-Type: ".spec_bytes() + ctype
        + "\r\nContent-Length: ".spec_bytes() + spec_decimal(body.len())
        + "\r\n\r\n".spec_bytes() + body
}

/// Frames `body` into a full response, matching `spec_response`.
pub fn build_response(status: Status, ctype: &[u8], body: &[u8]) -> (r: Vec<u8>)
    ensures
        r@ == spec_response(status, ctype@, body@),
{
    let mut r: Vec<u8> = Vec::new();
    match status {
        Status::Success => push_bytes(&mut r, "HTTP/1.1 200 OK".as_bytes()),
        Status::NotFound => push_bytes(&mut r, "HTTP/1.1 404 NOT FOUND".as_bytes()),
    }
    push_bytes(&mut r, "\r\nContent-Type: ".as_bytes());
    push_bytes(&mut r, ctype);
    push_bytes(&mut r, "\r\nContent-Length: ".as_bytes());
    let len = u64_to_decimal(body.len() as u64);
    push_bytes(&mut r, len.as_slice());
    push_bytes(&mut r, "\r\n\r\n".as_bytes());
    push_bytes(&mut r, body);
    r
}

/// The static not-found page.
pub open spec fn spec_not_found() -> Seq<u8> {
    "\n    <!DOCTYPE html>\n    <html lang=\"en\">\n    <head>\n        <meta charset=\"UTF-8\">\n        <meta name=\"viewport\" content=\"width=device-width, initial-scale=1.0\">\n        <title>404 Not Found</title>\n        <style>\n            body { font-family: Arial, sans-serif; background-color: #f4f4f4; text-align: center; margin: 20px; }\n            h1 { color: #e74c3c; font-size: 48px; }\n            p { color: #333; font-size: 18px; }\n        </style>\n    </head>\n    <body>\n        <h1>404 - Not Found</h1>\n        <p>The requested resource could not be found on this server.</p>\n    </body>\n    </html>\n    ".spec_bytes()
}

/// The body sent with every 404 answer.
pub fn not_found_page() -> (r: &'static [u8])
    ensures
        r@ == spec_not_found(),
{
    "\n    <!DOCTYPE html>\n    <html lang=\"en\">\n    <head>\n        <meta charset=\"UTF-8\">\n        <meta name=\"viewport\" content=\"width=device-width, initial-scale=1.0\">\n        <title>404 Not Found</title>\n        <style>\n            body { font-family: Arial, sans-serif; background-color: #f4f4f4; text-align: center; margin: 20px; }\n            h1 { color: #e74c3c; font-size: 48px; }\n            p { color: #333; font-size: 18px; }\n        </style>\n    </head>\n    <body>\n        <h1>404 - Not Found</h1>\n        <p>The requested resource could not be found on this server.</p>\n    </body>\n    </html>\n    ".as_bytes()
}

/// What the filesystem said the served path is. The surrounding program
/// checks the path and hands in the matching case: a directory with its
/// readable entries, a regular file with all its bytes, or nothing.
pub enum Resource {
    /// A directory: how it is displayed, whether it is its own parent, and
    /// its immediate entries.
    Directory { display: Vec<u8>, is_top: bool, entries: Vec<Entry> },
    /// A regular file: its path, for the MIME lookup, and its full contents.
    File { path: Vec<u8>, contents: Vec<u8> },
    /// Nothing exists at the served path.
    Missing,
}

/// Answers one request: 200 with the rendered listing for a directory, 200
/// with the file's bytes and its extension's MIME type for a file, and 404
/// with the static page when nothing is there. The Content-Length always
/// holds the body's exact byte count.
pub fn respond(r: &Resource) -> (out: Vec<u8>)
    ensures
        match r {
            Resource::Directory { display, is_top, entries } => out@ == spec_response(
                Status::Success,
                "text/html".spec_bytes(),
                spec_listing(display@, *is_top, entries@),
            ),
            Resource::File { path, contents } => out@ == spec_response(
                Status::Success,
                spec_mime(path@),
                contents@,
            ),
            Resource::Missing => out@ == spec_response(
                Status::NotFound,
                "text/html".spec_bytes(),
                spec_not_found(),
            ),
        },
{
    match r {
        Resource::Directory { display, is_top, entries } => {
            let body = list_directory_contents(display.as_slice(), *is_top, entries);
            build_response(Status::Success, "text/html".as_bytes(), body.as_slice())
        },
        Resource::File { path, contents } => {
            let ctype = get_mime_type(path.as_slice());
            build_response(Status::Success, ctype, contents.as_slice())
        },
        Resource::Missing => {
            build_response(Status::NotFound, "text/html".as_bytes(), not_found_page())
        },
    }
}

} // verus!
