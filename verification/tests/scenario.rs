//! One concrete serving scenario, driven end to end through the library:
//! a root holding `index.html` ("hello") and a subdirectory `docs/` with
//! `a.txt`, exercised by four requests.

use staticserve::bytes::find_sub;
use staticserve::listing::Entry;
use staticserve::paths::{sanitize_path, CanonPath, Sanitized};
use staticserve::request::{get_requested_path, RequestTarget};
use staticserve::response::{respond, Resource};

fn path_of(components: &[&str]) -> CanonPath {
    CanonPath { components: components.iter().map(|c| c.as_bytes().to_vec()).collect() }
}

fn root() -> CanonPath {
    path_of(&["srv", "site"])
}

/// Resolves a decoded relative target the way the filesystem would for this
/// scenario's tree: only existing locations canonicalize.
fn resolve(rel: &[u8]) -> Option<CanonPath> {
    match rel {
        b"" => Some(root()),
        b"index.html" => Some(path_of(&["srv", "site", "index.html"])),
        b"docs" | b"docs/" => Some(path_of(&["srv", "site", "docs"])),
        b"docs/a.txt" => Some(path_of(&["srv", "site", "docs", "a.txt"])),
        b"../../etc/passwd" => Some(path_of(&["etc", "passwd"])),
        _ => None,
    }
}

/// Serves one raw request against the scenario tree and returns the bytes
/// that would go out on the wire.
fn serve(request: &[u8]) -> Vec<u8> {
    let rel: Vec<u8> = match get_requested_path(request) {
        RequestTarget::Relative(v) => v,
        RequestTarget::RootFallback => Vec::new(),
    };
    let served = match sanitize_path(&root(), resolve(&rel)) {
        Sanitized::Resolved(p) => p,
        Sanitized::Escaped(p) => p,
        Sanitized::Unresolved => return respond(&Resource::Missing),
    };
    let is_site_root = served.components == root().components;
    let resource = if is_site_root {
        Resource::Directory {
            display: b"/srv/site".to_vec(),
            is_top: false,
            entries: vec![
                Entry { name: b"index.html".to_vec(), is_dir: false },
                Entry { name: b"docs".to_vec(), is_dir: true },
            ],
        }
    } else if served.components == path_of(&["srv", "site", "docs"]).components {
        Resource::Directory {
            display: b"/srv/site/docs".to_vec(),
            is_top: false,
            entries: vec![Entry { name: b"a.txt".to_vec(), is_dir: false }],
        }
    } else if served.components == path_of(&["srv", "site", "index.html"]).components {
        Resource::File { path: b"/srv/site/index.html".to_vec(), contents: b"hello".to_vec() }
    } else {
        Resource::Missing
    };
    respond(&resource)
}

fn contains(haystack: &[u8], needle: &[u8]) -> bool {
    find_sub(haystack, needle).is_some()
}

#[test]
fn serves_index_html() {
    let out = serve(b"GET /index.html HTTP/1.1\r\n\r\n");
    assert_eq!(
        out,
        b"HTTP/1.1 200 OK\r\nContent-Type: text/html\r\nContent-Length: 5\r\n\r\nhello".to_vec()
    );
}

#[test]
fn lists_docs_directory() {
    let out = serve(b"GET /docs/ HTTP/1.1\r\n\r\n");
    assert!(out.starts_with(b"HTTP/1.1 200 OK\r\nContent-Type: text/html\r\n"));
    assert!(contains(&out, "<li><a href=\"a.txt\" class=\"file\">\u{1F4C4} a.txt</a></li>".as_bytes()));
}

#[test]
fn traversal_attempt_serves_root_listing() {
    let out = serve(b"GET /../../etc/passwd HTTP/1.1\r\n\r\n");
    assert!(out.starts_with(b"HTTP/1.1 200 OK\r\nContent-Type: text/html\r\n"));
    assert!(contains(&out, b"<h1>Currently in /srv/site</h1>"));
    assert!(!contains(&out, b"passwd"));
}

#[test]
fn missing_file_gets_not_found() {
    let out = serve(b"GET /missing.txt HTTP/1.1\r\n\r\n");
    assert!(out.starts_with(b"HTTP/1.1 404 NOT FOUND\r\nContent-Type: text/html\r\n"));
    assert!(contains(&out, b"<h1>404 - Not Found</h1>"));
}
