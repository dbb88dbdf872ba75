use staticserve::bytes::{find_sub, u64_to_decimal};
use staticserve::listing::{list_directory_contents, Entry};
use staticserve::mime::get_mime_type;
use staticserve::response::{build_response, not_found_page, respond, Resource, Status};

fn contains(haystack: &[u8], needle: &[u8]) -> bool {
    find_sub(haystack, needle).is_some()
}

#[test]
fn mime_table() {
    assert_eq!(get_mime_type(b"/srv/site/index.html"), b"text/html");
    assert_eq!(get_mime_type(b"a.png"), b"image/png");
    assert_eq!(get_mime_type(b"a.jpg"), b"image/jpeg");
    assert_eq!(get_mime_type(b"a.jpeg"), b"image/jpeg");
    assert_eq!(get_mime_type(b"a.webm"), b"video/webm");
    assert_eq!(get_mime_type(b"a.mp4"), b"video/mp4");
    assert_eq!(get_mime_type(b"/srv/docs/a.txt"), b"text/plain");
    assert_eq!(get_mime_type(b"a.pdf"), b"application/pdf");
}

#[test]
fn mime_fallback() {
    assert_eq!(get_mime_type(b"a.rs"), b"application/octet-stream");
    assert_eq!(get_mime_type(b"noext"), b"application/octet-stream");
    assert_eq!(get_mime_type(b"/srv/.bashrc"), b"application/octet-stream");
    assert_eq!(get_mime_type(b"archive.tar.gz"), b"application/octet-stream");
}

#[test]
fn mime_uses_final_component() {
    assert_eq!(get_mime_type(b"/srv/dir.html/raw"), b"application/octet-stream");
}

#[test]
fn decimal_rendering() {
    assert_eq!(u64_to_decimal(0), b"0".to_vec());
    assert_eq!(u64_to_decimal(5), b"5".to_vec());
    assert_eq!(u64_to_decimal(1234567890), b"1234567890".to_vec());
}

#[test]
fn response_exact_bytes() {
    let r = build_response(Status::Success, b"text/html", b"hello");
    assert_eq!(
        r,
        b"HTTP/1.1 200 OK\r\nContent-Type: text/html\r\nContent-Length: 5\r\n\r\nhello".to_vec()
    );
}

#[test]
fn not_found_response() {
    let page = not_found_page();
    let r = respond(&Resource::Missing);
    let head = format!("HTTP/1.1 404 NOT FOUND\r\nContent-Type: text/html\r\nContent-Length: {}\r\n\r\n", page.len());
    let mut expected = head.into_bytes();
    expected.extend_from_slice(page);
    assert_eq!(r, expected);
    assert!(contains(page, b"<h1>404 - Not Found</h1>"));
}

#[test]
fn listing_has_one_item_per_entry() {
    let entries = vec![
        Entry { name: b"a.txt".to_vec(), is_dir: false },
        Entry { name: b"docs".to_vec(), is_dir: true },
        Entry { name: b"my file #1".to_vec(), is_dir: false },
    ];
    let html = list_directory_contents(b"/srv/site", false, &entries);
    assert!(contains(&html, b"<h1>Currently in /srv/site</h1>"));
    assert!(contains(&html, "<li><a href=\"a.txt\" class=\"file\">\u{1F4C4} a.txt</a></li>".as_bytes()));
    assert!(contains(&html, "<li><a href=\"docs/\" class=\"file\">\u{1F4C1} docs</a></li>".as_bytes()));
    assert!(contains(&html, "<li><a href=\"my%20file%20%231\" class=\"file\">\u{1F4C4} my file #1</a></li>".as_bytes()));
    assert!(contains(&html, "<a href=\"../\" class=\"file\">Go back to directory</a>".as_bytes()));
}

#[test]
fn listing_at_top_links_to_slash() {
    let html = list_directory_contents(b"/", true, &Vec::new());
    assert!(contains(&html, "<a href=\"/\" class=\"file\">Go back to directory</a>".as_bytes()));
}

#[test]
fn directory_response_is_html() {
    let r = respond(&Resource::Directory {
        display: b"/srv/site".to_vec(),
        is_top: false,
        entries: vec![Entry { name: b"a.txt".to_vec(), is_dir: false }],
    });
    assert!(r.starts_with(b"HTTP/1.1 200 OK\r\nContent-Type: text/html\r\nContent-Length: "));
    assert!(contains(&r, b"a.txt"));
}

#[test]
fn empty_body_has_zero_length() {
    let r = build_response(Status::Success, b"application/octet-stream", b"");
    assert_eq!(
        r,
        b"HTTP/1.1 200 OK\r\nContent-Type: application/octet-stream\r\nContent-Length: 0\r\n\r\n"
            .to_vec()
    );
}

#[test]
fn file_without_extension_is_octet_stream() {
    let r = respond(&Resource::File { path: b"/srv/site/noext".to_vec(), contents: b"x".to_vec() });
    assert!(r.starts_with(b"HTTP/1.1 200 OK\r\nContent-Type: application/octet-stream\r\nContent-Length: 1\r\n\r\n"));
}
