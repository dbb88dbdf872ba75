//! MIME type selection from a path's file extension.
//!
//! The extension is the part of the path's final component after its last
//! dot, provided that dot is not the component's first byte. A fixed table
//! maps a handful of extensions to their types; everything else, an absent
//! extension included, maps to `application/octet-stream`.

use crate::bytes::{bytes_eq, spec_rfind, rfind_byte};
use vstd::prelude::*;
use vstd::string::StringSliceAdditionalSpecFns;

verus! {

/// The final component of `p`: everything after the last `/`, or all of `p`
/// when it has none.
pub open spec fn spec_file_name(p: Seq<u8>) -> Seq<u8> {
    match spec_rfind(p, 47) {
        None => p,
        Some(i) => p.skip(i + 1),
    }
}

/// The extension of `p`'s final component: the bytes after its last dot,
/// none when the component has no dot or only a leading one.
pub open spec fn spec_extension(p: Seq<u8>) -> Option<Seq<u8>> {
    let name = spec_file_name(p);
    match spec_rfind(name, 46) {
        None => None,
        Some(i) => if i == 0 {
            None
        } else {
            Some(name.skip(i + 1))
        },
    }
}

/// The fixed extension table.
pub open spec fn spec_mime_of_ext(e: Option<Seq<u8>>) -> Seq<u8> {
    if e == Some("html".spec_bytes()) {
        "text/html".spec_bytes()
    } else if e == Some("png".spec_bytes()) {
        "image/png".spec_bytes()
    } else if e == Some("jpg".spec_bytes()) || e == Some("jpeg".spec_bytes()) {
        "image/jpeg".spec_bytes()
    } else if e == Some("webm".spec_bytes()) {
        "video/webm".spec_bytes()
    } else if e == Some("mp4".spec_bytes()) {
        "video/mp4".spec_bytes()
    } else if e == Some("txt".spec_bytes()) {
        "text/plain".spec_bytes()
    } else if e == Some("pdf".spec_bytes()) {
        "application/pdf".spec_bytes()
    } else {
        "application/octet-stream".spec_bytes()
    }
}

/// The MIME type served for the path `p`, by its extension alone.
pub open spec fn spec_mime(p: Seq<u8>) -> Seq<u8> {
    spec_mime_of_ext(spec_extension(p))
}

/// Chooses the Content-Type for a path, matching `spec_mime`.
pub fn get_mime_type(p: &[u8]) -> (m: &'static [u8])
    ensures
        m@ == spec_mime(p@),
{
    let plen: usize = p.len();
    let name: &[u8] = match rfind_byte(p, 47) {
        None => p,
        Some(i) => &p[i + 1..plen],
    };
    proof {
        assert(name@ =~= spec_file_name(p@));
    }
    let nlen: usize = name.len();
    let ext: Option<&[u8]> = match rfind_byte(name, 46) {
        None => None,
        Some(i) => if i == 0 {
            None
        } else {
            Some(&name[i + 1..nlen])
        },
    };
    proof {
        match spec_extension(p@) {
            Some(e) => assert(ext matches Some(x) && x@ =~= e),
            None => assert(ext is None),
        }
    }
    match ext {
        None => "application/octet-stream".as_bytes(),
        Some(e) => {
            if bytes_eq(e, "html".as_bytes()) {
                "text/html".as_bytes()
            } else if bytes_eq(e, "png".as_bytes()) {
                "image/png".as_bytes()
            } else if bytes_eq(e, "jpg".as_bytes()) || bytes_eq(e, "jpeg".as_bytes()) {
                "image/jpeg".as_bytes()
            } else if bytes_eq(e, "webm".as_bytes()) {
                "video/webm".as_bytes()
            } else if bytes_eq(e, "mp4".as_bytes()) {
                "video/mp4".as_bytes()
            } else if bytes_eq(e, "txt".as_bytes()) {
                "text/plain".as_bytes()
            } else if bytes_eq(e, "pdf".as_bytes()) {
                "application/pdf".as_bytes()
            } else {
                "application/octet-stream".as_bytes()
            }
        },
    }
}

} // verus!
