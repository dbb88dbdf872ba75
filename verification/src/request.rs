//! Extracting the requested path from a raw HTTP request.
//!
//! Only the request line matters: the percent-encoded target sits between
//! the first `GET ` and the first ` HTTP/1.1` in the raw bytes. When either
//! marker is missing, or the target's bounds are inverted, the request falls
//! back to the root; any other method therefore falls back as well. The
//! target is percent-decoded and its leading slashes are stripped before it
//! is taken relative to the root.

use crate::bytes::{copy_range, find_sub, lemma_find_first_at, spec_find};
use crate::codec::{
    lemma_encode_no_space, lemma_percent_round_trip, percent_decode, spec_percent_decode,
    spec_percent_encode,
};
use vstd::prelude::*;

verus! {

/// The bytes of `GET `, the marker that opens the request target.
pub open spec fn spec_get_marker() -> Seq<u8> {
    seq![71u8, 69u8, 84u8, 32u8]
}

/// The bytes of ` HTTP/1.1`, the marker that closes the request target.
pub open spec fn spec_version_marker() -> Seq<u8> {
    seq![32u8, 72u8, 84u8, 84u8, 80u8, 47u8, 49u8, 46u8, 49u8]
}

/// The marker `GET ` as a vector.
pub fn get_marker() -> (r: Vec<u8>)
    ensures
        r@ == spec_get_marker(),
{
    let mut r: Vec<u8> = Vec::new();
    r.push(71);
    r.push(69);
    r.push(84);
    r.push(32);
    assert(r@ =~= spec_get_marker());
    r
}

/// The marker ` HTTP/1.1` as a vector.
pub fn version_marker() -> (r: Vec<u8>)
    ensures
        r@ == spec_version_marker(),
{
    let mut r: Vec<u8> = Vec::new();
    r.push(32);
    r.push(72);
    r.push(84);
    r.push(84);
    r.push(80);
    r.push(47);
    r.push(49);
    r.push(46);
    r.push(49);
    assert(r@ =~= spec_version_marker());
    r
}

/// `s` without its leading `/` bytes.
pub open spec fn spec_trim_slashes(s: Seq<u8>) -> Seq<u8>
    decreases s.len(),
{
    if s.len() > 0 && s[0] == 47 {
        spec_trim_slashes(s.skip(1))
    } else {
        s
    }
}

/// The percent-encoded target of the request line: the bytes between the
/// first `GET ` and the first ` HTTP/1.1`, none when a marker is missing or
/// the markers are out of order.
pub open spec fn spec_raw_target(req: Seq<u8>) -> Option<Seq<u8>> {
    match spec_find(req, spec_get_marker()) {
        None => None,
        Some(g) => match spec_find(req, spec_version_marker()) {
            None => None,
            Some(h) => if g + 4 <= h {
                Some(req.subrange(g + 4, h))
            } else {
                None
            },
        },
    }
}

/// The decoded path a request asks for, relative to the root: the raw
/// target percent-decoded and stripped of leading slashes.
pub open spec fn spec_requested(req: Seq<u8>) -> Option<Seq<u8>> {
    match spec_raw_target(req) {
        None => None,
        Some(raw) => Some(spec_trim_slashes(spec_percent_decode(raw))),
    }
}

/// What a request resolves to before the filesystem is consulted: a path
/// relative to the root, or the root itself when the request line cannot be
/// read.
pub enum RequestTarget {
    /// The decoded request target, relative to the root.
    Relative(Vec<u8>),
    /// The request line had no readable target; the root is served.
    RootFallback,
}

/// Strips leading `/` bytes, matching `spec_trim_slashes`.
pub fn trim_leading_slashes(s: &[u8]) -> (r: Vec<u8>)
    ensures
        r@ == spec_trim_slashes(s@),
{
    let n: usize = s.len();
    let mut i: usize = 0;
    proof {
        assert(s@.skip(0) =~= s@);
    }
    while i < n && s[i] == 47
        invariant
            n == s@.len(),
            i <= n,
            spec_trim_slashes(s@) == spec_trim_slashes(s@.skip(i as int)),
        decreases n - i,
    {
        proof {
            let tail = s@.skip(i as int);
            assert(tail[0] == s@[i as int]);
            assert(tail.skip(1) =~= s@.skip(i + 1));
        }
        i += 1;
    }
    proof {
        let tail = s@.skip(i as int);
        if i < n {
            assert(tail[0] == s@[i as int]);
            assert(spec_trim_slashes(tail) == tail);
        } else {
            assert(tail.len() == 0);
        }
        assert(s@.subrange(i as int, n as int) =~= tail);
    }
    copy_range(s, i, n)
}

/// The listing-link round trip: percent-encoding a filename into a link and
/// requesting that link gives back exactly that filename. For any name free
/// of slashes, a request line of `GET /`, the name's component encoding and
/// ` HTTP/1.1` resolves to the name itself.
pub proof fn lemma_link_round_trip(name: Seq<u8>)
    requires
        forall|i: int| 0 <= i < name.len() ==> name[i] != 47,
    ensures
        spec_requested(
            spec_get_marker() + seq![47u8] + spec_percent_encode(name) + spec_version_marker(),
        ) == Some(name),
{
    let enc = spec_percent_encode(name);
    let el = enc.len() as int;
    let a = spec_get_marker() + seq![47u8];
    let b = a + enc;
    let req = b + spec_version_marker();
    let ver = spec_version_marker();
    assert(req == spec_get_marker() + seq![47u8] + enc + spec_version_marker());
    assert(a.len() == 5 && b.len() == 5 + el && req.len() == 14 + el);
    assert(req[0] == 71 && req[1] == 69 && req[2] == 84 && req[3] == 32 && req[4] == 47);

    // The opening marker stands at the very start.
    assert(req.subrange(0, 4) =~= spec_get_marker());
    assert(spec_find(req, spec_get_marker()) == Some(0int));

    // The closing marker first occurs right after the encoded name: every
    // earlier start either misses its leading space or, at the request
    // line's own space, runs into `/` instead of `H`.
    let h = 5 + el;
    lemma_encode_no_space(name);
    assert(forall|i: int| 5 <= i < 5 + el ==> req[i] == enc[i - 5]);
    assert(req.subrange(h, h + ver.len()) =~= ver);
    assert forall|j: int| 0 <= j < h implies #[trigger] req.subrange(j, j + ver.len()) != ver by {
        let cand = req.subrange(j, j + ver.len());
        assert(cand[0] == req[j]);
        if j == 3 {
            assert(cand[1] == req[4]);
            assert(cand[1] != ver[1]);
        } else {
            assert(req[j] != 32);
            assert(cand[0] != ver[0]);
        }
    }
    lemma_find_first_at(req, ver, h);
    assert(spec_find(req, ver) == Some(h));

    // The raw target is `/` followed by the encoded name.
    assert(spec_raw_target(req) == Some(req.subrange(4, h)));
    let raw = seq![47u8] + enc;
    assert(req.subrange(4, h) =~= raw);

    // Decoding gives `/` and the name back; trimming removes the slash.
    lemma_percent_round_trip(name);
    assert(raw[0] == 47 && raw[0] != 37);
    assert(raw.skip(1) =~= enc);
    assert(spec_percent_decode(raw) == seq![47u8] + name);
    let d = seq![47u8] + name;
    assert(d[0] == 47);
    assert(d.skip(1) =~= name);
    if name.len() > 0 {
        assert(name[0] != 47);
    }
    assert(spec_trim_slashes(name) == name);
    assert(spec_trim_slashes(d) == name);
}

/// Reads the request target out of the raw request bytes, matching
/// `spec_requested`: the root fallback exactly when no target can be read.
pub fn get_requested_path(request: &[u8]) -> (t: RequestTarget)
    ensures
        match spec_requested(request@) {
            Some(p) => t matches RequestTarget::Relative(v) && v@ == p,
            None => t is RootFallback,
        },
{
    let rlen: usize = request.len();
    let g = match find_sub(request, get_marker().as_slice()) {
        None => {
            return RequestTarget::RootFallback;
        },
        Some(g) => g,
    };
    let h = match find_sub(request, version_marker().as_slice()) {
        None => {
            return RequestTarget::RootFallback;
        },
        Some(h) => h,
    };
    if g + 4 > h {
        return RequestTarget::RootFallback;
    }
    let raw = copy_range(request, g + 4, h);
    let decoded = percent_decode(raw.as_slice());
    let trimmed = trim_leading_slashes(decoded.as_slice());
    RequestTarget::Relative(trimmed)
}

} // verus!
