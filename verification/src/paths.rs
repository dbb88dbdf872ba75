//! Containing the served path inside the root directory.
//!
//! A canonical filesystem path is held as its components, root-most first,
//! each a sequence of bytes. Canonicalization itself needs the filesystem,
//! so the caller resolves the candidate and hands in the outcome; the
//! sanitizer then keeps the resolved path only when the root is a prefix of
//! it, component by component, substitutes the root for a path that escapes
//! it, and serves nothing for a candidate that resolved to no location.

use crate::bytes::bytes_eq;
use vstd::prelude::*;
use vstd::seq_lib::*;

verus! {

/// A canonical absolute path: its components in order, root-most first,
/// free of `.`, `..` and symbolic links by construction.
pub struct CanonPath {
    /// The path's components, each as bytes.
    pub components: Vec<Vec<u8>>,
}

impl View for CanonPath {
    type V = Seq<Seq<u8>>;

    open spec fn view(&self) -> Seq<Seq<u8>> {
        Seq::new(self.components@.len(), |i: int| self.components@[i]@)
    }
}

impl CanonPath {
    /// Copies the path.
    pub fn duplicate(&self) -> (r: CanonPath)
        ensures
            r@ == self@,
    {
        let n: usize = self.components.len();
        let mut components: Vec<Vec<u8>> = Vec::new();
        let mut i: usize = 0;
        while i < n
            invariant
                n == self.components@.len(),
                i <= n,
                components@.len() == i,
                forall|j: int| 0 <= j < i ==> components@[j]@ == self@[j],
            decreases n - i,
        {
            let mut c: Vec<u8> = Vec::new();
            crate::bytes::push_bytes(&mut c, self.components[i].as_slice());
            assert(c@ =~= self.components@[i as int]@);
            components.push(c);
            i += 1;
        }
        let r = CanonPath { components };
        assert(r@ =~= self@);
        r
    }
}

/// True exactly when every component of `root` opens `p`, in order.
pub fn is_path_prefix(root: &CanonPath, p: &CanonPath) -> (r: bool)
    ensures
        r == root@.is_prefix_of(p@),
{
    let n: usize = root.components.len();
    if n > p.components.len() {
        assert(!root@.is_prefix_of(p@));
        return false;
    }
    let mut i: usize = 0;
    while i < n
        invariant
            n == root.components@.len() <= p.components@.len(),
            i <= n,
            forall|j: int| 0 <= j < i ==> root@[j] == p@[j],
        decreases n - i,
    {
        if !bytes_eq(root.components[i].as_slice(), p.components[i].as_slice()) {
            assert(root@[i as int] != p@[i as int]);
            assert(p@.subrange(0, n as int)[i as int] == p@[i as int]);
            return false;
        }
        i += 1;
    }
    assert(root@ =~= p@.subrange(0, n as int));
    true
}

/// Where a request ends up being served from, and why.
pub enum Sanitized {
    /// The candidate resolved to a path the root contains; it is served.
    Resolved(CanonPath),
    /// The candidate resolved to a path outside the root; the root itself
    /// is served in its place.
    Escaped(CanonPath),
    /// The candidate resolved to nothing on the filesystem; nothing is
    /// served and the answer is a not-found page.
    Unresolved,
}

impl Sanitized {
    /// The path that will be served, when one will be.
    pub open spec fn spec_served(&self) -> Option<Seq<Seq<u8>>> {
        match self {
            Sanitized::Resolved(p) => Some(p@),
            Sanitized::Escaped(r) => Some(r@),
            Sanitized::Unresolved => None,
        }
    }
}

/// Maps a canonicalization outcome to the path that is served. The resolved
/// path is kept exactly when the root is a prefix of it; a path outside the
/// root is replaced by the root itself; a failed resolution serves nothing.
/// Every path that is served therefore has the root as a prefix.
pub fn sanitize_path(root: &CanonPath, resolved: Option<CanonPath>) -> (r: Sanitized)
    ensures
        match resolved {
            Some(p) => if root@.is_prefix_of(p@) {
                r matches Sanitized::Resolved(q) && q@ == p@
            } else {
                r matches Sanitized::Escaped(q) && q@ == root@
            },
            None => r is Unresolved,
        },
        match r.spec_served() {
            Some(served) => root@.is_prefix_of(served),
            None => resolved is None,
        },
{
    proof {
        assert(root@.subrange(0, root@.len() as int) =~= root@);
    }
    match resolved {
        Some(p) => {
            if is_path_prefix(root, &p) {
                Sanitized::Resolved(p)
            } else {
                Sanitized::Escaped(root.duplicate())
            }
        },
        None => Sanitized::Unresolved,
    }
}

/// The traversal-containment law: whenever the sanitizer lets a path be
/// served, that path has the root as a prefix, and a candidate that
/// resolved outside the root is served as exactly the root.
pub proof fn lemma_traversal_containment(root: CanonPath, resolved: Option<CanonPath>, r: Sanitized)
    requires
        match resolved {
            Some(p) => if root@.is_prefix_of(p@) {
                r matches Sanitized::Resolved(q) && q@ == p@
            } else {
                r matches Sanitized::Escaped(q) && q@ == root@
            },
            None => r is Unresolved,
        },
    ensures
        match r.spec_served() {
            Some(served) => root@.is_prefix_of(served),
            None => resolved is None,
        },
        match resolved {
            Some(p) => !root@.is_prefix_of(p@) ==> r.spec_served() == Some(root@),
            None => r.spec_served() is None,
        },
{
    assert(root@.is_prefix_of(root@)) by {
        assert(root@.subrange(0, root@.len() as int) =~= root@);
    }
}

} // verus!
