//! Small verified helpers on byte slices and byte vectors.

use vstd::prelude::*;

verus! {

/// True exactly when the two slices hold the same bytes.
pub fn bytes_eq(a: &[u8], b: &[u8]) -> (r: bool)
    ensures
        r == (a@ == b@),
{
    if a.len() != b.len() {
        assert(a@ != b@) by {
            assert(a@.len() != b@.len());
        }
        return false;
    }
    let n: usize = a.len();
    let mut i: usize = 0;
    while i < n
        invariant
            n == a@.len(),
            n == b@.len(),
            i <= n,
            forall|j: int| 0 <= j < i ==> a@[j] == b@[j],
        decreases n - i,
    {
        if a[i] != b[i] {
            return false;
        }
        i += 1;
    }
    assert(a@ =~= b@);
    true
}

/// Appends every byte of `src` to `dst`, in order.
pub fn push_bytes(dst: &mut Vec<u8>, src: &[u8])
    ensures
        final(dst)@ == old(dst)@ + src@,
{
    let n: usize = src.len();
    let mut i: usize = 0;
    while i < n
        invariant
            n == src@.len(),
            i <= n,
            dst@ == old(dst)@ + src@.subrange(0, i as int),
        decreases n - i,
    {
        let b = src[i];
        dst.push(b);
        assert(old(dst)@ + src@.subrange(0, i as int) + seq![src@[i as int]] =~= old(dst)@
            + src@.subrange(0, i + 1 as int));
        i += 1;
    }
    assert(src@.subrange(0, n as int) =~= src@);
}

/// Copies the bytes of `s` in positions `from..to` into a fresh vector.
pub fn copy_range(s: &[u8], from: usize, to: usize) -> (r: Vec<u8>)
    requires
        from <= to <= s@.len(),
    ensures
        r@ == s@.subrange(from as int, to as int),
{
    let mut r: Vec<u8> = Vec::new();
    let mut i: usize = from;
    while i < to
        invariant
            from <= i <= to <= s@.len(),
            r@ == s@.subrange(from as int, i as int),
        decreases to - i,
    {
        let b = s[i];
        r.push(b);
        assert(s@.subrange(from as int, i as int) + seq![s@[i as int]] =~= s@.subrange(
            from as int,
            i + 1 as int,
        ));
        i += 1;
    }
    r
}

/// The index of the first occurrence of `pat` in `s`, if any.
pub open spec fn spec_find(s: Seq<u8>, pat: Seq<u8>) -> Option<int>
    decreases s.len(),
{
    if pat.len() > s.len() {
        None
    } else if s.subrange(0, pat.len() as int) == pat {
        Some(0int)
    } else if s.len() == 0 {
        None
    } else {
        match spec_find(s.skip(1), pat) {
            None => None,
            Some(i) => Some(i + 1),
        }
    }
}

/// `spec_find` answers the first position at which `pat` occurs: a match at
/// `k` with none before it makes the result exactly `k`.
pub proof fn lemma_find_first_at(s: Seq<u8>, pat: Seq<u8>, k: int)
    requires
        0 <= k,
        k + pat.len() <= s.len(),
        s.subrange(k, k + pat.len()) == pat,
        forall|j: int| 0 <= j < k ==> #[trigger] s.subrange(j, j + pat.len()) != pat,
    ensures
        spec_find(s, pat) == Some(k),
    decreases k,
{
    if k == 0 {
    } else {
        assert(s.subrange(0, 0int + pat.len()) != pat);
        assert(s.subrange(0, pat.len() as int) != pat);
        let t = s.skip(1);
        assert(t.subrange(k - 1, k - 1 + pat.len()) =~= s.subrange(k, k + pat.len()));
        assert forall|j: int| 0 <= j < k - 1 implies #[trigger] t.subrange(j, j + pat.len()) != pat by {
            assert(t.subrange(j, j + pat.len()) =~= s.subrange(j + 1, j + 1 + pat.len()));
        }
        lemma_find_first_at(t, pat, k - 1);
    }
}

/// True exactly when `s` begins with the bytes of `pat`.
pub fn starts_with(s: &[u8], pat: &[u8]) -> (r: bool)
    ensures
        r == (pat@.len() <= s@.len() && s@.subrange(0, pat@.len() as int) == pat@),
{
    if pat.len() > s.len() {
        return false;
    }
    let n: usize = pat.len();
    let mut i: usize = 0;
    while i < n
        invariant
            n == pat@.len() <= s@.len(),
            i <= n,
            forall|j: int| 0 <= j < i ==> s@[j] == pat@[j],
        decreases n - i,
    {
        if s[i] != pat[i] {
            assert(s@.subrange(0, n as int)[i as int] != pat@[i as int]);
            return false;
        }
        i += 1;
    }
    assert(s@.subrange(0, n as int) =~= pat@);
    true
}

/// Finds the first occurrence of `pat` in `s`, matching `spec_find`.
pub fn find_sub(s: &[u8], pat: &[u8]) -> (r: Option<usize>)
    ensures
        match r {
            Some(i) => spec_find(s@, pat@) == Some(i as int) && i + pat@.len() <= s@.len(),
            None => spec_find(s@, pat@) is None,
        },
    decreases s@.len(),
{
    if pat.len() > s.len() {
        return None;
    }
    if starts_with(s, pat) {
        return Some(0);
    }
    assert(s@.len() >= 1) by {
        if s@.len() == 0 {
            assert(s@.subrange(0, pat@.len() as int) =~= pat@);
        }
    }
    let sub = &s[1..s.len()];
    proof {
        assert(sub@ =~= s@.skip(1));
    }
    match find_sub(sub, pat) {
        None => None,
        Some(i) => Some(i + 1),
    }
}

/// The index of the last occurrence of the byte `b` in `s`, if any.
pub open spec fn spec_rfind(s: Seq<u8>, b: u8) -> Option<int>
    decreases s.len(),
{
    if s.len() == 0 {
        None
    } else if s[s.len() - 1] == b {
        Some(s.len() - 1)
    } else {
        spec_rfind(s.drop_last(), b)
    }
}

/// Finds the last occurrence of the byte `b` in `s`, matching `spec_rfind`.
pub fn rfind_byte(s: &[u8], b: u8) -> (r: Option<usize>)
    ensures
        match r {
            Some(i) => spec_rfind(s@, b) == Some(i as int) && i < s@.len(),
            None => spec_rfind(s@, b) is None,
        },
{
    let mut i: usize = s.len();
    proof {
        assert(s@.take(s@.len() as int) =~= s@);
    }
    while i > 0
        invariant
            i <= s@.len(),
            spec_rfind(s@, b) == spec_rfind(s@.take(i as int), b),
        decreases i,
    {
        let ghost pre = s@.take(i as int);
        proof {
            assert(pre[i - 1] == s@[i - 1]);
        }
        if s[i - 1] == b {
            return Some(i - 1);
        }
        proof {
            assert(pre.drop_last() =~= s@.take(i - 1));
        }
        i -= 1;
    }
    proof {
        assert(s@.take(0).len() == 0);
    }
    None
}

/// The decimal digits of `n`, most significant first, as ASCII bytes.
pub open spec fn spec_decimal(n: nat) -> Seq<u8>
    decreases n,
{
    if n < 10 {
        seq![(48 + n) as u8]
    } else {
        spec_decimal(n / 10) + seq![(48 + n % 10) as u8]
    }
}

/// Renders `n` in decimal, matching `spec_decimal`.
pub fn u64_to_decimal(n: u64) -> (r: Vec<u8>)
    ensures
        r@ == spec_decimal(n as nat),
    decreases n,
{
    if n < 10 {
        let mut r: Vec<u8> = Vec::new();
        r.push(48 + (n as u8));
        assert(r@ =~= spec_decimal(n as nat));
        r
    } else {
        let mut r = u64_to_decimal(n / 10);
        r.push(48 + ((n % 10) as u8));
        assert(r@ =~= spec_decimal(n as nat));
        r
    }
}

} // verus!
