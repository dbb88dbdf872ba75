//! Percent-encoding and percent-decoding of bytes.
//!
//! Decoding turns every `%` followed by two hexadecimal digits into the byte
//! they denote and leaves everything else alone. Encoding keeps the bytes of
//! the WHATWG component percent-encode set's complement (ASCII letters,
//! digits, and `! ' ( ) * - . _ ~`) and writes every other byte as `%` and
//! two uppercase hexadecimal digits.

use vstd::prelude::*;

verus! {

/// True for the ASCII bytes that denote a hexadecimal digit.
pub open spec fn spec_is_hex_digit(b: u8) -> bool {
    (48 <= b <= 57) || (65 <= b <= 70) || (97 <= b <= 102)
}

/// The value of a hexadecimal digit byte.
pub open spec fn spec_hex_val(b: u8) -> u8
    recommends
        spec_is_hex_digit(b),
{
    if 48 <= b <= 57 {
        (b - 48) as u8
    } else if 65 <= b <= 70 {
        (b - 55) as u8
    } else {
        (b - 87) as u8
    }
}

/// The uppercase hexadecimal digit byte for a value below sixteen.
pub open spec fn spec_hex_digit(v: u8) -> u8
    recommends
        v < 16,
{
    if v < 10 {
        (48 + v) as u8
    } else {
        (55 + v) as u8
    }
}

/// Percent-decoding: each `%` followed by two hexadecimal digits becomes the
/// byte they denote; any other byte, a lone `%` included, stays itself.
pub open spec fn spec_percent_decode(s: Seq<u8>) -> Seq<u8>
    decreases s.len(),
{
    if s.len() == 0 {
        Seq::empty()
    } else if s[0] == 37 && s.len() >= 3 && spec_is_hex_digit(s[1]) && spec_is_hex_digit(s[2]) {
        seq![(spec_hex_val(s[1]) * 16 + spec_hex_val(s[2])) as u8] + spec_percent_decode(s.skip(3))
    } else {
        seq![s[0]] + spec_percent_decode(s.skip(1))
    }
}

/// The bytes that component percent-encoding leaves unescaped: ASCII letters
/// and digits, and `! ' ( ) * - . _ ~`.
pub open spec fn spec_keeps(b: u8) -> bool {
    (48 <= b <= 57) || (65 <= b <= 90) || (97 <= b <= 122) || b == 33 || (39 <= b <= 42) || b == 45
        || b == 46 || b == 95 || b == 126
}

/// Component percent-encoding: a kept byte stays itself; any other byte
/// becomes `%` and its two uppercase hexadecimal digits.
pub open spec fn spec_percent_encode(s: Seq<u8>) -> Seq<u8>
    decreases s.len(),
{
    if s.len() == 0 {
        Seq::empty()
    } else {
        (if spec_keeps(s[0]) {
            seq![s[0]]
        } else {
            seq![37u8, spec_hex_digit(s[0] / 16), spec_hex_digit(s[0] % 16)]
        }) + spec_percent_encode(s.skip(1))
    }
}

/// True exactly when `b` denotes a hexadecimal digit.
pub fn is_hex_digit(b: u8) -> (r: bool)
    ensures
        r == spec_is_hex_digit(b),
{
    (48 <= b && b <= 57) || (65 <= b && b <= 70) || (97 <= b && b <= 102)
}

/// The value of a hexadecimal digit byte.
pub fn hex_val(b: u8) -> (r: u8)
    requires
        spec_is_hex_digit(b),
    ensures
        r == spec_hex_val(b),
        r < 16,
{
    if 48 <= b && b <= 57 {
        b - 48
    } else if 65 <= b && b <= 70 {
        b - 55
    } else {
        b - 87
    }
}

/// Decodes every percent escape in `s`, matching `spec_percent_decode`.
pub fn percent_decode(s: &[u8]) -> (r: Vec<u8>)
    ensures
        r@ == spec_percent_decode(s@),
{
    let n: usize = s.len();
    let mut r: Vec<u8> = Vec::new();
    let mut i: usize = 0;
    proof {
        assert(s@.skip(0) =~= s@);
        assert(r@ + spec_percent_decode(s@) =~= spec_percent_decode(s@));
    }
    while i < n
        invariant
            n == s@.len(),
            i <= n,
            spec_percent_decode(s@) == r@ + spec_percent_decode(s@.skip(i as int)),
        decreases n - i,
    {
        let ghost pre = r@;
        let ghost tail = s@.skip(i as int);
        if s[i] == 37 && n - i >= 3 && is_hex_digit(s[i + 1]) && is_hex_digit(s[i + 2]) {
            let b = hex_val(s[i + 1]) * 16 + hex_val(s[i + 2]);
            r.push(b);
            proof {
                assert(tail[0] == s@[i as int]);
                assert(tail[1] == s@[i + 1]);
                assert(tail[2] == s@[i + 2]);
                assert(tail.skip(3) =~= s@.skip(i + 3));
                assert(spec_percent_decode(tail) == seq![b] + spec_percent_decode(
                    s@.skip(i + 3),
                ));
                assert(pre + (seq![b] + spec_percent_decode(s@.skip(i + 3))) =~= (pre + seq![b])
                    + spec_percent_decode(s@.skip(i + 3)));
            }
            i += 3;
        } else {
            let b = s[i];
            r.push(b);
            proof {
                assert(tail[0] == s@[i as int]);
                assert(tail.skip(1) =~= s@.skip(i + 1));
                assert(spec_percent_decode(tail) == seq![b] + spec_percent_decode(
                    s@.skip(i + 1),
                ));
                assert(pre + (seq![b] + spec_percent_decode(s@.skip(i + 1))) =~= (pre + seq![b])
                    + spec_percent_decode(s@.skip(i + 1)));
            }
            i += 1;
        }
    }
    proof {
        assert(s@.skip(n as int) =~= Seq::<u8>::empty());
        assert(r@ + Seq::<u8>::empty() =~= r@);
    }
    r
}

/// Component-encodes `s`, matching `spec_percent_encode`.
pub fn percent_encode_component(s: &[u8]) -> (r: Vec<u8>)
    ensures
        r@ == spec_percent_encode(s@),
{
    let n: usize = s.len();
    let mut r: Vec<u8> = Vec::new();
    let mut i: usize = 0;
    proof {
        assert(s@.skip(0) =~= s@);
        assert(r@ + spec_percent_encode(s@) =~= spec_percent_encode(s@));
    }
    while i < n
        invariant
            n == s@.len(),
            i <= n,
            spec_percent_encode(s@) == r@ + spec_percent_encode(s@.skip(i as int)),
        decreases n - i,
    {
        let ghost pre = r@;
        let ghost tail = s@.skip(i as int);
        let b = s[i];
        proof {
            assert(tail[0] == s@[i as int]);
            assert(tail.skip(1) =~= s@.skip(i + 1));
        }
        let keep = (48 <= b && b <= 57) || (65 <= b && b <= 90) || (97 <= b && b <= 122) || b == 33
            || (39 <= b && b <= 42) || b == 45 || b == 46 || b == 95 || b == 126;
        if keep {
            r.push(b);
            proof {
                assert(pre + (seq![b] + spec_percent_encode(s@.skip(i + 1))) =~= (pre + seq![b])
                    + spec_percent_encode(s@.skip(i + 1)));
            }
        } else {
            let hi = b / 16;
            let lo = b % 16;
            r.push(37);
            r.push(if hi < 10 { 48 + hi } else { 55 + hi });
            r.push(if lo < 10 { 48 + lo } else { 55 + lo });
            proof {
                let piece = seq![37u8, spec_hex_digit(hi), spec_hex_digit(lo)];
                assert(pre + (piece + spec_percent_encode(s@.skip(i + 1))) =~= (pre + piece)
                    + spec_percent_encode(s@.skip(i + 1)));
                assert(pre.push(37u8).push(spec_hex_digit(hi)).push(spec_hex_digit(lo)) =~= pre
                    + piece);
            }
        }
        i += 1;
    }
    proof {
        assert(s@.skip(n as int) =~= Seq::<u8>::empty());
        assert(r@ + Seq::<u8>::empty() =~= r@);
    }
    r
}

/// A component encoding never contains a space: kept bytes are never the
/// space byte, and escapes consist of `%` and hexadecimal digit bytes.
pub proof fn lemma_encode_no_space(s: Seq<u8>)
    ensures
        forall|i: int|
            0 <= i < spec_percent_encode(s).len() ==> #[trigger] spec_percent_encode(s)[i] != 32,
    decreases s.len(),
{
    if s.len() > 0 {
        lemma_encode_no_space(s.skip(1));
        let head = if spec_keeps(s[0]) {
            seq![s[0]]
        } else {
            seq![37u8, spec_hex_digit(s[0] / 16), spec_hex_digit(s[0] % 16)]
        };
        let rest = spec_percent_encode(s.skip(1));
        assert(spec_percent_encode(s) == head + rest);
        assert forall|i: int|
            0 <= i < spec_percent_encode(s).len() implies #[trigger] spec_percent_encode(s)[i]
            != 32 by {
            if i < head.len() {
                assert(spec_percent_encode(s)[i] == head[i]);
            } else {
                assert(spec_percent_encode(s)[i] == rest[i - head.len()]);
            }
        }
    }
}

/// Decoding inverts encoding: percent-decoding the component encoding of any
/// byte sequence gives back that sequence.
pub proof fn lemma_percent_round_trip(s: Seq<u8>)
    ensures
        spec_percent_decode(spec_percent_encode(s)) == s,
    decreases s.len(),
{
    if s.len() == 0 {
        assert(spec_percent_encode(s).len() == 0);
        assert(spec_percent_decode(spec_percent_encode(s)) =~= s);
    } else {
        lemma_percent_round_trip(s.skip(1));
        let e = spec_percent_encode(s);
        let rest = spec_percent_encode(s.skip(1));
        if spec_keeps(s[0]) {
            assert(e == seq![s[0]] + rest);
            assert(e[0] == s[0]);
            assert(e[0] != 37);
            assert(e.skip(1) =~= rest);
            assert(spec_percent_decode(e) == seq![s[0]] + spec_percent_decode(rest));
            assert(seq![s[0]] + s.skip(1) =~= s);
        } else {
            let hi = spec_hex_digit(s[0] / 16);
            let lo = spec_hex_digit(s[0] % 16);
            let piece = seq![37u8, hi, lo];
            assert(e == piece + rest);
            assert(e[0] == 37 && e.len() >= 3);
            assert(e[1] == hi && e[2] == lo);
            assert(spec_is_hex_digit(hi) && spec_is_hex_digit(lo));
            assert(spec_hex_val(hi) == s[0] / 16);
            assert(spec_hex_val(lo) == s[0] % 16);
            assert((spec_hex_val(e[1]) * 16 + spec_hex_val(e[2])) as u8 == s[0]);
            assert(e.skip(3) =~= rest);
            assert(spec_percent_decode(e) == seq![s[0]] + spec_percent_decode(rest));
            assert(seq![s[0]] + s.skip(1) =~= s);
        }
    }
}

} // verus!
