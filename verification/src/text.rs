//! Byte-level text helpers shared by the parser, the dispatcher and the
//! response composer: ASCII classification, case folding, decimal rendering
//! and the lenient unsigned-integer reading used for `Content-Length`.

use vstd::prelude::*;

verus! {

broadcast use vstd::string::is_ascii_spec_bytes;

/// Whether every byte is ASCII.
pub open spec fn all_ascii(s: Seq<u8>) -> bool {
    forall|i: int| 0 <= i < s.len() ==> #[trigger] s[i] < 128
}

/// The views of a sequence of byte vectors.
pub open spec fn seq_views(s: Seq<Vec<u8>>) -> Seq<Seq<u8>> {
    s.map_values(|v: Vec<u8>| v@)
}

/// The views of a sequence of byte-vector pairs.
pub open spec fn pair_views(s: Seq<(Vec<u8>, Vec<u8>)>) -> Seq<(Seq<u8>, Seq<u8>)> {
    s.map_values(|p: (Vec<u8>, Vec<u8>)| (p.0@, p.1@))
}

/// ASCII whitespace as the request-line tokenizer sees it: space and the
/// control characters tab through carriage return.
pub open spec fn is_ws(b: u8) -> bool {
    b == 32 || (9 <= b && b <= 13)
}

/// Lower-case folding for ASCII letters; other bytes are unchanged.
pub open spec fn lower(b: u8) -> u8 {
    if 65 <= b && b <= 90 {
        (b + 32) as u8
    } else {
        b
    }
}

/// Two byte sequences are equal up to ASCII case.
pub open spec fn eq_icase(a: Seq<u8>, b: Seq<u8>) -> bool {
    a.len() == b.len() && (forall|i: int| 0 <= i < a.len() ==> lower(a[i]) == lower(#[trigger] b[i]))
}

/// The bytes of an ASCII string literal, seen as a byte sequence.
pub open spec fn ascii_seq(s: &str) -> Seq<u8> {
    Seq::new(s@.len(), |i: int| s@[i] as u8)
}

/// Materializes an ASCII string as a byte vector.
pub fn ascii_bytes(s: &str) -> (r: Vec<u8>)
    requires
        s.is_ascii(),
    ensures
        r@ == ascii_seq(s),
{
    let r = s.as_bytes_vec();
    proof {
        assert(r@ =~= ascii_seq(s));
    }
    r
}

/// Byte-for-byte equality of two vectors.
pub fn bytes_eq(a: &Vec<u8>, b: &Vec<u8>) -> (r: bool)
    ensures
        r == (a@ == b@),
{
    if a.len() != b.len() {
        proof {
            assert(a@ != b@);
        }
        return false;
    }
    let mut i: usize = 0;
    while i < a.len()
        invariant
            0 <= i <= a.len(),
            a@.len() == b@.len(),
            forall|j: int| 0 <= j < i ==> a@[j] == b@[j],
        decreases a.len() - i,
    {
        if a[i] != b[i] {
            return false;
        }
        i = i + 1;
    }
    proof {
        assert(a@ =~= b@);
    }
    true
}

/// Equality of two byte vectors up to ASCII case.
pub fn bytes_eq_icase(a: &Vec<u8>, b: &Vec<u8>) -> (r: bool)
    ensures
        r == eq_icase(a@, b@),
{
    if a.len() != b.len() {
        return false;
    }
    let mut i: usize = 0;
    while i < a.len()
        invariant
            0 <= i <= a.len(),
            a@.len() == b@.len(),
            forall|j: int| 0 <= j < i ==> lower(a@[j]) == lower(#[trigger] b@[j]),
        decreases a.len() - i,
    {
        let mut x = a[i];
        let mut y = b[i];
        if 65 <= x && x <= 90 {
            x = x + 32;
        }
        if 65 <= y && y <= 90 {
            y = y + 32;
        }
        if x != y {
            return false;
        }
        i = i + 1;
    }
    true
}

/// Whether `p` is a prefix of `a`.
pub fn bytes_start_with(a: &Vec<u8>, p: &Vec<u8>) -> (r: bool)
    ensures
        r == p@.is_prefix_of(a@),
{
    if p.len() > a.len() {
        return false;
    }
    let mut i: usize = 0;
    while i < p.len()
        invariant
            0 <= i <= p.len(),
            p@.len() <= a@.len(),
            forall|j: int| 0 <= j < i ==> a@[j] == p@[j],
        decreases p.len() - i,
    {
        if a[i] != p[i] {
            proof {
                assert(!p@.is_prefix_of(a@));
            }
            return false;
        }
        i = i + 1;
    }
    proof {
        assert(p@ =~= a@.subrange(0, p@.len() as int));
    }
    true
}

/// Whether `b` is ASCII whitespace; the executable twin of [`is_ws`].
pub fn is_ws_byte(b: u8) -> (r: bool)
    ensures
        r == is_ws(b),
{
    b == 32 || (9 <= b && b <= 13)
}

/// Copies the bytes of `s` between `from` (inclusive) and `to` (exclusive).
pub fn sub_vec(s: &Vec<u8>, from: usize, to: usize) -> (r: Vec<u8>)
    requires
        from <= to <= s.len(),
    ensures
        r@ == s@.subrange(from as int, to as int),
{
    let mut r: Vec<u8> = Vec::new();
    let mut i: usize = from;
    while i < to
        invariant
            from <= i <= to <= s@.len(),
            r@ == s@.subrange(from as int, i as int),
        decreases to - i,
    {
        r.push(s[i]);
        proof {
            assert(r@ =~= s@.subrange(from as int, i + 1));
        }
        i = i + 1;
    }
    r
}

/// Appends the bytes of `src` to `dst`.
pub fn append_bytes(dst: &mut Vec<u8>, src: &Vec<u8>)
    ensures
        final(dst)@ == old(dst)@ + src@,
{
    let mut i: usize = 0;
    proof {
        assert(dst@ =~= old(dst)@ + src@.take(0));
    }
    while i < src.len()
        invariant
            i <= src@.len(),
            dst@ == old(dst)@ + src@.take(i as int),
        decreases src.len() - i,
    {
        dst.push(src[i]);
        proof {
            assert(old(dst)@ + src@.take(i as int) + seq![src@[i as int]] =~= old(dst)@
                + src@.take(i + 1));
        }
        i = i + 1;
    }
    proof {
        assert(src@.take(src@.len() as int) =~= src@);
    }
}

/// The decimal digits of `n`, most significant first.
pub open spec fn spec_dec(n: nat) -> Seq<u8>
    decreases n,
{
    if n < 10 {
        seq![(48 + n) as u8]
    } else {
        spec_dec(n / 10).push((48 + n % 10) as u8)
    }
}

/// Renders `n` in decimal.
pub fn dec_bytes(n: usize) -> (r: Vec<u8>)
    ensures
        r@ == spec_dec(n as nat),
    decreases n,
{
    if n < 10 {
        let mut r: Vec<u8> = Vec::new();
        r.push(48 + (n as u8));
        proof {
            assert(r@ =~= spec_dec(n as nat));
        }
        r
    } else {
        let mut r = dec_bytes(n / 10);
        r.push(48 + ((n % 10) as u8));
        r
    }
}

/// The value of a decimal digit byte; non-digits count as zero.
pub open spec fn digit_val(b: u8) -> nat {
    if 48 <= b && b <= 57 {
        (b - 48) as nat
    } else {
        0
    }
}

/// Whether every byte of `s` is a decimal digit.
pub open spec fn all_digits(s: Seq<u8>) -> bool {
    forall|i: int| 0 <= i < s.len() ==> 48 <= #[trigger] s[i] && s[i] <= 57
}

/// The number denoted by a digit string, most significant digit first.
pub open spec fn dec_val(s: Seq<u8>) -> nat
    decreases s.len(),
{
    if s.len() == 0 {
        0
    } else {
        dec_val(s.drop_last()) * 10 + digit_val(s.last())
    }
}

/// The digit part of an unsigned-integer literal: an optional leading `+`
/// sign is dropped.
pub open spec fn unsigned_digits(s: Seq<u8>) -> Seq<u8> {
    if s.len() > 0 && s[0] == 43 {
        s.skip(1)
    } else {
        s
    }
}

/// The value the lenient reader assigns to `s`: the denoted number when `s`
/// is a well-formed unsigned integer that fits in `usize`, and zero on any
/// other input.
pub open spec fn lenient_usize(s: Seq<u8>) -> nat {
    let d = unsigned_digits(s);
    if d.len() > 0 && all_digits(d) && dec_val(d) <= usize::MAX as nat {
        dec_val(d)
    } else {
        0
    }
}

/// A digit string is worth at least any of its prefixes.
proof fn lemma_dec_val_prefix_grows(s: Seq<u8>, i: int)
    requires
        0 <= i <= s.len(),
    ensures
        dec_val(s.take(i)) <= dec_val(s),
    decreases s.len() - i,
{
    if i < s.len() {
        lemma_dec_val_prefix_grows(s, i + 1);
        assert(s.take(i + 1).drop_last() =~= s.take(i));
        assert(dec_val(s.take(i)) <= dec_val(s.take(i + 1)));
    } else {
        assert(s.take(i) =~= s);
    }
}

/// Reads an unsigned decimal integer, tolerating a leading `+`; any
/// malformed or oversized input is read as zero, never as an error.
pub fn parse_usize_lenient(s: &Vec<u8>) -> (r: usize)
    ensures
        r as nat == lenient_usize(s@),
{
    let ghost d: Seq<u8> = unsigned_digits(s@);
    let start: usize = if s.len() > 0 && s[0] == 43 {
        1
    } else {
        0
    };
    proof {
        assert(d =~= s@.skip(start as int));
    }
    if s.len() == start {
        return 0;
    }
    let mut acc: usize = 0;
    let mut i: usize = start;
    while i < s.len()
        invariant
            start <= i <= s@.len(),
            d == unsigned_digits(s@),
            d == s@.skip(start as int),
            d.len() == s@.len() - start,
            all_digits(d.take(i - start)),
            acc as nat == dec_val(d.take(i - start)),
        decreases s.len() - i,
    {
        let b = s[i];
        if b < 48 || b > 57 {
            proof {
                assert(d[i - start] == b);
                assert(!all_digits(d));
                assert(lenient_usize(s@) == 0);
            }
            return 0;
        }
        let dv: usize = (b - 48) as usize;
        let wide: u128 = (acc as u128) * 10 + (dv as u128);
        proof {
            assert(d.take(i - start + 1).drop_last() =~= d.take(i - start));
            assert(dec_val(d.take(i - start + 1)) == dec_val(d.take(i - start)) * 10 + digit_val(
                b,
            ));
        }
        if wide > (usize::MAX as u128) {
            proof {
                lemma_dec_val_prefix_grows(d, i - start + 1);
                assert(dec_val(d) > usize::MAX as nat);
                assert(lenient_usize(s@) == 0);
            }
            return 0;
        }
        acc = wide as usize;
        i = i + 1;
    }
    proof {
        assert(d.take(i - start) =~= d);
    }
    acc
}

} // verus!
