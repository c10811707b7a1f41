//! The request parser: one request line, then header lines up to an empty
//! line, then a body of exactly the declared length.  The whole parse is
//! specified by [`spec_parse`], a function of the raw bytes and the size
//! limit alone, and the executable parser is proved to return exactly that.

use vstd::prelude::*;
use crate::request::{Request, ReqModel};
use crate::text::{
    all_ascii, ascii_bytes, ascii_seq, bytes_eq_icase, eq_icase, is_ws, is_ws_byte, lenient_usize,
    pair_views, parse_usize_lenient, seq_views, sub_vec,
};

verus! {

/// Why a parse failed: a request line with fewer than three tokens, a
/// declared body larger than the limit, or a stream that ended before the
/// declared body was complete.
#[derive(Clone, Copy, Debug, PartialEq, Eq, Structural)]
pub enum ParseError {
    MalformedRequestLine,
    PayloadTooLarge,
    Io,
}

/// The request parser; a namespace for [`MessageParser::parse_request`].
pub struct MessageParser;

/// The index of the first line feed at or after `from`, or the length of
/// `s` when there is none.
pub open spec fn spec_find_nl(s: Seq<u8>, from: int) -> int
    decreases s.len() - from,
{
    if from < 0 || from >= s.len() {
        s.len() as int
    } else if s[from] == 10 {
        from
    } else {
        spec_find_nl(s, from + 1)
    }
}

proof fn lemma_find_nl_bounds(s: Seq<u8>, from: int)
    requires
        0 <= from <= s.len(),
    ensures
        from <= spec_find_nl(s, from) <= s.len(),
    decreases s.len() - from,
{
    if from < s.len() && s[from] != 10 {
        lemma_find_nl_bounds(s, from + 1);
    }
}

proof fn lemma_find_nl_skip(s: Seq<u8>, i: int, from: int)
    requires
        0 <= i <= from <= s.len(),
    ensures
        spec_find_nl(s.skip(i), from - i) == spec_find_nl(s, from) - i,
    decreases s.len() - from,
{
    if from >= s.len() {
    } else if s[from] == 10 {
    } else {
        lemma_find_nl_skip(s, i, from + 1);
    }
}

/// The index of the first `": "` separator at or after `from`, or `-1`.
pub open spec fn spec_find_sep(s: Seq<u8>, from: int) -> int
    decreases s.len() - from,
{
    if from < 0 || from + 2 > s.len() {
        -1
    } else if s[from] == 58 && s[from + 1] == 32 {
        from
    } else {
        spec_find_sep(s, from + 1)
    }
}

/// A header line split at its first `": "`: the exact-case key and the
/// value.  A line without the separator yields nothing and is skipped.
pub open spec fn spec_header_entry(line: Seq<u8>) -> Option<(Seq<u8>, Seq<u8>)> {
    let k = spec_find_sep(line, 0);
    if k < 0 {
        None
    } else {
        Some((line.take(k), line.skip(k + 2)))
    }
}

/// The whitespace-separated tokens of `s`.
pub open spec fn spec_tokens(s: Seq<u8>) -> Seq<Seq<u8>>
    decreases s.len(),
{
    if s.len() == 0 {
        Seq::empty()
    } else if is_ws(s[0]) {
        spec_tokens(s.drop_first())
    } else {
        let rest = spec_tokens(s.drop_first());
        if s.len() > 1 && !is_ws(s[1]) {
            seq![seq![s[0]] + rest[0]] + rest.drop_first()
        } else {
            seq![seq![s[0]]] + rest
        }
    }
}

proof fn lemma_tokens_nonempty(s: Seq<u8>)
    requires
        s.len() > 0,
        !is_ws(s[0]),
    ensures
        spec_tokens(s).len() > 0,
{
}

/// The first line of `s` as the line reader yields it: the bytes before the
/// first line feed, less one trailing carriage return when the line feed was
/// present.
pub open spec fn spec_first_line(s: Seq<u8>) -> Seq<u8> {
    let e = spec_find_nl(s, 0);
    let raw = s.take(e);
    if e < s.len() && raw.len() > 0 && raw.last() == 13 {
        raw.drop_last()
    } else {
        raw
    }
}

/// Where the line after the first one starts: past the line feed, or at the
/// end when there is none.
pub open spec fn spec_next_line(s: Seq<u8>) -> int {
    let e = spec_find_nl(s, 0);
    if e < s.len() {
        e + 1
    } else {
        e
    }
}

/// The header section of `s`: the entries of the lines before the first
/// empty line (a line without `": "` contributes none), and the number of
/// bytes the section takes, empty line included.
pub open spec fn spec_head(s: Seq<u8>) -> (Seq<(Seq<u8>, Seq<u8>)>, int)
    decreases s.len(),
    via spec_head_decreases
{
    if s.len() == 0 {
        (Seq::empty(), 0)
    } else {
        let line = spec_first_line(s);
        let next = spec_next_line(s);
        if line.len() == 0 {
            (Seq::empty(), next)
        } else {
            let r = spec_head(s.skip(next));
            let hs = match spec_header_entry(line) {
                Some(e) => seq![e] + r.0,
                None => r.0,
            };
            (hs, next + r.1)
        }
    }
}

#[via_fn]
proof fn spec_head_decreases(s: Seq<u8>) {
    if s.len() > 0 {
        lemma_find_nl_bounds(s, 0);
    }
}

/// The body length the headers declare: the value of the last header whose
/// key is `Content-Length` up to ASCII case, read leniently, or zero when
/// no such header arrived.
pub open spec fn spec_content_length(hs: Seq<(Seq<u8>, Seq<u8>)>) -> nat
    decreases hs.len(),
{
    if hs.len() == 0 {
        0
    } else if eq_icase(hs.last().0, ascii_seq("Content-Length")) {
        lenient_usize(hs.last().1)
    } else {
        spec_content_length(hs.drop_last())
    }
}

/// What parsing `s` under the body limit `max` yields.  The request line is
/// the first line; fewer than three whitespace-separated tokens on it is an
/// error.  Header lines follow until an empty line or the end of input.  A
/// declared body length over `max` is rejected before the body region is
/// looked at; otherwise exactly that many bytes must remain, and they are
/// decoded leniently as UTF-8.
pub open spec fn spec_parse(s: Seq<u8>, max: nat) -> Result<ReqModel, ParseError> {
    let e = spec_find_nl(s, 0);
    let toks = spec_tokens(s.take(e));
    if toks.len() < 3 {
        Err(ParseError::MalformedRequestLine)
    } else {
        let hstart = if e < s.len() {
            e + 1
        } else {
            e
        };
        let hd = spec_head(s.skip(hstart));
        let cl = spec_content_length(hd.0);
        if cl > max {
            Err(ParseError::PayloadTooLarge)
        } else {
            let bstart = hstart + hd.1;
            if s.len() - bstart < cl {
                Err(ParseError::Io)
            } else {
                Ok(
                    ReqModel {
                        method: toks[0],
                        path: toks[1],
                        headers: hd.0,
                        body: lossy_utf8(s.subrange(bstart, bstart + cl)),
                    },
                )
            }
        }
    }
}

/// What `String::from_utf8_lossy` makes of a byte sequence, re-encoded as
/// UTF-8 bytes: a function of the bytes alone.
pub uninterp spec fn lossy_utf8(b: Seq<u8>) -> Seq<u8>;

/// Relies on `String::from_utf8_lossy`: invalid UTF-8 sequences are replaced
/// with U+FFFD and well-formed input is returned unchanged, so ASCII input
/// comes back byte for byte.
#[verifier::external_body]
fn lossy_decode(b: &Vec<u8>) -> (r: Vec<u8>)
    ensures
        r@ == lossy_utf8(b@),
        all_ascii(b@) ==> r@ == b@,
{
    String::from_utf8_lossy(b.as_slice()).into_owned().into_bytes()
}

/// The index of the first line feed at or after `from`.
fn find_nl(s: &Vec<u8>, from: usize) -> (r: usize)
    requires
        from <= s.len(),
    ensures
        from <= r <= s.len(),
        r as int == spec_find_nl(s@, from as int),
{
    let mut i: usize = from;
    while i < s.len()
        invariant
            from <= i <= s@.len(),
            spec_find_nl(s@, from as int) == spec_find_nl(s@, i as int),
        decreases s.len() - i,
    {
        if s[i] == 10 {
            return i;
        }
        i = i + 1;
    }
    i
}

/// Splits a header line at its first `": "`.
fn split_header_line(line: &Vec<u8>) -> (r: Option<(Vec<u8>, Vec<u8>)>)
    ensures
        match r {
            Some(p) => spec_header_entry(line@) == Some((p.0@, p.1@)),
            None => spec_header_entry(line@) is None,
        },
{
    if line.len() < 2 {
        return None;
    }
    let mut k: usize = 0;
    while k <= line.len() - 2
        invariant
            k <= line.len(),
            line@.len() >= 2,
            spec_find_sep(line@, 0) == spec_find_sep(line@, k as int),
        decreases line.len() - k,
    {
        if line[k] == 58 && line[k + 1] == 32 {
            let key = sub_vec(line, 0, k);
            let val = sub_vec(line, k + 2, line.len());
            proof {
                assert(line@.take(k as int) =~= line@.subrange(0, k as int));
                assert(line@.skip(k + 2) =~= line@.subrange(k + 2, line@.len() as int));
            }
            return Some((key, val));
        }
        k = k + 1;
    }
    None
}

/// The whitespace-separated tokens of `s` from index `i` on.
fn tokens_from(s: &Vec<u8>, i: usize) -> (r: Vec<Vec<u8>>)
    requires
        i <= s.len(),
    ensures
        seq_views(r@) == spec_tokens(s@.skip(i as int)),
    decreases s.len() - i,
{
    proof {
        assert(s@.skip(i as int).len() == s@.len() - i);
        if i < s.len() {
            assert(s@.skip(i as int).drop_first() =~= s@.skip(i + 1));
            assert(s@.skip(i as int)[0] == s@[i as int]);
        }
    }
    if i == s.len() {
        let r: Vec<Vec<u8>> = Vec::new();
        proof {
            assert(seq_views(r@) =~= spec_tokens(s@.skip(i as int)));
        }
        r
    } else if is_ws_byte(s[i]) {
        tokens_from(s, i + 1)
    } else {
        let ghost tail = s@.skip(i + 1);
        let ghost whole = s@.skip(i as int);
        let mut rest = tokens_from(s, i + 1);
        if i + 1 < s.len() && !is_ws_byte(s[i + 1]) {
            proof {
                lemma_tokens_nonempty(tail);
            }
            let mut first = rest.remove(0);
            first.insert(0, s[i]);
            rest.insert(0, first);
            proof {
                assert(seq_views(rest@)[0] =~= seq![whole[0]] + spec_tokens(tail)[0]);
                assert(seq_views(rest@) =~~= spec_tokens(whole));
            }
            rest
        } else {
            let mut t: Vec<u8> = Vec::new();
            t.push(s[i]);
            rest.insert(0, t);
            proof {
                assert(t@ =~= seq![whole[0]]);
                assert(seq_views(rest@) =~~= spec_tokens(whole));
            }
            rest
        }
    }
}

/// Reads the header section of `s` from index `i` on; returns the entries
/// in arrival order and the index where the body region starts.
fn parse_head(s: &Vec<u8>, i: usize) -> (r: (Vec<(Vec<u8>, Vec<u8>)>, usize))
    requires
        i <= s.len(),
    ensures
        pair_views(r.0@) == spec_head(s@.skip(i as int)).0,
        r.1 as int == i + spec_head(s@.skip(i as int)).1,
        i <= r.1 <= s.len(),
    decreases s.len() - i,
{
    let ghost whole = s@.skip(i as int);
    if i == s.len() {
        let r: Vec<(Vec<u8>, Vec<u8>)> = Vec::new();
        proof {
            assert(pair_views(r@) =~= spec_head(whole).0);
        }
        (r, i)
    } else {
        let e = find_nl(s, i);
        proof {
            lemma_find_nl_skip(s@, i as int, i as int);
            assert(spec_find_nl(whole, 0) == e - i);
            assert(whole.take(e - i) =~= s@.subrange(i as int, e as int));
        }
        let line_end: usize = if e < s.len() && e > i && s[e - 1] == 13 {
            e - 1
        } else {
            e
        };
        proof {
            assert(spec_first_line(whole) =~= s@.subrange(i as int, line_end as int));
        }
        let next: usize = if e < s.len() {
            e + 1
        } else {
            e
        };
        proof {
            assert(spec_next_line(whole) == next - i);
        }
        if line_end == i {
            let r: Vec<(Vec<u8>, Vec<u8>)> = Vec::new();
            proof {
                assert(pair_views(r@) =~= spec_head(whole).0);
            }
            (r, next)
        } else {
            let line = sub_vec(s, i, line_end);
            let entry = split_header_line(&line);
            proof {
                assert(whole.skip(next - i) =~= s@.skip(next as int));
            }
            let (mut hs, consumed) = parse_head(s, next);
            match entry {
                Some(p) => {
                    hs.insert(0, p);
                    proof {
                        assert(pair_views(hs@) =~~= spec_head(whole).0);
                    }
                    (hs, consumed)
                },
                None => {
                    proof {
                        assert(pair_views(hs@) =~~= spec_head(whole).0);
                    }
                    (hs, consumed)
                },
            }
        }
    }
}

/// The declared body length, read from the last `Content-Length` header.
fn content_length_of(hs: &Vec<(Vec<u8>, Vec<u8>)>) -> (r: usize)
    ensures
        r as nat == spec_content_length(pair_views(hs@)),
{
    let key = content_length_key();
    let mut j: usize = hs.len();
    proof {
        assert(pair_views(hs@).take(j as int) =~= pair_views(hs@));
    }
    while j > 0
        invariant
            j <= hs.len(),
            key@ == ascii_seq("Content-Length"),
            spec_content_length(pair_views(hs@)) == spec_content_length(
                pair_views(hs@).take(j as int),
            ),
        decreases j,
    {
        j = j - 1;
        proof {
            assert(pair_views(hs@).take(j + 1).drop_last() =~= pair_views(hs@).take(j as int));
            assert(pair_views(hs@).take(j + 1).last() == (hs@[j as int].0@, hs@[j as int].1@));
        }
        if bytes_eq_icase(&hs[j].0, &key) {
            return parse_usize_lenient(&hs[j].1);
        }
    }
    0
}

/// The `Content-Length` key as bytes.
fn content_length_key() -> (r: Vec<u8>)
    ensures
        r@ == ascii_seq("Content-Length"),
{
    proof {
        reveal_strlit("Content-Length");
    }
    ascii_bytes("Content-Length")
}

impl MessageParser {
    /// Parses one request out of `input`, holding the declared body length
    /// to `max_body_size`; returns exactly what [`spec_parse`] assigns to
    /// these bytes and this limit.
    pub fn parse_request(input: &Vec<u8>, max_body_size: usize) -> (r: Result<Request, ParseError>)
        ensures
            match r {
                Ok(req) => spec_parse(input@, max_body_size as nat) == Ok::<ReqModel, ParseError>(
                    req@,
                ),
                Err(e) => spec_parse(input@, max_body_size as nat) == Err::<ReqModel, ParseError>(
                    e,
                ),
            },
            r matches Ok(req) ==> req@.body == lossy_utf8(spec_raw_body(input@)),
            r matches Ok(req) ==> (all_ascii(spec_raw_body(input@)) ==> req@.body == spec_raw_body(
                input@,
            )),
    {
        let e = find_nl(input, 0);
        let line = sub_vec(input, 0, e);
        proof {
            assert(line@ =~= input@.take(e as int));
            assert(line@.skip(0) =~= line@);
        }
        let mut toks = tokens_from(&line, 0);
        if toks.len() < 3 {
            return Err(ParseError::MalformedRequestLine);
        }
        let hstart: usize = if e < input.len() {
            e + 1
        } else {
            e
        };
        let (headers, bstart) = parse_head(input, hstart);
        let cl = content_length_of(&headers);
        if cl > max_body_size {
            return Err(ParseError::PayloadTooLarge);
        }
        if input.len() - bstart < cl {
            return Err(ParseError::Io);
        }
        let raw = sub_vec(input, bstart, bstart + cl);
        proof {
            assert(raw@ == spec_raw_body(input@));
        }
        let body = lossy_decode(&raw);
        let path = toks.remove(1);
        let method = toks.remove(0);
        proof {
            assert(method@ == spec_tokens(input@.take(e as int))[0]);
            assert(path@ == spec_tokens(input@.take(e as int))[1]);
        }
        Ok(Request { method, path, headers, body })
    }

    /// The body length the head of `input` declares; what a caller must
    /// still read from the stream once the head is in hand.
    pub fn declared_body_len(input: &Vec<u8>) -> (r: usize)
        ensures
            r as nat == spec_declared_body_len(input@),
    {
        let e = find_nl(input, 0);
        let hstart: usize = if e < input.len() {
            e + 1
        } else {
            e
        };
        let (headers, _bstart) = parse_head(input, hstart);
        content_length_of(&headers)
    }
}

/// The declared body length of the head of `s`.
pub open spec fn spec_declared_body_len(s: Seq<u8>) -> nat {
    let e = spec_find_nl(s, 0);
    let hstart = if e < s.len() {
        e + 1
    } else {
        e
    };
    spec_content_length(spec_head(s.skip(hstart)).0)
}

/// Where the body region of `s` starts: right after the head section.
pub open spec fn spec_body_start(s: Seq<u8>) -> int {
    let e = spec_find_nl(s, 0);
    let hstart = if e < s.len() {
        e + 1
    } else {
        e
    };
    hstart + spec_head(s.skip(hstart)).1
}

/// The raw bytes of the body region: the declared number of bytes after the
/// head, before any decoding.
pub open spec fn spec_raw_body(s: Seq<u8>) -> Seq<u8> {
    s.subrange(spec_body_start(s), spec_body_start(s) + spec_declared_body_len(s))
}

/// Whether an empty line closes the header section within the bytes given;
/// only then is the head immune to whatever follows it.
pub open spec fn head_complete(s: Seq<u8>) -> bool
    decreases s.len(),
    via head_complete_decreases
{
    if s.len() == 0 {
        false
    } else if spec_first_line(s).len() == 0 {
        true
    } else {
        head_complete(s.skip(spec_next_line(s)))
    }
}

#[via_fn]
proof fn head_complete_decreases(s: Seq<u8>) {
    if s.len() > 0 {
        lemma_find_nl_bounds(s, 0);
    }
}

proof fn lemma_find_nl_prefix(h: Seq<u8>, b: Seq<u8>, from: int)
    requires
        0 <= from <= h.len(),
        spec_find_nl(h, from) < h.len(),
    ensures
        spec_find_nl(h + b, from) == spec_find_nl(h, from),
    decreases h.len() - from,
{
    if from < h.len() {
        assert((h + b)[from] == h[from]);
        if h[from] != 10 {
            lemma_find_nl_prefix(h, b, from + 1);
        }
    }
}

/// A complete head reads the same whatever bytes follow it.
proof fn lemma_head_prefix(h: Seq<u8>, b: Seq<u8>)
    requires
        head_complete(h),
    ensures
        spec_head(h + b) == spec_head(h),
        head_complete(h + b),
    decreases h.len(),
{
    let e = spec_find_nl(h, 0);
    lemma_find_nl_bounds(h, 0);
    let line = spec_first_line(h);
    let next = spec_next_line(h);
    if line.len() == 0 {
        if e == h.len() {
            assert(h.len() > 0);
            assert(h.take(e) =~= h);
            assert(line == h.take(e));
            assert(false);
        }
        lemma_find_nl_prefix(h, b, 0);
        assert((h + b).take(e) =~= h.take(e));
        assert(spec_first_line(h + b) =~= line);
        assert(spec_next_line(h + b) == next);
        assert(spec_head(h + b) == spec_head(h));
    } else {
        if e == h.len() {
            assert(head_complete(h.skip(next)));
            assert(h.skip(next).len() == 0);
            assert(false);
        }
        lemma_find_nl_prefix(h, b, 0);
        assert((h + b).take(e) =~= h.take(e));
        assert(spec_first_line(h + b) =~= line);
        assert(spec_next_line(h + b) == next);
        assert((h + b).skip(next) =~= h.skip(next) + b);
        lemma_head_prefix(h.skip(next), b);
        assert(spec_head(h + b).0 == spec_head(h).0);
        assert(spec_head(h + b).1 == spec_head(h).1);
        assert(spec_head(h + b) == spec_head(h));
    }
}

/// A request whose head declares a Content-Length over the limit is
/// rejected as too large before the body region is looked at: whatever
/// bytes follow the head, the parse result is the same rejection.
pub proof fn lemma_oversized_declaration_rejected(h: Seq<u8>, b: Seq<u8>, max: nat)
    requires
        spec_find_nl(h, 0) < h.len(),
        spec_tokens(h.take(spec_find_nl(h, 0))).len() >= 3,
        head_complete(h.skip(spec_find_nl(h, 0) + 1)),
        spec_content_length(spec_head(h.skip(spec_find_nl(h, 0) + 1)).0) > max,
    ensures
        spec_parse(h + b, max) == Err::<ReqModel, ParseError>(ParseError::PayloadTooLarge),
{
    let e = spec_find_nl(h, 0);
    lemma_find_nl_bounds(h, 0);
    lemma_find_nl_prefix(h, b, 0);
    assert((h + b).take(e) =~= h.take(e));
    assert((h + b).skip(e + 1) =~= h.skip(e + 1) + b);
    lemma_head_prefix(h.skip(e + 1), b);
}

/// A well-formed request whose head declares `Content-Length = body.len()`
/// within the limit parses, and the parsed body is exactly the declared
/// number of bytes following the head, decoded leniently.
pub proof fn lemma_declared_body_returned(h: Seq<u8>, body: Seq<u8>, max: nat)
    requires
        spec_find_nl(h, 0) < h.len(),
        spec_tokens(h.take(spec_find_nl(h, 0))).len() >= 3,
        head_complete(h.skip(spec_find_nl(h, 0) + 1)),
        spec_head(h.skip(spec_find_nl(h, 0) + 1)).1 == h.len() - (spec_find_nl(h, 0) + 1),
        spec_content_length(spec_head(h.skip(spec_find_nl(h, 0) + 1)).0) == body.len(),
        body.len() <= max,
    ensures
        spec_parse(h + body, max) matches Ok(m) && m.body == lossy_utf8(body) && m.headers
            == spec_head(h.skip(spec_find_nl(h, 0) + 1)).0,
        spec_raw_body(h + body) == body,
{
    let e = spec_find_nl(h, 0);
    lemma_find_nl_bounds(h, 0);
    lemma_find_nl_prefix(h, body, 0);
    assert((h + body).take(e) =~= h.take(e));
    assert((h + body).skip(e + 1) =~= h.skip(e + 1) + body);
    lemma_head_prefix(h.skip(e + 1), body);
    assert(spec_body_start(h + body) == h.len());
    assert((h + body).subrange(h.len() as int, (h.len() + body.len()) as int) =~= body);
}

} // verus!
