//! The proxy request token: two path-safe segments, the first carrying a
//! declared header list and the second the target URL.
//!
//! Headers are serialized as `name:value` pairs joined by commas, then
//! percent-encoded; an empty header list is written as the sentinel
//! segment `_` so that no path component is ever empty. The URL segment
//! is the percent-encoded target URL. Names and values holding the
//! delimiters `,` or `:` are a caller error and do not round-trip.

use crate::codec::{encoded_byte, percent_decode, percent_decoded, percent_encode, percent_encoded};
use crate::valid::{check_uri, check_utf8, lemma_ascii_valid_utf8, uri_parsable};
use vstd::prelude::*;
use vstd::utf8::valid_utf8;

verus! {

/// Byte values of the delimiters: `:` and `,`, and the sentinel `_`.
pub const COLON: u8 = 58;

pub const COMMA: u8 = 44;

pub const SENTINEL: u8 = 95;

/// One serialized header pair: `name:value`.
pub open spec fn ser_pair(p: (Seq<u8>, Seq<u8>)) -> Seq<u8> {
    p.0 + seq![COLON] + p.1
}

/// The serialized header list: pairs joined by commas.
pub open spec fn ser_headers(hs: Seq<(Seq<u8>, Seq<u8>)>) -> Seq<u8>
    decreases hs.len(),
{
    if hs.len() == 0 {
        Seq::empty()
    } else if hs.len() == 1 {
        ser_pair(hs[0])
    } else {
        ser_pair(hs[0]) + seq![COMMA] + ser_headers(hs.skip(1))
    }
}

/// Index of the first occurrence of `d` in `s`, or `s.len()` if absent.
pub open spec fn first_ix(s: Seq<u8>, d: u8) -> int
    decreases s.len(),
{
    if s.len() == 0 {
        0
    } else if s[0] == d {
        0
    } else {
        1 + first_ix(s.skip(1), d)
    }
}

pub proof fn lemma_first_ix(s: Seq<u8>, d: u8)
    ensures
        0 <= first_ix(s, d) <= s.len(),
        first_ix(s, d) < s.len() ==> s[first_ix(s, d)] == d,
        forall|j: int| 0 <= j < first_ix(s, d) ==> s[j] != d,
    decreases s.len(),
{
    if s.len() == 0 {
    } else if s[0] == d {
    } else {
        lemma_first_ix(s.skip(1), d);
        assert forall|j: int| 0 <= j < first_ix(s, d) implies s[j] != d by {
            if j > 0 {
                assert(s.skip(1)[j - 1] == s[j]);
            }
        }
    }
}

/// `first_ix` is determined by its characteristic facts.
pub proof fn lemma_first_ix_is(s: Seq<u8>, d: u8, k: int)
    requires
        0 <= k <= s.len(),
        forall|j: int| 0 <= j < k ==> s[j] != d,
        k < s.len() ==> s[k] == d,
    ensures
        first_ix(s, d) == k,
{
    lemma_first_ix(s, d);
    let f = first_ix(s, d);
    if f < k {
        assert(s[f] != d);
    }
    if k < f {
        assert(s[k] != d);
    }
}

/// The pieces of `s` split on the delimiter `d`; the empty string yields
/// one empty piece, as a splitter does.
pub open spec fn split_list(s: Seq<u8>, d: u8) -> Seq<Seq<u8>>
    decreases s.len(),
{
    let i = first_ix(s, d);
    if 0 <= i && i < s.len() {
        seq![s.take(i)] + split_list(s.skip(i + 1), d)
    } else {
        seq![s]
    }
}

/// A piece becomes a pair at its first colon; a piece without a colon is
/// no header and is ignored.
pub open spec fn parse_pair(p: Seq<u8>) -> Option<(Seq<u8>, Seq<u8>)> {
    let j = first_ix(p, COLON);
    if 0 <= j && j < p.len() {
        Some((p.take(j), p.skip(j + 1)))
    } else {
        None
    }
}

pub open spec fn parse_pieces(ps: Seq<Seq<u8>>) -> Seq<(Seq<u8>, Seq<u8>)>
    decreases ps.len(),
{
    if ps.len() == 0 {
        Seq::empty()
    } else {
        (match parse_pair(ps[0]) {
            Some(pr) => seq![pr],
            None => Seq::empty(),
        }) + parse_pieces(ps.skip(1))
    }
}

/// The header list read back from a serialized form; an empty string
/// holds no headers.
pub open spec fn parse_headers(s: Seq<u8>) -> Seq<(Seq<u8>, Seq<u8>)> {
    if s.len() == 0 {
        Seq::empty()
    } else {
        parse_pieces(split_list(s, COMMA))
    }
}

/// A header pair whose name holds no delimiter and whose value holds no
/// comma; only such pairs survive a serialization round trip.
pub open spec fn pair_delims_free(p: (Seq<u8>, Seq<u8>)) -> bool {
    &&& forall|i: int| 0 <= i < p.0.len() ==> p.0[i] != COMMA && p.0[i] != COLON
    &&& forall|i: int| 0 <= i < p.1.len() ==> p.1[i] != COMMA
}

pub open spec fn delims_free(hs: Seq<(Seq<u8>, Seq<u8>)>) -> bool {
    forall|k: int| 0 <= k < hs.len() ==> pair_delims_free(#[trigger] hs[k])
}

// ---------------------------------------------------------------------
// executable serialization
// ---------------------------------------------------------------------

/// Append all bytes of `s` to `out`.
pub fn push_bytes(out: &mut Vec<u8>, s: &[u8])
    ensures
        final(out)@ == old(out)@ + s@,
{
    let mut i: usize = 0;
    proof {
        assert(out@ =~= old(out)@ + s@.take(0));
    }
    while i < s.len()
        invariant
            i <= s.len(),
            out@ == old(out)@ + s@.take(i as int),
        decreases s.len() - i,
    {
        out.push(s[i]);
        proof {
            assert(old(out)@ + s@.take(i + 1) =~= (old(out)@ + s@.take(i as int)).push(
                s@[i as int],
            ));
        }
        i += 1;
    }
    proof {
        assert(s@.take(s@.len() as int) =~= s@);
    }
}

proof fn lemma_ser_headers_push(hs: Seq<(Seq<u8>, Seq<u8>)>, p: (Seq<u8>, Seq<u8>))
    ensures
        hs.len() == 0 ==> ser_headers(hs.push(p)) == ser_pair(p),
        hs.len() > 0 ==> ser_headers(hs.push(p)) == ser_headers(hs) + seq![COMMA] + ser_pair(p),
    decreases hs.len(),
{
    let w = hs.push(p);
    if hs.len() == 0 {
        assert(w[0] == p);
        assert(ser_headers(w) == ser_pair(p));
    } else if hs.len() == 1 {
        assert(w[0] == hs[0]);
        assert(w.skip(1) =~= seq![p]);
        assert(ser_headers(w.skip(1)) == ser_pair(p));
        assert(ser_headers(w) =~= ser_headers(hs) + seq![COMMA] + ser_pair(p));
    } else {
        assert(w[0] == hs[0]);
        assert(w.skip(1) =~= hs.skip(1).push(p));
        lemma_ser_headers_push(hs.skip(1), p);
        assert(ser_headers(w) =~= ser_headers(hs) + seq![COMMA] + ser_pair(p));
    }
}

/// Serialize a header list as comma-joined `name:value` pairs.
pub fn serialize_headers(headers: &Vec<(Vec<u8>, Vec<u8>)>) -> (r: Vec<u8>)
    ensures
        r@ == ser_headers(headers.deep_view()),
{
    let ghost hv = headers.deep_view();
    let mut out: Vec<u8> = Vec::new();
    let mut k: usize = 0;
    proof {
        assert(hv.take(0) =~= Seq::<(Seq<u8>, Seq<u8>)>::empty());
    }
    while k < headers.len()
        invariant
            k <= headers.len(),
            hv == headers.deep_view(),
            hv.len() == headers.len(),
            forall|j: int|
                0 <= j < headers.len() ==> #[trigger] hv[j] == (headers[j].0@, headers[j].1@),
            out@ == ser_headers(hv.take(k as int)),
        decreases headers.len() - k,
    {
        if k > 0 {
            out.push(COMMA);
        }
        let name: &Vec<u8> = &headers[k].0;
        let value: &Vec<u8> = &headers[k].1;
        push_bytes(&mut out, name.as_slice());
        out.push(COLON);
        push_bytes(&mut out, value.as_slice());
        proof {
            lemma_ser_headers_push(hv.take(k as int), hv[k as int]);
            assert(hv.take(k + 1) =~= hv.take(k as int).push(hv[k as int]));
            assert(ser_pair(hv[k as int]) =~= name@ + seq![COLON] + value@);
            if k == 0 {
                assert(out@ =~= ser_pair(hv[0]));
            } else {
                assert(out@ =~= ser_headers(hv.take(k as int)) + seq![COMMA] + ser_pair(
                    hv[k as int],
                ));
            }
        }
        k += 1;
    }
    proof {
        assert(hv.take(hv.len() as int) =~= hv);
    }
    out
}

} // verus!

verus! {

// ---------------------------------------------------------------------
// executable parsing
// ---------------------------------------------------------------------

/// Copy the bytes of `s` in `[a, b)` into a fresh vector.
fn copy_range(s: &[u8], a: usize, b: usize) -> (r: Vec<u8>)
    requires
        a <= b && b <= s.len(),
    ensures
        r@ == s@.subrange(a as int, b as int),
{
    let mut out: Vec<u8> = Vec::new();
    let mut i: usize = a;
    while i < b
        invariant
            a <= i <= b <= s.len(),
            out@ == s@.subrange(a as int, i as int),
        decreases b - i,
    {
        out.push(s[i]);
        proof {
            assert(s@.subrange(a as int, i + 1) =~= s@.subrange(a as int, i as int).push(
                s@[i as int],
            ));
        }
        i += 1;
    }
    out
}

/// Split a serialized header list on commas and each piece at its first
/// colon; pieces without a colon are ignored.
pub fn parse_header_list(s: &[u8]) -> (r: Vec<(Vec<u8>, Vec<u8>)>)
    ensures
        r.deep_view() == parse_headers(s@),
{
    let mut out: Vec<(Vec<u8>, Vec<u8>)> = Vec::new();
    if s.len() == 0 {
        proof {
            assert(out.deep_view() =~= parse_headers(s@));
        }
        return out;
    }
    let mut pos: usize = 0;
    let mut done = false;
    proof {
        assert(s@.skip(0) =~= s@);
        assert(out.deep_view() + parse_pieces(split_list(s@, COMMA)) =~= parse_pieces(
            split_list(s@, COMMA),
        ));
    }
    while !done
        invariant
            pos <= s.len(),
            s@.len() > 0,
            !done ==> out.deep_view() + parse_pieces(split_list(s@.skip(pos as int), COMMA))
                == parse_pieces(split_list(s@, COMMA)),
            done ==> out.deep_view() == parse_pieces(split_list(s@, COMMA)),
        decreases s.len() - pos, (if done { 0int } else { 1int }),
    {
        let ghost old_dv = out.deep_view();
        let ghost t = s@.skip(pos as int);
        // find the comma ending this piece
        let mut end = pos;
        while end < s.len() && s[end] != COMMA
            invariant
                pos <= end <= s.len(),
                forall|j: int| pos <= j < end ==> s@[j] != COMMA,
            decreases s.len() - end,
        {
            end += 1;
        }
        proof {
            assert forall|j: int| 0 <= j < end - pos implies t[j] != COMMA by {
                assert(t[j] == s@[pos + j]);
            }
            lemma_first_ix_is(t, COMMA, end - pos);
        }
        let ghost piece = s@.subrange(pos as int, end as int);
        proof {
            assert(t.take(end - pos) =~= piece);
        }
        // find the first colon inside the piece
        let mut c = pos;
        while c < end && s[c] != COLON
            invariant
                pos <= c <= end <= s.len(),
                forall|j: int| pos <= j < c ==> s@[j] != COLON,
            decreases end - c,
        {
            c += 1;
        }
        proof {
            assert forall|j: int| 0 <= j < c - pos implies piece[j] != COLON by {
                assert(piece[j] == s@[pos + j]);
            }
            if c < end {
                assert(piece[c - pos] == s@[c as int]);
            }
            lemma_first_ix_is(piece, COLON, c - pos);
        }
        if c < end {
            let name = copy_range(s, pos, c);
            let value = copy_range(s, c + 1, end);
            proof {
                assert(piece.take(c - pos) =~= name@);
                assert(piece.skip(c - pos + 1) =~= value@);
            }
            out.push((name, value));
            proof {
                assert(parse_pair(piece) == Some((name@, value@)));
                assert(out.deep_view() =~~= old_dv.push((name@, value@)));
                assert(out.deep_view() =~= old_dv + seq![(name@, value@)]);
            }
        } else {
            proof {
                assert(parse_pair(piece) is None);
            }
        }
        proof {
            // split the first piece off the remaining suffix
            if end < s.len() {
                assert(t.skip(end - pos + 1) =~= s@.skip(end + 1));
                assert(split_list(t, COMMA) == seq![piece] + split_list(s@.skip(end + 1), COMMA));
                let ps = split_list(t, COMMA);
                let rest = split_list(s@.skip(end + 1), COMMA);
                assert(ps[0] == piece);
                assert(ps.skip(1) =~= rest);
                assert(parse_pieces(ps) == (match parse_pair(piece) {
                    Some(pr) => seq![pr],
                    None => Seq::empty(),
                }) + parse_pieces(rest));
                assert(out.deep_view() + parse_pieces(rest) =~= parse_pieces(
                    split_list(s@, COMMA),
                ));
            } else {
                assert(end - pos == t.len());
                assert(t =~= piece);
                assert(split_list(t, COMMA) == seq![t]);
                let ps = split_list(t, COMMA);
                assert(ps[0] == piece);
                assert(ps.skip(1) =~= Seq::<Seq<u8>>::empty());
                assert(parse_pieces(ps.skip(1)) == Seq::<(Seq<u8>, Seq<u8>)>::empty());
                assert(parse_pieces(ps) == (match parse_pair(piece) {
                    Some(pr) => seq![pr],
                    None => Seq::empty(),
                }) + parse_pieces(ps.skip(1)));
                assert(parse_pieces(ps) =~= (match parse_pair(piece) {
                    Some(pr) => seq![pr],
                    None => Seq::empty(),
                }));
                assert(out.deep_view() =~= parse_pieces(split_list(s@, COMMA)));
            }
        }
        if end == s.len() {
            done = true;
        } else {
            pos = end + 1;
        }
    }
    out
}

} // verus!

verus! {

// ---------------------------------------------------------------------
// the token
// ---------------------------------------------------------------------

/// The two path segments of a proxy request token.
pub struct Token {
    pub headers_segment: Vec<u8>,
    pub url_segment: Vec<u8>,
}

/// The headers segment the encoder emits: the percent-encoded serialized
/// list, or the sentinel `_` when the list is empty.
pub open spec fn encoded_headers(hs: Seq<(Seq<u8>, Seq<u8>)>) -> Seq<u8> {
    if ser_headers(hs).len() == 0 {
        seq![SENTINEL]
    } else {
        percent_encoded(ser_headers(hs))
    }
}

pub open spec fn opt_headers_view(headers: Option<&Vec<(Vec<u8>, Vec<u8>)>>) -> Seq<
    (Seq<u8>, Seq<u8>),
> {
    match headers {
        Some(h) => h.deep_view(),
        None => Seq::empty(),
    }
}

/// Encode a target URL and an optional header list into a token.
pub fn encode_token(url: &[u8], headers: Option<&Vec<(Vec<u8>, Vec<u8>)>>) -> (t: Token)
    ensures
        t.url_segment@ == percent_encoded(url@),
        t.headers_segment@ == encoded_headers(opt_headers_view(headers)),
{
    let ser: Vec<u8> = match headers {
        Some(h) => serialize_headers(h),
        None => Vec::new(),
    };
    let mut hseg = percent_encode(ser.as_slice());
    if hseg.len() == 0 {
        proof {
            if ser@.len() > 0 {
                assert(percent_encoded(ser@) == encoded_byte(ser@[0]) + percent_encoded(
                    ser@.skip(1),
                ));
            }
        }
        hseg.push(SENTINEL);
        proof {
            assert(hseg@ =~= seq![SENTINEL]);
        }
    } else {
        proof {
            if ser@.len() == 0 {
                assert(percent_encoded(ser@).len() == 0);
            }
        }
    }
    let useg = percent_encode(url);
    Token { headers_segment: hseg, url_segment: useg }
}

/// Why a token's URL segment was rejected.
#[derive(Debug, Clone, Copy, PartialEq, Eq, Structural)]
pub enum DecodeError {
    /// The URL segment did not percent-decode to a UTF-8 string.
    InvalidUrlEncoding,
    /// The decoded string does not parse as a URI.
    InvalidTargetUrl,
}

/// What decoding the URL segment yields.
pub open spec fn decode_url_spec(useg: Seq<u8>) -> Result<Seq<u8>, DecodeError> {
    let d = percent_decoded(useg);
    if !valid_utf8(d) {
        Err(DecodeError::InvalidUrlEncoding)
    } else if !uri_parsable(d) {
        Err(DecodeError::InvalidTargetUrl)
    } else {
        Ok(d)
    }
}

/// What decoding the headers segment yields: declared headers are best
/// effort, so a segment that does not decode to UTF-8 yields no headers
/// rather than an error.
pub open spec fn decode_headers_spec(hseg: Seq<u8>) -> Seq<(Seq<u8>, Seq<u8>)> {
    let d = percent_decoded(hseg);
    if valid_utf8(d) {
        parse_headers(d)
    } else {
        Seq::empty()
    }
}

/// Decode a token back into the target URL and the declared header list.
pub fn decode_token(headers_segment: &[u8], url_segment: &[u8]) -> (r: Result<
    (Vec<u8>, Vec<(Vec<u8>, Vec<u8>)>),
    DecodeError,
>)
    ensures
        match r {
            Ok(p) => decode_url_spec(url_segment@) == Ok::<Seq<u8>, DecodeError>(p.0@)
                && p.1.deep_view() == decode_headers_spec(headers_segment@),
            Err(e) => decode_url_spec(url_segment@) == Err::<Seq<u8>, DecodeError>(e),
        },
{
    let url = percent_decode(url_segment);
    if !check_utf8(url.as_slice()) {
        return Err(DecodeError::InvalidUrlEncoding);
    }
    if !check_uri(url.as_slice()) {
        return Err(DecodeError::InvalidTargetUrl);
    }
    let hd = percent_decode(headers_segment);
    let headers = if check_utf8(hd.as_slice()) {
        parse_header_list(hd.as_slice())
    } else {
        Vec::new()
    };
    proof {
        assert(headers.deep_view() =~= decode_headers_spec(headers_segment@));
    }
    Ok((url, headers))
}

} // verus!

verus! {

// ---------------------------------------------------------------------
// the round-trip law
// ---------------------------------------------------------------------

proof fn lemma_ser_pair_shape(p: (Seq<u8>, Seq<u8>))
    requires
        pair_delims_free(p),
    ensures
        ser_pair(p).len() == p.0.len() + 1 + p.1.len(),
        forall|i: int| 0 <= i < ser_pair(p).len() ==> ser_pair(p)[i] != COMMA,
        first_ix(ser_pair(p), COLON) == p.0.len(),
        parse_pair(ser_pair(p)) == Some(p),
{
    let w = ser_pair(p);
    assert forall|i: int| 0 <= i < w.len() implies w[i] != COMMA by {
        if i < p.0.len() {
            assert(w[i] == p.0[i]);
        } else if i == p.0.len() {
            assert(w[i] == COLON);
        } else {
            assert(w[i] == p.1[i - p.0.len() - 1]);
        }
    }
    assert forall|j: int| 0 <= j < p.0.len() implies w[j] != COLON by {
        assert(w[j] == p.0[j]);
    }
    assert(w[p.0.len() as int] == COLON);
    lemma_first_ix_is(w, COLON, p.0.len() as int);
    assert(w.take(p.0.len() as int) =~= p.0);
    assert(w.skip(p.0.len() as int + 1) =~= p.1);
    assert((p.0, p.1) == p);
}

/// Parsing inverts serialization for delimiter-free header lists.
pub proof fn lemma_parse_ser_headers(hs: Seq<(Seq<u8>, Seq<u8>)>)
    requires
        delims_free(hs),
    ensures
        parse_headers(ser_headers(hs)) == hs,
    decreases hs.len(),
{
    if hs.len() == 0 {
        assert(parse_headers(ser_headers(hs)) =~= hs);
    } else {
        let p = hs[0];
        assert(pair_delims_free(p));
        lemma_ser_pair_shape(p);
        let sp = ser_pair(p);
        if hs.len() == 1 {
            let w = ser_headers(hs);
            assert(w == sp);
            lemma_first_ix_is(w, COMMA, w.len() as int);
            let ps = split_list(w, COMMA);
            assert(ps == seq![w]);
            assert(ps[0] == w);
            assert(ps.skip(1) =~= Seq::<Seq<u8>>::empty());
            assert(parse_pieces(ps.skip(1)) == Seq::<(Seq<u8>, Seq<u8>)>::empty());
            assert(parse_pieces(ps) =~= seq![p]);
            assert(parse_headers(w) =~= hs);
        } else {
            let rest = ser_headers(hs.skip(1));
            let w = ser_headers(hs);
            assert(w == sp + seq![COMMA] + rest);
            assert forall|j: int| 0 <= j < sp.len() implies w[j] != COMMA by {
                assert(w[j] == sp[j]);
            }
            assert(w[sp.len() as int] == COMMA);
            lemma_first_ix_is(w, COMMA, sp.len() as int);
            assert(w.take(sp.len() as int) =~= sp);
            assert(w.skip(sp.len() as int + 1) =~= rest);
            let ps = split_list(w, COMMA);
            assert(ps == seq![sp] + split_list(rest, COMMA));
            assert(ps[0] == sp);
            assert(ps.skip(1) =~= split_list(rest, COMMA));
            assert(delims_free(hs.skip(1))) by {
                assert(forall|k: int|
                    0 <= k < hs.skip(1).len() ==> hs.skip(1)[k] == hs[k + 1]);
            }
            lemma_parse_ser_headers(hs.skip(1));
            // the tail is nonempty, so its serialization is nonempty
            let q = hs.skip(1)[0];
            assert(pair_delims_free(q));
            if hs.skip(1).len() == 1 {
                assert(rest == ser_pair(q));
                lemma_ser_pair_shape(q);
            } else {
                assert(rest == ser_pair(q) + seq![COMMA] + ser_headers(hs.skip(1).skip(1)));
                lemma_ser_pair_shape(q);
            }
            assert(rest.len() > 0);
            assert(parse_headers(rest) == parse_pieces(split_list(rest, COMMA)));
            assert(parse_pieces(ps) =~= seq![p] + hs.skip(1));
            assert(seq![p] + hs.skip(1) =~= hs);
            assert(parse_headers(w) == hs);
        }
    }
}

/// The codec round trip: a token the encoder produced decodes back to the
/// original URL and header list, for header lists whose names hold no
/// delimiter bytes and whose values hold no comma. The URL side holds for
/// every byte string; the token is accepted whenever the URL is UTF-8 and
/// parses as a URI, and the header list is read back whenever its
/// serialized form is UTF-8 (which a list taken from strings always is).
pub proof fn lemma_token_round_trip(url: Seq<u8>, hs: Seq<(Seq<u8>, Seq<u8>)>)
    requires
        delims_free(hs),
    ensures
        percent_decoded(percent_encoded(url)) == url,
        valid_utf8(url) && uri_parsable(url) ==> decode_url_spec(percent_encoded(url))
            == Ok::<Seq<u8>, DecodeError>(url),
        valid_utf8(ser_headers(hs)) ==> decode_headers_spec(encoded_headers(hs)) == hs,
        hs.len() == 0 ==> decode_headers_spec(encoded_headers(hs)) == hs,
{
    crate::codec::lemma_percent_round_trip(url);
    crate::codec::lemma_percent_round_trip(ser_headers(hs));
    lemma_parse_ser_headers(hs);
    if ser_headers(hs).len() == 0 {
        // the sentinel segment decodes to "_", which holds no header pair
        let w = encoded_headers(hs);
        assert(w == seq![SENTINEL]);
        assert(w[0] != 37);
        assert(w.skip(1) =~= Seq::<u8>::empty());
        assert(percent_decoded(w) =~= seq![SENTINEL]);
        lemma_ascii_valid_utf8(seq![SENTINEL]);
        let d = seq![SENTINEL];
        lemma_first_ix_is(d, COMMA, 1);
        let ps = split_list(d, COMMA);
        assert(ps == seq![d]);
        lemma_first_ix_is(d, COLON, 1);
        assert(parse_pair(d) is None);
        assert(ps[0] == d);
        assert(ps.skip(1) =~= Seq::<Seq<u8>>::empty());
        assert(parse_pieces(ps.skip(1)) == Seq::<(Seq<u8>, Seq<u8>)>::empty());
        assert(parse_pieces(ps) =~= Seq::<(Seq<u8>, Seq<u8>)>::empty());
        assert(decode_headers_spec(encoded_headers(hs)) =~= parse_headers(d));
        // an empty serialization means an empty list
        if hs.len() > 0 {
            lemma_ser_pair_shape(hs[0]);
            if hs.len() == 1 {
                assert(ser_headers(hs).len() > 0);
            } else {
                assert(ser_headers(hs).len() > 0);
            }
        }
        assert(hs.len() == 0);
        assert(decode_headers_spec(encoded_headers(hs)) =~= hs);
    } else {
        if valid_utf8(ser_headers(hs)) {
            assert(decode_headers_spec(encoded_headers(hs)) == parse_headers(ser_headers(hs)));
        }
    }
}

} // verus!

verus! {

/// Both segments of a token are path safe: neither holds a `/`, so the
/// joined path `{headersSegment}/{urlSegment}` splits back into the same
/// two segments.
pub proof fn lemma_token_path_safe(url: Seq<u8>, hs: Seq<(Seq<u8>, Seq<u8>)>)
    ensures
        forall|i: int|
            0 <= i < encoded_headers(hs).len() ==> #[trigger] encoded_headers(hs)[i] != 47,
        forall|i: int|
            0 <= i < percent_encoded(url).len() ==> #[trigger] percent_encoded(url)[i] != 47,
{
    crate::codec::lemma_percent_encoded_path_safe(url);
    crate::codec::lemma_percent_encoded_path_safe(ser_headers(hs));
}

} // verus!
