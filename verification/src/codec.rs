//! Percent-encoding of byte strings, the codec used for both segments of
//! a proxy request token.
//!
//! Every byte except ASCII alphanumerics and `-`, `.`, `_`, `~` is written
//! as `%` followed by two uppercase hex digits. Decoding is total: a `%`
//! that is not followed by two hex digits passes through literally, so
//! decoding never fails on malformed input.

use vstd::prelude::*;

verus! {

/// Bytes that percent-encoding leaves unchanged.
pub open spec fn is_unreserved(b: u8) -> bool {
    (48 <= b && b <= 57) || (65 <= b && b <= 90) || (97 <= b && b <= 122) || b == 45
        || b == 46 || b == 95 || b == 126
}

pub open spec fn is_hex_digit(b: u8) -> bool {
    (48 <= b && b <= 57) || (65 <= b && b <= 70) || (97 <= b && b <= 102)
}

/// Numeric value of a hex digit byte.
pub open spec fn hex_value(b: u8) -> u8 {
    if 48 <= b && b <= 57 {
        (b - 48) as u8
    } else if 65 <= b && b <= 70 {
        (b - 65 + 10) as u8
    } else {
        (b - 97 + 10) as u8
    }
}

/// Uppercase hex digit byte for a value below 16.
pub open spec fn hex_char(d: u8) -> u8 {
    if d < 10 {
        (48 + d) as u8
    } else {
        (65 + d - 10) as u8
    }
}

/// Encoding of a single byte: itself, or a three-byte escape.
pub open spec fn encoded_byte(b: u8) -> Seq<u8> {
    if is_unreserved(b) {
        seq![b]
    } else {
        seq![37, hex_char(b / 16), hex_char(b % 16)]
    }
}

pub open spec fn percent_encoded(s: Seq<u8>) -> Seq<u8>
    decreases s.len(),
{
    if s.len() == 0 {
        Seq::empty()
    } else {
        encoded_byte(s[0]) + percent_encoded(s.skip(1))
    }
}

/// Total decoding: well-formed `%HH` escapes become one byte, malformed
/// escape sequences pass through unchanged.
pub open spec fn percent_decoded(s: Seq<u8>) -> Seq<u8>
    decreases s.len(),
{
    if s.len() == 0 {
        Seq::empty()
    } else if s[0] != 37 {
        seq![s[0]] + percent_decoded(s.skip(1))
    } else if s.len() >= 3 && is_hex_digit(s[1]) && is_hex_digit(s[2]) {
        seq![(hex_value(s[1]) * 16 + hex_value(s[2])) as u8] + percent_decoded(s.skip(3))
    } else if s.len() >= 3 && is_hex_digit(s[1]) {
        seq![37, s[1]] + percent_decoded(s.skip(2))
    } else if s.len() >= 2 && !is_hex_digit(s[1]) {
        seq![37] + percent_decoded(s.skip(1))
    } else {
        s
    }
}

proof fn lemma_percent_encoded_push(t: Seq<u8>, b: u8)
    ensures
        percent_encoded(t.push(b)) == percent_encoded(t) + encoded_byte(b),
    decreases t.len(),
{
    if t.len() == 0 {
        assert(t.push(b)[0] == b);
        assert(t.push(b).skip(1) =~= Seq::<u8>::empty());
        assert(percent_encoded(t.push(b)) == encoded_byte(b) + percent_encoded(
            Seq::<u8>::empty(),
        ));
        assert(percent_encoded(t.push(b)) =~= percent_encoded(t) + encoded_byte(b));
    } else {
        assert(t.push(b).skip(1) =~= t.skip(1).push(b));
        lemma_percent_encoded_push(t.skip(1), b);
        assert(percent_encoded(t.push(b)) =~= percent_encoded(t) + encoded_byte(b));
    }
}

fn is_hex(b: u8) -> (r: bool)
    ensures
        r == is_hex_digit(b),
{
    (48 <= b && b <= 57) || (65 <= b && b <= 70) || (97 <= b && b <= 102)
}

/// Percent-encode a byte string.
pub fn percent_encode(data: &[u8]) -> (r: Vec<u8>)
    ensures
        r@ == percent_encoded(data@),
{
    let mut out: Vec<u8> = Vec::new();
    let mut i: usize = 0;
    while i < data.len()
        invariant
            i <= data.len(),
            out@ == percent_encoded(data@.take(i as int)),
        decreases data.len() - i,
    {
        let b = data[i];
        proof {
            assert(data@.take(i + 1) =~= data@.take(i as int).push(data@[i as int]));
            lemma_percent_encoded_push(data@.take(i as int), data@[i as int]);
        }
        if (48 <= b && b <= 57) || (65 <= b && b <= 90) || (97 <= b && b <= 122) || b
            == 45 || b == 46 || b == 95 || b == 126 {
            out.push(b);
        } else {
            let hi = b / 16;
            let lo = b % 16;
            out.push(37);
            out.push(if hi < 10 { 48 + hi } else { 65 + (hi - 10) });
            out.push(if lo < 10 { 48 + lo } else { 65 + (lo - 10) });
            proof {
                assert(out@ =~= percent_encoded(data@.take(i + 1)));
            }
        }
        i += 1;
    }
    proof {
        assert(data@.take(data@.len() as int) =~= data@);
    }
    out
}

/// Percent-decode a byte string; malformed escapes pass through.
pub fn percent_decode(data: &[u8]) -> (r: Vec<u8>)
    ensures
        r@ == percent_decoded(data@),
{
    let mut out: Vec<u8> = Vec::new();
    let mut i: usize = 0;
    proof {
        assert(data@.skip(0) =~= data@);
        assert(Seq::<u8>::empty() + percent_decoded(data@) =~= percent_decoded(data@));
    }
    while i < data.len()
        invariant
            i <= data.len(),
            out@ + percent_decoded(data@.skip(i as int)) == percent_decoded(data@),
        decreases data.len() - i,
    {
        let ghost t = data@.skip(i as int);
        let b = data[i];
        if b != 37 {
            out.push(b);
            proof {
                assert(t.skip(1) =~= data@.skip(i + 1));
                assert(out@ + percent_decoded(data@.skip(i + 1)) =~= percent_decoded(data@));
            }
            i += 1;
        } else if data.len() - i >= 3 && is_hex(data[i + 1]) && is_hex(data[i + 2]) {
            let h1 = data[i + 1];
            let h2 = data[i + 2];
            let v1 = if h1 <= 57 {
                h1 - 48
            } else if h1 <= 70 {
                h1 - 65 + 10
            } else {
                h1 - 97 + 10
            };
            let v2 = if h2 <= 57 {
                h2 - 48
            } else if h2 <= 70 {
                h2 - 65 + 10
            } else {
                h2 - 97 + 10
            };
            out.push(v1 * 16 + v2);
            proof {
                assert(t[1] == data@[i + 1] && t[2] == data@[i + 2]);
                assert(v1 == hex_value(t[1]) && v2 == hex_value(t[2]));
                assert(t.skip(3) =~= data@.skip(i + 3));
                assert(out@ + percent_decoded(data@.skip(i + 3)) =~= percent_decoded(data@));
            }
            i += 3;
        } else if data.len() - i >= 3 && is_hex(data[i + 1]) {
            out.push(37);
            out.push(data[i + 1]);
            proof {
                assert(t.skip(2) =~= data@.skip(i + 2));
                assert(out@ + percent_decoded(data@.skip(i + 2)) =~= percent_decoded(data@));
            }
            i += 2;
        } else if data.len() - i >= 2 && !is_hex(data[i + 1]) {
            out.push(37);
            proof {
                assert(t.skip(1) =~= data@.skip(i + 1));
                assert(out@ + percent_decoded(data@.skip(i + 1)) =~= percent_decoded(data@));
            }
            i += 1;
        } else {
            // trailing "%" or "%h": emitted unchanged
            out.push(37);
            if i + 1 < data.len() {
                out.push(data[i + 1]);
            }
            proof {
                assert(percent_decoded(t) == t);
                assert(data@.skip(data@.len() as int) =~= Seq::<u8>::empty());
                assert(out@ + percent_decoded(data@.skip(data@.len() as int)) =~= percent_decoded(
                    data@,
                ));
            }
            i = data.len();
        }
    }
    proof {
        assert(data@.skip(data@.len() as int) =~= Seq::<u8>::empty());
        assert(out@ =~= percent_decoded(data@));
    }
    out
}

proof fn lemma_hex_char_round(d: u8)
    requires
        d < 16,
    ensures
        is_hex_digit(hex_char(d)),
        hex_value(hex_char(d)) == d,
        hex_char(d) != 37,
{
}

/// Decoding inverts encoding: the escapes an encoder emits are always
/// well formed, so the lossy decoder reads them back exactly.
pub proof fn lemma_percent_round_trip(s: Seq<u8>)
    ensures
        percent_decoded(percent_encoded(s)) == s,
    decreases s.len(),
{
    if s.len() == 0 {
    } else {
        let b = s[0];
        let rest = percent_encoded(s.skip(1));
        lemma_percent_round_trip(s.skip(1));
        let e = percent_encoded(s);
        if is_unreserved(b) {
            assert(e == seq![b] + rest);
            assert(e[0] == b && b != 37);
            assert(e.skip(1) =~= rest);
            assert(percent_decoded(e) =~= s);
        } else {
            assert(b / 16 < 16 && b % 16 < 16);
            lemma_hex_char_round(b / 16);
            lemma_hex_char_round(b % 16);
            let hi = hex_char(b / 16);
            let lo = hex_char(b % 16);
            assert(e == seq![37, hi, lo] + rest);
            assert(e[0] == 37 && e[1] == hi && e[2] == lo && e.len() >= 3);
            assert(e.skip(3) =~= rest);
            assert(hex_value(hi) * 16 + hex_value(lo) == b);
            assert(percent_decoded(e) =~= s);
        }
    }
}

} // verus!

verus! {

/// Encoded output is path safe: no byte of it is a `/` (47), a `,` (44)
/// or a `:` (58), so encoded segments can be joined by delimiters and
/// split back apart unambiguously.
pub proof fn lemma_percent_encoded_path_safe(s: Seq<u8>)
    ensures
        forall|i: int|
            0 <= i < percent_encoded(s).len() ==> {
                let b = #[trigger] percent_encoded(s)[i];
                b != 47 && b != 44 && b != 58
            },
    decreases s.len(),
{
    if s.len() > 0 {
        lemma_percent_encoded_path_safe(s.skip(1));
        assert forall|i: int| 0 <= i < percent_encoded(s).len() implies {
            let b = #[trigger] percent_encoded(s)[i];
            b != 47 && b != 44 && b != 58
        } by {
            let e = encoded_byte(s[0]);
            if i >= e.len() {
                assert(percent_encoded(s)[i] == percent_encoded(s.skip(1))[i - e.len()]);
            }
        }
    }
}

} // verus!
