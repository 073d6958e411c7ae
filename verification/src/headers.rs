//! The outbound header policy.
//!
//! The outbound set starts from the declared headers (decoded from the
//! token) and adds each native header whose lowercased name is neither on
//! the exclusion list `host`, `referer`, `origin` nor already present.
//! Declared headers therefore always win, and the local origin's own
//! `Host`, `Referer` and `Origin` never reach the remote target.

use crate::valid::{check_header_name, check_header_value, header_name_ok, header_value_ok};
use vstd::prelude::*;

verus! {

/// ASCII lowercase of one byte.
pub open spec fn lower_byte(b: u8) -> u8 {
    if 65 <= b && b <= 90 {
        (b + 32) as u8
    } else {
        b
    }
}

/// ASCII lowercase of a byte string; header names compare case-insensitively.
pub open spec fn lower(s: Seq<u8>) -> Seq<u8> {
    s.map_values(|b: u8| lower_byte(b))
}

/// The bytes of `host`.
pub open spec fn host_name() -> Seq<u8> {
    seq![104u8, 111u8, 115u8, 116u8]
}

/// The bytes of `referer`.
pub open spec fn referer_name() -> Seq<u8> {
    seq![114u8, 101u8, 102u8, 101u8, 114u8, 101u8, 114u8]
}

/// The bytes of `origin`.
pub open spec fn origin_name() -> Seq<u8> {
    seq![111u8, 114u8, 105u8, 103u8, 105u8, 110u8]
}

/// The bytes of `connection`.
pub open spec fn connection_name() -> Seq<u8> {
    seq![99u8, 111u8, 110u8, 110u8, 101u8, 99u8, 116u8, 105u8, 111u8, 110u8]
}

/// Names that must reflect the outbound target, never the local proxy's
/// origin: they are never copied from the native request.
pub open spec fn is_excluded_name(n: Seq<u8>) -> bool {
    lower(n) == host_name() || lower(n) == referer_name() || lower(n) == origin_name()
}

/// Whether some pair in `hs` carries the name `n`, case-insensitively.
pub open spec fn name_in(hs: Seq<(Seq<u8>, Seq<u8>)>, n: Seq<u8>) -> bool {
    exists|k: int| 0 <= k < hs.len() && lower(#[trigger] hs[k].0) == lower(n)
}

/// The merged outbound set: the declared pairs, then each native pair
/// whose name is neither excluded nor already present in the set grown so
/// far (so of two native pairs with one name, the first wins).
pub open spec fn merge_spec(
    declared: Seq<(Seq<u8>, Seq<u8>)>,
    native: Seq<(Seq<u8>, Seq<u8>)>,
) -> Seq<(Seq<u8>, Seq<u8>)>
    decreases native.len(),
{
    if native.len() == 0 {
        declared
    } else {
        let h = native[0];
        let base = if !is_excluded_name(h.0) && !name_in(declared, h.0) {
            declared.push(h)
        } else {
            declared
        };
        merge_spec(base, native.skip(1))
    }
}

// ---------------------------------------------------------------------
// executable policy
// ---------------------------------------------------------------------

/// Byte-for-byte equality of two byte strings.
pub fn bytes_eq(a: &[u8], b: &[u8]) -> (r: bool)
    ensures
        r == (a@ == b@),
{
    if a.len() != b.len() {
        proof {
            assert(a@.len() != b@.len());
        }
        return false;
    }
    let mut i: usize = 0;
    while i < a.len()
        invariant
            i <= a.len() == b.len(),
            forall|j: int| 0 <= j < i ==> a@[j] == b@[j],
        decreases a.len() - i,
    {
        if a[i] != b[i] {
            return false;
        }
        i += 1;
    }
    proof {
        assert(a@ =~= b@);
    }
    true
}

/// ASCII-lowercase a byte string.
pub fn lower_bytes(s: &[u8]) -> (r: Vec<u8>)
    ensures
        r@ == lower(s@),
{
    let mut out: Vec<u8> = Vec::new();
    let mut i: usize = 0;
    while i < s.len()
        invariant
            i <= s.len(),
            out@.len() == i,
            forall|j: int| 0 <= j < i ==> out@[j] == lower_byte(s@[j]),
        decreases s.len() - i,
    {
        let b = s[i];
        if 65 <= b && b <= 90 {
            out.push(b + 32);
        } else {
            out.push(b);
        }
        i += 1;
    }
    proof {
        assert(out@ =~= lower(s@));
    }
    out
}

fn host_bytes() -> (r: Vec<u8>)
    ensures
        r@ == host_name(),
{
    let mut v: Vec<u8> = Vec::new();
    v.push(104);
    v.push(111);
    v.push(115);
    v.push(116);
    proof {
        assert(v@ =~= host_name());
    }
    v
}

fn referer_bytes() -> (r: Vec<u8>)
    ensures
        r@ == referer_name(),
{
    let mut v: Vec<u8> = Vec::new();
    v.push(114);
    v.push(101);
    v.push(102);
    v.push(101);
    v.push(114);
    v.push(101);
    v.push(114);
    proof {
        assert(v@ =~= referer_name());
    }
    v
}

fn origin_bytes() -> (r: Vec<u8>)
    ensures
        r@ == origin_name(),
{
    let mut v: Vec<u8> = Vec::new();
    v.push(111);
    v.push(114);
    v.push(105);
    v.push(103);
    v.push(105);
    v.push(110);
    proof {
        assert(v@ =~= origin_name());
    }
    v
}

fn connection_bytes() -> (r: Vec<u8>)
    ensures
        r@ == connection_name(),
{
    let mut v: Vec<u8> = Vec::new();
    v.push(99);
    v.push(111);
    v.push(110);
    v.push(110);
    v.push(101);
    v.push(99);
    v.push(116);
    v.push(105);
    v.push(111);
    v.push(110);
    proof {
        assert(v@ =~= connection_name());
    }
    v
}

/// Whether a header name is on the exclusion list.
pub fn is_excluded(name: &[u8]) -> (r: bool)
    ensures
        r == is_excluded_name(name@),
{
    let low = lower_bytes(name);
    let h = host_bytes();
    let rf = referer_bytes();
    let o = origin_bytes();
    bytes_eq(low.as_slice(), h.as_slice()) || bytes_eq(low.as_slice(), rf.as_slice()) || bytes_eq(
        low.as_slice(),
        o.as_slice(),
    )
}

/// Whether the set already carries this name, case-insensitively.
pub fn contains_name(hs: &Vec<(Vec<u8>, Vec<u8>)>, n: &[u8]) -> (r: bool)
    ensures
        r == name_in(hs.deep_view(), n@),
{
    let low_n = lower_bytes(n);
    let ghost hv = hs.deep_view();
    let mut k: usize = 0;
    while k < hs.len()
        invariant
            k <= hs.len(),
            hv == hs.deep_view(),
            hv.len() == hs.len(),
            forall|j: int| 0 <= j < hs.len() ==> #[trigger] hv[j] == (hs[j].0@, hs[j].1@),
            low_n@ == lower(n@),
            forall|j: int| 0 <= j < k ==> lower(#[trigger] hv[j].0) != lower(n@),
        decreases hs.len() - k,
    {
        let low_k = lower_bytes(hs[k].0.as_slice());
        if bytes_eq(low_k.as_slice(), low_n.as_slice()) {
            proof {
                assert(lower(hv[k as int].0) == lower(n@));
            }
            return true;
        }
        k += 1;
    }
    false
}

/// The deep view of a header list is the pairwise view of its entries.
pub proof fn lemma_pairs_deep_view(v: &Vec<(Vec<u8>, Vec<u8>)>)
    ensures
        v.deep_view().len() == v@.len(),
        forall|j: int| 0 <= j < v@.len() ==> #[trigger] v.deep_view()[j] == (v@[j].0@, v@[j].1@),
{
    assert forall|j: int| 0 <= j < v@.len() implies #[trigger] v.deep_view()[j] == (
        v@[j].0@,
        v@[j].1@,
    ) by {
        assert(v@[j].0.deep_view() =~= v@[j].0@);
        assert(v@[j].1.deep_view() =~= v@[j].1@);
    }
}

/// Copy a header list.
pub fn clone_pairs(src: &Vec<(Vec<u8>, Vec<u8>)>) -> (r: Vec<(Vec<u8>, Vec<u8>)>)
    ensures
        r.deep_view() == src.deep_view(),
{
    let ghost sv = src.deep_view();
    let mut out: Vec<(Vec<u8>, Vec<u8>)> = Vec::new();
    let mut k: usize = 0;
    proof {
        assert(out.deep_view() =~= sv.take(0));
    }
    while k < src.len()
        invariant
            k <= src.len(),
            sv == src.deep_view(),
            sv.len() == src.len(),
            forall|j: int| 0 <= j < src.len() ==> #[trigger] sv[j] == (src[j].0@, src[j].1@),
            out.deep_view() == sv.take(k as int),
        decreases src.len() - k,
    {
        let ghost pre = out.deep_view();
        let name = vstd::slice::slice_to_vec(src[k].0.as_slice());
        let value = vstd::slice::slice_to_vec(src[k].1.as_slice());
        out.push((name, value));
        proof {
            lemma_pairs_deep_view(&out);
            assert(out.deep_view() =~= pre.push(sv[k as int]));
            assert(out.deep_view() =~= sv.take(k + 1));
        }
        k += 1;
    }
    proof {
        assert(sv.take(sv.len() as int) =~= sv);
    }
    out
}

/// Merge native headers into the declared set under the exclusion list
/// and declared-wins precedence.
pub fn merge_headers(
    declared: &Vec<(Vec<u8>, Vec<u8>)>,
    native: &Vec<(Vec<u8>, Vec<u8>)>,
) -> (r: Vec<(Vec<u8>, Vec<u8>)>)
    ensures
        r.deep_view() == merge_spec(declared.deep_view(), native.deep_view()),
{
    let ghost dv = declared.deep_view();
    let ghost nv = native.deep_view();
    let mut out = clone_pairs(declared);
    let mut k: usize = 0;
    proof {
        assert(nv.skip(0) =~= nv);
    }
    while k < native.len()
        invariant
            k <= native.len(),
            nv == native.deep_view(),
            nv.len() == native.len(),
            forall|j: int| 0 <= j < native.len() ==> #[trigger] nv[j] == (native[j].0@, native[j].1@),
            merge_spec(out.deep_view(), nv.skip(k as int)) == merge_spec(dv, nv),
        decreases native.len() - k,
    {
        let ghost pre = out.deep_view();
        let ghost t = nv.skip(k as int);
        let name = &native[k].0;
        let excluded = is_excluded(name.as_slice());
        let present = contains_name(&out, name.as_slice());
        if !excluded && !present {
            let n2 = vstd::slice::slice_to_vec(name.as_slice());
            let v2 = vstd::slice::slice_to_vec(native[k].1.as_slice());
            out.push((n2, v2));
            proof {
                lemma_pairs_deep_view(&out);
                assert(out.deep_view() =~= pre.push(nv[k as int]));
            }
        }
        proof {
            assert(t[0] == nv[k as int]);
            assert(t.skip(1) =~= nv.skip(k + 1));
            assert(merge_spec(out.deep_view(), nv.skip(k + 1)) == merge_spec(pre, t));
        }
        k += 1;
    }
    proof {
        assert(nv.skip(nv.len() as int) =~= Seq::<(Seq<u8>, Seq<u8>)>::empty());
    }
    out
}

} // verus!

verus! {

// ---------------------------------------------------------------------
// laws of the merge policy
// ---------------------------------------------------------------------

proof fn lemma_name_in_push(hs: Seq<(Seq<u8>, Seq<u8>)>, h: (Seq<u8>, Seq<u8>), n: Seq<u8>)
    ensures
        name_in(hs, n) ==> name_in(hs.push(h), n),
{
    if name_in(hs, n) {
        let k = choose|k: int| 0 <= k < hs.len() && lower(#[trigger] hs[k].0) == lower(n);
        assert(hs.push(h)[k] == hs[k]);
        assert(name_in(hs.push(h), n));
    }
}

/// The merged set keeps the declared pairs verbatim as its prefix, and
/// every pair past them comes from the native list, carries no excluded
/// name, and carries no name the declared set already had.
pub proof fn lemma_merge_members(declared: Seq<(Seq<u8>, Seq<u8>)>, native: Seq<(Seq<u8>, Seq<u8>)>)
    ensures
        merge_spec(declared, native).len() >= declared.len(),
        merge_spec(declared, native).take(declared.len() as int) == declared,
        forall|j: int|
            declared.len() <= j < merge_spec(declared, native).len() ==> {
                let e = #[trigger] merge_spec(declared, native)[j];
                native.contains(e) && !is_excluded_name(e.0) && !name_in(declared, e.0)
            },
    decreases native.len(),
{
    let m = merge_spec(declared, native);
    if native.len() == 0 {
        assert(m.take(declared.len() as int) =~= declared);
    } else {
        let h = native[0];
        let picked = !is_excluded_name(h.0) && !name_in(declared, h.0);
        let base = if picked {
            declared.push(h)
        } else {
            declared
        };
        lemma_merge_members(base, native.skip(1));
        assert(m == merge_spec(base, native.skip(1)));
        assert(base.take(declared.len() as int) =~= declared);
        assert(m.take(declared.len() as int) =~= m.take(base.len() as int).take(
            declared.len() as int,
        ));
        assert forall|j: int| declared.len() <= j < m.len() implies {
            let e = #[trigger] m[j];
            native.contains(e) && !is_excluded_name(e.0) && !name_in(declared, e.0)
        } by {
            let e = m[j];
            if j < base.len() {
                // only possible when the head was picked: e is the head itself
                assert(picked && j == declared.len());
                assert(m.take(base.len() as int)[j] == e);
                assert(base[j] == e);
                assert(e == h);
                assert(native.contains(e));
            } else {
                // e was added from the tail of the native list
                assert(native.skip(1).contains(e));
                let i = choose|i: int| 0 <= i < native.skip(1).len() && native.skip(1)[i] == e;
                assert(native[i + 1] == e);
                assert(native.contains(e));
                assert(!name_in(base, e.0));
                lemma_name_in_push(declared, h, e.0);
                if picked {
                    assert(!name_in(declared, e.0));
                }
            }
        }
    }
}

/// Declared headers always win: when the declared set already carries a
/// native header's name, no pair with that name is added to the merged
/// set; the declared pair is the only carrier of that name beyond what
/// the declared list itself holds.
pub proof fn lemma_declared_precedence(
    declared: Seq<(Seq<u8>, Seq<u8>)>,
    native: Seq<(Seq<u8>, Seq<u8>)>,
    n: Seq<u8>,
)
    requires
        name_in(declared, n),
    ensures
        forall|j: int|
            declared.len() <= j < merge_spec(declared, native).len() ==> lower(
                #[trigger] merge_spec(declared, native)[j].0,
            ) != lower(n),
{
    lemma_merge_members(declared, native);
    let m = merge_spec(declared, native);
    assert forall|j: int| declared.len() <= j < m.len() implies lower(#[trigger] m[j].0) != lower(
        n,
    ) by {
        if lower(m[j].0) == lower(n) {
            let k = choose|k: int|
                0 <= k < declared.len() && lower(#[trigger] declared[k].0) == lower(n);
            assert(name_in(declared, m[j].0));
        }
    }
}

/// The exclusion invariant: every merged pair either is a declared pair
/// or came from the native list with a name outside the exclusion list;
/// `Host`, `Referer` and `Origin` are never copied over from the native
/// request.
pub proof fn lemma_exclusion_invariant(
    declared: Seq<(Seq<u8>, Seq<u8>)>,
    native: Seq<(Seq<u8>, Seq<u8>)>,
)
    ensures
        forall|j: int|
            0 <= j < merge_spec(declared, native).len() ==> {
                let e = #[trigger] merge_spec(declared, native)[j];
                declared.contains(e) || (native.contains(e) && !is_excluded_name(e.0))
            },
{
    lemma_merge_members(declared, native);
    let m = merge_spec(declared, native);
    assert forall|j: int| 0 <= j < m.len() implies {
        let e = #[trigger] m[j];
        declared.contains(e) || (native.contains(e) && !is_excluded_name(e.0))
    } by {
        let e = m[j];
        if j < declared.len() {
            assert(m.take(declared.len() as int)[j] == e);
            assert(declared[j] == e);
            assert(declared.contains(e));
        }
    }
}

// ---------------------------------------------------------------------
// validity filtering
// ---------------------------------------------------------------------

/// A pair both of whose sides are valid HTTP header bytes.
pub open spec fn pair_valid(p: (Seq<u8>, Seq<u8>)) -> bool {
    header_name_ok(p.0) && header_value_ok(p.1)
}

/// The declared pairs that survive validation; a pair that is no valid
/// header is silently dropped, never a reason to fail the request.
pub open spec fn sanitize_spec(hs: Seq<(Seq<u8>, Seq<u8>)>) -> Seq<(Seq<u8>, Seq<u8>)> {
    hs.filter(|p: (Seq<u8>, Seq<u8>)| pair_valid(p))
}

/// Drop pairs that are no valid HTTP headers.
pub fn sanitize_headers(hs: &Vec<(Vec<u8>, Vec<u8>)>) -> (r: Vec<(Vec<u8>, Vec<u8>)>)
    ensures
        r.deep_view() == sanitize_spec(hs.deep_view()),
{
    let ghost hv = hs.deep_view();
    let ghost pred = |p: (Seq<u8>, Seq<u8>)| pair_valid(p);
    let mut out: Vec<(Vec<u8>, Vec<u8>)> = Vec::new();
    let mut k: usize = 0;
    proof {
        reveal(Seq::filter);
        assert(out.deep_view() =~= hv.take(0).filter(pred));
    }
    while k < hs.len()
        invariant
            k <= hs.len(),
            hv == hs.deep_view(),
            hv.len() == hs.len(),
            forall|j: int| 0 <= j < hs.len() ==> #[trigger] hv[j] == (hs[j].0@, hs[j].1@),
            out.deep_view() == hv.take(k as int).filter(pred),
            pred == (|p: (Seq<u8>, Seq<u8>)| pair_valid(p)),
        decreases hs.len() - k,
    {
        let ghost pre = out.deep_view();
        let name_ok = check_header_name(hs[k].0.as_slice());
        let value_ok = check_header_value(hs[k].1.as_slice());
        if name_ok && value_ok {
            let n2 = vstd::slice::slice_to_vec(hs[k].0.as_slice());
            let v2 = vstd::slice::slice_to_vec(hs[k].1.as_slice());
            out.push((n2, v2));
            proof {
                lemma_pairs_deep_view(&out);
                assert(out.deep_view() =~= pre.push(hv[k as int]));
            }
        }
        proof {
            reveal(Seq::filter);
            let w = hv.take(k + 1);
            assert(w.drop_last() =~= hv.take(k as int));
            assert(w.last() == hv[k as int]);
            assert(out.deep_view() =~= hv.take(k + 1).filter(pred));
        }
        k += 1;
    }
    proof {
        assert(hv.take(hv.len() as int) =~= hv);
    }
    out
}

/// What a response header must satisfy to be forwarded back: valid
/// header bytes, and not the hop-scoped `Connection` header.
pub open spec fn keep_response_header(p: (Seq<u8>, Seq<u8>)) -> bool {
    pair_valid(p) && lower(p.0) != connection_name()
}

/// The response headers handed back to the caller.
pub open spec fn response_headers_spec(hs: Seq<(Seq<u8>, Seq<u8>)>) -> Seq<(Seq<u8>, Seq<u8>)> {
    hs.filter(|p: (Seq<u8>, Seq<u8>)| keep_response_header(p))
}

/// Pass upstream response headers through, dropping any that fail to
/// parse as header bytes and stripping the connection-scoped `Connection`
/// header.
pub fn filter_response_headers(upstream: &Vec<(Vec<u8>, Vec<u8>)>) -> (r: Vec<(Vec<u8>, Vec<u8>)>)
    ensures
        r.deep_view() == response_headers_spec(upstream.deep_view()),
{
    let ghost hv = upstream.deep_view();
    let ghost pred = |p: (Seq<u8>, Seq<u8>)| keep_response_header(p);
    let conn = connection_bytes();
    let mut out: Vec<(Vec<u8>, Vec<u8>)> = Vec::new();
    let mut k: usize = 0;
    proof {
        reveal(Seq::filter);
        assert(out.deep_view() =~= hv.take(0).filter(pred));
    }
    while k < upstream.len()
        invariant
            k <= upstream.len(),
            hv == upstream.deep_view(),
            hv.len() == upstream.len(),
            forall|j: int|
                0 <= j < upstream.len() ==> #[trigger] hv[j] == (upstream[j].0@, upstream[j].1@),
            conn@ == connection_name(),
            out.deep_view() == hv.take(k as int).filter(pred),
            pred == (|p: (Seq<u8>, Seq<u8>)| keep_response_header(p)),
        decreases upstream.len() - k,
    {
        let ghost pre = out.deep_view();
        let name_ok = check_header_name(upstream[k].0.as_slice());
        let value_ok = check_header_value(upstream[k].1.as_slice());
        let low = lower_bytes(upstream[k].0.as_slice());
        let is_conn = bytes_eq(low.as_slice(), conn.as_slice());
        if name_ok && value_ok && !is_conn {
            let n2 = vstd::slice::slice_to_vec(upstream[k].0.as_slice());
            let v2 = vstd::slice::slice_to_vec(upstream[k].1.as_slice());
            out.push((n2, v2));
            proof {
                lemma_pairs_deep_view(&out);
                assert(out.deep_view() =~= pre.push(hv[k as int]));
            }
        }
        proof {
            reveal(Seq::filter);
            let w = hv.take(k + 1);
            assert(w.drop_last() =~= hv.take(k as int));
            assert(w.last() == hv[k as int]);
            assert(out.deep_view() =~= hv.take(k + 1).filter(pred));
        }
        k += 1;
    }
    proof {
        assert(hv.take(hv.len() as int) =~= hv);
    }
    out
}

} // verus!
