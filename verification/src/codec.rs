//! Wire codec for the crawler's protocol channels.
//!
//! The identify and discovery channels carry messages in a
//! table-and-vector binary layout: every table or vector starts with a
//! 32-bit little-endian total size, followed for non-empty dynamic
//! layouts by a 32-bit offset per item.  Legacy peers additionally wrap
//! each message in a frame with a 32-bit big-endian length prefix.
//! Everything here is stated over the byte sequences and proved.

use vstd::prelude::*;

verus! {

use vstd::slice::slice_index_get;
use vstd::slice::slice_subrange;
use vstd::slice::slice_to_vec;

/// The 32-bit little-endian integer at position `i` of `s`.
pub open spec fn le32(s: Seq<u8>, i: int) -> int
    recommends
        0 <= i,
        i + 4 <= s.len(),
{
    s[i] + 256 * s[i + 1] + 65536 * s[i + 2] + 16777216 * s[i + 3]
}

/// The 32-bit big-endian integer at position `i` of `s`.
pub open spec fn be32(s: Seq<u8>, i: int) -> int
    recommends
        0 <= i,
        i + 4 <= s.len(),
{
    16777216 * s[i] + 65536 * s[i + 1] + 256 * s[i + 2] + s[i + 3]
}

/// The 64-bit little-endian integer at position `i` of `s`.
pub open spec fn le64(s: Seq<u8>, i: int) -> int
    recommends
        0 <= i,
        i + 8 <= s.len(),
{
    le32(s, i) + 4294967296 * le32(s, i + 4)
}

/// The four little-endian bytes of a 32-bit integer.
pub open spec fn u32_le_bytes(x: u32) -> Seq<u8> {
    seq![
        (x % 256) as u8,
        ((x / 256) % 256) as u8,
        ((x / 65536) % 256) as u8,
        ((x / 16777216) % 256) as u8,
    ]
}

/// The four big-endian bytes of a 32-bit integer.
pub open spec fn u32_be_bytes(x: u32) -> Seq<u8> {
    seq![
        ((x / 16777216) % 256) as u8,
        ((x / 65536) % 256) as u8,
        ((x / 256) % 256) as u8,
        (x % 256) as u8,
    ]
}

pub fn read_u32le(d: &[u8], i: usize) -> (r: u32)
    requires
        i + 4 <= d@.len() <= usize::MAX,
    ensures
        r == le32(d@, i as int),
{
    let b0 = *slice_index_get(d, i) as u32;
    let b1 = *slice_index_get(d, i + 1) as u32;
    let b2 = *slice_index_get(d, i + 2) as u32;
    let b3 = *slice_index_get(d, i + 3) as u32;
    b0 + 256 * b1 + 65536 * b2 + 16777216 * b3
}

pub fn read_u32be(d: &[u8], i: usize) -> (r: u32)
    requires
        i + 4 <= d@.len() <= usize::MAX,
    ensures
        r == be32(d@, i as int),
{
    let b0 = *slice_index_get(d, i) as u32;
    let b1 = *slice_index_get(d, i + 1) as u32;
    let b2 = *slice_index_get(d, i + 2) as u32;
    let b3 = *slice_index_get(d, i + 3) as u32;
    16777216 * b0 + 65536 * b1 + 256 * b2 + b3
}

pub fn read_u64le(d: &[u8], i: usize) -> (r: u64)
    requires
        i + 8 <= d@.len() <= usize::MAX,
    ensures
        r == le64(d@, i as int),
{
    let lo = read_u32le(d, i) as u64;
    let hi = read_u32le(d, i + 4) as u64;
    lo + 4294967296 * hi
}

fn push_u32le(out: &mut Vec<u8>, x: u32)
    ensures
        final(out)@ == old(out)@ + u32_le_bytes(x),
{
    out.push((x % 256) as u8);
    out.push(((x / 256) % 256) as u8);
    out.push(((x / 65536) % 256) as u8);
    out.push(((x / 16777216) % 256) as u8);
    proof {
        assert(final(out)@ =~= old(out)@ + u32_le_bytes(x));
    }
}

/// Frames larger than this are refused, as the legacy transport does.
pub const MAX_FRAME_LEN: usize = 8388608;

/// A legacy frame: 32-bit big-endian body length, then the body.
pub open spec fn spec_frame(body: Seq<u8>) -> Seq<u8>
    recommends
        body.len() <= 0xffff_ffff,
{
    u32_be_bytes(body.len() as u32) + body
}

/// Wrap a message body in the legacy length-prefixed frame.
pub fn frame_encode(body: &[u8]) -> (r: Vec<u8>)
    requires
        body@.len() <= MAX_FRAME_LEN,
    ensures
        r@ == spec_frame(body@),
{
    let n = body.len();
    let x = n as u32;
    let mut out: Vec<u8> = Vec::new();
    out.push(((x / 16777216) % 256) as u8);
    out.push(((x / 65536) % 256) as u8);
    out.push(((x / 256) % 256) as u8);
    out.push((x % 256) as u8);
    let mut i: usize = 0;
    while i < n
        invariant
            n == body@.len(),
            i <= n,
            out@ == u32_be_bytes(n as u32) + body@.subrange(0, i as int),
        decreases n - i,
    {
        out.push(*slice_index_get(body, i));
        proof {
            assert(out@ =~= u32_be_bytes(n as u32) + body@.subrange(0, i + 1));
        }
        i = i + 1;
    }
    proof {
        assert(body@.subrange(0, n as int) =~= body@);
    }
    out
}

/// Whether `d` starts with a well-formed legacy frame.
pub open spec fn frame_wf(d: Seq<u8>) -> bool {
    &&& d.len() >= 4
    &&& be32(d, 0) <= MAX_FRAME_LEN
    &&& 4 + be32(d, 0) <= d.len()
}

/// The body of the first frame of `d`.
pub open spec fn frame_body(d: Seq<u8>) -> Seq<u8>
    recommends
        frame_wf(d),
{
    d.subrange(4, 4 + be32(d, 0))
}

/// Read the first legacy frame of `d`; trailing bytes are ignored,
/// as the legacy transport's decoder ignores them.
pub fn frame_decode(d: &[u8]) -> (r: Option<Vec<u8>>)
    ensures
        frame_wf(d@) ==> (r matches Some(b) && b@ == frame_body(d@)),
        !frame_wf(d@) ==> r is None,
{
    if d.len() < 4 {
        return None;
    }
    let n = read_u32be(d, 0);
    if n > MAX_FRAME_LEN as u32 {
        return None;
    }
    let len = n as usize;
    if len > d.len() - 4 {
        return None;
    }
    let body = slice_subrange(d, 4, 4 + len);
    Some(slice_to_vec(body))
}

/// How many items the size-and-offsets header of `t` declares.
pub open spec fn hdr_count(t: Seq<u8>) -> int {
    if t.len() == 4 {
        0
    } else {
        (le32(t, 4) - 4) / 4
    }
}

/// Where item `i` of `t` starts; the end of the last item is the
/// total size.
pub open spec fn hdr_offset(t: Seq<u8>, i: int) -> int
    recommends
        0 <= i <= hdr_count(t),
{
    if i == hdr_count(t) {
        t.len() as int
    } else {
        le32(t, 4 + 4 * i)
    }
}

/// A well-formed size-and-offsets layout: the leading word is the total
/// size, the offsets start right after the header, do not decrease, and
/// stay within the total size.  Tables and dynamic vectors share it.
#[verifier::opaque]
pub open spec fn hdr_wf(t: Seq<u8>) -> bool {
    &&& t.len() >= 4
    &&& le32(t, 0) == t.len()
    &&& (t.len() > 4 ==> {
        &&& t.len() >= 8
        &&& hdr_count(t) >= 1
        &&& le32(t, 4) == 4 + 4 * hdr_count(t)
        &&& (forall|i: int|
            0 <= i < hdr_count(t) ==> #[trigger] hdr_offset(t, i) <= hdr_offset(t, i + 1))
        &&& (forall|i: int|
            0 <= i <= hdr_count(t) ==> 4 + 4 * hdr_count(t) <= #[trigger] hdr_offset(t, i)
                <= t.len())
    })
}

/// The bytes of item `i` of `t`.
pub open spec fn hdr_item(t: Seq<u8>, i: int) -> Seq<u8>
    recommends
        hdr_wf(t),
        0 <= i < hdr_count(t),
{
    t.subrange(hdr_offset(t, i), hdr_offset(t, i + 1))
}

/// Validate the whole size-and-offsets header of `d` and return the
/// declared item count.
#[verifier::rlimit(60)]
pub fn hdr_scan(d: &[u8]) -> (r: Option<usize>)
    ensures
        r matches Some(c) ==> hdr_wf(d@) && c == hdr_count(d@) && d@.len() <= usize::MAX,
        r is None ==> !hdr_wf(d@),
{
    proof {
        reveal(hdr_wf);
    }
    let n = d.len();
    if n < 4 {
        return None;
    }
    let total = read_u32le(d, 0) as usize;
    if total != n {
        return None;
    }
    if n == 4 {
        return Some(0);
    }
    if n < 8 {
        return None;
    }
    let first = read_u32le(d, 4) as usize;
    if first < 8 || first % 4 != 0 {
        assert(!hdr_wf(d@)) by {
            reveal(hdr_wf);
            if hdr_wf(d@) {
                assert(le32(d@, 4) == 4 + 4 * hdr_count(d@));
            }
        }
        return None;
    }
    let c = first / 4 - 1;
    assert(first == 4 + 4 * c);
    if first > n {
        assert(!hdr_wf(d@)) by {
            reveal(hdr_wf);
            if hdr_wf(d@) {
                assert(hdr_count(d@) == c);
                assert(4 + 4 * hdr_count(d@) <= hdr_offset(d@, 0) <= d@.len());
            }
        }
        return None;
    }
    assert(hdr_count(d@) == c);
    let ghost t = d@;
    let mut prev: usize = first;
    let mut j: usize = 1;
    while j < c
        invariant
            t == d@,
            n == d@.len(),
            n <= usize::MAX,
            4 < n,
            le32(t, 0) == n,
            8 <= first <= n,
            first == 4 + 4 * c,
            first == le32(t, 4),
            1 <= j <= c,
            hdr_count(t) == c,
            prev == le32(t, 4 + 4 * (j - 1)),
            forall|i: int| 0 <= i < j ==> first <= #[trigger] le32(t, 4 + 4 * i) <= n,
            forall|i: int|
                1 <= i < j ==> #[trigger] le32(t, 4 + 4 * i) >= le32(t, 4 + 4 * (i - 1)),
        decreases c - j,
    {
        let o = read_u32le(d, 4 + 4 * j) as usize;
        if o < prev || o > n {
            assert(!hdr_wf(t)) by {
                reveal(hdr_wf);
                if hdr_wf(t) {
                    assert(hdr_offset(t, j - 1) <= hdr_offset(t, j as int));
                    assert(4 + 4 * hdr_count(t) <= hdr_offset(t, j as int) <= t.len());
                    assert(hdr_offset(t, j - 1) == le32(t, 4 + 4 * (j - 1)));
                    assert(hdr_offset(t, j as int) == le32(t, 4 + 4 * j));
                }
            }
            return None;
        }
        prev = o;
        j = j + 1;
    }
    proof {
        assert(hdr_wf(t)) by {
            reveal(hdr_wf);
            assert forall|i: int| 0 <= i < hdr_count(t) implies #[trigger] hdr_offset(t, i)
                <= hdr_offset(t, i + 1) by {
                assert(first <= le32(t, 4 + 4 * i) <= n);
                if i + 1 < hdr_count(t) {
                    assert(le32(t, 4 + 4 * (i + 1)) >= le32(t, 4 + 4 * i));
                }
            }
            assert forall|i: int| 0 <= i <= hdr_count(t) implies 4 + 4 * hdr_count(t)
                <= #[trigger] hdr_offset(t, i) <= t.len() by {
                if i < hdr_count(t) {
                    assert(first <= le32(t, 4 + 4 * i) <= n);
                }
            }
        }
    }
    Some(c)
}

/// The byte range of item `i` of `d`, after validating the header.
pub fn hdr_field(d: &[u8], i: usize) -> (r: Option<(usize, usize)>)
    ensures
        r matches Some(p) ==> {
            &&& hdr_wf(d@)
            &&& i < hdr_count(d@)
            &&& p.0 == hdr_offset(d@, i as int)
            &&& p.1 == hdr_offset(d@, i + 1)
            &&& 4 <= p.0 <= p.1 <= d@.len() <= usize::MAX
        },
        r is None ==> !(hdr_wf(d@) && i < hdr_count(d@)),
{
    let c = match hdr_scan(d) {
        Some(c) => c,
        None => {
            return None;
        },
    };
    if i >= c {
        return None;
    }
    proof {
        reveal(hdr_wf);
    }
    assert(4 + 4 * hdr_count(d@) <= hdr_offset(d@, i as int) <= d@.len());
    assert(4 + 4 * hdr_count(d@) <= hdr_offset(d@, i + 1) <= d@.len());
    assert(hdr_offset(d@, i as int) <= hdr_offset(d@, i + 1));
    let a = read_u32le(d, 4 + 4 * i) as usize;
    let b = if i + 1 == c {
        d.len()
    } else {
        read_u32le(d, 4 + 4 * (i + 1)) as usize
    };
    Some((a, b))
}

/// A well-formed plain byte string: a 32-bit little-endian count, then
/// exactly that many bytes.
pub open spec fn bytes_wf(t: Seq<u8>) -> bool {
    &&& t.len() >= 4
    &&& le32(t, 0) == t.len() - 4
}

/// The content of a plain byte string.
pub open spec fn bytes_content(t: Seq<u8>) -> Seq<u8>
    recommends
        bytes_wf(t),
{
    t.subrange(4, t.len() as int)
}

/// Read the byte-string item spanning `[a, b)` of `d`.
pub fn read_bytes_item(d: &[u8], a: usize, b: usize) -> (r: Option<Vec<u8>>)
    requires
        a <= b <= d@.len() <= usize::MAX,
    ensures
        r matches Some(v) ==> bytes_wf(d@.subrange(a as int, b as int)) && v@ == bytes_content(
            d@.subrange(a as int, b as int),
        ),
        r is None ==> !bytes_wf(d@.subrange(a as int, b as int)),
{
    let s = slice_subrange(d, a, b);
    if b - a < 4 {
        return None;
    }
    let cnt = read_u32le(s, 0) as usize;
    if cnt != (b - a) - 4 {
        return None;
    }
    Some(slice_to_vec(slice_subrange(s, 4, b - a)))
}

/// The decoded content of an identify message: the peer's node name,
/// capability flags, and client version.
pub struct IdentifyView {
    pub name: Seq<u8>,
    pub flag: int,
    pub client_version: Seq<u8>,
}

/// Parse an identify message: an outer table whose third field wraps an
/// inner table of node name, 64-bit capability flags and client version.
pub open spec fn spec_identify(d: Seq<u8>) -> Option<IdentifyView> {
    if hdr_wf(d) && hdr_count(d) >= 3 {
        let f = hdr_item(d, 2);
        if bytes_wf(f) {
            let p = bytes_content(f);
            if hdr_wf(p) && hdr_count(p) >= 3 {
                let name_f = hdr_item(p, 0);
                let flag_f = hdr_item(p, 1);
                let ver_f = hdr_item(p, 2);
                if bytes_wf(name_f) && flag_f.len() == 8 && bytes_wf(ver_f) {
                    Some(
                        IdentifyView {
                            name: bytes_content(name_f),
                            flag: le64(flag_f, 0),
                            client_version: bytes_content(ver_f),
                        },
                    )
                } else {
                    None
                }
            } else {
                None
            }
        } else {
            None
        }
    } else {
        None
    }
}

/// The decoded content of an identify message, as executable data.
pub struct IdentifyPayload {
    pub name: Vec<u8>,
    pub flag: u64,
    pub client_version: Vec<u8>,
}

#[verifier::rlimit(60)]
pub fn parse_identify(d: &[u8]) -> (r: Option<IdentifyPayload>)
    ensures
        r matches Some(p) ==> (spec_identify(d@) matches Some(v) && p.name@ == v.name && p.flag
            == v.flag && p.client_version@ == v.client_version),
        r is None ==> spec_identify(d@) is None,
{
    let (a, b) = match hdr_field(d, 2) {
        Some(p) => p,
        None => {
            return None;
        },
    };
    let ident = match read_bytes_item(d, a, b) {
        Some(v) => v,
        None => {
            return None;
        },
    };
    let p = ident.as_slice();
    let ghost pv = bytes_content(hdr_item(d@, 2));
    assert(p@ == pv);
    let (a0, b0) = match hdr_field(p, 0) {
        Some(x) => x,
        None => {
            return None;
        },
    };
    let (a2, b2) = match hdr_field(p, 2) {
        Some(x) => x,
        None => {
            return None;
        },
    };
    let (a1, b1) = match hdr_field(p, 1) {
        Some(x) => x,
        None => {
            return None;
        },
    };
    let name = match read_bytes_item(p, a0, b0) {
        Some(v) => v,
        None => {
            return None;
        },
    };
    if b1 - a1 != 8 {
        assert(hdr_item(pv, 1).len() != 8);
        return None;
    }
    let flag = read_u64le(p, a1);
    proof {
        assert(hdr_item(pv, 1) =~= pv.subrange(a1 as int, b1 as int));
        assert(le64(hdr_item(pv, 1), 0) == le64(pv, a1 as int)) by {
            assert(hdr_item(pv, 1)[0] == pv[a1 as int]);
            assert(hdr_item(pv, 1)[1] == pv[a1 + 1]);
            assert(hdr_item(pv, 1)[2] == pv[a1 + 2]);
            assert(hdr_item(pv, 1)[3] == pv[a1 + 3]);
            assert(hdr_item(pv, 1)[4] == pv[a1 + 4]);
            assert(hdr_item(pv, 1)[5] == pv[a1 + 5]);
            assert(hdr_item(pv, 1)[6] == pv[a1 + 6]);
            assert(hdr_item(pv, 1)[7] == pv[a1 + 7]);
        }
    }
    let client_version = match read_bytes_item(p, a2, b2) {
        Some(v) => v,
        None => {
            return None;
        },
    };
    Some(IdentifyPayload { name, flag, client_version })
}

/// Parse a vector of byte strings; every item must be well formed.
pub open spec fn spec_bytes_vec(t: Seq<u8>) -> Option<Seq<Seq<u8>>> {
    if hdr_wf(t) && (forall|i: int| 0 <= i < hdr_count(t) ==> bytes_wf(#[trigger] hdr_item(t, i))) {
        Some(Seq::new(hdr_count(t) as nat, |i: int| bytes_content(hdr_item(t, i))))
    } else {
        None
    }
}

/// Parse one announced node: a table whose first field is the vector of
/// its addresses.
pub open spec fn spec_node(nd: Seq<u8>) -> Option<Seq<Seq<u8>>> {
    if hdr_wf(nd) && hdr_count(nd) >= 1 {
        spec_bytes_vec(hdr_item(nd, 0))
    } else {
        None
    }
}

/// Parse a vector of announced nodes; every node must be well formed.
pub open spec fn spec_nodes(t: Seq<u8>) -> Option<Seq<Seq<Seq<u8>>>> {
    if hdr_wf(t) && (forall|i: int|
        0 <= i < hdr_count(t) ==> (#[trigger] spec_node(hdr_item(t, i))) is Some) {
        Some(Seq::new(hdr_count(t) as nat, |i: int| spec_node(hdr_item(t, i)).unwrap()))
    } else {
        None
    }
}

/// A discovery message is either a request for neighbour addresses or a
/// neighbour list: per announced node, the byte strings of its addresses.
pub enum DiscoveryView {
    GetNodes,
    Nodes(Seq<Seq<Seq<u8>>>),
}

/// Parse a discovery message: an outer table whose only needed field is
/// a tagged union of the request and the neighbour list.
pub open spec fn spec_discovery(d: Seq<u8>) -> Option<DiscoveryView> {
    if hdr_wf(d) && hdr_count(d) >= 1 {
        let payload = hdr_item(d, 0);
        if payload.len() >= 4 {
            let body = payload.subrange(4, payload.len() as int);
            if le32(payload, 0) == 0 {
                Some(DiscoveryView::GetNodes)
            } else if le32(payload, 0) == 1 {
                if hdr_wf(body) && hdr_count(body) >= 2 {
                    match spec_nodes(hdr_item(body, 1)) {
                        Some(ns) => Some(DiscoveryView::Nodes(ns)),
                        None => None,
                    }
                } else {
                    None
                }
            } else {
                None
            }
        } else {
            None
        }
    } else {
        None
    }
}

/// The decoded content of a discovery message, as executable data.
pub enum DiscoveryPayload {
    GetNodes,
    Nodes(Vec<Vec<Vec<u8>>>),
}

/// How an executable decoding result corresponds to the parsed form.
pub open spec fn discovery_matches(r: Option<DiscoveryPayload>, s: Option<DiscoveryView>) -> bool {
    match r {
        None => s is None,
        Some(DiscoveryPayload::GetNodes) => s == Some(DiscoveryView::GetNodes),
        Some(DiscoveryPayload::Nodes(v)) => (s matches Some(DiscoveryView::Nodes(ns))
            && v.deep_view() == ns),
    }
}

#[verifier::rlimit(60)]
fn parse_bytes_vec(t: &[u8]) -> (r: Option<Vec<Vec<u8>>>)
    ensures
        r matches Some(v) ==> (spec_bytes_vec(t@) matches Some(s) && v.deep_view() == s),
        r is None ==> spec_bytes_vec(t@) is None,
{
    let c = match hdr_scan(t) {
        Some(c) => c,
        None => {
            return None;
        },
    };
    let mut out: Vec<Vec<u8>> = Vec::new();
    let mut i: usize = 0;
    while i < c
        invariant
            hdr_wf(t@),
            c == hdr_count(t@),
            i <= c,
            out@.len() == i,
            forall|j: int| 0 <= j < i ==> bytes_wf(#[trigger] hdr_item(t@, j)),
            forall|j: int| 0 <= j < i ==> out@[j]@ == bytes_content(#[trigger] hdr_item(t@, j)),
        decreases c - i,
    {
        let (a, b) = match hdr_field(t, i) {
            Some(x) => x,
            None => {
                return None;
            },
        };
        let item = match read_bytes_item(t, a, b) {
            Some(v) => v,
            None => {
                assert(!bytes_wf(hdr_item(t@, i as int)));
                return None;
            },
        };
        out.push(item);
        i = i + 1;
    }
    proof {
        let s = Seq::new(hdr_count(t@) as nat, |j: int| bytes_content(hdr_item(t@, j)));
        assert(out.deep_view() =~~= s);
    }
    Some(out)
}

fn parse_node(nd: &[u8]) -> (r: Option<Vec<Vec<u8>>>)
    ensures
        r matches Some(v) ==> (spec_node(nd@) matches Some(s) && v.deep_view() == s),
        r is None ==> spec_node(nd@) is None,
{
    let (a, b) = match hdr_field(nd, 0) {
        Some(x) => x,
        None => {
            return None;
        },
    };
    let addrs = slice_subrange(nd, a, b);
    parse_bytes_vec(addrs)
}

#[verifier::rlimit(60)]
pub fn parse_discovery(d: &[u8]) -> (r: Option<DiscoveryPayload>)
    ensures
        discovery_matches(r, spec_discovery(d@)),
{
    let (a, b) = match hdr_field(d, 0) {
        Some(p) => p,
        None => {
            return None;
        },
    };
    let payload = slice_subrange(d, a, b);
    if payload.len() < 4 {
        return None;
    }
    let id = read_u32le(payload, 0);
    if id == 0 {
        return Some(DiscoveryPayload::GetNodes);
    }
    if id != 1 {
        return None;
    }
    let body = slice_subrange(payload, 4, payload.len());
    let (ia, ib) = match hdr_field(body, 1) {
        Some(p) => p,
        None => {
            return None;
        },
    };
    let items = slice_subrange(body, ia, ib);
    let c = match hdr_scan(items) {
        Some(c) => c,
        None => {
            return None;
        },
    };
    let mut out: Vec<Vec<Vec<u8>>> = Vec::new();
    let mut i: usize = 0;
    while i < c
        invariant
            hdr_wf(items@),
            c == hdr_count(items@),
            items@ == hdr_item(body@, 1),
            body@ == payload@.subrange(4, payload@.len() as int),
            payload@ == hdr_item(d@, 0),
            hdr_wf(d@),
            hdr_count(d@) >= 1,
            payload@.len() >= 4,
            le32(payload@, 0) == 1,
            hdr_wf(body@),
            hdr_count(body@) >= 2,
            i <= c,
            out@.len() == i,
            forall|j: int| 0 <= j < i ==> (#[trigger] spec_node(hdr_item(items@, j))) is Some,
            forall|j: int|
                0 <= j < i ==> out@[j].deep_view() == spec_node(
                    #[trigger] hdr_item(items@, j),
                ).unwrap(),
        decreases c - i,
    {
        let (na, nb) = match hdr_field(items, i) {
            Some(x) => x,
            None => {
                return None;
            },
        };
        let node = slice_subrange(items, na, nb);
        let parsed = match parse_node(node) {
            Some(v) => v,
            None => {
                assert(spec_node(hdr_item(items@, i as int)) is None);
                return None;
            },
        };
        out.push(parsed);
        i = i + 1;
    }
    proof {
        let s = Seq::new(hdr_count(items@) as nat, |j: int| spec_node(hdr_item(items@, j)).unwrap());
        assert(spec_nodes(items@) == Some(s));
        assert(out.deep_view() =~~= s);
    }
    Some(DiscoveryPayload::Nodes(out))
}

/// One decode with the legacy fallback: a message that does not parse
/// raw is read once more as the body of a legacy frame.
pub open spec fn spec_discovery_with_fallback(d: Seq<u8>) -> Option<DiscoveryView> {
    match spec_discovery(d) {
        Some(p) => Some(p),
        None => if frame_wf(d) {
            spec_discovery(frame_body(d))
        } else {
            None
        },
    }
}

/// The request-for-neighbours message, with the protocol version and the
/// wanted node count of the request.
pub open spec fn spec_get_nodes_message(version: u32, count: u32) -> Seq<u8> {
    seq![
        36u8, 0, 0, 0, 8, 0, 0, 0, 0, 0, 0, 0, 24, 0, 0, 0, 16, 0, 0, 0, 20, 0, 0, 0, 24, 0, 0, 0,
    ] + u32_le_bytes(version) + u32_le_bytes(count)
}

/// Encode the request for neighbour addresses that the crawler sends
/// when the discovery channel opens.
pub fn encode_get_nodes(version: u32, count: u32) -> (r: Vec<u8>)
    ensures
        r@ == spec_get_nodes_message(version, count),
{
    let mut out: Vec<u8> = Vec::new();
    push_u32le(&mut out, 36);
    push_u32le(&mut out, 8);
    push_u32le(&mut out, 0);
    push_u32le(&mut out, 24);
    push_u32le(&mut out, 16);
    push_u32le(&mut out, 20);
    push_u32le(&mut out, 24);
    push_u32le(&mut out, version);
    push_u32le(&mut out, count);
    proof {
        assert(out@ =~= spec_get_nodes_message(version, count));
    }
    out
}

} // verus!
