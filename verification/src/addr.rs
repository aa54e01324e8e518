//! The crawler's view of a network address.
//!
//! An address travels on the wire in its binary encoding and lives in
//! the crawler as its text form, `/ip4/1.2.3.4/tcp/8114/p2p/Qm...`:
//! transport, host, port and an optional peer identity.  The crawler
//! reads two pieces out of the text: the host component, which keys the
//! peer ledger, and the trailing peer identity.

use vstd::prelude::*;

verus! {

/// The first `/` of `s` at or after `from`, or the length of `s`.
pub open spec fn slash_from(s: Seq<char>, from: int) -> int
    decreases s.len() - from,
{
    if from >= s.len() || from < 0 {
        s.len() as int
    } else if s[from] == '/' {
        from
    } else {
        slash_from(s, from + 1)
    }
}

pub proof fn lemma_slash_from(s: Seq<char>, from: int)
    requires
        0 <= from <= s.len(),
    ensures
        from <= slash_from(s, from) <= s.len(),
        slash_from(s, from) < s.len() ==> s[slash_from(s, from)] == '/',
    decreases s.len() - from,
{
    if from < s.len() && s[from] != '/' {
        lemma_slash_from(s, from + 1);
    }
}

/// The host component of an address text: what stands between the
/// second and the third `/`.
pub open spec fn spec_host_of(s: Seq<char>) -> Seq<char> {
    let a = slash_from(s, 0);
    let b = slash_from(s, a + 1);
    let c = slash_from(s, b + 1);
    if b < s.len() {
        s.subrange(b + 1, c)
    } else {
        Seq::empty()
    }
}

fn find_slash(s: &str, from: usize) -> (r: usize)
    requires
        from <= s@.len(),
    ensures
        r == slash_from(s@, from as int),
        from <= r <= s@.len(),
{
    proof {
        lemma_slash_from(s@, from as int);
    }
    let n = s.unicode_len();
    let mut i: usize = from;
    while i < n
        invariant
            n == s@.len(),
            from <= i <= n,
            slash_from(s@, from as int) == slash_from(s@, i as int),
        decreases n - i,
    {
        if s.get_char(i) == '/' {
            return i;
        }
        i = i + 1;
    }
    n
}

/// Extract the host component of an address text, the key of the peer
/// ledger.
pub fn host_of_addr(addr: &str) -> (r: String)
    ensures
        r@ == spec_host_of(addr@),
{
    let n = addr.unicode_len();
    let a = find_slash(addr, 0);
    let b = if a >= n {
        proof {
            assert(slash_from(addr@, a + 1) == n);
        }
        n
    } else {
        find_slash(addr, a + 1)
    };
    if b >= n {
        return String::new();
    }
    let c = find_slash(addr, b + 1);
    proof {
        lemma_slash_from(addr@, b + 1);
    }
    addr.substring_char(b + 1, c).to_owned()
}

/// The separator that announces a peer identity inside an address text.
pub open spec fn p2p_pat() -> Seq<char> {
    seq!['/', 'p', '2', 'p', '/']
}

/// The start of the last occurrence of the peer-identity separator at
/// or before `hi`, or `-1`.
pub open spec fn last_p2p_upto(s: Seq<char>, hi: int) -> int
    decreases hi + 1,
{
    if hi < 0 {
        -1
    } else if s.subrange(hi, hi + 5) == p2p_pat() {
        hi
    } else {
        last_p2p_upto(s, hi - 1)
    }
}

/// The peer identity of an address text: what follows the last
/// `/p2p/` separator, or nothing when the address carries none.
pub open spec fn spec_peer_id(s: Seq<char>) -> Seq<char> {
    if s.len() < 5 {
        Seq::empty()
    } else {
        let j = last_p2p_upto(s, s.len() - 5);
        if j >= 0 {
            s.subrange(j + 5, s.len() as int)
        } else {
            Seq::empty()
        }
    }
}

fn p2p_at(s: &str, j: usize) -> (r: bool)
    requires
        j + 5 <= s@.len() <= usize::MAX,
    ensures
        r == (s@.subrange(j as int, j + 5) == p2p_pat()),
{
    let r = s.get_char(j) == '/' && s.get_char(j + 1) == 'p' && s.get_char(j + 2) == '2'
        && s.get_char(j + 3) == 'p' && s.get_char(j + 4) == '/';
    proof {
        if r {
            assert(s@.subrange(j as int, j + 5) =~= p2p_pat());
        } else {
            assert(s@.subrange(j as int, j + 5) != p2p_pat()) by {
                if s@.subrange(j as int, j + 5) == p2p_pat() {
                    assert(s@[j as int] == p2p_pat()[0]);
                    assert(s@[j + 1] == p2p_pat()[1]);
                    assert(s@[j + 2] == p2p_pat()[2]);
                    assert(s@[j + 3] == p2p_pat()[3]);
                    assert(s@[j + 4] == p2p_pat()[4]);
                }
            }
        }
    }
    r
}

/// Extract the peer identity of an address text.
pub fn peer_id_of_addr(addr: &str) -> (r: String)
    ensures
        r@ == spec_peer_id(addr@),
{
    let n = addr.unicode_len();
    if n < 5 {
        return String::new();
    }
    let mut j: usize = n - 5;
    loop
        invariant
            n == addr@.len(),
            5 <= n,
            j + 5 <= n,
            last_p2p_upto(addr@, n - 5) == last_p2p_upto(addr@, j as int),
        decreases j,
    {
        if p2p_at(addr, j) {
            return addr.substring_char(j + 5, n).to_owned();
        }
        if j == 0 {
            proof {
                assert(last_p2p_upto(addr@, -1) == -1);
                assert(last_p2p_upto(addr@, 0) == -1);
            }
            return String::new();
        }
        j = j - 1;
    }
}

/// What the transport's address decoder yields for a byte string: its
/// text form where the bytes are a well-formed address, nothing
/// otherwise.  A function of the bytes alone.
pub uninterp spec fn maddr_text_of(b: Seq<u8>) -> Option<Seq<char>>;

/// Relies on `tentacle_multiaddr::Multiaddr`: `TryFrom<Vec<u8>>`
/// accepts exactly the well-formed address encodings, and the text
/// rendering is a function of the bytes alone.
#[verifier::external_body]
pub fn multiaddr_text(b: &[u8]) -> (r: Option<String>)
    ensures
        (r matches Some(s) ==> maddr_text_of(b@) == Some(s@)),
        (r is None ==> maddr_text_of(b@) is None),
{
    match tentacle_multiaddr::Multiaddr::try_from(b.to_vec()) {
        Ok(m) => Some(m.to_string()),
        Err(_) => None,
    }
}

/// What lossy UTF-8 decoding yields for a byte string.  A function of
/// the bytes alone.
pub uninterp spec fn utf8_lossy_of(b: Seq<u8>) -> Seq<char>;

/// Relies on `String::from_utf8_lossy`: the decoded text is a function
/// of the bytes alone.
#[verifier::external_body]
pub fn utf8_lossy(b: &[u8]) -> (r: String)
    ensures
        r@ == utf8_lossy_of(b@),
{
    String::from_utf8_lossy(b).into_owned()
}

} // verus!
