//! The crawler's state machine.
//!
//! One `NetworkCrawler` owns the shared catalogues — address book, peer
//! ledger, version cache, session registry, known-host set — and every
//! event of the surrounding transport becomes one method call: a wire
//! message, a session opening or closing, a dial outcome, a periodic
//! tick.  The surrounding process performs the returned actions
//! (dial, disconnect, send, persist) and hands back what it observed.

use vstd::prelude::*;

verus! {

use vstd::std_specs::vec::vec_index;
use vstd::std_specs::vec::vec_index_mut;
use crate::addr::host_of_addr;
use crate::addr::spec_host_of;
use crate::net::CKBNetworkType;
use crate::net::bootnodes;
use crate::net::spec_bootnode;
use crate::peer::NODE_TYPE_FULL;
use crate::peer::NODE_TYPE_LIGHT;
use crate::peer::NODE_TYPE_UNKNOWN;
use crate::peer::ChannelKind;
use crate::peer::PeerInfo;
use crate::peer::PeerRecord;
use crate::peer::RecordView;
use crate::peer::Session;
use crate::peer::record_view_of;
use crate::store::find_idx;
use crate::store::has_key;
use crate::store::idx_of;
use crate::store::lemma_idx_of;
use crate::store::lemma_idx_of_push;
use crate::store::lemma_idx_of_update;
use crate::store::val_of;

/// A session is disconnected when its peer's last liveness proof is
/// older than this.
pub const STALE_SESSION_MS: u64 = 10000;

/// A peer is counted online by telemetry when its last liveness proof
/// is within this window.
pub const FRESH_WINDOW_MS: u64 = 5000;

/// A witness count incremented without leaving the machine's range.
pub open spec fn sat_inc(c: int) -> int {
    if c < usize::MAX {
        c + 1
    } else {
        c
    }
}

/// The witness count of `a` in the book `s`; an unknown address has
/// count zero.
pub open spec fn count_of(s: Seq<(String, usize)>, a: Seq<char>) -> int {
    if has_key(s, a) {
        val_of(s, a) as int
    } else {
        0
    }
}

/// What the ledger `s` knows of the host `ip`.
pub open spec fn ledger_get(s: Seq<(String, PeerInfo)>, ip: Seq<char>) -> Option<PeerInfo> {
    if has_key(s, ip) {
        Some(val_of(s, ip))
    } else {
        None
    }
}

/// What the version cache `s` remembers of the address `a`.
pub open spec fn vers_get(s: Seq<(String, String)>, a: Seq<char>) -> Option<Seq<char>> {
    if has_key(s, a) {
        Some(val_of(s, a)@)
    } else {
        None
    }
}

/// Whether some element of `s` views as `x`.
pub open spec fn has_str(s: Seq<String>, x: Seq<char>) -> bool {
    exists|i: int| 0 <= i < s.len() && s[i]@ == x
}

/// Pairwise distinct string views.
pub open spec fn distinct_strs(s: Seq<String>) -> bool {
    forall|i: int, j: int| 0 <= i < j < s.len() ==> s[i]@ != s[j]@
}

/// The crawler's whole state.
pub struct NetworkCrawler {
    pub network_type: CKBNetworkType,
    /// Gossip reports from this many distinct messages promote an
    /// undialable address to online.
    pub witness_bound: usize,
    /// Address book: every observed address with its witness count.
    pub book: Vec<(String, usize)>,
    /// Peer ledger: host of a peer to what is known of it.
    pub ledger: Vec<(String, PeerInfo)>,
    /// Last identify version seen per address, to backfill promoted
    /// peers.
    pub versions: Vec<(String, String)>,
    /// Hosts already sent for geolocation enrichment.
    pub known_ips: Vec<String>,
    /// Open outbound sessions.
    pub sessions: Vec<Session>,
}

impl NetworkCrawler {
    /// The state invariant: the book keeps its seed, ledger hosts are
    /// unique, and each peer's reachable set holds a host at most once.
    pub open spec fn wf(&self) -> bool {
        &&& self.book@.len() >= 1
        &&& (forall|i: int, j: int|
            0 <= i < j < self.ledger@.len() ==> self.ledger@[i].0@ != self.ledger@[j].0@)
        &&& (forall|i: int|
            0 <= i < self.ledger@.len() ==> distinct_strs(#[trigger] self.ledger@[i].1.reachable@))
    }

    /// Everything but the address book is unchanged.
    pub open spec fn only_book_changed(pre: NetworkCrawler, post: NetworkCrawler) -> bool {
        &&& post.network_type == pre.network_type
        &&& post.witness_bound == pre.witness_bound
        &&& post.ledger@ == pre.ledger@
        &&& post.versions@ == pre.versions@
        &&& post.known_ips@ == pre.known_ips@
        &&& post.sessions@ == pre.sessions@
    }

    /// The effect of one witness report for `a`: its count grows by
    /// one, every other address keeps its count.
    pub open spec fn observe_step(pre: NetworkCrawler, post: NetworkCrawler, a: Seq<char>) -> bool {
        &&& Self::only_book_changed(pre, post)
        &&& has_key(post.book@, a)
        &&& count_of(post.book@, a) == sat_inc(count_of(pre.book@, a))
        &&& (forall|k: Seq<char>| k != a ==> #[trigger] count_of(post.book@, k) == count_of(pre.book@, k))
        &&& (forall|k: Seq<char>| k != a ==> #[trigger] has_key(post.book@, k) == has_key(pre.book@, k))
        &&& post.book@.len() >= pre.book@.len()
    }

    /// The effect of a direct liveness proof for `a`: its count is set
    /// to one, every other address keeps its count.
    pub open spec fn direct_witness_step(
        pre: NetworkCrawler,
        post: NetworkCrawler,
        a: Seq<char>,
    ) -> bool {
        &&& Self::only_book_changed(pre, post)
        &&& has_key(post.book@, a)
        &&& count_of(post.book@, a) == 1
        &&& (forall|k: Seq<char>| k != a ==> #[trigger] count_of(post.book@, k) == count_of(pre.book@, k))
        &&& (forall|k: Seq<char>| k != a ==> #[trigger] has_key(post.book@, k) == has_key(pre.book@, k))
        &&& post.book@.len() >= pre.book@.len()
    }

    /// The effect of remembering version `v` for address `a`.
    pub open spec fn version_step(
        pre: NetworkCrawler,
        post: NetworkCrawler,
        a: Seq<char>,
        v: Seq<char>,
    ) -> bool {
        &&& post.network_type == pre.network_type
        &&& post.witness_bound == pre.witness_bound
        &&& post.book@ == pre.book@
        &&& post.ledger@ == pre.ledger@
        &&& post.known_ips@ == pre.known_ips@
        &&& post.sessions@ == pre.sessions@
        &&& vers_get(post.versions@, a) == Some(v)
        &&& (forall|k: Seq<char>| k != a ==> #[trigger] vers_get(post.versions@, k) == vers_get(
            pre.versions@,
            k,
        ))
    }

    /// A fresh crawler: the address book holds the network's bootstrap
    /// seed with one witness; the peer ledger starts empty — an entry
    /// appears only through an identify exchange or a witness
    /// promotion.
    pub fn new(network_type: CKBNetworkType, witness_bound: usize) -> (r: NetworkCrawler)
        ensures
            r.wf(),
            r.network_type == network_type,
            r.witness_bound == witness_bound,
            r.book@.len() == 1,
            r.book@[0].0@ == spec_bootnode(network_type),
            r.book@[0].1 == 1,
            r.ledger@.len() == 0,
            r.versions@.len() == 0,
            r.known_ips@.len() == 0,
            r.sessions@.len() == 0,
    {
        let boot = bootnodes(network_type);
        let mut book: Vec<(String, usize)> = Vec::new();
        book.push((boot, 1));
        NetworkCrawler {
            network_type,
            witness_bound,
            book,
            ledger: Vec::new(),
            versions: Vec::new(),
            known_ips: Vec::new(),
            sessions: Vec::new(),
        }
    }

    /// One witness report: a neighbour-gossip message named `addr`.
    pub fn observe(&mut self, addr: &str)
        requires
            old(self).wf(),
        ensures
            final (self).wf(),
            Self::observe_step(*old(self), *final (self), addr@),
    {
        match find_idx(&self.book, addr) {
            Some(i) => {
                let cur: usize = vec_index(&self.book, i).1;
                if cur < usize::MAX {
                    let key = vec_index(&self.book, i).0.clone();
                    *vec_index_mut(&mut self.book, i) = (key, cur + 1);
                }
                proof {
                    let pre = old(self).book@;
                    let post = self.book@;
                    lemma_idx_of(pre, addr@);
                    if cur < usize::MAX {
                        lemma_idx_of_update(pre, i as int, post[i as int], addr@);
                    }
                    assert forall|k: Seq<char>| k != addr@ implies #[trigger] count_of(post, k)
                        == count_of(pre, k) by {
                        lemma_idx_of(pre, k);
                        if cur < usize::MAX {
                            lemma_idx_of_update(pre, i as int, post[i as int], k);
                        }
                    }
                    assert forall|k: Seq<char>| k != addr@ implies #[trigger] has_key(post, k)
                        == has_key(pre, k) by {
                        lemma_idx_of(pre, k);
                        if cur < usize::MAX {
                            lemma_idx_of_update(pre, i as int, post[i as int], k);
                        }
                    }
                }
            },
            None => {
                self.book.push((addr.to_owned(), 1));
                proof {
                    let pre = old(self).book@;
                    let post = self.book@;
                    let p = post[post.len() - 1];
                    assert(post =~= pre.push(p));
                    lemma_idx_of(pre, addr@);
                    lemma_idx_of_push(pre, p, addr@);
                    assert forall|k: Seq<char>| k != addr@ implies #[trigger] count_of(post, k)
                        == count_of(pre, k) by {
                        lemma_idx_of(pre, k);
                        lemma_idx_of_push(pre, p, k);
                    }
                    assert forall|k: Seq<char>| k != addr@ implies #[trigger] has_key(post, k)
                        == has_key(pre, k) by {
                        lemma_idx_of(pre, k);
                        lemma_idx_of_push(pre, p, k);
                    }
                }
            },
        }
    }

    /// A direct liveness proof for `addr`: its witness count restarts
    /// at one.
    pub fn set_direct_witness(&mut self, addr: &str)
        requires
            old(self).wf(),
        ensures
            final (self).wf(),
            Self::direct_witness_step(*old(self), *final (self), addr@),
    {
        match find_idx(&self.book, addr) {
            Some(i) => {
                let key = vec_index(&self.book, i).0.clone();
                *vec_index_mut(&mut self.book, i) = (key, 1);
                proof {
                    let pre = old(self).book@;
                    let post = self.book@;
                    lemma_idx_of(pre, addr@);
                    lemma_idx_of_update(pre, i as int, post[i as int], addr@);
                    assert forall|k: Seq<char>| k != addr@ implies #[trigger] count_of(post, k)
                        == count_of(pre, k) by {
                        lemma_idx_of(pre, k);
                        lemma_idx_of_update(pre, i as int, post[i as int], k);
                    }
                    assert forall|k: Seq<char>| k != addr@ implies #[trigger] has_key(post, k)
                        == has_key(pre, k) by {
                        lemma_idx_of(pre, k);
                        lemma_idx_of_update(pre, i as int, post[i as int], k);
                    }
                }
            },
            None => {
                self.book.push((addr.to_owned(), 1));
                proof {
                    let pre = old(self).book@;
                    let post = self.book@;
                    let p = post[post.len() - 1];
                    assert(post =~= pre.push(p));
                    lemma_idx_of(pre, addr@);
                    lemma_idx_of_push(pre, p, addr@);
                    assert forall|k: Seq<char>| k != addr@ implies #[trigger] count_of(post, k)
                        == count_of(pre, k) by {
                        lemma_idx_of(pre, k);
                        lemma_idx_of_push(pre, p, k);
                    }
                    assert forall|k: Seq<char>| k != addr@ implies #[trigger] has_key(post, k)
                        == has_key(pre, k) by {
                        lemma_idx_of(pre, k);
                        lemma_idx_of_push(pre, p, k);
                    }
                }
            },
        }
    }

    /// Remember the identify version last seen for `addr`.
    pub fn record_version(&mut self, addr: &str, version: &str)
        requires
            old(self).wf(),
        ensures
            final (self).wf(),
            Self::version_step(*old(self), *final (self), addr@, version@),
    {
        match find_idx(&self.versions, addr) {
            Some(i) => {
                let key = vec_index(&self.versions, i).0.clone();
                *vec_index_mut(&mut self.versions, i) = (key, version.to_owned());
                proof {
                    let pre = old(self).versions@;
                    let post = self.versions@;
                    lemma_idx_of(pre, addr@);
                    lemma_idx_of_update(pre, i as int, post[i as int], addr@);
                    assert forall|k: Seq<char>| k != addr@ implies #[trigger] vers_get(post, k)
                        == vers_get(pre, k) by {
                        lemma_idx_of(pre, k);
                        lemma_idx_of_update(pre, i as int, post[i as int], k);
                    }
                }
            },
            None => {
                self.versions.push((addr.to_owned(), version.to_owned()));
                proof {
                    let pre = old(self).versions@;
                    let post = self.versions@;
                    let p = post[post.len() - 1];
                    assert(post =~= pre.push(p));
                    lemma_idx_of(pre, addr@);
                    lemma_idx_of_push(pre, p, addr@);
                    assert forall|k: Seq<char>| k != addr@ implies #[trigger] vers_get(post, k)
                        == vers_get(pre, k) by {
                        lemma_idx_of(pre, k);
                        lemma_idx_of_push(pre, p, k);
                    }
                }
            },
        }
    }
}

/// The capability bit whose presence marks a full node.
pub open spec fn spec_full_flag_set(flag: int) -> bool {
    (flag / 16) % 2 == 1
}

/// The capability class an identify flag word announces.
pub open spec fn spec_node_class(flag: int) -> u8 {
    if spec_full_flag_set(flag) {
        NODE_TYPE_FULL
    } else {
        NODE_TYPE_LIGHT
    }
}

/// Classify a peer from its identify flag word: the full-node
/// capability bit set means a full node, cleared means a light node.
pub fn node_class_of_flag(flag: u64) -> (r: u8)
    ensures
        r == spec_node_class(flag as int),
{
    if (flag / 16) % 2 == 1 {
        NODE_TYPE_FULL
    } else {
        NODE_TYPE_LIGHT
    }
}

/// Insert `x` into the set-like vector `v` unless it is already there.
fn insert_str_if_absent(v: &mut Vec<String>, x: &str)
    ensures
        forall|y: Seq<char>| #[trigger] has_str(final (v)@, y) == (has_str(old(v)@, y) || y == x@),
        distinct_strs(old(v)@) ==> distinct_strs(final (v)@),
        has_str(old(v)@, x@) ==> final (v)@ == old(v)@,
        !has_str(old(v)@, x@) ==> final (v)@ == old(v)@.push(final (v)@[old(v)@.len() as int])
            && final (v)@[old(v)@.len() as int]@ == x@,
{
    let n = v.len();
    let mut i: usize = 0;
    while i < n
        invariant
            n == v@.len(),
            i <= n,
            forall|j: int| 0 <= j < i ==> v@[j]@ != x@,
        decreases n - i,
    {
        if crate::text::str_eq(vec_index(v, i).as_str(), x) {
            proof {
                assert(has_str(v@, x@));
                assert forall|y: Seq<char>| #[trigger]
                    has_str(v@, y) == (has_str(v@, y) || y == x@) by {
                    if y == x@ {
                        assert(has_str(v@, y));
                    }
                }
            }
            return ;
        }
        i = i + 1;
    }
    proof {
        assert(!has_str(v@, x@));
    }
    v.push(x.to_owned());
    proof {
        let pre = old(v)@;
        let post = v@;
        assert(post =~= pre.push(post[pre.len() as int]));
        assert forall|y: Seq<char>| #[trigger] has_str(post, y) == (has_str(pre, y) || y
            == x@) by {
            if has_str(pre, y) {
                let w = choose|j: int| 0 <= j < pre.len() && pre[j]@ == y;
                assert(post[w]@ == y);
            }
            if y == x@ {
                assert(post[pre.len() as int]@ == y);
            }
            if has_str(post, y) {
                let w = choose|j: int| 0 <= j < post.len() && post[j]@ == y;
                if w < pre.len() {
                    assert(pre[w]@ == y);
                }
            }
        }
        if distinct_strs(pre) {
            assert forall|i2: int, j2: int| 0 <= i2 < j2 < post.len() implies post[i2]@
                != post[j2]@ by {
                if j2 == pre.len() {
                    assert(post[i2]@ == pre[i2]@);
                }
            }
        }
    }
}

impl NetworkCrawler {
    /// The effect on the ledger of a completed identify exchange from
    /// the peer at host `ip`, address `a`, version `v`: the entry is
    /// created on first contact with class `class`, and in either case
    /// carries the version and the fresh liveness proof.
    pub open spec fn identify_ledger_effect(
        pre: Seq<(String, PeerInfo)>,
        post: Seq<(String, PeerInfo)>,
        ip: Seq<char>,
        a: Seq<char>,
        v: Seq<char>,
        now_ms: u64,
        class: u8,
    ) -> bool {
        &&& has_key(post, ip)
        &&& (ledger_get(post, ip) matches Some(e) && {
            &&& e.client_version@ == v
            &&& e.last_seen_ms == Some(now_ms)
            &&& (match ledger_get(pre, ip) {
                Some(o) => e.address == o.address && e.reachable@ == o.reachable@
                    && e.is_full_node == o.is_full_node,
                None => e.address@ == a && e.reachable@.len() == 0 && e.is_full_node == class,
            })
        })
        &&& (forall|k: Seq<char>|
            k != ip ==> #[trigger] ledger_get(post, k) == ledger_get(pre, k))
    }

    /// The whole effect of an identify message from `a`: nothing on a
    /// malformed payload; else the address is directly witnessed, its
    /// version remembered, and the ledger updated.
    pub open spec fn identify_step(
        pre: NetworkCrawler,
        post: NetworkCrawler,
        a: Seq<char>,
        data: Seq<u8>,
        now_ms: u64,
    ) -> bool {
        match crate::codec::spec_identify(data) {
            None => post == pre,
            Some(v) => {
                let ip = spec_host_of(a);
                let ver = crate::addr::utf8_lossy_of(v.client_version);
                &&& post.network_type == pre.network_type
                &&& post.witness_bound == pre.witness_bound
                &&& post.known_ips@ == pre.known_ips@
                &&& post.sessions@ == pre.sessions@
                &&& has_key(post.book@, a)
                &&& count_of(post.book@, a) == 1
                &&& (forall|k: Seq<char>|
                    k != a ==> #[trigger] count_of(post.book@, k) == count_of(pre.book@, k))
                &&& vers_get(post.versions@, a) == Some(ver)
                &&& (forall|k: Seq<char>|
                    k != a ==> #[trigger] vers_get(post.versions@, k) == vers_get(pre.versions@, k))
                &&& Self::identify_ledger_effect(
                    pre.ledger@,
                    post.ledger@,
                    ip,
                    a,
                    ver,
                    now_ms,
                    spec_node_class(v.flag),
                )
            },
        }
    }

    /// Handle an identify message from the peer at `session_addr`.
    /// A malformed payload is dropped and changes nothing.
    pub fn received_identify(&mut self, session_addr: &str, data: &[u8], now_ms: u64)
        requires
            old(self).wf(),
        ensures
            final (self).wf(),
            Self::identify_step(*old(self), *final (self), session_addr@, data@, now_ms),
    {
        let parsed = match crate::codec::parse_identify(data) {
            Some(p) => p,
            None => {
                return ;
            },
        };
        self.set_direct_witness(session_addr);
        let version = crate::addr::utf8_lossy(parsed.client_version.as_slice());
        self.record_version(session_addr, version.as_str());
        let class = node_class_of_flag(parsed.flag);
        let ip = host_of_addr(session_addr);
        match find_idx(&self.ledger, ip.as_str()) {
            Some(i) => {
                let key = vec_index(&self.ledger, i).0.clone();
                let addr_s = vec_index(&self.ledger, i).1.address.clone();
                let reach = vec_index(&self.ledger, i).1.reachable.clone();
                let cls = vec_index(&self.ledger, i).1.is_full_node;
                proof {
                    assert(reach@ =~= old(self).ledger@[i as int].1.reachable@);
                }
                let info = PeerInfo {
                    address: addr_s,
                    last_seen_ms: Some(now_ms),
                    reachable: reach,
                    client_version: version,
                    is_full_node: cls,
                };
                *vec_index_mut(&mut self.ledger, i) = (key, info);
                proof {
                    let pre = old(self).ledger@;
                    let post = self.ledger@;
                    lemma_idx_of(pre, ip@);
                    lemma_idx_of_update(pre, i as int, post[i as int], ip@);
                    assert forall|k: Seq<char>| k != ip@ implies #[trigger] ledger_get(post, k)
                        == ledger_get(pre, k) by {
                        lemma_idx_of(pre, k);
                        lemma_idx_of_update(pre, i as int, post[i as int], k);
                    }
                }
            },
            None => {
                let info = PeerInfo {
                    address: session_addr.to_owned(),
                    last_seen_ms: Some(now_ms),
                    reachable: Vec::new(),
                    client_version: version,
                    is_full_node: class,
                };
                self.ledger.push((ip, info));
                proof {
                    let pre = old(self).ledger@;
                    let post = self.ledger@;
                    let p = post[post.len() - 1];
                    assert(post =~= pre.push(p));
                    lemma_idx_of(pre, p.0@);
                    lemma_idx_of_push(pre, p, p.0@);
                    assert forall|k: Seq<char>| k != p.0@ implies #[trigger] ledger_get(post, k)
                        == ledger_get(pre, k) by {
                        lemma_idx_of(pre, k);
                        lemma_idx_of_push(pre, p, k);
                    }
                    lemma_idx_of(pre, ip@);
                    assert forall|i2: int, j2: int| 0 <= i2 < j2 < post.len() implies post[i2].0@
                        != post[j2].0@ by {
                        if j2 == pre.len() {
                            assert(pre[i2].0@ != ip@);
                        }
                    }
                }
            },
        }
    }

    /// The effect of a failed dial to `a`: with witnesses at or above
    /// the bound, the address is promoted — its peer entry appears
    /// online now, its version is backfilled from the cache, and its
    /// witness count resets to zero; otherwise nothing changes.
    pub open spec fn promote_step(
        pre: NetworkCrawler,
        post: NetworkCrawler,
        a: Seq<char>,
        now_ms: u64,
    ) -> bool {
        if !(has_key(pre.book@, a) && val_of(pre.book@, a) >= pre.witness_bound) {
            post == pre
        } else {
            let ip = spec_host_of(a);
            &&& post.network_type == pre.network_type
            &&& post.witness_bound == pre.witness_bound
            &&& post.versions@ == pre.versions@
            &&& post.known_ips@ == pre.known_ips@
            &&& post.sessions@ == pre.sessions@
            &&& has_key(post.book@, a)
            &&& count_of(post.book@, a) == 0
            &&& (forall|k: Seq<char>|
                k != a ==> #[trigger] count_of(post.book@, k) == count_of(pre.book@, k))
            &&& (forall|k: Seq<char>|
                k != a ==> #[trigger] has_key(post.book@, k) == has_key(pre.book@, k))
            &&& has_key(post.ledger@, ip)
            &&& (ledger_get(post.ledger@, ip) matches Some(e) && {
                &&& e.last_seen_ms == Some(now_ms)
                &&& (match ledger_get(pre.ledger@, ip) {
                    Some(o) => e.address == o.address && e.reachable@ == o.reachable@
                        && e.is_full_node == o.is_full_node && e.client_version@ == (
                    match vers_get(pre.versions@, a) {
                        Some(v) => v,
                        None => o.client_version@,
                    }),
                    None => e.address@ == a && e.reachable@.len() == 0 && e.is_full_node
                        == NODE_TYPE_UNKNOWN && e.client_version@ == (match vers_get(
                        pre.versions@,
                        a,
                    ) {
                        Some(v) => v,
                        None => Seq::<char>::empty(),
                    }),
                })
            })
            &&& (forall|k: Seq<char>|
                k != ip ==> #[trigger] ledger_get(post.ledger@, k) == ledger_get(pre.ledger@, k))
        }
    }

    /// A dial to `addr` failed.  Enough independent gossip witnesses
    /// substitute for the missing direct proof: the address is treated
    /// as online by corroboration.
    pub fn online_witnesses(&mut self, addr: &str, now_ms: u64)
        requires
            old(self).wf(),
        ensures
            final (self).wf(),
            Self::promote_step(*old(self), *final (self), addr@, now_ms),
    {
        let bi = match find_idx(&self.book, addr) {
            Some(bi) => bi,
            None => {
                return ;
            },
        };
        let cnt: usize = vec_index(&self.book, bi).1;
        if cnt < self.witness_bound {
            return ;
        }
        let cached = match find_idx(&self.versions, addr) {
            Some(vi) => Some(vec_index(&self.versions, vi).1.clone()),
            None => None,
        };
        let ip = host_of_addr(addr);
        match find_idx(&self.ledger, ip.as_str()) {
            Some(i) => {
                let key = vec_index(&self.ledger, i).0.clone();
                let addr_s = vec_index(&self.ledger, i).1.address.clone();
                let reach = vec_index(&self.ledger, i).1.reachable.clone();
                let cls = vec_index(&self.ledger, i).1.is_full_node;
                let ver = match cached {
                    Some(v) => v,
                    None => vec_index(&self.ledger, i).1.client_version.clone(),
                };
                proof {
                    assert(reach@ =~= old(self).ledger@[i as int].1.reachable@);
                }
                let info = PeerInfo {
                    address: addr_s,
                    last_seen_ms: Some(now_ms),
                    reachable: reach,
                    client_version: ver,
                    is_full_node: cls,
                };
                *vec_index_mut(&mut self.ledger, i) = (key, info);
                proof {
                    let pre = old(self).ledger@;
                    let post = self.ledger@;
                    lemma_idx_of(pre, ip@);
                    lemma_idx_of_update(pre, i as int, post[i as int], ip@);
                    assert forall|k: Seq<char>| k != ip@ implies #[trigger] ledger_get(post, k)
                        == ledger_get(pre, k) by {
                        lemma_idx_of(pre, k);
                        lemma_idx_of_update(pre, i as int, post[i as int], k);
                    }
                }
            },
            None => {
                let ver = match cached {
                    Some(v) => v,
                    None => String::new(),
                };
                let info = PeerInfo {
                    address: addr.to_owned(),
                    last_seen_ms: Some(now_ms),
                    reachable: Vec::new(),
                    client_version: ver,
                    is_full_node: NODE_TYPE_UNKNOWN,
                };
                self.ledger.push((ip, info));
                proof {
                    let pre = old(self).ledger@;
                    let post = self.ledger@;
                    let p = post[post.len() - 1];
                    assert(post =~= pre.push(p));
                    lemma_idx_of(pre, p.0@);
                    lemma_idx_of_push(pre, p, p.0@);
                    assert forall|k: Seq<char>| k != p.0@ implies #[trigger] ledger_get(post, k)
                        == ledger_get(pre, k) by {
                        lemma_idx_of(pre, k);
                        lemma_idx_of_push(pre, p, k);
                    }
                    lemma_idx_of(pre, ip@);
                    assert forall|i2: int, j2: int| 0 <= i2 < j2 < post.len() implies post[i2].0@
                        != post[j2].0@ by {
                        if j2 == pre.len() {
                            assert(pre[i2].0@ != ip@);
                        }
                    }
                }
            },
        }
        let bkey = vec_index(&self.book, bi).0.clone();
        *vec_index_mut(&mut self.book, bi) = (bkey, 0);
        proof {
            let pre = old(self).book@;
            let post = self.book@;
            lemma_idx_of(pre, addr@);
            lemma_idx_of_update(pre, bi as int, post[bi as int], addr@);
            assert forall|k: Seq<char>| k != addr@ implies #[trigger] count_of(post, k)
                == count_of(pre, k) by {
                lemma_idx_of(pre, k);
                lemma_idx_of_update(pre, bi as int, post[bi as int], k);
            }
            assert forall|k: Seq<char>| k != addr@ implies #[trigger] has_key(post, k) == has_key(
                pre,
                k,
            ) by {
                lemma_idx_of(pre, k);
                lemma_idx_of_update(pre, bi as int, post[bi as int], k);
            }
        }
    }
}

/// Index of the first session with id `id`, or `-1`.
pub open spec fn sid_idx(s: Seq<Session>, id: u64) -> int
    decreases s.len(),
{
    if s.len() == 0 {
        -1
    } else if s[0].id == id {
        0
    } else {
        let r = sid_idx(s.subrange(1, s.len() as int), id);
        if r < 0 {
            -1
        } else {
            1 + r
        }
    }
}

pub proof fn lemma_sid_idx(s: Seq<Session>, id: u64)
    ensures
        -1 <= sid_idx(s, id) < s.len(),
        sid_idx(s, id) >= 0 ==> s[sid_idx(s, id)].id == id,
        forall|j: int| 0 <= j < sid_idx(s, id) ==> s[j].id != id,
        sid_idx(s, id) < 0 ==> forall|j: int| 0 <= j < s.len() ==> s[j].id != id,
    decreases s.len(),
{
    if s.len() > 0 && s[0].id != id {
        let t = s.subrange(1, s.len() as int);
        lemma_sid_idx(t, id);
        assert forall|j: int| 1 <= j < s.len() implies s[j] == t[j - 1] by {}
    }
}

/// Whether a session to address `a` is open.
pub open spec fn session_to(s: Seq<Session>, a: Seq<char>) -> bool {
    exists|i: int| 0 <= i < s.len() && s[i].address@ == a
}

/// Whether channel `k` is open in the list `s`.
pub open spec fn has_kind(s: Seq<ChannelKind>, k: ChannelKind) -> bool {
    exists|i: int| 0 <= i < s.len() && s[i] == k
}

fn find_session(sessions: &Vec<Session>, id: u64) -> (r: Option<usize>)
    ensures
        r matches Some(i) ==> i == sid_idx(sessions@, id) && i < sessions@.len()
            && sessions@[i as int].id == id,
        r is None ==> sid_idx(sessions@, id) == -1,
{
    proof {
        lemma_sid_idx(sessions@, id);
    }
    let n = sessions.len();
    let mut i: usize = 0;
    while i < n
        invariant
            n == sessions@.len(),
            i <= n,
            forall|j: int| 0 <= j < i ==> sessions@[j].id != id,
            -1 <= sid_idx(sessions@, id) < n,
            sid_idx(sessions@, id) >= 0 ==> sessions@[sid_idx(sessions@, id)].id == id,
            forall|j: int| 0 <= j < sid_idx(sessions@, id) ==> sessions@[j].id != id,
            sid_idx(sessions@, id) < 0 ==> forall|j: int|
                0 <= j < n ==> sessions@[j].id != id,
        decreases n - i,
    {
        if vec_index(sessions, i).id == id {
            proof {
                if sid_idx(sessions@, id) < i {
                    assert(sessions@[sid_idx(sessions@, id)].id == id);
                }
            }
            return Some(i);
        }
        i = i + 1;
    }
    None
}

/// Relies on `rand`'s `Rng::gen_range`: the result lies below `n`.
/// Which value comes back is chance; nothing more is assumed.
#[verifier::external_body]
fn random_below(n: usize) -> (r: usize)
    requires
        n > 0,
    ensures
        r < n,
{
    rand::Rng::gen_range(&mut rand::thread_rng(), 0..n)
}

/// The verdict on a session that asks to open.
#[derive(Copy, Clone, Debug, PartialEq, Eq, Structural)]
pub enum SessionVerdict {
    Accept,
    RejectInbound,
}

impl NetworkCrawler {
    /// Whether the crawler already has an open session to `addr`.
    pub fn has_session_to(&self, addr: &str) -> (r: bool)
        ensures
            r == session_to(self.sessions@, addr@),
    {
        let n = self.sessions.len();
        let mut i: usize = 0;
        while i < n
            invariant
                n == self.sessions@.len(),
                i <= n,
                forall|j: int| 0 <= j < i ==> self.sessions@[j].address@ != addr@,
            decreases n - i,
        {
            if crate::text::str_eq(vec_index(&self.sessions, i).address.as_str(), addr) {
                return true;
            }
            i = i + 1;
        }
        false
    }

    /// Pick the dial candidate of one scheduler tick: an address drawn
    /// uniformly from the book, unless a session to it is already open.
    /// Which address is drawn is chance; whatever comes back is a known
    /// address without an open session, and when no book address has an
    /// open session the tick always yields a candidate.
    pub fn dial_candidate(&self) -> (r: Option<String>)
        requires
            self.wf(),
        ensures
            r matches Some(a) ==> has_key(self.book@, a@) && !session_to(self.sessions@, a@),
            (forall|i: int|
                0 <= i < self.book@.len() ==> !session_to(
                    self.sessions@,
                    #[trigger] self.book@[i].0@,
                )) ==> r is Some,
    {
        let n = self.book.len();
        let i = random_below(n);
        let a = vec_index(&self.book, i).0.clone();
        if self.has_session_to(a.as_str()) {
            proof {
                assert(session_to(self.sessions@, self.book@[i as int].0@));
            }
            None
        } else {
            proof {
                lemma_idx_of(self.book@, a@);
                if idx_of(self.book@, a@) < 0 {
                    assert(self.book@[i as int].0@ == a@);
                }
            }
            Some(a)
        }
    }

    /// The effect of a session asking to open: an inbound session is
    /// rejected untouched — liveness must be proven by the crawler's
    /// own dial — and an outbound one is registered.
    pub open spec fn session_open_step(
        pre: NetworkCrawler,
        post: NetworkCrawler,
        id: u64,
        a: Seq<char>,
        inbound: bool,
        verdict: SessionVerdict,
    ) -> bool {
        if inbound {
            verdict == SessionVerdict::RejectInbound && post == pre
        } else {
            &&& verdict == SessionVerdict::Accept
            &&& post.network_type == pre.network_type
            &&& post.witness_bound == pre.witness_bound
            &&& post.book@ == pre.book@
            &&& post.ledger@ == pre.ledger@
            &&& post.versions@ == pre.versions@
            &&& post.known_ips@ == pre.known_ips@
            &&& (if sid_idx(pre.sessions@, id) >= 0 {
                post.sessions@ == pre.sessions@
            } else {
                post.sessions@.len() == pre.sessions@.len() + 1 && post.sessions@.subrange(
                    0,
                    pre.sessions@.len() as int,
                ) == pre.sessions@ && post.sessions@.last().id == id
                    && post.sessions@.last().address@ == a && post.sessions@.last().channels@.len()
                    == 0
            })
        }
    }

    /// A transport session asks to open.  Inbound sessions are turned
    /// away before anything of theirs is processed.
    pub fn handle_session_open(&mut self, id: u64, address: &str, inbound: bool) -> (r:
        SessionVerdict)
        requires
            old(self).wf(),
        ensures
            final (self).wf(),
            Self::session_open_step(*old(self), *final (self), id, address@, inbound, r),
    {
        if inbound {
            return SessionVerdict::RejectInbound;
        }
        match find_session(&self.sessions, id) {
            Some(_) => {},
            None => {
                self.sessions.push(
                    Session { id, address: address.to_owned(), channels: Vec::new() },
                );
                proof {
                    assert(self.sessions@.subrange(0, old(self).sessions@.len() as int)
                        =~= old(self).sessions@);
                }
            },
        }
        SessionVerdict::Accept
    }

    /// A transport session closed: it leaves the registry.
    pub fn handle_session_close(&mut self, id: u64)
        requires
            old(self).wf(),
        ensures
            final (self).wf(),
            final (self).network_type == old(self).network_type,
            final (self).witness_bound == old(self).witness_bound,
            final (self).book@ == old(self).book@,
            final (self).ledger@ == old(self).ledger@,
            final (self).versions@ == old(self).versions@,
            final (self).known_ips@ == old(self).known_ips@,
            sid_idx(old(self).sessions@, id) < 0 ==> final (self).sessions@ == old(self).sessions@,
            sid_idx(old(self).sessions@, id) >= 0 ==> final (self).sessions@ == old(
                self,
            ).sessions@.remove(sid_idx(old(self).sessions@, id)),
    {
        match find_session(&self.sessions, id) {
            Some(i) => {
                self.sessions.remove(i);
            },
            None => {},
        }
    }
}

fn kind_in(chans: &Vec<ChannelKind>, k: ChannelKind) -> (r: bool)
    ensures
        r == has_kind(chans@, k),
{
    let n = chans.len();
    let mut i: usize = 0;
    while i < n
        invariant
            n == chans@.len(),
            i <= n,
            forall|j: int| 0 <= j < i ==> chans@[j] != k,
        decreases n - i,
    {
        if *vec_index(chans, i) == k {
            return true;
        }
        i = i + 1;
    }
    false
}

/// The version token under which a peer needs the legacy frame
/// envelope.
pub open spec fn spec_legacy_version() -> Seq<char> {
    "0.0.1"@
}

/// The request-for-neighbours greeting, framed for a legacy peer.
pub open spec fn spec_hello(protocol_version: Seq<char>) -> Seq<u8> {
    if protocol_version == spec_legacy_version() {
        crate::codec::spec_frame(crate::codec::spec_get_nodes_message(1, 1000))
    } else {
        crate::codec::spec_get_nodes_message(1, 1000)
    }
}

impl NetworkCrawler {
    /// The effect of channel `kind` opening on session `id`: the
    /// channel joins the session's record, everything else stands.
    pub open spec fn channel_open_step(
        pre: NetworkCrawler,
        post: NetworkCrawler,
        id: u64,
        kind: ChannelKind,
    ) -> bool {
        &&& post.network_type == pre.network_type
        &&& post.witness_bound == pre.witness_bound
        &&& post.book@ == pre.book@
        &&& post.ledger@ == pre.ledger@
        &&& post.versions@ == pre.versions@
        &&& post.known_ips@ == pre.known_ips@
        &&& (if sid_idx(pre.sessions@, id) < 0 {
            post.sessions@ == pre.sessions@
        } else {
            let i = sid_idx(pre.sessions@, id);
            &&& post.sessions@.len() == pre.sessions@.len()
            &&& (forall|j: int|
                0 <= j < pre.sessions@.len() && j != i ==> post.sessions@[j] == pre.sessions@[j])
            &&& post.sessions@[i].id == pre.sessions@[i].id
            &&& post.sessions@[i].address == pre.sessions@[i].address
            &&& (forall|x: ChannelKind| #[trigger]
                has_kind(post.sessions@[i].channels@, x) == (has_kind(
                    pre.sessions@[i].channels@,
                    x,
                ) || x == kind))
        })
    }

    /// A protocol channel opened on a session.  The discovery channel
    /// is greeted at once with a request for neighbour addresses,
    /// framed for a legacy peer.
    pub fn connected(&mut self, id: u64, kind: ChannelKind, protocol_version: &str) -> (r: Option<
        Vec<u8>,
    >)
        requires
            old(self).wf(),
        ensures
            final (self).wf(),
            Self::channel_open_step(*old(self), *final (self), id, kind),
            kind == ChannelKind::Discovery ==> (r matches Some(m) && m@ == spec_hello(
                protocol_version@,
            )),
            kind != ChannelKind::Discovery ==> r is None,
    {
        match find_session(&self.sessions, id) {
            Some(i) => {
                if !kind_in(&vec_index(&self.sessions, i).channels, kind) {
                    let e = vec_index_mut(&mut self.sessions, i);
                    e.channels.push(kind);
                    proof {
                        let pre = old(self).sessions@[i as int].channels@;
                        let post = self.sessions@[i as int].channels@;
                        assert(post =~= pre.push(kind));
                        assert forall|x: ChannelKind| #[trigger]
                            has_kind(post, x) == (has_kind(pre, x) || x == kind) by {
                            if has_kind(pre, x) {
                                let w = choose|j: int| 0 <= j < pre.len() && pre[j] == x;
                                assert(post[w] == x);
                            }
                            if x == kind {
                                assert(post[pre.len() as int] == x);
                            }
                            if has_kind(post, x) {
                                let w = choose|j: int| 0 <= j < post.len() && post[j] == x;
                                if w < pre.len() {
                                    assert(pre[w] == x);
                                }
                            }
                        }
                    }
                } else {
                    proof {
                        assert forall|x: ChannelKind| #[trigger]
                            has_kind(self.sessions@[i as int].channels@, x) == (has_kind(
                                self.sessions@[i as int].channels@,
                                x,
                            ) || x == kind) by {
                            if x == kind {
                                assert(has_kind(self.sessions@[i as int].channels@, kind));
                            }
                        }
                    }
                }
            },
            None => {},
        }
        match kind {
            ChannelKind::Discovery => {
                let msg = crate::codec::encode_get_nodes(1, 1000);
                proof {
                    assert(crate::codec::spec_get_nodes_message(1, 1000).len() == 36);
                }
                if crate::text::str_eq(protocol_version, "0.0.1") {
                    Some(crate::codec::frame_encode(msg.as_slice()))
                } else {
                    Some(msg)
                }
            },
            _ => None,
        }
    }

    /// The effect of channel `kind` closing on session `id`: the
    /// channel leaves the session's record, everything else stands.
    pub open spec fn channel_close_step(
        pre: NetworkCrawler,
        post: NetworkCrawler,
        id: u64,
        kind: ChannelKind,
    ) -> bool {
        &&& post.network_type == pre.network_type
        &&& post.witness_bound == pre.witness_bound
        &&& post.book@ == pre.book@
        &&& post.ledger@ == pre.ledger@
        &&& post.versions@ == pre.versions@
        &&& post.known_ips@ == pre.known_ips@
        &&& (if sid_idx(pre.sessions@, id) < 0 {
            post.sessions@ == pre.sessions@
        } else {
            let i = sid_idx(pre.sessions@, id);
            &&& post.sessions@.len() == pre.sessions@.len()
            &&& (forall|j: int|
                0 <= j < pre.sessions@.len() && j != i ==> post.sessions@[j] == pre.sessions@[j])
            &&& post.sessions@[i].id == pre.sessions@[i].id
            &&& post.sessions@[i].address == pre.sessions@[i].address
            &&& (forall|x: ChannelKind| #[trigger]
                has_kind(post.sessions@[i].channels@, x) == (has_kind(
                    pre.sessions@[i].channels@,
                    x,
                ) && x != kind))
        })
    }

    /// A protocol channel closed on a session.
    pub fn disconnected(&mut self, id: u64, kind: ChannelKind)
        requires
            old(self).wf(),
        ensures
            final (self).wf(),
            Self::channel_close_step(*old(self), *final (self), id, kind),
    {
        let i = match find_session(&self.sessions, id) {
            Some(i) => i,
            None => {
                return ;
            },
        };
        let n = vec_index(&self.sessions, i).channels.len();
        let mut kept: Vec<ChannelKind> = Vec::new();
        let mut j: usize = 0;
        while j < n
            invariant
                i < self.sessions@.len(),
                n == self.sessions@[i as int].channels@.len(),
                j <= n,
                forall|x: ChannelKind| #[trigger]
                    has_kind(kept@, x) == (has_kind(
                        self.sessions@[i as int].channels@.take(j as int),
                        x,
                    ) && x != kind),
            decreases n - j,
        {
            let ghost chans = self.sessions@[i as int].channels@;
            let c = *vec_index(&vec_index(&self.sessions, i).channels, j);
            let ghost kept_pre = kept@;
            if !(c == kind) {
                kept.push(c);
            }
            proof {
                assert(chans.take(j + 1) =~= chans.take(j as int).push(c));
                assert forall|x: ChannelKind| #[trigger]
                    has_kind(kept@, x) == (has_kind(chans.take(j + 1), x) && x != kind) by {
                    let t0 = chans.take(j as int);
                    let t1 = chans.take(j + 1);
                    if has_kind(t0, x) {
                        let w = choose|q: int| 0 <= q < t0.len() && t0[q] == x;
                        assert(t1[w] == x);
                    }
                    if c == x {
                        assert(t1[t1.len() - 1] == x);
                    }
                    if has_kind(t1, x) && !has_kind(t0, x) {
                        let w = choose|q: int| 0 <= q < t1.len() && t1[q] == x;
                        assert(w == t1.len() - 1);
                        assert(c == x);
                    }
                    if c != kind && c == x {
                        assert(kept@[kept@.len() - 1] == x);
                    }
                    if has_kind(kept_pre, x) {
                        let w = choose|q: int| 0 <= q < kept_pre.len() && kept_pre[q] == x;
                        assert(kept@[w] == x);
                    }
                    if has_kind(kept@, x) && !has_kind(kept_pre, x) {
                        let w = choose|q: int| 0 <= q < kept@.len() && kept@[q] == x;
                        assert(w == kept@.len() - 1);
                    }
                }
            }
            j = j + 1;
        }
        proof {
            assert(self.sessions@[i as int].channels@.take(n as int)
                =~= self.sessions@[i as int].channels@);
        }
        let e = vec_index_mut(&mut self.sessions, i);
        e.channels = kept;
    }
}

/// All announced addresses of a neighbour list, in announcement order.
pub open spec fn flat_addrs(ns: Seq<Seq<Seq<u8>>>) -> Seq<Seq<u8>>
    decreases ns.len(),
{
    if ns.len() == 0 {
        Seq::empty()
    } else {
        flat_addrs(ns.drop_last()) + ns.last()
    }
}

/// How many of the announced address encodings decode to the text `k`.
pub open spec fn occ_of(k: Seq<char>, addrs: Seq<Seq<u8>>) -> int
    decreases addrs.len(),
{
    if addrs.len() == 0 {
        0
    } else {
        occ_of(k, addrs.drop_last()) + (if crate::addr::maddr_text_of(addrs.last()) == Some(k) {
            1int
        } else {
            0int
        })
    }
}

pub proof fn lemma_occ_nonneg(k: Seq<char>, addrs: Seq<Seq<u8>>)
    ensures
        occ_of(k, addrs) >= 0,
    decreases addrs.len(),
{
    if addrs.len() > 0 {
        lemma_occ_nonneg(k, addrs.drop_last());
    }
}

/// A witness count after `n` further reports.
pub open spec fn count_after(c: int, n: int) -> int
    decreases n,
{
    if n <= 0 {
        c
    } else {
        sat_inc(count_after(c, n - 1))
    }
}

/// Whether some announced address decodes to an address whose host is
/// `y`.
pub open spec fn gossip_host(addrs: Seq<Seq<u8>>, y: Seq<char>) -> bool {
    exists|j: int|
        0 <= j < addrs.len() && (#[trigger] crate::addr::maddr_text_of(addrs[j]) matches Some(t)
            && spec_host_of(t) == y)
}

impl NetworkCrawler {
    /// The whole effect of a discovery message from `a`: a request or
    /// a message that does not decode changes nothing; a neighbour
    /// list witnesses every announced address once and extends the
    /// reporter's reachable set with the announced hosts.
    pub open spec fn discovery_step(
        pre: NetworkCrawler,
        post: NetworkCrawler,
        a: Seq<char>,
        data: Seq<u8>,
    ) -> bool {
        match crate::codec::spec_discovery_with_fallback(data) {
            None => post == pre,
            Some(crate::codec::DiscoveryView::GetNodes) => post == pre,
            Some(crate::codec::DiscoveryView::Nodes(ns)) => {
                let addrs = flat_addrs(ns);
                let ip = spec_host_of(a);
                &&& post.network_type == pre.network_type
                &&& post.witness_bound == pre.witness_bound
                &&& post.versions@ == pre.versions@
                &&& post.known_ips@ == pre.known_ips@
                &&& post.sessions@ == pre.sessions@
                &&& (forall|k: Seq<char>| #[trigger]
                    count_of(post.book@, k) == count_after(count_of(pre.book@, k), occ_of(k, addrs)))
                &&& (forall|k: Seq<char>| #[trigger]
                    has_key(post.book@, k) == (has_key(pre.book@, k) || occ_of(k, addrs) > 0))
                &&& has_key(post.ledger@, ip)
                &&& (ledger_get(post.ledger@, ip) matches Some(e) && {
                    &&& (match ledger_get(pre.ledger@, ip) {
                        Some(o) => e.address == o.address && e.client_version == o.client_version
                            && e.last_seen_ms == o.last_seen_ms && e.is_full_node == o.is_full_node
                            && (forall|y: Seq<char>| #[trigger]
                            has_str(e.reachable@, y) == (has_str(o.reachable@, y) || gossip_host(
                                addrs,
                                y,
                            ))),
                        None => e.address@ == a && e.client_version@.len() == 0 && e.last_seen_ms
                            is None && e.is_full_node == NODE_TYPE_UNKNOWN && (forall|y: Seq<char>|
                            #[trigger] has_str(e.reachable@, y) == gossip_host(addrs, y)),
                    })
                })
                &&& (forall|k: Seq<char>|
                    k != ip ==> #[trigger] ledger_get(post.ledger@, k) == ledger_get(
                        pre.ledger@,
                        k,
                    ))
            },
        }
    }

    /// Witness one announced address encoding and hand back its host.
    fn gossip_addr(&mut self, bytes: &[u8]) -> (r: Option<String>)
        requires
            old(self).wf(),
        ensures
            final (self).wf(),
            match crate::addr::maddr_text_of(bytes@) {
                None => *final (self) == *old(self) && r is None,
                Some(t) => Self::observe_step(*old(self), *final (self), t) && (r matches Some(h)
                    && h@ == spec_host_of(t)),
            },
    {
        match crate::addr::multiaddr_text(bytes) {
            Some(t) => {
                self.observe(t.as_str());
                Some(host_of_addr(t.as_str()))
            },
            None => None,
        }
    }

    /// Handle a discovery message from the peer at `session_addr`.
    /// Requests are ignored; a message that does not decode, raw or as
    /// a legacy frame, is dropped and changes nothing.
    #[verifier::rlimit(100)]
    pub fn received_discovery(&mut self, session_addr: &str, data: &[u8])
        requires
            old(self).wf(),
        ensures
            final (self).wf(),
            Self::discovery_step(*old(self), *final (self), session_addr@, data@),
    {
        let payload = match crate::codec::parse_discovery(data) {
            Some(p) => Some(p),
            None => match crate::codec::frame_decode(data) {
                Some(body) => crate::codec::parse_discovery(body.as_slice()),
                None => None,
            },
        };
        let nodes = match payload {
            Some(crate::codec::DiscoveryPayload::Nodes(v)) => v,
            _ => {
                return ;
            },
        };
        let ghost ns: Seq<Seq<Seq<u8>>> = nodes.deep_view();
        let ghost fa = flat_addrs(ns);
        let ghost c0 = old(self).book@;
        let mut hosts: Vec<String> = Vec::new();
        let nn = nodes.len();
        let mut i: usize = 0;
        proof {
            assert(ns.take(0) =~= Seq::<Seq<Seq<u8>>>::empty());
            assert(flat_addrs(ns.take(0)) =~= Seq::<Seq<u8>>::empty());
        }
        while i < nn
            invariant
                old(self).wf(),
                self.wf(),
                nn == nodes@.len(),
                ns == nodes.deep_view(),
                i <= nn,
                self.network_type == old(self).network_type,
                self.witness_bound == old(self).witness_bound,
                self.ledger@ == old(self).ledger@,
                self.versions@ == old(self).versions@,
                self.known_ips@ == old(self).known_ips@,
                self.sessions@ == old(self).sessions@,
                forall|k: Seq<char>| #[trigger]
                    count_of(self.book@, k) == count_after(
                        count_of(c0, k),
                        occ_of(k, flat_addrs(ns.take(i as int))),
                    ),
                forall|k: Seq<char>| #[trigger]
                    has_key(self.book@, k) == (has_key(c0, k) || occ_of(
                        k,
                        flat_addrs(ns.take(i as int)),
                    ) > 0),
                forall|y: Seq<char>| #[trigger]
                    has_str(hosts@, y) == gossip_host(flat_addrs(ns.take(i as int)), y),
            decreases nn - i,
        {
            let node = vec_index(&nodes, i);
            let m = node.len();
            let mut j: usize = 0;
            proof {
                assert(ns[i as int] == nodes@[i as int].deep_view());
                assert(ns[i as int].len() == m);
                assert(ns[i as int].take(0) =~= Seq::<Seq<u8>>::empty());
                assert(flat_addrs(ns.take(i as int)) + ns[i as int].take(0) =~= flat_addrs(
                    ns.take(i as int),
                ));
            }
            while j < m
                invariant
                    old(self).wf(),
                    self.wf(),
                    nn == nodes@.len(),
                    ns == nodes.deep_view(),
                    i < nn,
                    node == nodes@[i as int],
                    m == node@.len(),
                    ns[i as int].len() == m,
                    j <= m,
                    self.network_type == old(self).network_type,
                    self.witness_bound == old(self).witness_bound,
                    self.ledger@ == old(self).ledger@,
                    self.versions@ == old(self).versions@,
                    self.known_ips@ == old(self).known_ips@,
                    self.sessions@ == old(self).sessions@,
                    forall|k: Seq<char>| #[trigger]
                        count_of(self.book@, k) == count_after(
                            count_of(c0, k),
                            occ_of(
                                k,
                                flat_addrs(ns.take(i as int)) + ns[i as int].take(j as int),
                            ),
                        ),
                    forall|k: Seq<char>| #[trigger]
                        has_key(self.book@, k) == (has_key(c0, k) || occ_of(
                            k,
                            flat_addrs(ns.take(i as int)) + ns[i as int].take(j as int),
                        ) > 0),
                    forall|y: Seq<char>| #[trigger]
                        has_str(hosts@, y) == gossip_host(
                            flat_addrs(ns.take(i as int)) + ns[i as int].take(j as int),
                            y,
                        ),
                decreases m - j,
            {
                let bytes = vec_index(node, j);
                proof {
                    assert(ns[i as int][j as int] == nodes@[i as int]@[j as int].deep_view());
                    assert(nodes@[i as int]@[j as int].deep_view() =~= bytes@);
                }
                let ghost pcur = flat_addrs(ns.take(i as int)) + ns[i as int].take(j as int);
                let ghost pnext = flat_addrs(ns.take(i as int)) + ns[i as int].take(j + 1);
                proof {
                    assert(pnext.drop_last() =~= pcur);
                    assert(pnext.last() == ns[i as int][j as int]);
                }
                let ghost bpre = self.book@;
                let ghost hpre = hosts@;
                let got = self.gossip_addr(bytes.as_slice());
                match got {
                    Some(h) => {
                        hosts.push(h);
                    },
                    None => {},
                }
                proof {
                    assert forall|k: Seq<char>| #[trigger]
                        count_of(self.book@, k) == count_after(
                            count_of(c0, k),
                            occ_of(k, pnext),
                        ) by {
                        lemma_occ_nonneg(k, pcur);
                        assert(occ_of(k, pnext) == occ_of(k, pcur) + (if crate::addr::maddr_text_of(
                            ns[i as int][j as int],
                        ) == Some(k) {
                            1int
                        } else {
                            0int
                        }));
                    }
                    assert forall|k: Seq<char>| #[trigger]
                        has_key(self.book@, k) == (has_key(c0, k) || occ_of(k, pnext) > 0) by {
                        lemma_occ_nonneg(k, pcur);
                        assert(occ_of(k, pnext) == occ_of(k, pcur) + (if crate::addr::maddr_text_of(
                            ns[i as int][j as int],
                        ) == Some(k) {
                            1int
                        } else {
                            0int
                        }));
                    }
                    assert forall|y: Seq<char>| #[trigger]
                        has_str(hosts@, y) == gossip_host(pnext, y) by {
                        if has_str(hpre, y) {
                            let w = choose|q: int| 0 <= q < hpre.len() && hpre[q]@ == y;
                            assert(hosts@[w]@ == y);
                        }
                        if gossip_host(pcur, y) {
                            let w = choose|q: int|
                                0 <= q < pcur.len() && (#[trigger] crate::addr::maddr_text_of(
                                    pcur[q],
                                ) matches Some(t) && spec_host_of(t) == y);
                            assert(pnext[w] == pcur[w]);
                            assert(gossip_host(pnext, y));
                        }
                        if has_str(hosts@, y) && !has_str(hpre, y) {
                            let w = choose|q: int| 0 <= q < hosts@.len() && hosts@[q]@ == y;
                            assert(w == hosts@.len() - 1);
                            assert(gossip_host(pnext, y)) by {
                                assert(crate::addr::maddr_text_of(pnext[pnext.len() - 1])
                                    matches Some(t) && spec_host_of(t) == y);
                            }
                        }
                        if gossip_host(pnext, y) && !gossip_host(pcur, y) {
                            let w = choose|q: int|
                                0 <= q < pnext.len() && (#[trigger] crate::addr::maddr_text_of(
                                    pnext[q],
                                ) matches Some(t) && spec_host_of(t) == y);
                            if w < pnext.len() - 1 {
                                assert(pnext[w] == pcur[w]);
                                assert(crate::addr::maddr_text_of(pcur[w]) matches Some(t)
                                    && spec_host_of(t) == y);
                                assert(gossip_host(pcur, y));
                            }
                            assert(w == pnext.len() - 1);
                            assert(has_str(hosts@, y)) by {
                                assert(hosts@[hosts@.len() - 1]@ == y);
                            }
                        }
                    }
                }
                j = j + 1;
            }
            proof {
                assert(ns[i as int].take(m as int) =~= ns[i as int]);
                assert(ns.take(i + 1).drop_last() =~= ns.take(i as int));
                assert(ns.take(i + 1).last() == ns[i as int]);
                assert(flat_addrs(ns.take(i + 1)) == flat_addrs(ns.take(i as int)) + ns[i as int]);
            }
            i = i + 1;
        }
        proof {
            assert(ns.take(nn as int) =~= ns);
        }
        let ip = host_of_addr(session_addr);
        match find_idx(&self.ledger, ip.as_str()) {
            Some(li) => {
                let key = vec_index(&self.ledger, li).0.clone();
                let addr_s = vec_index(&self.ledger, li).1.address.clone();
                let mut reach = vec_index(&self.ledger, li).1.reachable.clone();
                let ver_s = vec_index(&self.ledger, li).1.client_version.clone();
                let seen = vec_index(&self.ledger, li).1.last_seen_ms;
                let cls = vec_index(&self.ledger, li).1.is_full_node;
                let ghost pre_ledger = self.ledger@;
                let ghost reach0 = pre_ledger[li as int].1.reachable@;
                proof {
                    assert(reach@ =~= reach0);
                }
                self.extend_reachable(&mut reach, &hosts);
                let info = PeerInfo {
                    address: addr_s,
                    last_seen_ms: seen,
                    reachable: reach,
                    client_version: ver_s,
                    is_full_node: cls,
                };
                *vec_index_mut(&mut self.ledger, li) = (key, info);
                proof {
                    lemma_idx_of(pre_ledger, ip@);
                    lemma_idx_of_update(pre_ledger, li as int, self.ledger@[li as int], ip@);
                    assert forall|k: Seq<char>| k != ip@ implies #[trigger] ledger_get(
                        self.ledger@,
                        k,
                    ) == ledger_get(pre_ledger, k) by {
                        lemma_idx_of(pre_ledger, k);
                        lemma_idx_of_update(pre_ledger, li as int, self.ledger@[li as int], k);
                    }
                }
            },
            None => {
                let mut reach: Vec<String> = Vec::new();
                self.extend_reachable(&mut reach, &hosts);
                let info = PeerInfo {
                    address: session_addr.to_owned(),
                    last_seen_ms: None,
                    reachable: reach,
                    client_version: String::new(),
                    is_full_node: NODE_TYPE_UNKNOWN,
                };
                let ghost pre_ledger = self.ledger@;
                self.ledger.push((ip, info));
                proof {
                    let post = self.ledger@;
                    let p = post[post.len() - 1];
                    assert(post =~= pre_ledger.push(p));
                    lemma_idx_of(pre_ledger, p.0@);
                    lemma_idx_of_push(pre_ledger, p, p.0@);
                    assert forall|k: Seq<char>| k != p.0@ implies #[trigger] ledger_get(post, k)
                        == ledger_get(pre_ledger, k) by {
                        lemma_idx_of(pre_ledger, k);
                        lemma_idx_of_push(pre_ledger, p, k);
                    }
                    assert forall|i2: int, j2: int| 0 <= i2 < j2 < post.len() implies post[i2].0@
                        != post[j2].0@ by {
                        if j2 == pre_ledger.len() {
                            assert(pre_ledger[i2].0@ != p.0@);
                        }
                    }
                }
            },
        }
    }

    /// Add every host of `hosts` to the set-like vector `reach`.
    fn extend_reachable(&self, reach: &mut Vec<String>, hosts: &Vec<String>)
        requires
            distinct_strs(old(reach)@),
        ensures
            distinct_strs(final (reach)@),
            forall|y: Seq<char>| #[trigger]
                has_str(final (reach)@, y) == (has_str(old(reach)@, y) || has_str(hosts@, y)),
    {
        let n = hosts.len();
        let mut m: usize = 0;
        proof {
            assert(hosts@.take(0) =~= Seq::<String>::empty());
        }
        while m < n
            invariant
                n == hosts@.len(),
                m <= n,
                distinct_strs(reach@),
                forall|y: Seq<char>| #[trigger]
                    has_str(reach@, y) == (has_str(old(reach)@, y) || has_str(
                        hosts@.take(m as int),
                        y,
                    )),
            decreases n - m,
        {
            let ghost rpre = reach@;
            insert_str_if_absent(reach, vec_index(hosts, m).as_str());
            proof {
                let t0 = hosts@.take(m as int);
                let t1 = hosts@.take(m + 1);
                assert(t1 =~= t0.push(hosts@[m as int]));
                assert forall|y: Seq<char>| #[trigger]
                    has_str(reach@, y) == (has_str(old(reach)@, y) || has_str(t1, y)) by {
                    if has_str(t0, y) {
                        let w = choose|q: int| 0 <= q < t0.len() && t0[q]@ == y;
                        assert(t1[w]@ == y);
                    }
                    if y == hosts@[m as int]@ {
                        assert(t1[t1.len() - 1]@ == y);
                    }
                    if has_str(t1, y) && !has_str(t0, y) {
                        let w = choose|q: int| 0 <= q < t1.len() && t1[q]@ == y;
                        assert(w == t1.len() - 1);
                        assert(y == hosts@[m as int]@);
                    }
                }
            }
            m = m + 1;
        }
        proof {
            assert(hosts@.take(n as int) =~= hosts@);
        }
    }
}

/// Whether a ledger entry counts as online now: its last liveness
/// proof lies within the freshness window.
pub open spec fn is_fresh(e: PeerInfo, now_ms: u64) -> bool {
    e.last_seen_ms matches Some(t) && now_ms <= t + FRESH_WINDOW_MS
}

/// Whether the ledger holds a peer at host `k` that is online now.
pub open spec fn ip_online(ledger: Seq<(String, PeerInfo)>, now_ms: u64, k: Seq<char>) -> bool {
    ledger_get(ledger, k) matches Some(e) && is_fresh(e, now_ms)
}

/// How many of the hosts in `r` are online now: the corroborated
/// reachability of a peer, `r` holding each host once.
pub open spec fn cnt_online(r: Seq<String>, ledger: Seq<(String, PeerInfo)>, now_ms: u64) -> int
    decreases r.len(),
{
    if r.len() == 0 {
        0
    } else {
        cnt_online(r.drop_last(), ledger, now_ms) + (if ip_online(ledger, now_ms, r.last()@) {
            1int
        } else {
            0int
        })
    }
}

/// Whether a session's peer has gone stale: its last liveness proof is
/// older than the staleness window.
pub open spec fn session_stale(
    sess: Session,
    ledger: Seq<(String, PeerInfo)>,
    now_ms: u64,
) -> bool {
    ledger_get(ledger, spec_host_of(sess.address@)) matches Some(e) && (e.last_seen_ms
        matches Some(t) && now_ms > t + STALE_SESSION_MS)
}

/// The ids of the stale sessions among `sessions`, in order.
pub open spec fn stale_ids(
    sessions: Seq<Session>,
    ledger: Seq<(String, PeerInfo)>,
    now_ms: u64,
) -> Seq<u64>
    decreases sessions.len(),
{
    if sessions.len() == 0 {
        Seq::empty()
    } else {
        stale_ids(sessions.drop_last(), ledger, now_ms) + (if session_stale(
            sessions.last(),
            ledger,
            now_ms,
        ) {
            seq![sessions.last().id]
        } else {
            Seq::empty()
        })
    }
}

/// The records one telemetry emission derives from the ledger prefix
/// `prefix`: one per online peer, in ledger order, with the
/// corroborated reachability counted against the whole ledger.
pub open spec fn recs(
    prefix: Seq<(String, PeerInfo)>,
    ledger: Seq<(String, PeerInfo)>,
    now_ms: u64,
    network: Seq<char>,
) -> Seq<RecordView>
    decreases prefix.len(),
{
    if prefix.len() == 0 {
        Seq::empty()
    } else {
        recs(prefix.drop_last(), ledger, now_ms, network) + (if is_fresh(
            prefix.last().1,
            now_ms,
        ) {
            seq![
                record_view_of(
                    network,
                    now_ms,
                    prefix.last().0@,
                    prefix.last().1,
                    cnt_online(prefix.last().1.reachable@, ledger, now_ms),
                ),
            ]
        } else {
            Seq::empty()
        })
    }
}

impl NetworkCrawler {
    /// Whether the ledger holds an online peer at host `ip` now.
    fn ip_online_exec(&self, ip: &str, now_ms: u64) -> (r: bool)
        ensures
            r == ip_online(self.ledger@, now_ms, ip@),
    {
        match find_idx(&self.ledger, ip) {
            Some(i) => {
                proof {
                    lemma_idx_of(self.ledger@, ip@);
                }
                match vec_index(&self.ledger, i).1.last_seen_ms {
                    Some(t) => t >= now_ms || now_ms - t <= FRESH_WINDOW_MS,
                    None => false,
                }
            },
            None => false,
        }
    }

    /// The sessions a stale-peer sweep at `now_ms` disconnects: those
    /// whose peer's last liveness proof is older than the staleness
    /// window.  A session without a dated ledger entry stays.
    pub fn stale_sessions(&self, now_ms: u64) -> (r: Vec<u64>)
        ensures
            r@ == stale_ids(self.sessions@, self.ledger@, now_ms),
    {
        let n = self.sessions.len();
        let mut out: Vec<u64> = Vec::new();
        let mut i: usize = 0;
        proof {
            assert(self.sessions@.take(0) =~= Seq::<Session>::empty());
        }
        while i < n
            invariant
                n == self.sessions@.len(),
                i <= n,
                out@ == stale_ids(self.sessions@.take(i as int), self.ledger@, now_ms),
            decreases n - i,
        {
            let sess = vec_index(&self.sessions, i);
            let host = host_of_addr(sess.address.as_str());
            let stale = match find_idx(&self.ledger, host.as_str()) {
                Some(li) => {
                    proof {
                        lemma_idx_of(self.ledger@, host@);
                    }
                    match vec_index(&self.ledger, li).1.last_seen_ms {
                        Some(t) => t < now_ms && now_ms - t > STALE_SESSION_MS,
                        None => false,
                    }
                },
                None => false,
            };
            if stale {
                out.push(sess.id);
            }
            proof {
                let t1 = self.sessions@.take(i + 1);
                assert(t1.drop_last() =~= self.sessions@.take(i as int));
                assert(t1.last() == self.sessions@[i as int]);
                assert(out@ =~= stale_ids(t1, self.ledger@, now_ms));
            }
            i = i + 1;
        }
        proof {
            assert(self.sessions@.take(n as int) =~= self.sessions@);
        }
        out
    }

    /// One telemetry emission: a record per online peer, carrying the
    /// network's namespace, the emission time, version, host,
    /// corroborated reachability, address, peer identity and
    /// capability class.
    pub fn telemetry_records(&self, now_ms: u64) -> (r: Vec<PeerRecord>)
        ensures
            r.deep_view() == recs(
                self.ledger@,
                self.ledger@,
                now_ms,
                crate::net::spec_legacy_name(self.network_type),
            ),
    {
        let network = self.network_type.into_legacy_str();
        let n = self.ledger.len();
        let mut out: Vec<PeerRecord> = Vec::new();
        let mut i: usize = 0;
        proof {
            assert(self.ledger@.take(0) =~= Seq::<(String, PeerInfo)>::empty());
            assert(out.deep_view() =~= recs(
                self.ledger@.take(0),
                self.ledger@,
                now_ms,
                network@,
            ));
        }
        while i < n
            invariant
                n == self.ledger@.len(),
                i <= n,
                network@ == crate::net::spec_legacy_name(self.network_type),
                out.deep_view() == recs(self.ledger@.take(i as int), self.ledger@, now_ms, network@),
            decreases n - i,
        {
            let fresh = match vec_index(&self.ledger, i).1.last_seen_ms {
                Some(t) => t >= now_ms || now_ms - t <= FRESH_WINDOW_MS,
                None => false,
            };
            let ghost opre = out.deep_view();
            if fresh {
                let ip = vec_index(&self.ledger, i).0.clone();
                let e_address = vec_index(&self.ledger, i).1.address.clone();
                let e_version = vec_index(&self.ledger, i).1.client_version.clone();
                let e_class = vec_index(&self.ledger, i).1.is_full_node;
                let rn = vec_index(&self.ledger, i).1.reachable.len();
                let mut cnt: usize = 0;
                let mut j: usize = 0;
                proof {
                    assert(self.ledger@[i as int].1.reachable@.take(0) =~= Seq::<String>::empty());
                }
                while j < rn
                    invariant
                        i < self.ledger@.len(),
                        rn == self.ledger@[i as int].1.reachable@.len(),
                        j <= rn,
                        cnt <= j,
                        cnt == cnt_online(
                            self.ledger@[i as int].1.reachable@.take(j as int),
                            self.ledger@,
                            now_ms,
                        ),
                    decreases rn - j,
                {
                    let y = vec_index(&vec_index(&self.ledger, i).1.reachable, j);
                    if self.ip_online_exec(y.as_str(), now_ms) {
                        cnt = cnt + 1;
                    }
                    proof {
                        let rv = self.ledger@[i as int].1.reachable@;
                        assert(rv.take(j + 1).drop_last() =~= rv.take(j as int));
                        assert(rv.take(j + 1).last() == rv[j as int]);
                    }
                    j = j + 1;
                }
                proof {
                    let rv = self.ledger@[i as int].1.reachable@;
                    assert(rv.take(rn as int) =~= rv);
                }
                let peer_id = crate::addr::peer_id_of_addr(e_address.as_str());
                out.push(
                    PeerRecord {
                        network: network.clone(),
                        time_ms: now_ms,
                        version: e_version,
                        ip,
                        n_reachable: cnt,
                        address: e_address,
                        peer_id,
                        node_type: e_class,
                    },
                );
            }
            proof {
                let t1 = self.ledger@.take(i + 1);
                assert(t1.drop_last() =~= self.ledger@.take(i as int));
                assert(t1.last() == self.ledger@[i as int]);
                assert(out.deep_view() =~~= recs(t1, self.ledger@, now_ms, network@));
            }
            i = i + 1;
        }
        proof {
            assert(self.ledger@.take(n as int) =~= self.ledger@);
        }
        out
    }

    /// Whether the host of a freshly emitted record still needs a
    /// geolocation lookup.
    pub fn needs_ip_lookup(&self, ip: &str) -> (r: bool)
        ensures
            r == !has_str(self.known_ips@, ip@),
    {
        let n = self.known_ips.len();
        let mut i: usize = 0;
        while i < n
            invariant
                n == self.known_ips@.len(),
                i <= n,
                forall|j: int| 0 <= j < i ==> self.known_ips@[j]@ != ip@,
            decreases n - i,
        {
            if crate::text::str_eq(vec_index(&self.known_ips, i).as_str(), ip) {
                return false;
            }
            i = i + 1;
        }
        true
    }

    /// A geolocation lookup for `ip` succeeded: never look it up again.
    pub fn mark_ip_known(&mut self, ip: &str)
        requires
            old(self).wf(),
        ensures
            final (self).wf(),
            final (self).network_type == old(self).network_type,
            final (self).witness_bound == old(self).witness_bound,
            final (self).book@ == old(self).book@,
            final (self).ledger@ == old(self).ledger@,
            final (self).versions@ == old(self).versions@,
            final (self).sessions@ == old(self).sessions@,
            forall|y: Seq<char>| #[trigger]
                has_str(final (self).known_ips@, y) == (has_str(old(self).known_ips@, y) || y
                    == ip@),
    {
        insert_str_if_absent(&mut self.known_ips, ip);
    }

    /// Dispatch a wire message by its channel: the bulk channel only
    /// keeps full nodes talking and carries nothing the crawler reads.
    pub fn received(&mut self, kind: ChannelKind, session_addr: &str, data: &[u8], now_ms: u64)
        requires
            old(self).wf(),
        ensures
            final (self).wf(),
            match kind {
                ChannelKind::Discovery => Self::discovery_step(
                    *old(self),
                    *final (self),
                    session_addr@,
                    data@,
                ),
                ChannelKind::Identify => Self::identify_step(
                    *old(self),
                    *final (self),
                    session_addr@,
                    data@,
                    now_ms,
                ),
                ChannelKind::Bulk => *final (self) == *old(self),
            },
    {
        match kind {
            ChannelKind::Discovery => self.received_discovery(session_addr, data),
            ChannelKind::Identify => self.received_identify(session_addr, data, now_ms),
            ChannelKind::Bulk => {},
        }
    }
}

/// Gossip accumulates: an address witnessed by `k` reports, starting
/// unknown, carries witness count `k`.  With `k` at the promotion
/// threshold, a failed dial then promotes it (`promote_step`).
pub proof fn lemma_witnesses_accumulate(k: int)
    requires
        0 <= k < usize::MAX,
    ensures
        count_after(0, k) == k,
    decreases k,
{
    if k > 0 {
        lemma_witnesses_accumulate(k - 1);
    }
}

/// A session opened inbound is rejected with the state untouched: no
/// ledger update can originate from it.
pub proof fn lemma_inbound_rejected(
    pre: NetworkCrawler,
    post: NetworkCrawler,
    id: u64,
    a: Seq<char>,
    verdict: SessionVerdict,
)
    requires
        NetworkCrawler::session_open_step(pre, post, id, a, true, verdict),
    ensures
        verdict == SessionVerdict::RejectInbound,
        post == pre,
{
}

/// An identify flag word with the full-node capability bit set
/// classifies the peer as full, cleared as light.
pub proof fn lemma_capability_classification(flag: int)
    ensures
        spec_full_flag_set(flag) ==> spec_node_class(flag) == NODE_TYPE_FULL,
        !spec_full_flag_set(flag) ==> spec_node_class(flag) == NODE_TYPE_LIGHT,
{
}

/// A telemetry emission skips every ledger entry whose last liveness
/// proof is outside the freshness window, though the entry stays in
/// the ledger.
pub proof fn lemma_stale_prefix_excluded(
    prefix: Seq<(String, PeerInfo)>,
    ledger: Seq<(String, PeerInfo)>,
    now_ms: u64,
    network: Seq<char>,
    ip: Seq<char>,
)
    requires
        forall|i: int| 0 <= i < prefix.len() && prefix[i].0@ == ip ==> !is_fresh(
            #[trigger] prefix[i].1,
            now_ms,
        ),
    ensures
        forall|j: int|
            0 <= j < recs(prefix, ledger, now_ms, network).len() ==> #[trigger] recs(
                prefix,
                ledger,
                now_ms,
                network,
            )[j].ip != ip,
    decreases prefix.len(),
{
    if prefix.len() > 0 {
        let head = prefix.drop_last();
        assert forall|i: int| 0 <= i < head.len() && head[i].0@ == ip implies !is_fresh(
            #[trigger] head[i].1,
            now_ms,
        ) by {
            assert(head[i] == prefix[i]);
        }
        lemma_stale_prefix_excluded(head, ledger, now_ms, network, ip);
        let all = recs(prefix, ledger, now_ms, network);
        let hd = recs(head, ledger, now_ms, network);
        assert forall|j: int| 0 <= j < all.len() implies #[trigger] all[j].ip != ip by {
            if j < hd.len() {
                assert(all[j] == hd[j]);
            } else {
                assert(is_fresh(prefix.last().1, now_ms));
                assert(prefix[prefix.len() - 1].0@ != ip);
                assert(all[j].ip == prefix.last().0@);
            }
        }
    }
}

/// The crawler-level form: a peer whose last liveness proof is stale
/// appears in no record of a telemetry emission at `now_ms`.
pub proof fn lemma_telemetry_excludes_stale(c: NetworkCrawler, now_ms: u64, ip: Seq<char>)
    requires
        c.wf(),
        ledger_get(c.ledger@, ip) matches Some(e) && !is_fresh(e, now_ms),
    ensures
        forall|j: int|
            0 <= j < recs(
                c.ledger@,
                c.ledger@,
                now_ms,
                crate::net::spec_legacy_name(c.network_type),
            ).len() ==> #[trigger] recs(
                c.ledger@,
                c.ledger@,
                now_ms,
                crate::net::spec_legacy_name(c.network_type),
            )[j].ip != ip,
{
    lemma_idx_of(c.ledger@, ip);
    let at = idx_of(c.ledger@, ip);
    assert forall|i: int| 0 <= i < c.ledger@.len() && c.ledger@[i].0@ == ip implies !is_fresh(
        #[trigger] c.ledger@[i].1,
        now_ms,
    ) by {
        if i != at {
            if i < at {
                assert(c.ledger@[i].0@ != c.ledger@[at].0@);
            } else {
                assert(c.ledger@[at].0@ != c.ledger@[i].0@);
            }
        }
    }
    lemma_stale_prefix_excluded(
        c.ledger@,
        c.ledger@,
        now_ms,
        crate::net::spec_legacy_name(c.network_type),
        ip,
    );
}

/// Corroborated liveness: once an address holds at least the bound of
/// witnesses, a failed dial leaves its peer entry online — last seen
/// now — and its witness counter at zero.
pub proof fn lemma_promotion_online(
    pre: NetworkCrawler,
    post: NetworkCrawler,
    a: Seq<char>,
    now_ms: u64,
)
    requires
        NetworkCrawler::promote_step(pre, post, a, now_ms),
        has_key(pre.book@, a),
        val_of(pre.book@, a) >= pre.witness_bound,
    ensures
        ledger_get(post.ledger@, spec_host_of(a)) matches Some(e) && e.last_seen_ms == Some(
            now_ms,
        ),
        ledger_get(post.ledger@, spec_host_of(a)) matches Some(e) && is_fresh(e, now_ms),
        count_of(post.book@, a) == 0,
{
}

/// Gossip extends reachability: after a neighbour list from `a`, the
/// reporter's reachable set holds the host of every announced address
/// that decodes.
pub proof fn lemma_gossiped_hosts_reachable(
    pre: NetworkCrawler,
    post: NetworkCrawler,
    a: Seq<char>,
    data: Seq<u8>,
    y: Seq<char>,
)
    requires
        NetworkCrawler::discovery_step(pre, post, a, data),
        crate::codec::spec_discovery_with_fallback(data) matches Some(
            crate::codec::DiscoveryView::Nodes(ns),
        ) && gossip_host(flat_addrs(ns), y),
    ensures
        ledger_get(post.ledger@, spec_host_of(a)) matches Some(e) && has_str(e.reachable@, y),
{
}

} // verus!
