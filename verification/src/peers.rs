//! The list of peers shown to the user: a set of peers in which no two
//! share an address, a newer announcement of an address replacing the
//! older one.

use vstd::prelude::*;
use crate::discovery::TargetPeer;

verus! {

/// Two announcements are of the same peer when their addresses agree
/// (one running instance of the application per machine).
pub fn same_peer(a: &TargetPeer, b: &TargetPeer) -> (r: bool)
    ensures
        r == (a.ip@ == b.ip@),
{
    a.ip == b.ip
}

/// No two peers of `s` share an address.
pub open spec fn unique_ips(s: Seq<TargetPeer>) -> bool {
    forall|i: int, j: int| 0 <= i < s.len() && 0 <= j < s.len() && i != j ==> s[i].ip@ != s[j].ip@
}

/// The peers of `s` by address; a later peer hides an earlier one.
pub open spec fn peers_by_ip(s: Seq<TargetPeer>) -> Map<Seq<char>, (Seq<char>, Seq<char>, u16)>
    decreases s.len(),
{
    if s.len() == 0 {
        Map::empty()
    } else {
        peers_by_ip(s.drop_last()).insert(s.last().ip@, s.last()@)
    }
}

/// Every address in the map is the address of some peer of `s`, and
/// every peer of a list without shared addresses is in the map.
proof fn lemma_peers_by_ip(s: Seq<TargetPeer>)
    ensures
        forall|ip: Seq<char>|
            #[trigger] peers_by_ip(s).contains_key(ip) ==> exists|i: int|
                0 <= i < s.len() && s[i].ip@ == ip,
        unique_ips(s) ==> forall|i: int|
            0 <= i < s.len() ==> #[trigger] peers_by_ip(s).contains_key(s[i].ip@) && peers_by_ip(
                s,
            )[s[i].ip@] == s[i]@,
    decreases s.len(),
{
    if s.len() > 0 {
        let t = s.drop_last();
        lemma_peers_by_ip(t);
        assert forall|ip: Seq<char>| #[trigger] peers_by_ip(s).contains_key(ip) implies exists|i: int|
            0 <= i < s.len() && s[i].ip@ == ip by {
            if ip != s.last().ip@ {
                assert(peers_by_ip(t).contains_key(ip));
                let i = choose|i: int| 0 <= i < t.len() && t[i].ip@ == ip;
                assert(s[i] == t[i]);
            } else {
                assert(s[s.len() - 1].ip@ == ip);
            }
        }
        if unique_ips(s) {
            assert(unique_ips(t)) by {
                assert forall|i: int, j: int| 0 <= i < t.len() && 0 <= j < t.len() && i != j implies t[i].ip@ != t[j].ip@ by {
                    assert(t[i] == s[i] && t[j] == s[j]);
                }
            }
            assert forall|i: int| 0 <= i < s.len() implies #[trigger] peers_by_ip(s).contains_key(s[i].ip@) && peers_by_ip(s)[s[i].ip@] == s[i]@ by {
                if i < s.len() - 1 {
                    assert(s[i] == t[i]);
                    assert(peers_by_ip(t).contains_key(t[i].ip@));
                    assert(s[i].ip@ != s[s.len() - 1].ip@);
                }
            }
        }
    }
}

/// The map of a list is finite, and holds as many peers as the list when
/// no two of them share an address.
pub proof fn lemma_peers_by_ip_len(s: Seq<TargetPeer>)
    ensures
        peers_by_ip(s).dom().finite(),
        unique_ips(s) ==> peers_by_ip(s).len() == s.len(),
    decreases s.len(),
{
    if s.len() > 0 {
        let t = s.drop_last();
        lemma_peers_by_ip_len(t);
        if unique_ips(s) {
            assert(unique_ips(t)) by {
                assert forall|i: int, j: int| 0 <= i < t.len() && 0 <= j < t.len() && i != j implies t[i].ip@ != t[j].ip@ by {
                    assert(t[i] == s[i] && t[j] == s[j]);
                }
            }
            lemma_peers_by_ip(t);
            if peers_by_ip(t).contains_key(s.last().ip@) {
                let i = choose|i: int| 0 <= i < t.len() && t[i].ip@ == s.last().ip@;
                assert(t[i] == s[i]);
                assert(s[i].ip@ != s[s.len() - 1].ip@);
            }
        }
    }
}

/// Taking a peer out of a list without shared addresses takes its address
/// out of the map.
proof fn lemma_peers_by_ip_remove(s: Seq<TargetPeer>, k: int)
    requires
        unique_ips(s),
        0 <= k < s.len(),
    ensures
        unique_ips(s.remove(k)),
        peers_by_ip(s.remove(k)) == peers_by_ip(s).remove(s[k].ip@),
    decreases s.len(),
{
    let r = s.remove(k);
    assert forall|i: int, j: int| 0 <= i < r.len() && 0 <= j < r.len() && i != j implies r[i].ip@ != r[j].ip@ by {
        let si = if i < k { i } else { i + 1 };
        let sj = if j < k { j } else { j + 1 };
        assert(r[i] == s[si] && r[j] == s[sj]);
    }
    let t = s.drop_last();
    assert(unique_ips(t)) by {
        assert forall|i: int, j: int| 0 <= i < t.len() && 0 <= j < t.len() && i != j implies t[i].ip@ != t[j].ip@ by {
            assert(t[i] == s[i] && t[j] == s[j]);
        }
    }
    if k == s.len() - 1 {
        assert(r =~= t);
        lemma_peers_by_ip(t);
        if peers_by_ip(t).contains_key(s[k].ip@) {
            let i = choose|i: int| 0 <= i < t.len() && t[i].ip@ == s[k].ip@;
            assert(t[i] == s[i]);
        }
        assert(peers_by_ip(r) =~= peers_by_ip(s).remove(s[k].ip@));
    } else {
        lemma_peers_by_ip_remove(t, k);
        assert(r.drop_last() =~= t.remove(k));
        assert(r.last() == s.last());
        assert(s.last().ip@ != s[k].ip@);
        assert(peers_by_ip(r) =~= peers_by_ip(s).remove(s[k].ip@));
    }
}

/// Lists whose peers agree one by one have the same addresses and the
/// same map.
proof fn lemma_same_views(a: Seq<TargetPeer>, b: Seq<TargetPeer>)
    requires
        a.len() == b.len(),
        forall|j: int| 0 <= j < a.len() ==> #[trigger] a[j]@ == b[j]@,
    ensures
        unique_ips(a) == unique_ips(b),
        peers_by_ip(a) == peers_by_ip(b),
    decreases a.len(),
{
    if a.len() > 0 {
        lemma_same_views(a.drop_last(), b.drop_last());
        assert(a.last()@ == b.last()@);
    }
    if unique_ips(b) {
        assert forall|i: int, j: int| 0 <= i < a.len() && 0 <= j < a.len() && i != j implies a[i].ip@ != a[j].ip@ by {
            assert(a[i]@ == b[i]@ && a[j]@ == b[j]@);
        }
    }
    if unique_ips(a) {
        assert forall|i: int, j: int| 0 <= i < b.len() && 0 <= j < b.len() && i != j implies b[i].ip@ != b[j].ip@ by {
            assert(a[i]@ == b[i]@ && a[j]@ == b[j]@);
        }
    }
}

/// A set of peers in which no two share an address.
pub struct PeerList {
    peers: Vec<TargetPeer>,
}

impl View for PeerList {
    type V = Map<Seq<char>, (Seq<char>, Seq<char>, u16)>;

    closed spec fn view(&self) -> Map<Seq<char>, (Seq<char>, Seq<char>, u16)> {
        peers_by_ip(self.peers@)
    }
}

impl PeerList {
    #[verifier::type_invariant]
    closed spec fn inv(self) -> bool {
        unique_ips(self.peers@)
    }

    /// An empty set of peers.
    pub fn new() -> (r: PeerList)
        ensures
            r@ == Map::<Seq<char>, (Seq<char>, Seq<char>, u16)>::empty(),
    {
        PeerList { peers: Vec::new() }
    }

    /// The position of the peer with the address of `peer`, if any.
    fn position(&self, peer: &TargetPeer) -> (r: Option<usize>)
        ensures
            match r {
                Some(k) => k < self.peers@.len() && self.peers@[k as int].ip@ == peer.ip@,
                None => forall|i: int| 0 <= i < self.peers@.len() ==> self.peers@[i].ip@ != peer.ip@,
            },
    {
        let mut i: usize = 0;
        while i < self.peers.len()
            invariant
                i <= self.peers@.len(),
                forall|j: int| 0 <= j < i ==> self.peers@[j].ip@ != peer.ip@,
            decreases self.peers@.len() - i,
        {
            if same_peer(&self.peers[i], peer) {
                return Some(i);
            }
            i = i + 1;
        }
        None
    }

    /// Adds `peer`, replacing a peer with the same address; returns the
    /// peer replaced, if any.
    pub fn insert(&mut self, peer: TargetPeer) -> (r: Option<TargetPeer>)
        ensures
            final(self)@ == old(self)@.insert(peer.ip@, peer@),
            final(self)@.dom().finite(),
            final(self)@.len() == old(self)@.len()
                + (if old(self)@.contains_key(peer.ip@) { 0int } else { 1int }),
            match r {
                Some(p) => old(self)@.contains_key(peer.ip@) && old(self)@[peer.ip@] == p@,
                None => !old(self)@.contains_key(peer.ip@),
            },
    {
        let replaced = self.take(&peer);
        proof {
            use_type_invariant(&*self);
            lemma_peers_by_ip_len(old(self).peers@);
        }
        let mut peers: Vec<TargetPeer> = Vec::new();
        std::mem::swap(&mut peers, &mut self.peers);
        let ghost before = peers@;
        peers.push(peer);
        assert(peers@.drop_last() =~= before);
        assert(unique_ips(peers@)) by {
            lemma_peers_by_ip(before);
            assert forall|i: int, j: int| 0 <= i < peers@.len() && 0 <= j < peers@.len() && i != j implies peers@[i].ip@ != peers@[j].ip@ by {
                if i < before.len() {
                    assert(peers@[i] == before[i]);
                }
                if j < before.len() {
                    assert(peers@[j] == before[j]);
                }
                if i == before.len() && j < before.len() {
                    assert(peers_by_ip(before).contains_key(before[j].ip@));
                }
                if j == before.len() && i < before.len() {
                    assert(peers_by_ip(before).contains_key(before[i].ip@));
                }
            }
        }
        self.peers = peers;
        assert(self@ =~= old(self)@.insert(peer.ip@, peer@));
        replaced
    }

    /// Takes out the peer with the address of `peer`, if any, and returns it.
    pub fn take(&mut self, peer: &TargetPeer) -> (r: Option<TargetPeer>)
        ensures
            final(self)@ == old(self)@.remove(peer.ip@),
            final(self)@.dom().finite(),
            final(self)@.len() == old(self)@.len()
                - (if old(self)@.contains_key(peer.ip@) { 1int } else { 0int }),
            match r {
                Some(p) => old(self)@.contains_key(peer.ip@) && old(self)@[peer.ip@] == p@,
                None => !old(self)@.contains_key(peer.ip@),
            },
    {
        proof {
            use_type_invariant(&*self);
            lemma_peers_by_ip(self.peers@);
            lemma_peers_by_ip_len(self.peers@);
        }
        match self.position(peer) {
            Some(k) => {
                let mut peers: Vec<TargetPeer> = Vec::new();
                std::mem::swap(&mut peers, &mut self.peers);
                let ghost before = peers@;
                proof {
                    lemma_peers_by_ip_remove(before, k as int);
                }
                let p = peers.remove(k);
                self.peers = peers;
                Some(p)
            },
            None => {
                assert(self@ =~= old(self)@.remove(peer.ip@));
                None
            },
        }
    }

    /// Removes the peer with the address of `peer`, if any (as the set of
    /// the user interface does).
    pub fn remove(&mut self, peer: &TargetPeer) -> (r: Option<TargetPeer>)
        ensures
            final(self)@ == old(self)@.remove(peer.ip@),
            final(self)@.dom().finite(),
            final(self)@.len() == old(self)@.len()
                - (if old(self)@.contains_key(peer.ip@) { 1int } else { 0int }),
            match r {
                Some(p) => old(self)@.contains_key(peer.ip@) && old(self)@[peer.ip@] == p@,
                None => !old(self)@.contains_key(peer.ip@),
            },
    {
        self.take(peer)
    }

    /// The number of peers.
    pub fn len(&self) -> (r: usize)
        ensures
            self@.dom().finite(),
            r == self@.len(),
    {
        proof {
            use_type_invariant(self);
            lemma_peers_by_ip_len(self.peers@);
        }
        self.peers.len()
    }

    /// The peers, each once, in some order.
    pub fn to_vec(&self) -> (r: Vec<TargetPeer>)
        ensures
            unique_ips(r@),
            peers_by_ip(r@) == self@,
    {
        proof {
            use_type_invariant(self);
        }
        let mut out: Vec<TargetPeer> = Vec::new();
        let mut i: usize = 0;
        while i < self.peers.len()
            invariant
                i <= self.peers@.len(),
                out@.len() == i,
                forall|j: int| 0 <= j < i ==> #[trigger] out@[j]@ == self.peers@[j]@,
            decreases self.peers@.len() - i,
        {
            out.push(self.peers[i].duplicate());
            i = i + 1;
        }
        proof {
            lemma_same_views(out@, self.peers@);
        }
        out
    }
}

} // verus!
