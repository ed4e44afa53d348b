//! The peers a node knows: the addresses it may connect to, and how often
//! each has failed in a row.
use vstd::prelude::*;
use crate::assoc::{keys_unique, lemma_to_map_contains, lemma_to_map_index, lemma_to_map_len, lemma_to_map_push, lemma_to_map_remove, lemma_to_map_update, to_map};
use crate::text::{lemma_lex_irreflexive, lemma_lex_total, lemma_lex_transitive, lex_lt, str_eq, text_lt};

verus! {

/// A peer's socket address: the text it prints as (`ip:port`), its port, and
/// whether its IP is the unspecified address.
#[derive(Debug)]
pub struct PeerAddress {
    pub text: String,
    pub port: u16,
    pub unspecified: bool,
}

impl PeerAddress {
    pub fn new(text: &str, port: u16, unspecified: bool) -> (r: Self)
        ensures
            r.text@ == text@,
            r.port == port,
            r.unspecified == unspecified,
    {
        PeerAddress { text: text.to_string(), port, unspecified }
    }

    /// An address a node can connect to: a specified IP and a port other than 0.
    pub open spec fn connectable(&self) -> bool {
        !self.unspecified && self.port != 0
    }
}

impl Clone for PeerAddress {
    fn clone(&self) -> (r: Self)
        ensures
            r.text@ == self.text@,
            r.port == self.port,
            r.unspecified == self.unspecified,
    {
        PeerAddress { text: self.text.clone(), port: self.port, unspecified: self.unspecified }
    }
}

/// What is known of a peer besides its text: its port and whether its IP is unspecified.
pub open spec fn peer_entry(p: PeerAddress) -> (Seq<char>, (u16, bool)) {
    (p.text@, (p.port, p.unspecified))
}

pub open spec fn failure_entry(e: (String, u32)) -> (Seq<char>, u32) {
    (e.0@, e.1)
}

/// The failures counted for an address (none when there is no entry).
pub open spec fn failures_of(m: Map<Seq<char>, u32>, text: Seq<char>) -> u32 {
    if m.contains_key(text) { m[text] } else { 0 }
}

/// A peer with this many failures in a row is left out of the candidates.
pub const MAX_FAILURES: u32 = 3;

/// The known peers, one per address, and the failure count of addresses.
pub struct PeerManager {
    peers: Vec<PeerAddress>,
    failures: Vec<(String, u32)>,
}

impl PeerManager {
    closed spec fn peer_pairs(&self) -> Seq<(Seq<char>, (u16, bool))> {
        self.peers@.map_values(|p: PeerAddress| peer_entry(p))
    }

    closed spec fn failure_pairs(&self) -> Seq<(Seq<char>, u32)> {
        self.failures@.map_values(|e: (String, u32)| failure_entry(e))
    }

    #[verifier::type_invariant]
    closed spec fn unique(&self) -> bool {
        keys_unique(self.peer_pairs()) && keys_unique(self.failure_pairs())
    }

    /// The known peers, by address text.
    pub closed spec fn peers(&self) -> Map<Seq<char>, (u16, bool)> {
        to_map(self.peer_pairs())
    }

    /// The failure counts, by address text.
    pub closed spec fn failures(&self) -> Map<Seq<char>, u32> {
        to_map(self.failure_pairs())
    }

    pub fn new() -> (r: Self)
        ensures
            r.peers() == Map::<Seq<char>, (u16, bool)>::empty(),
            r.failures() == Map::<Seq<char>, u32>::empty(),
    {
        let r = PeerManager { peers: Vec::new(), failures: Vec::new() };
        assert(r.peer_pairs() =~= Seq::empty());
        assert(r.failure_pairs() =~= Seq::empty());
        r
    }

    fn valid_address(address: &PeerAddress) -> (r: bool)
        ensures
            r == address.connectable(),
    {
        !address.unspecified && address.port != 0
    }

    fn find_peer(&self, text: &str) -> (r: Option<usize>)
        ensures
            r is None ==> !self.peers().contains_key(text@),
            r matches Some(i) ==> i < self.peers@.len() && self.peers@[i as int].text@ == text@
                && self.peers().contains_key(text@),
    {
        proof {
            use_type_invariant(self);
        }
        let mut i: usize = 0;
        while i < self.peers.len()
            invariant
                i <= self.peers@.len(),
                forall|k: int| 0 <= k < i ==> self.peers@[k].text@ != text@,
            decreases self.peers@.len() - i,
        {
            if str_eq(self.peers[i].text.as_str(), text) {
                proof {
                    assert(self.peer_pairs()[i as int].0 == text@);
                    lemma_to_map_contains(self.peer_pairs(), text@);
                }
                return Some(i);
            }
            i += 1;
        }
        proof {
            lemma_to_map_contains(self.peer_pairs(), text@);
            if self.peers().contains_key(text@) {
                let k = choose|k: int| 0 <= k < self.peer_pairs().len() && self.peer_pairs()[k].0 == text@;
                assert(self.peers@[k].text@ == text@);
            }
        }
        None
    }

    fn find_failure(&self, text: &str) -> (r: Option<usize>)
        ensures
            r is None ==> !self.failures().contains_key(text@),
            r matches Some(i) ==> i < self.failures@.len() && self.failures@[i as int].0@ == text@
                && self.failures().contains_key(text@) && self.failures()[text@] == self.failures@[i as int].1,
    {
        proof {
            use_type_invariant(self);
        }
        let mut i: usize = 0;
        while i < self.failures.len()
            invariant
                i <= self.failures@.len(),
                keys_unique(self.failure_pairs()),
                forall|k: int| 0 <= k < i ==> self.failures@[k].0@ != text@,
            decreases self.failures@.len() - i,
        {
            if str_eq(self.failures[i].0.as_str(), text) {
                proof {
                    assert(self.failure_pairs()[i as int] == (text@, self.failures@[i as int].1));
                    lemma_to_map_index(self.failure_pairs(), i as int);
                }
                return Some(i);
            }
            i += 1;
        }
        proof {
            lemma_to_map_contains(self.failure_pairs(), text@);
            if self.failures().contains_key(text@) {
                let k = choose|k: int| 0 <= k < self.failure_pairs().len() && self.failure_pairs()[k].0 == text@;
                assert(self.failures@[k].0@ == text@);
            }
        }
        None
    }

    /// Adds a connectable address not known yet; whether it was added.
    pub fn add(&mut self, address: PeerAddress) -> (r: bool)
        ensures
            r == (address.connectable() && !old(self).peers().contains_key(address.text@)),
            final(self).peers() == if r {
                old(self).peers().insert(address.text@, (address.port, address.unspecified))
            } else {
                old(self).peers()
            },
            final(self).failures() == old(self).failures(),
    {
        proof {
            use_type_invariant(&*self);
        }
        if !Self::valid_address(&address) {
            return false;
        }
        if self.find_peer(address.text.as_str()).is_some() {
            return false;
        }
        let ghost before = self.peer_pairs();
        let ghost e = peer_entry(address);
        let mut peers = Vec::new();
        std::mem::swap(&mut peers, &mut self.peers);
        peers.push(address);
        proof {
            assert(peers@.map_values(|p: PeerAddress| peer_entry(p)) =~= before.push(e));
            lemma_to_map_push(before, e.0, e.1);
        }
        self.peers = peers;
        true
    }

    /// Adds each address in turn; how many were added.
    pub fn add_many(&mut self, addresses: Vec<PeerAddress>) -> (r: usize)
        ensures
            final(self).peers() == added_all(old(self).peers(), addresses@.map_values(|p: PeerAddress| peer_entry(p))).0,
            r == added_all(old(self).peers(), addresses@.map_values(|p: PeerAddress| peer_entry(p))).1,
            final(self).failures() == old(self).failures(),
    {
        let ghost entries = addresses@.map_values(|p: PeerAddress| peer_entry(p));
        let mut added: usize = 0;
        let mut i: usize = 0;
        let mut addresses = addresses;
        let ghost all = addresses@;
        let ghost n: usize = addresses.len();
        while addresses.len() > 0
            invariant
                i <= all.len(),
                all.len() == n,
                addresses@ == all.skip(i as int),
                entries == all.map_values(|p: PeerAddress| peer_entry(p)),
                self.peers() == added_all(old(self).peers(), entries.take(i as int)).0,
                added == added_all(old(self).peers(), entries.take(i as int)).1,
                added <= i,
                self.failures() == old(self).failures(),
            decreases addresses@.len(),
        {
            let address = addresses.remove(0);
            assert(address == all[i as int]);
            assert(entries.take(i + 1).drop_last() =~= entries.take(i as int));
            if self.add(address) {
                added = added + 1;
            }
            i += 1;
        }
        assert(entries.take(all.len() as int) =~= entries);
        added
    }

    /// Forgets a peer and its failures; whether it was known.
    pub fn remove(&mut self, address: &PeerAddress) -> (r: bool)
        ensures
            r == old(self).peers().contains_key(address.text@),
            final(self).peers() == old(self).peers().remove(address.text@),
            final(self).failures() == if r { old(self).failures().remove(address.text@) } else { old(self).failures() },
    {
        proof {
            use_type_invariant(&*self);
        }
        match self.find_peer(address.text.as_str()) {
            None => {
                assert(old(self).peers().remove(address.text@) =~= old(self).peers());
                false
            },
            Some(i) => {
                let ghost before = self.peer_pairs();
                let mut peers = Vec::new();
                std::mem::swap(&mut peers, &mut self.peers);
                let _ = peers.remove(i);
                proof {
                    assert(peers@.map_values(|p: PeerAddress| peer_entry(p)) =~= before.remove(i as int));
                    lemma_to_map_remove(before, i as int);
                }
                self.peers = peers;
                self.forget_failures(address.text.as_str());
                true
            },
        }
    }

    fn forget_failures(&mut self, text: &str)
        ensures
            final(self).failures() == old(self).failures().remove(text@),
            final(self).peers() == old(self).peers(),
    {
        proof {
            use_type_invariant(&*self);
        }
        match self.find_failure(text) {
            None => {
                assert(old(self).failures().remove(text@) =~= old(self).failures());
            },
            Some(i) => {
                let ghost before = self.failure_pairs();
                let mut failures = Vec::new();
                std::mem::swap(&mut failures, &mut self.failures);
                let _ = failures.remove(i);
                proof {
                    assert(failures@.map_values(|e: (String, u32)| failure_entry(e)) =~= before.remove(i as int));
                    lemma_to_map_remove(before, i as int);
                }
                self.failures = failures;
            },
        }
    }

    /// Whether the address is a known peer.
    pub fn contains(&self, address: &PeerAddress) -> (r: bool)
        ensures
            r == self.peers().contains_key(address.text@),
    {
        self.find_peer(address.text.as_str()).is_some()
    }

    /// The number of failures counted for the address.
    pub fn failure_count(&self, address: &PeerAddress) -> (r: u32)
        ensures
            r == failures_of(self.failures(), address.text@),
    {
        match self.find_failure(address.text.as_str()) {
            Some(i) => self.failures[i].1,
            None => 0,
        }
    }

    /// Clears the failure count of a peer (adding it when it is connectable and new).
    pub fn mark_success(&mut self, address: PeerAddress)
        ensures
            final(self).peers() == if address.connectable() && !old(self).peers().contains_key(address.text@) {
                old(self).peers().insert(address.text@, (address.port, address.unspecified))
            } else {
                old(self).peers()
            },
            final(self).failures() == old(self).failures().remove(address.text@),
    {
        let text = address.text.clone();
        self.add(address);
        self.forget_failures(text.as_str());
    }

    /// Counts one more failure of a peer (adding it when it is connectable and new);
    /// the count saturates.
    pub fn mark_failure(&mut self, address: PeerAddress)
        ensures
            final(self).peers() == if address.connectable() && !old(self).peers().contains_key(address.text@) {
                old(self).peers().insert(address.text@, (address.port, address.unspecified))
            } else {
                old(self).peers()
            },
            final(self).failures() == old(self).failures().insert(address.text@,
                if failures_of(old(self).failures(), address.text@) == u32::MAX {
                    u32::MAX
                } else {
                    (failures_of(old(self).failures(), address.text@) + 1) as u32
                }),
    {
        let text = address.text.clone();
        if !self.contains(&address) {
            self.add(address);
        }
        proof {
            use_type_invariant(&*self);
        }
        match self.find_failure(text.as_str()) {
            Some(i) => {
                let n = self.failures[i].1.saturating_add(1);
                let ghost before = self.failure_pairs();
                let mut failures = Vec::new();
                std::mem::swap(&mut failures, &mut self.failures);
                let key = failures[i].0.clone();
                failures.set(i, (key, n));
                proof {
                    assert(failures@.map_values(|e: (String, u32)| failure_entry(e)) =~= before.update(i as int, (before[i as int].0, n)));
                    lemma_to_map_update(before, i as int, n);
                }
                self.failures = failures;
            },
            None => {
                let ghost before = self.failure_pairs();
                let mut failures = Vec::new();
                std::mem::swap(&mut failures, &mut self.failures);
                failures.push((text, 1));
                proof {
                    assert(failures@.map_values(|e: (String, u32)| failure_entry(e)) =~= before.push((text@, 1u32)));
                    lemma_to_map_push(before, text@, 1u32);
                }
                self.failures = failures;
            },
        }
    }

    /// Whether a known address is offered: always for the full list; for the
    /// candidates, while it has failed fewer than `MAX_FAILURES` times.
    pub open spec fn offered(&self, with_failures: bool, text: Seq<char>) -> bool {
        !with_failures || failures_of(self.failures(), text) < MAX_FAILURES
    }

    /// The rank an address is listed by: its failures for the candidates, none otherwise.
    pub open spec fn rank_of(&self, with_failures: bool, text: Seq<char>) -> u32 {
        if with_failures { failures_of(self.failures(), text) } else { 0 }
    }

    fn ranked(&self, with_failures: bool) -> (out: Vec<(u32, PeerAddress)>)
        ensures
            rank_sorted(out@),
            forall|k: int| 0 <= k < out@.len() ==> {
                let t = (#[trigger] out@[k]).1.text@;
                &&& self.peers().contains_key(t)
                &&& self.peers()[t] == (out@[k].1.port, out@[k].1.unspecified)
                &&& self.offered(with_failures, t)
                &&& out@[k].0 == self.rank_of(with_failures, t)
            },
            forall|t: Seq<char>| self.peers().contains_key(t) && self.offered(with_failures, t)
                ==> exists|k: int| 0 <= k < out@.len() && (#[trigger] out@[k]).1.text@ == t,
    {
        proof {
            use_type_invariant(self);
        }
        let ghost pp = self.peer_pairs();
        let mut out: Vec<(u32, PeerAddress)> = Vec::new();
        let mut i: usize = 0;
        while i < self.peers.len()
            invariant
                i <= self.peers@.len(),
                pp == self.peer_pairs(),
                keys_unique(pp),
                rank_sorted(out@),
                forall|k: int| 0 <= k < out@.len() ==> {
                    let t = (#[trigger] out@[k]).1.text@;
                    &&& exists|m: int| 0 <= m < i && peer_entry(out@[k].1) == pp[m]
                    &&& self.offered(with_failures, t)
                    &&& out@[k].0 == self.rank_of(with_failures, t)
                },
                forall|m: int| 0 <= m < i && self.offered(with_failures, #[trigger] pp[m].0)
                    ==> exists|k: int| 0 <= k < out@.len() && (#[trigger] out@[k]).1.text@ == pp[m].0,
            decreases self.peers@.len() - i,
        {
            let rank: u32 = if with_failures { self.failure_count(&self.peers[i]) } else { 0 };
            if !with_failures || rank < MAX_FAILURES {
                let p = self.peers[i].clone();
                let ghost e = (rank, p);
                let ghost before = out@;
                proof {
                    assert(pp[i as int] == peer_entry(self.peers@[i as int]));
                    assert forall|k: int| 0 <= k < before.len() implies (#[trigger] before[k]).1.text@ != p.text@ by {
                        let m = choose|m: int| 0 <= m < i && peer_entry(before[k].1) == pp[m];
                        assert(pp[m].0 != pp[i as int].0);
                    }
                }
                insert_ranked(&mut out, rank, p);
                proof {
                    let pos = choose|pos: int| 0 <= pos <= before.len() && out@ == before.insert(pos, e);
                    assert forall|k: int| 0 <= k < out@.len() implies {
                        let t = (#[trigger] out@[k]).1.text@;
                        &&& exists|m: int| 0 <= m < i + 1 && peer_entry(out@[k].1) == pp[m]
                        &&& self.offered(with_failures, t)
                        &&& out@[k].0 == self.rank_of(with_failures, t)
                    } by {
                        if k < pos {
                            assert(out@[k] == before[k]);
                        } else if k == pos {
                            assert(out@[k] == e);
                            assert(peer_entry(out@[k].1) == pp[i as int]);
                        } else {
                            assert(out@[k] == before[k - 1]);
                        }
                    }
                    assert forall|m: int| 0 <= m < i + 1 && self.offered(with_failures, #[trigger] pp[m].0)
                        implies exists|k: int| 0 <= k < out@.len() && (#[trigger] out@[k]).1.text@ == pp[m].0 by {
                        if m == i {
                            assert(out@[pos].1.text@ == pp[m].0);
                        } else {
                            let k0 = choose|k: int| 0 <= k < before.len() && (#[trigger] before[k]).1.text@ == pp[m].0;
                            if k0 < pos {
                                assert(out@[k0] == before[k0]);
                            } else {
                                assert(out@[k0 + 1] == before[k0]);
                            }
                        }
                    }
                }
            } else {
                proof {
                    assert(pp[i as int] == peer_entry(self.peers@[i as int]));
                    assert(!self.offered(with_failures, pp[i as int].0));
                }
            }
            i += 1;
        }
        proof {
            assert forall|k: int| 0 <= k < out@.len() implies {
                let t = (#[trigger] out@[k]).1.text@;
                &&& self.peers().contains_key(t)
                &&& self.peers()[t] == (out@[k].1.port, out@[k].1.unspecified)
            } by {
                let m = choose|m: int| 0 <= m < self.peers@.len() && peer_entry(out@[k].1) == pp[m];
                lemma_to_map_index(pp, m);
            }
            assert forall|t: Seq<char>| self.peers().contains_key(t) && self.offered(with_failures, t)
                implies exists|k: int| 0 <= k < out@.len() && (#[trigger] out@[k]).1.text@ == t by {
                lemma_to_map_contains(pp, t);
                let m = choose|m: int| 0 <= m < pp.len() && pp[m].0 == t;
                assert(self.offered(with_failures, pp[m].0));
            }
        }
        out
    }

    fn listed(&self, with_failures: bool) -> (r: Vec<PeerAddress>)
        ensures
            forall|i: int, j: int| 0 <= i < j < r@.len() ==> rank_lt(
                (self.rank_of(with_failures, (#[trigger] r@[i]).text@), r@[i].text@),
                (self.rank_of(with_failures, (#[trigger] r@[j]).text@), r@[j].text@)),
            forall|k: int| 0 <= k < r@.len() ==> {
                let t = (#[trigger] r@[k]).text@;
                &&& self.peers().contains_key(t)
                &&& self.peers()[t] == (r@[k].port, r@[k].unspecified)
                &&& self.offered(with_failures, t)
            },
            forall|t: Seq<char>| self.peers().contains_key(t) && self.offered(with_failures, t)
                ==> exists|k: int| 0 <= k < r@.len() && (#[trigger] r@[k]).text@ == t,
    {
        let ranked = self.ranked(with_failures);
        let mut r: Vec<PeerAddress> = Vec::new();
        let mut i: usize = 0;
        while i < ranked.len()
            invariant
                i <= ranked@.len(),
                r@.len() == i,
                forall|k: int| 0 <= k < i ==> {
                    &&& (#[trigger] r@[k]).text@ == ranked@[k].1.text@
                    &&& r@[k].port == ranked@[k].1.port
                    &&& r@[k].unspecified == ranked@[k].1.unspecified
                },
            decreases ranked@.len() - i,
        {
            r.push(ranked[i].1.clone());
            i += 1;
        }
        proof {
            assert forall|i: int, j: int| 0 <= i < j < r@.len() implies rank_lt(
                (self.rank_of(with_failures, (#[trigger] r@[i]).text@), r@[i].text@),
                (self.rank_of(with_failures, (#[trigger] r@[j]).text@), r@[j].text@)) by {
                assert(rank_lt(rank_key(ranked@[i]), rank_key(ranked@[j])));
            }
            assert forall|k: int| 0 <= k < r@.len() implies {
                let t = (#[trigger] r@[k]).text@;
                &&& self.peers().contains_key(t)
                &&& self.peers()[t] == (r@[k].port, r@[k].unspecified)
                &&& self.offered(with_failures, t)
            } by {
                assert(r@[k].text@ == ranked@[k].1.text@);
            }
            assert forall|t: Seq<char>| self.peers().contains_key(t) && self.offered(with_failures, t)
                implies exists|k: int| 0 <= k < r@.len() && (#[trigger] r@[k]).text@ == t by {
                let k = choose|k: int| 0 <= k < ranked@.len() && (#[trigger] ranked@[k]).1.text@ == t;
                assert(r@[k].text@ == t);
            }
        }
        r
    }

    /// Every known peer, once each, in address-text order.
    pub fn all(&self) -> (r: Vec<PeerAddress>)
        ensures
            forall|i: int, j: int| 0 <= i < j < r@.len() ==> lex_lt((#[trigger] r@[i]).text@, (#[trigger] r@[j]).text@),
            forall|k: int| 0 <= k < r@.len() ==> self.peers().contains_key((#[trigger] r@[k]).text@)
                && self.peers()[r@[k].text@] == (r@[k].port, r@[k].unspecified),
            forall|t: Seq<char>| self.peers().contains_key(t) ==> exists|k: int| 0 <= k < r@.len() && (#[trigger] r@[k]).text@ == t,
    {
        let r = self.listed(false);
        proof {
            assert forall|i: int, j: int| 0 <= i < j < r@.len() implies lex_lt((#[trigger] r@[i]).text@, (#[trigger] r@[j]).text@) by {
                assert(rank_lt((self.rank_of(false, r@[i].text@), r@[i].text@), (self.rank_of(false, r@[j].text@), r@[j].text@)));
            }
            assert forall|t: Seq<char>| self.peers().contains_key(t) implies exists|k: int| 0 <= k < r@.len() && (#[trigger] r@[k]).text@ == t by {
                assert(self.offered(false, t));
            }
        }
        r
    }

    /// The peers to try, once each: those that have failed fewer than
    /// `MAX_FAILURES` times, fewest failures first, then in address-text order.
    pub fn candidates(&self) -> (r: Vec<PeerAddress>)
        ensures
            forall|i: int, j: int| 0 <= i < j < r@.len() ==> rank_lt(
                (failures_of(self.failures(), (#[trigger] r@[i]).text@), r@[i].text@),
                (failures_of(self.failures(), (#[trigger] r@[j]).text@), r@[j].text@)),
            forall|k: int| 0 <= k < r@.len() ==> self.peers().contains_key((#[trigger] r@[k]).text@)
                && self.peers()[r@[k].text@] == (r@[k].port, r@[k].unspecified)
                && failures_of(self.failures(), r@[k].text@) < MAX_FAILURES,
            forall|t: Seq<char>| self.peers().contains_key(t) && failures_of(self.failures(), t) < MAX_FAILURES
                ==> exists|k: int| 0 <= k < r@.len() && (#[trigger] r@[k]).text@ == t,
    {
        let r = self.listed(true);
        proof {
            assert forall|t: Seq<char>| self.peers().contains_key(t) && failures_of(self.failures(), t) < MAX_FAILURES
                implies exists|k: int| 0 <= k < r@.len() && (#[trigger] r@[k]).text@ == t by {
                assert(self.offered(true, t));
            }
        }
        r
    }

    /// Forgets every failure count.
    pub fn reset_failures(&mut self)
        ensures
            final(self).failures() == Map::<Seq<char>, u32>::empty(),
            final(self).peers() == old(self).peers(),
    {
        proof {
            use_type_invariant(&*self);
        }
        let mut failures = Vec::new();
        std::mem::swap(&mut failures, &mut self.failures);
        assert(self.failure_pairs() =~= Seq::empty());
    }

    /// The number of known peers.
    pub fn len(&self) -> (r: usize)
        ensures
            r == self.peers().dom().len(),
    {
        proof {
            use_type_invariant(self);
            lemma_to_map_len(self.peer_pairs());
        }
        self.peers.len()
    }

    /// Whether no peer is known.
    pub fn is_empty(&self) -> (r: bool)
        ensures
            r == (self.peers().dom().len() == 0),
    {
        self.len() == 0
    }

    /// Forgets every peer and every failure count.
    pub fn clear(&mut self)
        ensures
            final(self).peers() == Map::<Seq<char>, (u16, bool)>::empty(),
            final(self).failures() == Map::<Seq<char>, u32>::empty(),
    {
        proof {
            use_type_invariant(&*self);
        }
        let mut peers = Vec::new();
        std::mem::swap(&mut peers, &mut self.peers);
        assert(self.peer_pairs() =~= Seq::empty());
        let mut failures = Vec::new();
        std::mem::swap(&mut failures, &mut self.failures);
        assert(self.peer_pairs() =~= Seq::empty());
        assert(self.failure_pairs() =~= Seq::empty());
    }
}

/// The order peers are offered in: fewer failures first, then by address text.
pub open spec fn rank_lt(a: (u32, Seq<char>), b: (u32, Seq<char>)) -> bool {
    a.0 < b.0 || (a.0 == b.0 && lex_lt(a.1, b.1))
}

pub open spec fn rank_key(e: (u32, PeerAddress)) -> (u32, Seq<char>) {
    (e.0, e.1.text@)
}

pub open spec fn rank_sorted(s: Seq<(u32, PeerAddress)>) -> bool {
    forall|i: int, j: int| 0 <= i < j < s.len() ==> rank_lt(rank_key(#[trigger] s[i]), rank_key(#[trigger] s[j]))
}

proof fn lemma_rank_order(a: (u32, Seq<char>), b: (u32, Seq<char>), c: (u32, Seq<char>))
    ensures
        !rank_lt(a, a),
        a.1 != b.1 ==> (rank_lt(a, b) || rank_lt(b, a)),
        !(rank_lt(a, b) && rank_lt(b, a)),
        rank_lt(a, b) && rank_lt(b, c) ==> rank_lt(a, c),
{
    lemma_lex_irreflexive(a.1);
    lemma_lex_total(a.1, b.1);
    if rank_lt(a, b) && rank_lt(b, c) && a.0 == b.0 && b.0 == c.0 {
        lemma_lex_transitive(a.1, b.1, c.1);
    }
}

fn rank_less(a: u32, ta: &str, b: u32, tb: &str) -> (r: bool)
    ensures
        r == rank_lt((a, ta@), (b, tb@)),
{
    a < b || (a == b && text_lt(ta, tb))
}

/// Inserts an entry whose address is not in the sorted list yet, keeping it sorted.
fn insert_ranked(out: &mut Vec<(u32, PeerAddress)>, rank: u32, p: PeerAddress)
    requires
        rank_sorted(old(out)@),
        forall|k: int| 0 <= k < old(out)@.len() ==> (#[trigger] old(out)@[k]).1.text@ != p.text@,
    ensures
        rank_sorted(final(out)@),
        exists|k: int| 0 <= k <= old(out)@.len() && final(out)@ == old(out)@.insert(k, (rank, p)),
{
    let ghost e = (rank, p);
    let mut k: usize = 0;
    while k < out.len()
        invariant
            k <= out@.len(),
            out@ == old(out)@,
            e == (rank, p),
            forall|m: int| 0 <= m < out@.len() ==> (#[trigger] out@[m]).1.text@ != p.text@,
            forall|m: int| 0 <= m < k ==> rank_lt(rank_key(#[trigger] out@[m]), rank_key(e)),
        ensures
            k <= out@.len(),
            forall|m: int| 0 <= m < k ==> rank_lt(rank_key(#[trigger] out@[m]), rank_key(e)),
            k < out@.len() ==> rank_lt(rank_key(e), rank_key(out@[k as int])),
        decreases out@.len() - k,
    {
        if rank_less(rank, p.text.as_str(), out[k].0, out[k].1.text.as_str()) {
            break;
        }
        proof {
            lemma_rank_order(rank_key(e), rank_key(out@[k as int]), rank_key(e));
        }
        k += 1;
    }
    let ghost before = out@;
    proof {
        if k < before.len() {
            assert(rank_lt(rank_key(e), rank_key(before[k as int])));
        }
    }
    out.insert(k, (rank, p));
    proof {
        assert(out@ == before.insert(k as int, e));
        assert forall|i: int, j: int| 0 <= i < j < out@.len() implies rank_lt(rank_key(#[trigger] out@[i]), rank_key(#[trigger] out@[j])) by {
            if j < k {
                assert(rank_lt(rank_key(before[i]), rank_key(before[j])));
            } else if j == k {
                assert(out@[i] == before[i]);
            } else if i == k {
                assert(out@[j] == before[j - 1]);
                if j - 1 > k {
                    assert(rank_lt(rank_key(before[k as int]), rank_key(before[j - 1])));
                    lemma_rank_order(rank_key(e), rank_key(before[k as int]), rank_key(before[j - 1]));
                }
            } else if i < k {
                assert(out@[i] == before[i]);
                assert(out@[j] == before[j - 1]);
                assert(rank_lt(rank_key(before[i]), rank_key(before[j - 1])));
            } else {
                assert(rank_lt(rank_key(before[i - 1]), rank_key(before[j - 1])));
            }
        }
    }
}

/// The peers after adding each entry in turn, and how many were added.
pub open spec fn added_all(m: Map<Seq<char>, (u16, bool)>, entries: Seq<(Seq<char>, (u16, bool))>) -> (Map<Seq<char>, (u16, bool)>, nat)
    decreases entries.len(),
{
    if entries.len() == 0 {
        (m, 0)
    } else {
        let (before, n) = added_all(m, entries.drop_last());
        let e = entries.last();
        if !e.1.1 && e.1.0 != 0 && !before.contains_key(e.0) {
            (before.insert(e.0, e.1), n + 1)
        } else {
            (before, n)
        }
    }
}

impl Default for PeerManager {
    fn default() -> (r: Self)
        ensures
            r.peers() == Map::<Seq<char>, (u16, bool)>::empty(),
            r.failures() == Map::<Seq<char>, u32>::empty(),
    {
        Self::new()
    }
}

} // verus!
