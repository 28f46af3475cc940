//! The overlay's partial view of known peers, driven by discovery events.
//!
//! Peers are identified by opaque byte strings.  A `Discovered` event adds a
//! peer (idempotently); an `Expired` event removes it only when the discovery
//! collaborator no longer reports the peer through any other source — the
//! answer to that live query arrives here as a plain boolean.  The view is a
//! set: no peer is ever held twice.

use vstd::prelude::*;

use crate::bytes_eq;
use crate::catalog::clone_bytes;

verus! {

/// Appending one element to a sequence adds exactly that element to the set
/// of its members.
proof fn lemma_push_to_set(s: Seq<Seq<u8>>, v: Seq<u8>)
    ensures
        s.push(v).to_set() == s.to_set().insert(v),
{
    assert forall|x: Seq<u8>| s.push(v).to_set().contains(x) implies s.to_set().insert(
        v,
    ).contains(x) by {
        let k = choose|k: int| 0 <= k < s.push(v).len() && s.push(v)[k] == x;
        if k < s.len() {
            assert(s[k] == x);
            assert(s.contains(x));
        } else {
            assert(x == v);
        }
    }
    assert forall|x: Seq<u8>| s.to_set().insert(v).contains(x) implies s.push(v).to_set().contains(
        x,
    ) by {
        if x == v {
            assert(s.push(v)[s.len() as int] == x);
        } else {
            let k = choose|k: int| 0 <= k < s.len() && s[k] == x;
            assert(s.push(v)[k] == x);
        }
        assert(s.push(v).contains(x));
    }
    assert(s.push(v).to_set() =~= s.to_set().insert(v));
}

/// The dissemination overlay's partial view: the peers this node floods to.
pub struct Membership {
    peers: Vec<Vec<u8>>,
}

impl Membership {
    /// The stored peer list, as a sequence of byte strings.
    pub closed spec fn peer_seq(&self) -> Seq<Seq<u8>> {
        self.peers.deep_view()
    }

    /// The membership view proper: the set of known peer identifiers.
    pub open spec fn peer_set(&self) -> Set<Seq<u8>> {
        self.peer_seq().to_set()
    }

    /// No peer is stored twice.
    pub open spec fn wf(&self) -> bool {
        self.peer_seq().no_duplicates()
    }

    /// An empty view: no peers known yet.
    pub fn new() -> (m: Membership)
        ensures
            m.wf(),
            m.peer_set() == Set::<Seq<u8>>::empty(),
    {
        let m = Membership { peers: Vec::new() };
        proof {
            assert(m.peer_seq() =~~= Seq::<Seq<u8>>::empty());
            assert(m.peer_set() =~= Set::<Seq<u8>>::empty());
        }
        m
    }

    /// Whether `peer` is currently in the view.
    pub fn knows(&self, peer: &[u8]) -> (r: bool)
        ensures
            r == self.peer_set().contains(peer@),
    {
        let ghost ps = self.peer_seq();
        let mut i: usize = 0;
        while i < self.peers.len()
            invariant
                i <= self.peers.len(),
                ps == self.peer_seq(),
                ps.len() == self.peers.len(),
                forall|j: int| 0 <= j < i ==> ps[j] != peer@,
            decreases self.peers.len() - i,
        {
            proof {
                assert(ps[i as int] == self.peers[i as int]@);
            }
            if bytes_eq(self.peers[i].as_slice(), peer) {
                proof {
                    assert(ps.contains(peer@));
                }
                return true;
            }
            i += 1;
        }
        proof {
            assert(!ps.contains(peer@));
        }
        false
    }

    /// Handles a `Discovered(peer)` event: the peer joins the view.  Adding
    /// a peer that is already known changes nothing.
    pub fn on_discovered(&mut self, peer: Vec<u8>)
        requires
            old(self).wf(),
        ensures
            final(self).wf(),
            final(self).peer_set() == old(self).peer_set().insert(peer@),
    {
        let ghost before = self.peer_seq();
        if !self.knows(peer.as_slice()) {
            self.peers.push(peer);
            proof {
                assert(self.peer_seq() =~~= before.push(peer@));
                assert(self.peer_seq().no_duplicates());
                lemma_push_to_set(before, peer@);
            }
        } else {
            proof {
                assert(before.to_set().contains(peer@));
                assert(self.peer_set() =~= before.to_set().insert(peer@));
            }
        }
    }

    /// Handles an `Expired(peer)` event.  `still_reported` is the answer to
    /// the live discovery query: when some other discovery source still
    /// asserts the peer, the removal is a no-op; only an unconfirmed peer
    /// leaves the view.
    pub fn on_expired(&mut self, peer: &[u8], still_reported: bool)
        requires
            old(self).wf(),
        ensures
            final(self).wf(),
            still_reported ==> final(self).peer_set() == old(self).peer_set(),
            !still_reported ==> final(self).peer_set() == old(self).peer_set().remove(peer@),
    {
        if still_reported {
            return ;
        }
        let ghost before = self.peer_seq();
        let mut i: usize = 0;
        while i < self.peers.len()
            invariant
                i <= self.peers.len(),
                !still_reported,
                before == self.peer_seq(),
                before == old(self).peer_seq(),
                before.len() == self.peers.len(),
                before.no_duplicates(),
                forall|j: int| 0 <= j < i ==> before[j] != peer@,
            decreases self.peers.len() - i,
        {
            proof {
                assert(before[i as int] == self.peers[i as int]@);
            }
            if bytes_eq(self.peers[i].as_slice(), peer) {
                self.peers.remove(i);
                proof {
                    let after = self.peer_seq();
                    assert(after =~~= before.remove(i as int));
                    before.unique_seq_to_set();
                    assert(after.no_duplicates()) by {
                        assert forall|p: int, q: int|
                            0 <= p < q < after.len() implies after[p] != after[q] by {
                            if q < i {
                                assert(after[p] == before[p] && after[q] == before[q]);
                            } else if p < i {
                                assert(after[p] == before[p] && after[q] == before[q + 1]);
                            } else {
                                assert(after[p] == before[p + 1] && after[q] == before[q + 1]);
                            }
                        }
                    }
                    assert forall|x: Seq<u8>|
                        after.to_set().contains(x) implies before.to_set().remove(peer@).contains(
                        x,
                    ) by {
                        let k = choose|k: int| 0 <= k < after.len() && after[k] == x;
                        if k < i {
                            assert(before[k] == x);
                        } else {
                            assert(before[k + 1] == x);
                        }
                        assert(x != peer@) by {
                            if x == peer@ {
                                let k2: int = if k < i {
                                    k
                                } else {
                                    k + 1
                                };
                                assert(before[k2] == before[i as int]);
                            }
                        }
                        assert(before.contains(x));
                    }
                    assert forall|x: Seq<u8>|
                        before.to_set().remove(peer@).contains(x) implies after.to_set().contains(
                        x,
                    ) by {
                        let k = choose|k: int| 0 <= k < before.len() && before[k] == x;
                        assert(k != i);
                        if k < i {
                            assert(after[k] == x);
                        } else {
                            assert(after[k - 1] == x);
                        }
                        assert(after.contains(x));
                    }
                    assert(self.peer_set() =~= before.to_set().remove(peer@));
                }
                return ;
            }
            i += 1;
        }
        proof {
            assert(!before.contains(peer@));
            assert(self.peer_set() =~= before.to_set().remove(peer@));
        }
    }

    /// The deduplicated list of known peers, for the `ls p` command.
    pub fn list_known_peers(&self) -> (out: Vec<Vec<u8>>)
        ensures
            out.deep_view() == self.peer_seq(),
            out.deep_view().to_set() == self.peer_set(),
            self.wf() ==> out.deep_view().no_duplicates(),
    {
        let mut out: Vec<Vec<u8>> = Vec::new();
        let mut i: usize = 0;
        while i < self.peers.len()
            invariant
                i <= self.peers.len(),
                out.deep_view() =~~= self.peer_seq().subrange(0, i as int),
            decreases self.peers.len() - i,
        {
            let ghost out0 = out.deep_view();
            let c = clone_bytes(&self.peers[i]);
            out.push(c);
            proof {
                assert(self.peer_seq()[i as int] == self.peers[i as int]@);
                assert(out.deep_view() =~~= out0.push(self.peer_seq()[i as int]));
                assert(out.deep_view() =~~= self.peer_seq().subrange(0, i + 1));
            }
            i += 1;
        }
        proof {
            assert(out.deep_view() =~~= self.peer_seq());
        }
        out
    }
}

/// Idempotence of discovery: handling `Discovered(peer)` twice leaves the
/// view exactly as handling it once does, whatever the starting view.
pub proof fn lemma_discovered_idempotent(view: Set<Seq<u8>>, peer: Seq<u8>)
    ensures
        view.insert(peer).insert(peer) == view.insert(peer),
{
    assert(view.insert(peer).insert(peer) =~= view.insert(peer));
}

} // verus!
