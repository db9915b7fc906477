//! The peer registry: the mapping of member id to network address.
//!
//! A node's registry exactly reflects the last committed
//! configuration-change entries it has applied; it is never updated
//! speculatively from uncommitted proposals. Each node owns its own
//! registry; the driver's apply step is its only writer.

use vstd::prelude::*;

verus! {

/// One cluster member's identity and network endpoint.
pub struct Peer {
    pub id: u64,
    pub address: String,
}

/// The mathematical image of a `Peer`.
pub ghost struct PeerModel {
    pub id: u64,
    pub address: Seq<char>,
}

impl View for Peer {
    type V = PeerModel;

    open spec fn view(&self) -> PeerModel {
        PeerModel { id: self.id, address: self.address@ }
    }
}

impl Peer {
    pub fn new(id: u64, address: &str) -> (r: Peer)
        ensures
            r@ == (PeerModel { id, address: address@ }),
    {
        Peer { id, address: String::from_str(address) }
    }

    pub fn duplicate(&self) -> (r: Peer)
        ensures
            r@ == self@,
    {
        Peer { id: self.id, address: self.address.clone() }
    }
}

/// Whether some peer in `s` carries the id `id`.
pub open spec fn spec_contains(s: Seq<PeerModel>, id: u64) -> bool {
    exists|i: int| 0 <= i < s.len() && s[i].id == id
}

/// The address registered for `id` in `s`: the first match, scanning
/// from the front.
pub open spec fn spec_get(s: Seq<PeerModel>, id: u64) -> Option<Seq<char>>
    decreases s.len(),
{
    if s.len() == 0 {
        None
    } else if s[0].id == id {
        Some(s[0].address)
    } else {
        spec_get(s.skip(1), id)
    }
}

/// The position of the first peer with id `id` in `s`.
pub open spec fn spec_index_of(s: Seq<PeerModel>, id: u64) -> int
    decreases s.len(),
{
    if s.len() == 0 {
        0
    } else if s[0].id == id {
        0
    } else {
        1 + spec_index_of(s.skip(1), id)
    }
}

/// A registry is well formed when no id occurs twice.
pub open spec fn spec_unique_ids(s: Seq<PeerModel>) -> bool {
    forall|i: int, j: int| 0 <= i < j < s.len() ==> s[i].id != s[j].id
}

/// If position `i` holds the first peer with id `id`, then `spec_get`,
/// `spec_index_of` and `spec_contains` all agree on it.
pub proof fn lemma_first_match(s: Seq<PeerModel>, id: u64, i: int)
    requires
        0 <= i < s.len(),
        s[i].id == id,
        forall|j: int| 0 <= j < i ==> s[j].id != id,
    ensures
        spec_contains(s, id),
        spec_index_of(s, id) == i,
        spec_get(s, id) == Some(s[i].address),
    decreases s.len(),
{
    assert(spec_contains(s, id));
    if i == 0 {
    } else {
        let t = s.skip(1);
        assert(forall|j: int| 0 <= j < t.len() ==> t[j] == s[j + 1]);
        lemma_first_match(t, id, i - 1);
    }
}

/// If no peer in `s` carries `id`, the lookups agree on that too.
pub proof fn lemma_no_match(s: Seq<PeerModel>, id: u64)
    requires
        forall|j: int| 0 <= j < s.len() ==> s[j].id != id,
    ensures
        !spec_contains(s, id),
        spec_get(s, id) is None,
    decreases s.len(),
{
    if s.len() > 0 {
        let t = s.skip(1);
        assert(forall|j: int| 0 <= j < t.len() ==> t[j] == s[j + 1]);
        lemma_no_match(t, id);
    }
}

/// The registry of cluster members known to one node.
pub struct Peers {
    members: Vec<Peer>,
}

impl View for Peers {
    type V = Seq<PeerModel>;

    closed spec fn view(&self) -> Seq<PeerModel> {
        self.members@.map(|i: int, p: Peer| p@)
    }
}

impl Peers {
    /// No id occurs twice in the registry.
    pub open spec fn wf(&self) -> bool {
        spec_unique_ids(self@)
    }

    pub fn new() -> (r: Peers)
        ensures
            r@ == Seq::<PeerModel>::empty(),
            r.wf(),
    {
        let r = Peers { members: Vec::new() };
        proof {
            assert(r@ =~= Seq::<PeerModel>::empty());
        }
        r
    }

    pub fn len(&self) -> (r: usize)
        ensures
            r == self@.len(),
    {
        self.members.len()
    }

    /// The registered address of `id`, if any.
    pub fn get(&self, id: u64) -> (r: Option<Peer>)
        ensures
            match r {
                Some(p) => p@.id == id && spec_get(self@, id) == Some(p@.address),
                None => !spec_contains(self@, id) && spec_get(self@, id) is None,
            },
    {
        let ghost s = self@;
        let mut i: usize = 0;
        while i < self.members.len()
            invariant
                0 <= i <= self.members.len(),
                s == self@,
                forall|j: int| 0 <= j < i ==> s[j].id != id,
            decreases self.members.len() - i,
        {
            if self.members[i].id == id {
                proof {
                    assert(s[i as int] == self.members@[i as int]@);
                    lemma_first_match(s, id, i as int);
                }
                return Some(self.members[i].duplicate());
            }
            proof {
                assert(s[i as int] == self.members@[i as int]@);
            }
            i += 1;
        }
        proof {
            lemma_no_match(s, id);
        }
        None
    }

    /// Whether `id` is a registered member.
    pub fn contains(&self, id: u64) -> (r: bool)
        ensures
            r == spec_contains(self@, id),
    {
        match self.get(id) {
            Some(_) => {
                proof {
                    if !spec_contains(self@, id) {
                        lemma_no_match(self@, id);
                    }
                }
                true
            },
            None => false,
        }
    }

    /// Registers `peer`, replacing the entry with the same id if one
    /// exists, appending otherwise.
    pub fn insert_or_update(&mut self, peer: Peer)
        requires
            old(self).wf(),
        ensures
            final(self).wf(),
            spec_contains(old(self)@, peer@.id) ==> final(self)@ == old(self)@.update(
                spec_index_of(old(self)@, peer@.id),
                peer@,
            ),
            !spec_contains(old(self)@, peer@.id) ==> final(self)@ == old(self)@.push(peer@),
            spec_get(final(self)@, peer@.id) == Some(peer@.address),
    {
        let ghost s = self@;
        let ghost pm = peer@;
        let mut i: usize = 0;
        while i < self.members.len()
            invariant
                0 <= i <= self.members.len(),
                s == self@,
                s == old(self)@,
                pm == peer@,
                spec_unique_ids(s),
                forall|j: int| 0 <= j < i ==> s[j].id != pm.id,
            decreases self.members.len() - i,
        {
            if self.members[i].id == peer.id {
                proof {
                    assert(s[i as int] == self.members@[i as int]@);
                    lemma_first_match(s, pm.id, i as int);
                }
                self.members.set(i, peer);
                proof {
                    assert(self@ =~= s.update(i as int, pm));
                    assert(forall|a: int|
                        0 <= a < self@.len() && a != i ==> self@[a] == s[a]);
                    assert(spec_unique_ids(self@));
                    lemma_first_match(self@, pm.id, i as int);
                }
                return ;
            }
            proof {
                assert(s[i as int] == self.members@[i as int]@);
            }
            i += 1;
        }
        proof {
            lemma_no_match(s, pm.id);
        }
        self.members.push(peer);
        proof {
            assert(self@ =~= s.push(pm));
            assert(forall|a: int| 0 <= a < s.len() ==> self@[a] == s[a]);
            assert(spec_unique_ids(self@));
            lemma_first_match(self@, pm.id, s.len() as int);
        }
    }

    /// Removes the entry for `id`, if any.
    pub fn remove(&mut self, id: u64)
        requires
            old(self).wf(),
        ensures
            final(self).wf(),
            spec_contains(old(self)@, id) ==> final(self)@ == old(self)@.remove(
                spec_index_of(old(self)@, id),
            ),
            !spec_contains(old(self)@, id) ==> final(self)@ == old(self)@,
            !spec_contains(final(self)@, id),
    {
        let ghost s = self@;
        let mut i: usize = 0;
        while i < self.members.len()
            invariant
                0 <= i <= self.members.len(),
                s == self@,
                s == old(self)@,
                spec_unique_ids(s),
                forall|j: int| 0 <= j < i ==> s[j].id != id,
            decreases self.members.len() - i,
        {
            if self.members[i].id == id {
                proof {
                    assert(s[i as int] == self.members@[i as int]@);
                    lemma_first_match(s, id, i as int);
                }
                self.members.remove(i);
                proof {
                    assert(self@ =~= s.remove(i as int));
                    assert(forall|a: int|
                        0 <= a < self@.len() ==> (if a < i {
                            self@[a] == s[a]
                        } else {
                            self@[a] == s[a + 1]
                        }));
                    assert(spec_unique_ids(self@));
                    assert(forall|a: int| 0 <= a < self@.len() ==> self@[a].id != id);
                }
                return ;
            }
            proof {
                assert(s[i as int] == self.members@[i as int]@);
            }
            i += 1;
        }
        proof {
            lemma_no_match(s, id);
        }
    }

    /// An immutable copy for response payloads.
    pub fn snapshot(&self) -> (r: Peers)
        ensures
            r@ == self@,
    {
        let mut out: Vec<Peer> = Vec::new();
        let mut i: usize = 0;
        while i < self.members.len()
            invariant
                0 <= i <= self.members.len(),
                out@.len() == i,
                forall|j: int| 0 <= j < i ==> out@[j]@ == self@[j],
            decreases self.members.len() - i,
        {
            proof {
                assert(self@[i as int] == self.members@[i as int]@);
            }
            out.push(self.members[i].duplicate());
            i += 1;
        }
        let r = Peers { members: out };
        proof {
            assert(r@ =~= self@);
        }
        r
    }

    /// The peer stored at position `i`, for iteration by index.
    pub fn at(&self, i: usize) -> (r: Peer)
        requires
            i < self@.len(),
        ensures
            r@ == self@[i as int],
    {
        proof {
            assert(self@[i as int] == self.members@[i as int]@);
        }
        self.members[i].duplicate()
    }

    /// The largest registered id, or 0 for an empty registry.
    pub fn max_id(&self) -> (r: u64)
        ensures
            forall|i: int| 0 <= i < self@.len() ==> self@[i].id <= r,
            r != 0 ==> spec_contains(self@, r),
            self@.len() == 0 ==> r == 0,
    {
        let mut best: u64 = 0;
        let mut i: usize = 0;
        while i < self.members.len()
            invariant
                0 <= i <= self.members.len(),
                forall|j: int| 0 <= j < i ==> self@[j].id <= best,
                best != 0 ==> spec_contains(self@, best),
                i == 0 ==> best == 0,
            decreases self.members.len() - i,
        {
            proof {
                assert(self@[i as int] == self.members@[i as int]@);
            }
            if self.members[i].id > best {
                best = self.members[i].id;
                proof {
                    assert(self@[i as int].id == best);
                }
            }
            i += 1;
        }
        best
    }
}

} // verus!
