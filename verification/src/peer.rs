use vstd::prelude::*;

use crate::crypto::PublicKey;

verus! {

/// A peer of the fixed network roster: its id and its public key.  The
/// network address belongs to the I/O layer, not to the verified state.
#[derive(Clone, Debug)]
pub struct Peer {
    pub id: u32,
    pub publ_key: PublicKey,
}

impl Peer {
    pub fn id(&self) -> (r: u32)
        ensures
            r == self.id,
    {
        self.id
    }

    pub fn publ_key(&self) -> (r: &PublicKey)
        ensures
            *r == self.publ_key,
    {
        &self.publ_key
    }
}

#[derive(Debug)]
pub enum PeersCatalogError {
    DuplicateEntry(PublicKey),
    NotFound,
}

/// Whether some peer of `peers` carries the key `key`.
pub open spec fn spec_has_key(peers: Seq<Peer>, key: Seq<u8>) -> bool {
    exists|i: int| 0 <= i < peers.len() && peers[i].publ_key@ == key
}

/// The index of the peer carrying `key`; meaningful when `spec_has_key`
/// holds and the keys are unique.
pub open spec fn spec_key_id(peers: Seq<Peer>, key: Seq<u8>) -> int {
    choose|i: int| 0 <= i < peers.len() && peers[i].publ_key@ == key
}

/// The immutable-after-bootstrap roster: peers ordered by id, with id
/// equal to position and no key repeated.
#[derive(Clone, Debug)]
pub struct PeersCatalog {
    pub peers: Vec<Peer>,
}

impl PeersCatalog {
    pub open spec fn wf(&self) -> bool {
        &&& forall|i: int|
            0 <= i < self.peers@.len() ==> (#[trigger] self.peers@[i]).id == i
        &&& forall|i: int, j: int|
            0 <= i < j < self.peers@.len() ==> self.peers@[i].publ_key@ != self.peers@[
                j
            ].publ_key@
    }

    pub fn new() -> (r: Self)
        ensures
            r.wf(),
            r.peers@.len() == 0,
    {
        PeersCatalog { peers: Vec::new() }
    }

    pub fn new_with_capacity(cap: usize) -> (r: Self)
        ensures
            r.wf(),
            r.peers@.len() == 0,
    {
        PeersCatalog { peers: Vec::with_capacity(cap) }
    }

    pub fn len(&self) -> (r: usize)
        ensures
            r == self.peers@.len(),
    {
        self.peers.len()
    }

    pub fn is_empty(&self) -> (r: bool)
        ensures
            r == (self.peers@.len() == 0),
    {
        self.peers.is_empty()
    }

    /// Adds a peer with the next id, refusing a key that is already
    /// present.
    pub fn insert(&mut self, publ_key: PublicKey) -> (r: Result<u32, PeersCatalogError>)
        requires
            old(self).wf(),
            old(self).peers@.len() < u32::MAX,
        ensures
            final(self).wf(),
            spec_has_key(old(self).peers@, publ_key@) ==> (r matches Err(
                PeersCatalogError::DuplicateEntry(k),
            ) && k@ == publ_key@ && *final(self) == *old(self)),
            !spec_has_key(old(self).peers@, publ_key@) ==> {
                &&& r == Ok::<u32, PeersCatalogError>(old(self).peers@.len() as u32)
                &&& final(self).peers@.len() == old(self).peers@.len() + 1
                &&& final(self).peers@.last().publ_key@ == publ_key@
                &&& final(self).peers@.drop_last() == old(self).peers@
            },
    {
        let n = self.peers.len();
        let mut i: usize = 0;
        while i < n
            invariant
                i <= n,
                n == self.peers@.len(),
                *self == *old(self),
                self.wf(),
                forall|k: int| 0 <= k < i ==> self.peers@[k].publ_key@ != publ_key@,
            decreases n - i,
        {
            if self.peers[i].publ_key.key_eq(&publ_key) {
                return Err(PeersCatalogError::DuplicateEntry(publ_key));
            }
            i += 1;
        }

        let id = n as u32;
        self.peers.push(Peer { id, publ_key });
        proof {
            assert(self.peers@.drop_last() =~= old(self).peers@);
        }
        Ok(id)
    }

    pub fn get_by_id(&self, id: u32) -> (r: Option<&Peer>)
        ensures
            id < self.peers@.len() ==> (r matches Some(p) && *p == self.peers@[id as int]),
            id >= self.peers@.len() ==> r is None,
    {
        if (id as usize) < self.peers.len() {
            Some(&self.peers[id as usize])
        } else {
            None
        }
    }

    /// Finds the peer carrying `publ_key`, if any.
    pub fn get_by_publ_key(&self, publ_key: &PublicKey) -> (r: Option<&Peer>)
        requires
            self.wf(),
        ensures
            spec_has_key(self.peers@, publ_key@) ==> (r matches Some(p) && *p == self.peers@[
                spec_key_id(self.peers@, publ_key@)
            ] && p.id == spec_key_id(self.peers@, publ_key@)),
            !spec_has_key(self.peers@, publ_key@) ==> r is None,
    {
        let n = self.peers.len();
        let mut i: usize = 0;
        while i < n
            invariant
                i <= n,
                n == self.peers@.len(),
                self.wf(),
                forall|k: int| 0 <= k < i ==> self.peers@[k].publ_key@ != publ_key@,
            decreases n - i,
        {
            if self.peers[i].publ_key.key_eq(publ_key) {
                proof {
                    assert(spec_has_key(self.peers@, publ_key@));
                    let w = spec_key_id(self.peers@, publ_key@);
                    if w != i {
                        assert(self.peers@[w].publ_key@ == self.peers@[i as int].publ_key@);
                        assert(false);
                    }
                }
                return Some(&self.peers[i]);
            }
            i += 1;
        }
        None
    }
}

} // verus!
