//! The values that peers exchange, and the set of peers a node knows.

use vstd::prelude::*;

verus! {

/// Address of a peer: the IP address (as a number) and the TCP port,
/// with the extra fields an IPv6 socket address carries.
#[derive(Clone, Copy, Debug, PartialEq, Eq, Hash, Structural)]
pub enum PeerAddr {
    V4 { ip4: u32, port: u16 },
    V6 { ip6: u128, port: u16, flowinfo: u32, scope_id: u32 },
}

/// Whether a handshake opens the first connection of a node to the network
/// (`Initial`: the answer lists the peers the server knows) or a connection
/// to a peer learned from such a list (`Peer`: the answer lists nobody).
#[derive(Clone, Copy, Debug, PartialEq, Eq, Structural)]
pub enum HandshakeType {
    Initial,
    Peer,
}

/// A set of peer addresses, each held once.
pub struct PeerSet {
    items: Vec<PeerAddr>,
}

impl View for PeerSet {
    type V = Set<PeerAddr>;

    closed spec fn view(&self) -> Set<PeerAddr> {
        self.items@.to_set()
    }
}

impl PeerSet {
    #[verifier::type_invariant]
    closed spec fn no_repeats(self) -> bool {
        self.items@.no_duplicates()
    }

    /// The empty set.
    pub fn new() -> (s: PeerSet)
        ensures
            s@ == Set::<PeerAddr>::empty(),
    {
        let s = PeerSet { items: Vec::new() };
        assert(s@ =~= Set::<PeerAddr>::empty());
        s
    }

    fn position(&self, addr: &PeerAddr) -> (r: Option<usize>)
        ensures
            match r {
                Some(i) => i < self.items.len() && self.items@[i as int] == *addr,
                None => !self.items@.contains(*addr),
            },
    {
        let mut i: usize = 0;
        while i < self.items.len()
            invariant
                i <= self.items.len(),
                forall|j: int| 0 <= j < i ==> self.items@[j] != *addr,
            decreases self.items.len() - i,
        {
            if self.items[i] == *addr {
                return Some(i);
            }
            i = i + 1;
        }
        None
    }

    /// Whether `addr` is in the set.
    pub fn contains(&self, addr: &PeerAddr) -> (b: bool)
        ensures
            b == self@.contains(*addr),
    {
        self.position(addr).is_some()
    }

    /// Adds `addr`; the set is unchanged if it holds `addr` already.
    pub fn insert(&mut self, addr: PeerAddr)
        ensures
            final(self)@ == old(self)@.insert(addr),
    {
        proof { use_type_invariant(&*self); }
        match self.position(&addr) {
            None => {
                let mut items: Vec<PeerAddr> = Vec::new();
                std::mem::swap(&mut items, &mut self.items);
                items.push(addr);
                assert(items@ =~= old(self).items@ + seq![addr]);
                proof {
                    Seq::lemma_to_set_insert_commutes(old(self).items@, addr);
                }
                self.items = items;
                assert(self@ == old(self)@.insert(addr));
            },
            Some(i) => {
                assert(old(self)@.contains(addr));
                assert(self@ =~= old(self)@.insert(addr));
            },
        }
    }

    /// Removes `addr`; the set is unchanged if it does not hold `addr`.
    pub fn remove(&mut self, addr: &PeerAddr)
        ensures
            final(self)@ == old(self)@.remove(*addr),
    {
        proof { use_type_invariant(&*self); }
        match self.position(addr) {
            None => {
                assert(self@ =~= old(self)@.remove(*addr));
            },
            Some(i) => {
                let mut items: Vec<PeerAddr> = Vec::new();
                std::mem::swap(&mut items, &mut self.items);
                let ghost before = items@;
                items.remove(i);
                assert(items@ == before.remove(i as int));
                assert forall|x: PeerAddr| items@.contains(x) <==> (before.contains(x) && x != *addr) by {
                    if items@.contains(x) {
                        let k = choose|k: int| 0 <= k < items@.len() && items@[k] == x;
                        if k < i {
                            assert(before[k] == x);
                        } else {
                            assert(before[k + 1] == x);
                        }
                        assert(x != *addr);
                    }
                    if before.contains(x) && x != *addr {
                        let k = choose|k: int| 0 <= k < before.len() && before[k] == x;
                        if k < i {
                            assert(items@[k] == x);
                        } else {
                            assert(items@[k - 1] == x);
                        }
                    }
                }
                assert(items@.no_duplicates());
                self.items = items;
                assert(self@ =~= old(self)@.remove(*addr));
            },
        }
    }

    /// Number of peers in the set.
    pub fn len(&self) -> (n: usize)
        ensures
            n == self@.len(),
            self@.finite(),
    {
        proof {
            use_type_invariant(self);
            self.items@.unique_seq_to_set();
        }
        self.items.len()
    }

    /// Whether the set holds no peer.
    pub fn is_empty(&self) -> (b: bool)
        ensures
            b <==> self@ == Set::<PeerAddr>::empty(),
    {
        proof { use_type_invariant(self); }
        if self.items.len() == 0 {
            assert(self@ =~= Set::<PeerAddr>::empty());
            true
        } else {
            assert(self@.contains(self.items@[0]));
            false
        }
    }

    /// The peers of the set, each listed once.
    pub fn elements(&self) -> (v: Vec<PeerAddr>)
        ensures
            v@.to_set() == self@,
            v@.no_duplicates(),
            v@.len() == self@.len(),
    {
        proof {
            use_type_invariant(self);
            self.items@.unique_seq_to_set();
        }
        let mut v: Vec<PeerAddr> = Vec::new();
        let mut i: usize = 0;
        while i < self.items.len()
            invariant
                i <= self.items.len(),
                v@ == self.items@.take(i as int),
            decreases self.items.len() - i,
        {
            v.push(self.items[i]);
            i = i + 1;
            assert(v@ =~= self.items@.take(i as int));
        }
        assert(v@ =~= self.items@);
        v
    }

    /// A second set with the same peers.
    pub fn duplicate(&self) -> (s: PeerSet)
        ensures
            s@ == self@,
    {
        proof { use_type_invariant(self); }
        PeerSet { items: self.elements() }
    }
}

/// A request that opens a connection, or a chat message.
pub enum Req {
    Handshake(PeerAddr, HandshakeType),
    Message(String),
}

/// The answer to a handshake: the peers the answering node announces.
pub enum Resp {
    Handshake(PeerSet),
}

} // verus!
