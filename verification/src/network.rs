//! The decisions a node takes while it talks to its peers. The caller does
//! the networking (connecting, reading, writing, waiting) and tells the node
//! what happened; the node keeps the set of connected peers and answers what
//! to send and to whom.

use vstd::prelude::*;
use crate::messages::{HandshakeType, PeerAddr, PeerSet, Req, Resp};

verus! {

/// The IPv4 address 127.0.0.1, on which every node of the network listens.
pub open spec fn local_ip() -> u32 {
    0x7f00_0001
}

/// The address of the node that listens at `port` on this machine.
pub open spec fn local_peer(port: u16) -> PeerAddr {
    PeerAddr::V4 { ip4: local_ip(), port }
}

/// The address of the node that listens at `port` on this machine.
pub fn local_address(port: u16) -> (a: PeerAddr)
    ensures
        a == local_peer(port),
{
    PeerAddr::V4 { ip4: 0x7f00_0001, port }
}

/// The request a node sends first on a connection it opens: its own address
/// and the kind of handshake.
pub fn handshake_request(own_port: u16, kind: HandshakeType) -> (r: Req)
    ensures
        r == Req::Handshake(local_peer(own_port), kind),
{
    Req::Handshake(local_address(own_port), kind)
}

/// A change of the set of connected peers.
pub enum Membership {
    Joined(PeerAddr),
    Left(PeerAddr),
}

/// The set of connected peers after the change `e`.
pub open spec fn membership_step(known: Set<PeerAddr>, e: Membership) -> Set<PeerAddr> {
    match e {
        Membership::Joined(a) => known.insert(a),
        Membership::Left(a) => known.remove(a),
    }
}

/// The set of connected peers after the changes `evs`, in order.
pub open spec fn replay(known: Set<PeerAddr>, evs: Seq<Membership>) -> Set<PeerAddr>
    decreases evs.len(),
{
    if evs.len() == 0 {
        known
    } else {
        membership_step(replay(known, evs.drop_last()), evs.last())
    }
}

/// The peers a node announces when it answers a handshake of kind `kind`:
/// all it is connected to for a first connection, nobody otherwise.
pub open spec fn handshake_answer(known: Set<PeerAddr>, kind: HandshakeType) -> Set<PeerAddr> {
    match kind {
        HandshakeType::Initial => known,
        HandshakeType::Peer => Set::empty(),
    }
}

/// The peers that a round of gossip goes to: all connected peers, and no
/// round at all while there is none.
pub open spec fn gossip_plan(known: Set<PeerAddr>) -> Option<Set<PeerAddr>> {
    if known == Set::<PeerAddr>::empty() {
        None
    } else {
        Some(known)
    }
}

/// The addresses of a list of connections to open.
pub open spec fn dial_targets(v: Seq<(PeerAddr, HandshakeType)>) -> Seq<PeerAddr> {
    Seq::new(v.len(), |i: int| v[i].0)
}

/// The peers a handshake answer announces.
pub open spec fn announced(resp: Resp) -> Set<PeerAddr> {
    match resp {
        Resp::Handshake(s) => s@,
    }
}

/// How a connection with a peer came to an end.
pub enum ConnectionEnd {
    /// The peer closed its side.
    ReadClosed,
    /// Reading from the peer failed.
    ReadFailed,
    /// Gossip rounds are no longer announced to this connection.
    GossipStopped,
    /// Writing the gossip message to the peer failed.
    WriteFailed,
}

/// Whether the end `e` of a connection drops its peer from the connected
/// set: every end but a failed write does.
pub open spec fn end_drops_peer(e: ConnectionEnd) -> bool {
    !(e is WriteFailed)
}

/// A node: the set of peers it is connected to.
pub struct Node {
    peers: PeerSet,
}

impl View for Node {
    type V = Set<PeerAddr>;

    closed spec fn view(&self) -> Set<PeerAddr> {
        self.peers@
    }
}

impl Node {
    /// A node connected to nobody.
    pub fn new() -> (n: Node)
        ensures
            n@ == Set::<PeerAddr>::empty(),
    {
        Node { peers: PeerSet::new() }
    }

    /// A handshake request has come in on an accepted connection: the address
    /// the other node announces and the answer to send it, or `None` when the
    /// request is no handshake.
    pub fn answer_handshake(&self, req: &Req) -> (r: Option<(PeerAddr, Resp)>)
        ensures
            match *req {
                Req::Handshake(a, kind) => r matches Some((b, resp)) && b == a && announced(resp)
                    == handshake_answer(self@, kind),
                Req::Message(_) => r is None,
            },
    {
        match req {
            Req::Handshake(addr, kind) => {
                let set = match kind {
                    HandshakeType::Initial => self.peers.duplicate(),
                    HandshakeType::Peer => PeerSet::new(),
                };
                Some((*addr, Resp::Handshake(set)))
            },
            Req::Message(_) => None,
        }
    }

    /// The answer to the handshake of the node at `addr` has been sent: that
    /// node is connected.
    pub fn answer_sent(&mut self, addr: PeerAddr)
        ensures
            final(self)@ == membership_step(old(self)@, Membership::Joined(addr)),
    {
        self.peers.insert(addr);
    }

    /// The node at `server` has answered our handshake with `resp`: it is
    /// connected, and each peer it announces is to be joined in turn, with a
    /// `Peer` handshake.
    pub fn answer_received(&mut self, server: PeerAddr, resp: &Resp) -> (dial: Vec<
        (PeerAddr, HandshakeType),
    >)
        ensures
            final(self)@ == membership_step(old(self)@, Membership::Joined(server)),
            dial_targets(dial@).to_set() == announced(*resp),
            dial_targets(dial@).no_duplicates(),
            forall|i: int| 0 <= i < dial@.len() ==> (#[trigger] dial@[i]).1 == HandshakeType::Peer,
    {
        self.peers.insert(server);
        let Resp::Handshake(set) = resp;
        let addrs = set.elements();
        let mut dial: Vec<(PeerAddr, HandshakeType)> = Vec::new();
        let mut i: usize = 0;
        while i < addrs.len()
            invariant
                i <= addrs.len(),
                dial@.len() == i,
                dial_targets(dial@) == addrs@.take(i as int),
                forall|j: int| 0 <= j < dial@.len() ==> (#[trigger] dial@[j]).1 == HandshakeType::Peer,
            decreases addrs.len() - i,
        {
            let ghost before = dial@;
            dial.push((addrs[i], HandshakeType::Peer));
            assert(dial@ == before.push((addrs@[i as int], HandshakeType::Peer)));
            assert forall|j: int| 0 <= j <= i implies #[trigger] dial_targets(dial@)[j] == addrs@.take(i + 1)[j] by {
                if j < i {
                    assert(dial_targets(before)[j] == addrs@.take(i as int)[j]);
                }
            }
            i = i + 1;
            assert(dial_targets(dial@) =~= addrs@.take(i as int));
        }
        assert(addrs@.take(addrs.len() as int) =~= addrs@);
        dial
    }

    /// The connection with the node at `addr` is gone (closed, failed, or no
    /// longer fed with gossip rounds): it is no longer connected.
    pub fn connection_lost(&mut self, addr: &PeerAddr)
        ensures
            final(self)@ == membership_step(old(self)@, Membership::Left(*addr)),
    {
        self.peers.remove(addr);
    }

    /// The connection with the node at `addr` has ended as `how` says: the
    /// node is no longer connected, unless only a write failed.
    pub fn connection_ended(&mut self, addr: &PeerAddr, how: ConnectionEnd)
        ensures
            final(self)@ == if end_drops_peer(how) {
                membership_step(old(self)@, Membership::Left(*addr))
            } else {
                old(self)@
            },
    {
        match how {
            ConnectionEnd::WriteFailed => {},
            _ => self.connection_lost(addr),
        }
    }

    /// A gossip period has passed: the peers to send the gossip message to,
    /// or `None` when there is none.
    pub fn gossip_targets(&self) -> (r: Option<Vec<PeerAddr>>)
        ensures
            match r {
                Some(v) => gossip_plan(self@) == Some(v@.to_set()) && v@.no_duplicates(),
                None => gossip_plan(self@) is None,
            },
    {
        if self.peers.is_empty() {
            None
        } else {
            Some(self.peers.elements())
        }
    }
}

// ---------------------------------------------------------------------------
// Laws
// ---------------------------------------------------------------------------

/// A peer that has joined stays connected, announced to first-time
/// handshakes and reached by every gossip round, as long as it is not lost.
pub proof fn law_joined_peer_stays(known: Set<PeerAddr>, a: PeerAddr, evs: Seq<Membership>)
    requires
        forall|i: int| 0 <= i < evs.len() ==> #[trigger] evs[i] != Membership::Left(a),
    ensures
        replay(membership_step(known, Membership::Joined(a)), evs).contains(a),
        handshake_answer(replay(membership_step(known, Membership::Joined(a)), evs), HandshakeType::Initial).contains(a),
        gossip_plan(replay(membership_step(known, Membership::Joined(a)), evs)) matches Some(t)
            && t.contains(a),
    decreases evs.len(),
{
    let start = membership_step(known, Membership::Joined(a));
    if evs.len() > 0 {
        let d = evs.drop_last();
        assert forall|i: int| 0 <= i < d.len() implies #[trigger] d[i] != Membership::Left(a) by {
            assert(d[i] == evs[i]);
        }
        law_joined_peer_stays(known, a, d);
        assert(evs.last() == evs[evs.len() - 1]);
    }
    let end = replay(start, evs);
    assert(end.contains(a));
    assert(end != Set::<PeerAddr>::empty());
}

/// A peer that is lost is no longer connected, announced or gossiped to,
/// until it joins again.
pub proof fn law_lost_peer_gone(known: Set<PeerAddr>, a: PeerAddr, evs: Seq<Membership>)
    requires
        forall|i: int| 0 <= i < evs.len() ==> #[trigger] evs[i] != Membership::Joined(a),
    ensures
        !replay(membership_step(known, Membership::Left(a)), evs).contains(a),
        !handshake_answer(replay(membership_step(known, Membership::Left(a)), evs), HandshakeType::Initial).contains(a),
        !(gossip_plan(replay(membership_step(known, Membership::Left(a)), evs)) matches Some(t)
            && t.contains(a)),
    decreases evs.len(),
{
    if evs.len() > 0 {
        let d = evs.drop_last();
        assert forall|i: int| 0 <= i < d.len() implies #[trigger] d[i] != Membership::Joined(a) by {
            assert(d[i] == evs[i]);
        }
        law_lost_peer_gone(known, a, d);
        assert(evs.last() == evs[evs.len() - 1]);
    }
}

/// A peer that no change names keeps its standing, connected or not.
pub proof fn law_other_peers_untouched(known: Set<PeerAddr>, b: PeerAddr, evs: Seq<Membership>)
    requires
        forall|i: int|
            0 <= i < evs.len() ==> #[trigger] evs[i] != Membership::Joined(b) && evs[i]
                != Membership::Left(b),
    ensures
        replay(known, evs).contains(b) == known.contains(b),
    decreases evs.len(),
{
    if evs.len() > 0 {
        let d = evs.drop_last();
        assert forall|i: int| 0 <= i < d.len() implies #[trigger] d[i] != Membership::Joined(b)
            && d[i] != Membership::Left(b) by {
            assert(d[i] == evs[i]);
        }
        law_other_peers_untouched(known, b, d);
        assert(evs.last() == evs[evs.len() - 1]);
    }
}

/// A handshake of a node that is not joining for the first time is answered
/// with nobody, whatever the answering node knows; a first-time handshake is
/// answered with every connected peer, so the newcomer joins them all.
pub proof fn law_handshake_answers(known: Set<PeerAddr>)
    ensures
        handshake_answer(known, HandshakeType::Peer) == Set::<PeerAddr>::empty(),
        handshake_answer(known, HandshakeType::Initial) == known,
{
}

} // verus!
