use p2p_local::messages::{HandshakeType, PeerAddr, PeerSet, Req, Resp};
use p2p_local::network::{handshake_request, local_address, ConnectionEnd, Node};

fn v4(a: u8, b: u8, c: u8, d: u8, port: u16) -> PeerAddr {
    PeerAddr::V4 { ip4: u32::from_be_bytes([a, b, c, d]), port }
}

fn sorted(mut v: Vec<PeerAddr>) -> Vec<PeerAddr> {
    v.sort_by_key(|a| format!("{:?}", a));
    v
}

#[test]
fn peer_set_keeps_each_address_once() {
    let mut s = PeerSet::new();
    assert!(s.is_empty());
    s.insert(v4(127, 0, 0, 1, 8080));
    s.insert(v4(127, 0, 0, 1, 8081));
    s.insert(v4(127, 0, 0, 1, 8080));
    assert_eq!(s.len(), 2);
    assert!(s.contains(&v4(127, 0, 0, 1, 8081)));
    s.remove(&v4(127, 0, 0, 1, 8081));
    assert!(!s.contains(&v4(127, 0, 0, 1, 8081)));
    s.remove(&v4(127, 0, 0, 1, 9999));
    assert_eq!(s.elements(), vec![v4(127, 0, 0, 1, 8080)]);
    let d = s.duplicate();
    assert_eq!(d.elements(), s.elements());
}

#[test]
fn own_address_is_local() {
    assert_eq!(local_address(8080), v4(127, 0, 0, 1, 8080));
    match handshake_request(8081, HandshakeType::Initial) {
        Req::Handshake(a, k) => {
            assert_eq!(a, v4(127, 0, 0, 1, 8081));
            assert_eq!(k, HandshakeType::Initial);
        }
        Req::Message(_) => panic!("not a handshake"),
    }
}

#[test]
fn first_handshake_gets_every_peer() {
    let mut node = Node::new();
    node.answer_sent(v4(127, 0, 0, 1, 8081));
    node.answer_sent(v4(127, 0, 0, 1, 8082));
    let req = Req::Handshake(v4(127, 0, 0, 1, 8083), HandshakeType::Initial);
    let (who, resp) = node.answer_handshake(&req).unwrap();
    assert_eq!(who, v4(127, 0, 0, 1, 8083));
    let Resp::Handshake(set) = resp;
    assert_eq!(
        sorted(set.elements()),
        sorted(vec![v4(127, 0, 0, 1, 8081), v4(127, 0, 0, 1, 8082)])
    );
}

#[test]
fn peer_handshake_gets_nobody() {
    let mut node = Node::new();
    node.answer_sent(v4(127, 0, 0, 1, 8081));
    let req = Req::Handshake(v4(127, 0, 0, 1, 8083), HandshakeType::Peer);
    let (_, resp) = node.answer_handshake(&req).unwrap();
    let Resp::Handshake(set) = resp;
    assert!(set.is_empty());
}

#[test]
fn chat_message_is_no_handshake() {
    let node = Node::new();
    assert!(node.answer_handshake(&Req::Message(String::from("hi"))).is_none());
}

#[test]
fn answer_received_joins_the_announced_peers() {
    let mut node = Node::new();
    let mut set = PeerSet::new();
    set.insert(v4(127, 0, 0, 1, 8082));
    set.insert(v4(127, 0, 0, 1, 8083));
    let dial = node.answer_received(v4(127, 0, 0, 1, 8080), &Resp::Handshake(set));
    assert_eq!(dial.len(), 2);
    assert!(dial.iter().all(|(_, k)| *k == HandshakeType::Peer));
    assert_eq!(
        sorted(dial.iter().map(|(a, _)| *a).collect()),
        sorted(vec![v4(127, 0, 0, 1, 8082), v4(127, 0, 0, 1, 8083)])
    );
    assert_eq!(node.gossip_targets(), Some(vec![v4(127, 0, 0, 1, 8080)]));
}

#[test]
fn gossip_only_with_peers() {
    let mut node = Node::new();
    assert_eq!(node.gossip_targets(), None);
    node.answer_sent(v4(127, 0, 0, 1, 8081));
    assert_eq!(node.gossip_targets(), Some(vec![v4(127, 0, 0, 1, 8081)]));
    node.connection_lost(&v4(127, 0, 0, 1, 8081));
    assert_eq!(node.gossip_targets(), None);
}

#[test]
fn lost_peer_is_no_longer_announced() {
    let mut node = Node::new();
    node.answer_sent(v4(127, 0, 0, 1, 8081));
    node.answer_sent(v4(127, 0, 0, 1, 8082));
    node.connection_lost(&v4(127, 0, 0, 1, 8081));
    let req = Req::Handshake(v4(127, 0, 0, 1, 8090), HandshakeType::Initial);
    let (_, Resp::Handshake(set)) = node.answer_handshake(&req).unwrap();
    assert_eq!(set.elements(), vec![v4(127, 0, 0, 1, 8082)]);
}

#[test]
fn failed_write_keeps_the_peer() {
    let mut node = Node::new();
    node.answer_sent(v4(127, 0, 0, 1, 8081));
    node.connection_ended(&v4(127, 0, 0, 1, 8081), ConnectionEnd::WriteFailed);
    assert_eq!(node.gossip_targets(), Some(vec![v4(127, 0, 0, 1, 8081)]));
    node.connection_ended(&v4(127, 0, 0, 1, 8081), ConnectionEnd::GossipStopped);
    assert_eq!(node.gossip_targets(), None);
    node.answer_sent(v4(127, 0, 0, 1, 8081));
    node.connection_ended(&v4(127, 0, 0, 1, 8081), ConnectionEnd::ReadClosed);
    assert_eq!(node.gossip_targets(), None);
    node.answer_sent(v4(127, 0, 0, 1, 8081));
    node.connection_ended(&v4(127, 0, 0, 1, 8081), ConnectionEnd::ReadFailed);
    assert_eq!(node.gossip_targets(), None);
}
