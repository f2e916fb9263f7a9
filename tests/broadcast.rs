use dist_challenge::broadcast::{BroadcastBody, BroadcastNode};
use dist_challenge::message::{Body, Message, NodeError};
use dist_challenge::node::Node;

fn msg(src: &str, dst: &str, msg_id: Option<usize>, kind: BroadcastBody) -> Message<BroadcastBody> {
    Message { src: src.to_string(), dst: dst.to_string(), body: Body { kind, msg_id, in_reply_to: None } }
}

fn node(id: &str, members: &[&str]) -> BroadcastNode {
    BroadcastNode::new(id.to_string(), members.iter().map(|m| m.to_string()).collect())
}

fn sorted(mut v: Vec<usize>) -> Vec<usize> {
    v.sort();
    v
}

fn read(n: &mut BroadcastNode) -> Vec<usize> {
    let out = n.handle(msg("c1", n.id().clone().as_str(), Some(9), BroadcastBody::Read)).unwrap();
    assert_eq!(out.len(), 1);
    match &out[0].body.kind {
        BroadcastBody::ReadOk { messages } => sorted(messages.clone()),
        other => panic!("expected read_ok, got {:?}", other),
    }
}

fn topology(entries: &[(&str, &[&str])]) -> BroadcastBody {
    BroadcastBody::Topology {
        topology: entries
            .iter()
            .map(|(k, v)| (k.to_string(), v.iter().map(|s| s.to_string()).collect()))
            .collect(),
    }
}

/// Hands every envelope in `out` to the node it is addressed to, returning what they send back.
fn deliver(a: &mut BroadcastNode, b: &mut BroadcastNode, out: Vec<Message<BroadcastBody>>) -> Vec<Message<BroadcastBody>> {
    let mut back = Vec::new();
    for m in out {
        let target = if &m.dst == a.id() { &mut *a } else { &mut *b };
        back.extend(target.handle(m).unwrap());
    }
    back
}

#[test]
fn broadcast_then_read_without_neighbors() {
    let mut a = node("A", &["A"]);
    let out = a.handle(msg("c1", "A", Some(1), BroadcastBody::Broadcast { message: 5 })).unwrap();
    assert_eq!(out.len(), 1);
    assert!(matches!(out[0].body.kind, BroadcastBody::BroadcastOk));
    assert_eq!(out[0].src, "A");
    assert_eq!(out[0].dst, "c1");
    assert_eq!(out[0].body.in_reply_to, Some(1));
    assert_eq!(out[0].body.msg_id, Some(0));
    assert_eq!(read(&mut a), vec![5]);
    assert!(a.gossip().is_empty());
}

#[test]
fn topology_then_single_gossip_before_ack() {
    let mut a = node("A", &["A", "B"]);
    let out = a.handle(msg("c1", "A", Some(2), topology(&[("A", &["B"]), ("B", &["A"])]))).unwrap();
    assert!(matches!(out[0].body.kind, BroadcastBody::TopologyOk));
    assert_eq!(a.neighbors(), &vec!["B".to_string()]);
    a.handle(msg("c1", "A", Some(3), BroadcastBody::Broadcast { message: 5 })).unwrap();
    assert_eq!(a.delivered_values(&"B".to_string()), Some(vec![]));
    let sent = a.gossip();
    assert_eq!(sent.len(), 1);
    assert_eq!(sent[0].src, "A");
    assert_eq!(sent[0].dst, "B");
    assert_eq!(sent[0].body.msg_id, None);
    assert_eq!(sent[0].body.in_reply_to, None);
    match &sent[0].body.kind {
        BroadcastBody::Gossip { messages } => assert_eq!(messages, &vec![5]),
        other => panic!("expected gossip, got {:?}", other),
    }
    // Nothing is marked delivered before an acknowledgment arrives.
    assert_eq!(a.delivered_values(&"B".to_string()), Some(vec![]));
}

#[test]
fn gossip_ack_stops_retransmission() {
    let mut a = node("A", &["A", "B"]);
    let mut b = node("B", &["A", "B"]);
    a.handle(msg("c1", "A", Some(1), topology(&[("A", &["B"]), ("B", &["A"])]))).unwrap();
    a.handle(msg("c1", "A", Some(2), BroadcastBody::Broadcast { message: 5 })).unwrap();
    let sent = a.gossip();
    let acks = b.handle(sent[0].clone()).unwrap();
    assert_eq!(read(&mut b), vec![5]);
    assert_eq!(acks.len(), 1);
    assert_eq!(acks[0].dst, "A");
    match &acks[0].body.kind {
        BroadcastBody::GossipOk { messages } => assert_eq!(messages, &vec![5]),
        other => panic!("expected gossip_ok, got {:?}", other),
    }
    let none = a.handle(acks[0].clone()).unwrap();
    assert!(none.is_empty());
    assert_eq!(a.delivered_values(&"B".to_string()), Some(vec![5]));
    assert!(a.gossip().is_empty());
}

#[test]
fn two_nodes_converge() {
    let mut a = node("A", &["A", "B"]);
    let mut b = node("B", &["A", "B"]);
    let t = topology(&[("A", &["B"]), ("B", &["A"])]);
    a.handle(msg("c1", "A", Some(1), t.clone())).unwrap();
    b.handle(msg("c1", "B", Some(1), t)).unwrap();
    a.handle(msg("c1", "A", Some(2), BroadcastBody::Broadcast { message: 1 })).unwrap();
    b.handle(msg("c2", "B", Some(2), BroadcastBody::Broadcast { message: 2 })).unwrap();
    for _ in 0..3 {
        let mut out = a.gossip();
        out.extend(b.gossip());
        let acks = deliver(&mut a, &mut b, out);
        let rest = deliver(&mut a, &mut b, acks);
        assert!(rest.is_empty());
    }
    assert_eq!(read(&mut a), vec![1, 2]);
    assert_eq!(read(&mut b), vec![1, 2]);
    assert!(a.gossip().is_empty());
    assert!(b.gossip().is_empty());
}

#[test]
fn broadcast_twice_keeps_one_value() {
    let mut a = node("A", &["A"]);
    a.handle(msg("c1", "A", Some(1), BroadcastBody::Broadcast { message: 7 })).unwrap();
    a.handle(msg("c1", "A", Some(2), BroadcastBody::Broadcast { message: 7 })).unwrap();
    assert_eq!(a.accepted_values(), vec![7]);
    assert_eq!(read(&mut a), vec![7]);
}

#[test]
fn gossip_of_known_value_keeps_one_value() {
    let mut a = node("A", &["A", "B"]);
    a.handle(msg("c1", "A", Some(1), BroadcastBody::Broadcast { message: 7 })).unwrap();
    a.handle(msg("B", "A", None, BroadcastBody::Gossip { messages: vec![7, 7] })).unwrap();
    assert_eq!(a.accepted_values(), vec![7]);
    assert_eq!(a.delivered_values(&"B".to_string()), Some(vec![7]));
}

#[test]
fn accepted_never_shrinks() {
    let mut a = node("A", &["A", "B"]);
    let steps = vec![
        msg("c1", "A", Some(1), BroadcastBody::Broadcast { message: 3 }),
        msg("B", "A", None, BroadcastBody::Gossip { messages: vec![4, 3] }),
        msg("c1", "A", Some(2), topology(&[("A", &["B"])])),
        msg("B", "A", None, BroadcastBody::GossipOk { messages: vec![3, 4] }),
        msg("c1", "A", Some(3), BroadcastBody::Read),
        msg("c1", "A", Some(4), BroadcastBody::Broadcast { message: 1 }),
    ];
    let mut before = sorted(a.accepted_values());
    for m in steps {
        a.handle(m).unwrap();
        a.gossip();
        let now = sorted(a.accepted_values());
        assert!(before.iter().all(|v| now.contains(v)));
        before = now;
    }
    assert_eq!(before, vec![1, 3, 4]);
}

#[test]
fn covered_neighbor_gets_nothing_until_new_value() {
    let mut a = node("A", &["A", "B"]);
    a.handle(msg("c1", "A", Some(1), topology(&[("A", &["B"])]))).unwrap();
    a.handle(msg("B", "A", None, BroadcastBody::Gossip { messages: vec![8] })).unwrap();
    assert!(a.gossip().is_empty());
    a.handle(msg("c1", "A", Some(2), BroadcastBody::Broadcast { message: 9 })).unwrap();
    let sent = a.gossip();
    assert_eq!(sent.len(), 1);
    match &sent[0].body.kind {
        BroadcastBody::Gossip { messages } => assert_eq!(messages, &vec![9]),
        other => panic!("expected gossip, got {:?}", other),
    }
}

#[test]
fn read_lists_each_accepted_value_once() {
    let mut a = node("A", &["A", "B"]);
    a.handle(msg("c1", "A", Some(1), BroadcastBody::Broadcast { message: 2 })).unwrap();
    a.handle(msg("B", "A", None, BroadcastBody::Gossip { messages: vec![1, 2, 3] })).unwrap();
    assert_eq!(read(&mut a), vec![1, 2, 3]);
}

#[test]
fn topology_without_entry_means_no_neighbors() {
    let mut a = node("A", &["A", "B"]);
    let out = a.handle(msg("c1", "A", Some(1), topology(&[("B", &["A"])]))).unwrap();
    assert!(matches!(out[0].body.kind, BroadcastBody::TopologyOk));
    assert!(a.neighbors().is_empty());
    a.handle(msg("c1", "A", Some(2), BroadcastBody::Broadcast { message: 1 })).unwrap();
    assert!(a.gossip().is_empty());
}

#[test]
fn topology_first_entry_wins() {
    let mut a = node("A", &["A", "B", "C"]);
    a.handle(msg("c1", "A", Some(1), topology(&[("A", &["C"]), ("A", &["B"])]))).unwrap();
    assert_eq!(a.neighbors(), &vec!["C".to_string()]);
}

#[test]
fn topology_with_unknown_neighbor_is_a_protocol_violation() {
    let mut a = node("A", &["A", "B"]);
    let r = a.handle(msg("c1", "A", Some(1), topology(&[("A", &["B", "Z"])])));
    assert_eq!(r.unwrap_err(), NodeError::ProtocolViolation);
    assert!(a.neighbors().is_empty());
}

#[test]
fn gossip_from_unknown_node_is_unroutable() {
    let mut a = node("A", &["A", "B"]);
    let r = a.handle(msg("Z", "A", None, BroadcastBody::Gossip { messages: vec![1] }));
    assert_eq!(r.unwrap_err(), NodeError::UnroutableNeighbor);
    assert!(a.accepted_values().is_empty());
    let r = a.handle(msg("Z", "A", None, BroadcastBody::GossipOk { messages: vec![1] }));
    assert_eq!(r.unwrap_err(), NodeError::UnroutableNeighbor);
}

#[test]
fn ack_of_unaccepted_value_is_not_recorded() {
    let mut a = node("A", &["A", "B"]);
    a.handle(msg("c1", "A", Some(1), BroadcastBody::Broadcast { message: 1 })).unwrap();
    a.handle(msg("B", "A", None, BroadcastBody::GossipOk { messages: vec![1, 2] })).unwrap();
    assert_eq!(a.delivered_values(&"B".to_string()), Some(vec![1]));
    assert_eq!(a.delivered_values(&"Z".to_string()), None);
}

#[test]
fn reply_bodies_are_answered_in_kind() {
    let mut a = node("A", &["A"]);
    let out = a.handle(msg("c1", "A", Some(4), BroadcastBody::TopologyOk)).unwrap();
    assert_eq!(out.len(), 1);
    assert!(matches!(out[0].body.kind, BroadcastBody::TopologyOk));
    assert_eq!(out[0].dst, "c1");
    assert_eq!(out[0].body.in_reply_to, Some(4));
}

#[test]
fn gossip_goes_to_each_owed_neighbor_in_order() {
    let mut a = node("A", &["A", "B", "C"]);
    a.handle(msg("c1", "A", Some(1), topology(&[("A", &["C", "B"])]))).unwrap();
    a.handle(msg("c1", "A", Some(2), BroadcastBody::Broadcast { message: 1 })).unwrap();
    a.handle(msg("c1", "A", Some(3), BroadcastBody::Broadcast { message: 2 })).unwrap();
    a.handle(msg("B", "A", None, BroadcastBody::GossipOk { messages: vec![1] })).unwrap();
    let sent = a.gossip();
    assert_eq!(sent.len(), 2);
    assert_eq!(sent[0].dst, "C");
    assert_eq!(sent[1].dst, "B");
    match (&sent[0].body.kind, &sent[1].body.kind) {
        (BroadcastBody::Gossip { messages: c }, BroadcastBody::Gossip { messages: b }) => {
            assert_eq!(sorted(c.clone()), vec![1, 2]);
            assert_eq!(b, &vec![2]);
        }
        other => panic!("expected two gossips, got {:?}", other),
    }
}
