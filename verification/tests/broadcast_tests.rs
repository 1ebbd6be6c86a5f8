use std::collections::HashSet;

use chaos::broadcast::{window_size, BroadcastNode, MIN_WINDOWING_SIZE};
use chaos::data_models::{Body, NodeMessage, Topology};
use chaos::handler::{MsgIds, NodeHandler};

fn name(text: &str) -> String {
    text.to_string()
}

fn node(id: &str, peers: &[&str]) -> BroadcastNode {
    let mut node = BroadcastNode::new();
    node.init(name(id), peers.iter().map(|p| name(p)).collect());
    node
}

fn from(src: &str, dest: &str, body: Body) -> NodeMessage {
    NodeMessage { src: name(src), dest: name(dest), body }
}

fn values(range: std::ops::Range<usize>) -> HashSet<usize> {
    range.collect()
}

fn read_ok_values(out: Option<Vec<NodeMessage>>) -> HashSet<usize> {
    let mut msgs = out.expect("no response from 'Read'!");
    assert_eq!(msgs.len(), 1);
    match msgs.remove(0).body {
        Body::ReadOk { messages, .. } => messages,
        other => panic!("'read' did not produce a 'read_ok' message: {:?}", other),
    }
}

#[test]
fn default_node_knows_nothing() {
    let node = BroadcastNode::default();
    assert!(node.neighbors().is_empty());
    assert!(!node.knows(0));
    assert!(!node.peer_knows(&name("c1"), 0));
}

#[test]
fn sends_broadcast() {
    let mut node = node("n1", &["c1", "c2"]);
    let mut ids = MsgIds::new();
    let msgs = node.handle_msg(from("c1", "n1", Body::Broadcast { msg_id: 0, message: 1 }), &mut ids);
    match msgs {
        Some(msgs) => match &msgs[0].body {
            Body::BroadcastOk { msg_id: _, in_reply_to } => assert!(*in_reply_to == 0),
            _ => assert!(false, "'broadcast' did not produce a 'broadcast_ok' message"),
        },
        None => assert!(false, "no response from 'Broadcast'!"),
    }
}

#[test]
fn read_message_adds_extras() {
    let mut node = node("n1", &["c1"]);
    let mut ids = MsgIds::new();
    let told = node.handle_msg(
        from("c1", "n1", Body::ReadOk { msg_id: 0, in_reply_to: 0, messages: values(0..100) }),
        &mut ids,
    );
    assert!(told.is_none());
    let msg = node.handle_msg(from("c1", "n1", Body::Read { msg_id: 0 }), &mut ids);
    match msg {
        Some(msg) => {
            assert!(msg.len() == 1);
            match &msg[0].body {
                Body::ReadOk { msg_id: _, in_reply_to: _, messages } => {
                    assert!(messages.len() == 20)
                }
                _ => assert!(false, "'read' did not produce a 'read_ok' message"),
            }
        }
        None => assert!(false, "no response from 'Read'!"),
    }
}

#[test]
fn read_sample_is_drawn_from_what_is_known() {
    let mut node = node("n1", &["c1"]);
    let mut ids = MsgIds::new();
    node.handle_msg(
        from("c1", "n1", Body::ReadOk { msg_id: 0, in_reply_to: 0, messages: values(0..100) }),
        &mut ids,
    );
    for _ in 0..20 {
        let got = read_ok_values(node.handle_msg(from("c1", "n1", Body::Read { msg_id: 0 }), &mut ids));
        assert_eq!(got.len(), 20);
        assert!(got.iter().all(|v| *v < 100));
    }
}

#[test]
fn topology_sets_the_neighbors() {
    let mut n2 = node("n2", &["n1", "n2", "n3"]);
    assert_eq!(n2.neighbors(), &vec![name("n1"), name("n2"), name("n3")]);
    let mut topology = Topology::new();
    topology.insert(name("n1"), vec![name("n2")]);
    topology.insert(name("n2"), vec![name("n1"), name("n3")]);
    topology.insert(name("n3"), vec![name("n2")]);
    let mut ids = MsgIds::new();
    let out = n2
        .handle_msg(from("c7", "n2", Body::Topology { msg_id: 4, topology }), &mut ids)
        .expect("a topology message is acknowledged");
    assert_eq!(n2.neighbors(), &vec![name("n1"), name("n3")]);
    assert_eq!(out.len(), 1);
    assert_eq!(out[0].src, "n2");
    assert_eq!(out[0].dest, "c7");
    match out[0].body {
        Body::TopologyOk { msg_id, in_reply_to } => {
            assert_eq!(msg_id, 1);
            assert_eq!(in_reply_to, 4);
        }
        ref other => panic!("expected topology_ok, got {:?}", other),
    }
}

#[test]
fn topology_without_this_node_keeps_the_neighbors() {
    let mut n2 = node("n2", &["n1", "n3"]);
    let mut topology = Topology::new();
    topology.insert(name("n1"), vec![name("n3")]);
    let mut ids = MsgIds::new();
    let out = n2
        .handle_msg(from("c7", "n2", Body::Topology { msg_id: 9, topology }), &mut ids)
        .expect("a topology message is acknowledged");
    assert_eq!(n2.neighbors(), &vec![name("n1"), name("n3")]);
    assert_eq!(out.len(), 1);
    assert!(matches!(out[0].body, Body::TopologyOk { in_reply_to: 9, .. }));
}

#[test]
fn broadcast_is_acknowledged_and_forwarded() {
    let mut n1 = node("n1", &["c1", "c2"]);
    let mut ids = MsgIds::new();
    let out = n1
        .handle_msg(from("c1", "n1", Body::Broadcast { msg_id: 0, message: 1 }), &mut ids)
        .expect("a broadcast is answered");
    assert_eq!(out.len(), 3);
    assert_eq!(out[0].src, "n1");
    assert_eq!(out[0].dest, "c1");
    assert!(matches!(out[0].body, Body::BroadcastOk { msg_id: 1, in_reply_to: 0 }));
    assert_eq!(out[1].src, "n1");
    assert_eq!(out[1].dest, "c1");
    assert!(matches!(out[1].body, Body::Broadcast { msg_id: 2, message: 1 }));
    assert_eq!(out[2].src, "n1");
    assert_eq!(out[2].dest, "c2");
    assert!(matches!(out[2].body, Body::Broadcast { msg_id: 3, message: 1 }));
    assert!(n1.knows(1));
    assert!(n1.peer_knows(&name("c1"), 1));
    assert!(!n1.peer_knows(&name("c2"), 1));
    assert!(!n1.knows(2));
}

#[test]
fn repeated_broadcast_changes_nothing_but_is_forwarded() {
    let mut n1 = node("n1", &["n2"]);
    let mut ids = MsgIds::new();
    n1.handle_msg(from("c1", "n1", Body::Broadcast { msg_id: 0, message: 5 }), &mut ids);
    let read_once = read_ok_values(n1.handle_msg(from("c9", "n1", Body::Read { msg_id: 1 }), &mut ids));
    let out = n1
        .handle_msg(from("c1", "n1", Body::Broadcast { msg_id: 2, message: 5 }), &mut ids)
        .expect("a broadcast is answered");
    assert_eq!(out.len(), 2);
    assert!(matches!(out[0].body, Body::BroadcastOk { in_reply_to: 2, .. }));
    assert!(matches!(out[1].body, Body::Broadcast { message: 5, .. }));
    assert_eq!(out[1].dest, "n2");
    let read_twice = read_ok_values(n1.handle_msg(from("c9", "n1", Body::Read { msg_id: 3 }), &mut ids));
    assert_eq!(read_once, values(5..6));
    assert_eq!(read_twice, values(5..6));
    assert!(n1.knows(5));
    assert!(n1.peer_knows(&name("c1"), 5));
    assert_eq!(n1.neighbors(), &vec![name("n2")]);
}

#[test]
fn read_of_nothing_is_empty() {
    let mut n1 = node("n1", &["n2"]);
    let mut ids = MsgIds::new();
    let out = n1
        .handle_msg(from("c1", "n1", Body::Read { msg_id: 3 }), &mut ids)
        .expect("a read is answered");
    assert_eq!(out.len(), 1);
    assert_eq!(out[0].src, "n1");
    assert_eq!(out[0].dest, "c1");
    match &out[0].body {
        Body::ReadOk { msg_id, in_reply_to, messages } => {
            assert_eq!(*msg_id, 1);
            assert_eq!(*in_reply_to, 3);
            assert!(messages.is_empty());
        }
        other => panic!("expected read_ok, got {:?}", other),
    }
}

#[test]
fn read_carries_the_deficit() {
    let mut n1 = node("n1", &[]);
    let mut ids = MsgIds::new();
    n1.handle_msg(
        from("c1", "n1", Body::ReadOk { msg_id: 0, in_reply_to: 0, messages: values(0..50) }),
        &mut ids,
    );
    n1.handle_msg(
        from("c2", "n1", Body::ReadOk { msg_id: 0, in_reply_to: 0, messages: values(40..60) }),
        &mut ids,
    );
    let got = read_ok_values(n1.handle_msg(from("c2", "n1", Body::Read { msg_id: 0 }), &mut ids));
    assert!(values(0..40).is_subset(&got));
    assert!(got.is_subset(&values(0..60)));
    assert!(got.len() <= 40 + 12);
    let got = read_ok_values(n1.handle_msg(from("c3", "n1", Body::Read { msg_id: 0 }), &mut ids));
    assert_eq!(got, values(0..60));
}

#[test]
fn read_does_not_update_the_ledger() {
    let mut n1 = node("n1", &[]);
    let mut ids = MsgIds::new();
    n1.handle_msg(from("c1", "n1", Body::Broadcast { msg_id: 0, message: 8 }), &mut ids);
    let first = read_ok_values(n1.handle_msg(from("c2", "n1", Body::Read { msg_id: 1 }), &mut ids));
    assert_eq!(first, values(8..9));
    assert!(!n1.peer_knows(&name("c2"), 8));
    let second = read_ok_values(n1.handle_msg(from("c2", "n1", Body::Read { msg_id: 2 }), &mut ids));
    assert_eq!(second, values(8..9));
}

#[test]
fn read_ok_is_recorded_without_reply() {
    let mut n1 = node("n1", &["n2"]);
    let mut ids = MsgIds::new();
    let out = n1.handle_msg(
        from("n2", "n1", Body::ReadOk { msg_id: 5, in_reply_to: 1, messages: values(10..13) }),
        &mut ids,
    );
    assert!(out.is_none());
    for v in 10..13 {
        assert!(n1.knows(v));
        assert!(n1.peer_knows(&name("n2"), v));
    }
    assert!(!n1.knows(13));
    assert_eq!(ids.next(), 1);
}

#[test]
fn other_messages_get_no_reply() {
    let mut n1 = node("n1", &["n2"]);
    let mut ids = MsgIds::new();
    assert!(n1
        .handle_msg(from("c1", "n1", Body::Echo { msg_id: 1, echo: name("x") }), &mut ids)
        .is_none());
    assert!(n1.handle_msg(from("c1", "n1", Body::Generate { msg_id: 1 }), &mut ids).is_none());
    assert!(n1
        .handle_msg(from("c1", "n1", Body::BroadcastOk { msg_id: 1, in_reply_to: 0 }), &mut ids)
        .is_none());
    assert_eq!(ids.next(), 1);
}

#[test]
fn ticks_do_nothing() {
    let mut n1 = node("n1", &["n2"]);
    let mut ids = MsgIds::new();
    let out = n1.handle_interval(name("gossip"), std::time::Duration::from_millis(5), &mut ids);
    assert!(out.is_none());
    assert_eq!(n1.neighbors(), &vec![name("n2")]);
    assert_eq!(ids.next(), 1);
}

#[test]
fn window_is_a_fifth_clamped() {
    assert_eq!(MIN_WINDOWING_SIZE, 5);
    assert_eq!(window_size(0), 0);
    assert_eq!(window_size(1), 1);
    assert_eq!(window_size(4), 4);
    assert_eq!(window_size(5), 5);
    assert_eq!(window_size(6), 5);
    assert_eq!(window_size(25), 5);
    assert_eq!(window_size(29), 5);
    assert_eq!(window_size(30), 6);
    assert_eq!(window_size(100), 20);
    assert_eq!(window_size(usize::MAX), usize::MAX / 5);
}

#[test]
fn reply_to_read_merges_the_extras() {
    let mut n1 = node("n1", &[]);
    let mut ids = MsgIds::new();
    n1.handle_msg(
        from("c1", "n1", Body::ReadOk { msg_id: 0, in_reply_to: 0, messages: values(0..10) }),
        &mut ids,
    );
    n1.handle_msg(
        from("c2", "n1", Body::ReadOk { msg_id: 0, in_reply_to: 0, messages: values(0..4) }),
        &mut ids,
    );
    let reply = n1.reply_to_read(&name("c2"), 6, 9, &vec![1, 2, 2, 7]);
    assert_eq!(reply.src, "n1");
    assert_eq!(reply.dest, "c2");
    match reply.body {
        Body::ReadOk { msg_id, in_reply_to, messages } => {
            assert_eq!(msg_id, 9);
            assert_eq!(in_reply_to, 6);
            let mut wanted = values(4..10);
            wanted.insert(1);
            wanted.insert(2);
            assert_eq!(messages, wanted);
        }
        other => panic!("expected read_ok, got {:?}", other),
    }
}

/// One read of `nodes[reader]` at `nodes[responder]` and the delivery of
/// the answer.
fn exchange(nodes: &mut Vec<BroadcastNode>, names: &[&str], reader: usize, responder: usize) {
    let mut ids = MsgIds::new();
    let mut answer = nodes[responder]
        .handle_msg(from(names[reader], names[responder], Body::Read { msg_id: 1 }), &mut ids)
        .expect("a read is answered");
    assert_eq!(answer.len(), 1);
    let answer = answer.remove(0);
    assert_eq!(answer.src, names[responder]);
    assert_eq!(answer.dest, names[reader]);
    assert!(nodes[reader].handle_msg(answer, &mut ids).is_none());
}

#[test]
fn rounds_of_reads_bring_every_value_everywhere() {
    let names = ["n1", "n2", "n3", "n4"];
    let links: [&[usize]; 4] = [&[1], &[0, 2], &[1, 3], &[2]];
    let mut nodes: Vec<BroadcastNode> = Vec::new();
    for (i, id) in names.iter().enumerate() {
        let neighbors: Vec<&str> = links[i].iter().map(|j| names[*j]).collect();
        nodes.push(node(id, &neighbors));
    }
    let mut ids = MsgIds::new();
    for v in 0..30 {
        nodes[0].handle_msg(from("c1", "n1", Body::Broadcast { msg_id: v, message: v }), &mut ids);
    }
    for v in 30..40 {
        nodes[3].handle_msg(from("c2", "n4", Body::Broadcast { msg_id: v, message: v }), &mut ids);
    }
    nodes[1].handle_msg(from("c3", "n2", Body::Broadcast { msg_id: 0, message: 40 }), &mut ids);
    for _round in 0..3 {
        for reader in 0..names.len() {
            for responder in links[reader] {
                exchange(&mut nodes, &names, reader, *responder);
            }
        }
    }
    for node in &nodes {
        for v in 0..41 {
            assert!(node.knows(v));
        }
        assert!(!node.knows(41));
    }
}
