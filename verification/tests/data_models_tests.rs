use std::collections::HashSet;

use chaos::data_models::{Body, NodeMessage, NodeType, Topology};

fn envelope(body: Body) -> NodeMessage {
    NodeMessage { src: "c1".to_string(), dest: "n1".to_string(), body }
}

fn msg_id_of(body: &Body) -> usize {
    match body {
        Body::Echo { msg_id, .. } => *msg_id,
        Body::EchoOk { msg_id, .. } => *msg_id,
        Body::Generate { msg_id } => *msg_id,
        Body::GenerateOk { msg_id, .. } => *msg_id,
        Body::Topology { msg_id, .. } => *msg_id,
        Body::TopologyOk { msg_id, .. } => *msg_id,
        Body::Broadcast { msg_id, .. } => *msg_id,
        Body::BroadcastOk { msg_id, .. } => *msg_id,
        Body::Read { msg_id } => *msg_id,
        Body::ReadOk { msg_id, .. } => *msg_id,
    }
}

fn one_of_each() -> Vec<Body> {
    let mut values = HashSet::new();
    values.insert(4);
    let mut topology = Topology::new();
    topology.insert("n1".to_string(), vec!["n2".to_string()]);
    vec![
        Body::Echo { msg_id: 1, echo: "hi".to_string() },
        Body::EchoOk { msg_id: 1, in_reply_to: 2, echo: "hi".to_string() },
        Body::Generate { msg_id: 1 },
        Body::GenerateOk { msg_id: 1, in_reply_to: 2, id: "n1-0".to_string() },
        Body::Topology { msg_id: 1, topology },
        Body::TopologyOk { msg_id: 1, in_reply_to: 2 },
        Body::Broadcast { msg_id: 1, message: 9 },
        Body::BroadcastOk { msg_id: 1, in_reply_to: 2 },
        Body::Read { msg_id: 1 },
        Body::ReadOk { msg_id: 1, in_reply_to: 2, messages: values },
    ]
}

#[test]
fn workload_names_are_lower_case() {
    assert_eq!(NodeType::Echo.to_string(), "echo");
    assert_eq!(NodeType::Generate.to_string(), "generate");
    assert_eq!(NodeType::Broadcast.to_string(), "broadcast");
}

#[test]
fn requests_classify_to_their_workload() {
    let mut seen = Vec::new();
    for body in one_of_each() {
        seen.push(envelope(body).as_node_type());
    }
    assert_eq!(
        seen,
        vec![
            Some(NodeType::Echo),
            None,
            Some(NodeType::Generate),
            None,
            Some(NodeType::Broadcast),
            None,
            Some(NodeType::Broadcast),
            None,
            Some(NodeType::Broadcast),
            Some(NodeType::Broadcast),
        ]
    );
}

#[test]
fn set_msg_id_overwrites_every_variant() {
    for mut body in one_of_each() {
        body.set_msg_id(77);
        assert_eq!(msg_id_of(&body), 77);
    }
}

#[test]
fn set_msg_id_keeps_the_rest() {
    let mut body = Body::EchoOk { msg_id: 1, in_reply_to: 2, echo: "hi".to_string() };
    body.set_msg_id(usize::MAX);
    match body {
        Body::EchoOk { msg_id, in_reply_to, echo } => {
            assert_eq!(msg_id, usize::MAX);
            assert_eq!(in_reply_to, 2);
            assert_eq!(echo, "hi");
        }
        _ => panic!("the variant changed"),
    }
    let mut values = HashSet::new();
    values.insert(3);
    values.insert(5);
    let mut body = Body::ReadOk { msg_id: 0, in_reply_to: 8, messages: values.clone() };
    body.set_msg_id(12);
    match body {
        Body::ReadOk { msg_id, in_reply_to, messages } => {
            assert_eq!(msg_id, 12);
            assert_eq!(in_reply_to, 8);
            assert_eq!(messages, values);
        }
        _ => panic!("the variant changed"),
    }
}

#[test]
fn set_msg_id_keeps_the_workload() {
    let before: Vec<Option<NodeType>> =
        one_of_each().into_iter().map(|body| envelope(body).as_node_type()).collect();
    let mut after = Vec::new();
    for mut body in one_of_each() {
        body.set_msg_id(123);
        after.push(envelope(body).as_node_type());
    }
    assert_eq!(before, after);
}
