use chaos::data_models::{Body, NodeMessage};
use chaos::init::{handle_init, InitBody, InitMessage};
use chaos::io::{frame_line, sink_step, SinkAction, SinkEvent, SinkPhase};

fn note(id: usize) -> NodeMessage {
    NodeMessage { src: "n1".to_string(), dest: "c1".to_string(), body: Body::Read { msg_id: id } }
}

fn written_id(action: SinkAction) -> usize {
    match action {
        SinkAction::Write(NodeMessage { body: Body::Read { msg_id }, .. }) => msg_id,
        other => panic!("expected a write, got {:?}", other),
    }
}

#[test]
fn frame_line_appends_one_newline() {
    assert_eq!(frame_line("{}".to_string()), "{}\n");
    assert_eq!(frame_line(String::new()), "\n");
    assert_eq!(frame_line("a\n".to_string()), "a\n\n");
}

#[test]
fn serving_sink_writes_what_it_finds() {
    let (phase, action) = sink_step(SinkPhase::Serving, SinkEvent::Queued(note(7)));
    assert_eq!(phase, SinkPhase::Serving);
    assert_eq!(written_id(action), 7);
}

#[test]
fn serving_sink_waits_when_idle() {
    let (phase, action) = sink_step(SinkPhase::Serving, SinkEvent::Empty);
    assert_eq!(phase, SinkPhase::Serving);
    assert!(matches!(action, SinkAction::Wait));
}

#[test]
fn cancelled_sink_begins_to_drain() {
    let (phase, action) = sink_step(SinkPhase::Serving, SinkEvent::Cancelled);
    assert_eq!(phase, SinkPhase::Draining);
    assert!(matches!(action, SinkAction::Close));
    let (phase, action) = sink_step(SinkPhase::Serving, SinkEvent::Disconnected);
    assert_eq!(phase, SinkPhase::Draining);
    assert!(matches!(action, SinkAction::Close));
}

#[test]
fn draining_sink_drops_nothing() {
    let mut phase = SinkPhase::Serving;
    let mut written = Vec::new();
    let events = vec![
        SinkEvent::Queued(note(1)),
        SinkEvent::Empty,
        SinkEvent::Queued(note(2)),
        SinkEvent::Cancelled,
        SinkEvent::Queued(note(3)),
        SinkEvent::Queued(note(4)),
        SinkEvent::Disconnected,
    ];
    for event in events {
        let (next, action) = sink_step(phase, event);
        phase = next;
        if let SinkAction::Write(msg) = action {
            written.push(written_id(SinkAction::Write(msg)));
        }
    }
    assert_eq!(written, vec![1, 2, 3, 4]);
    assert_eq!(phase, SinkPhase::Closed);
}

#[test]
fn closed_sink_leaves() {
    let (phase, action) = sink_step(SinkPhase::Closed, SinkEvent::Empty);
    assert_eq!(phase, SinkPhase::Closed);
    assert!(matches!(action, SinkAction::Exit));
    let (phase, action) = sink_step(SinkPhase::Draining, SinkEvent::Disconnected);
    assert_eq!(phase, SinkPhase::Closed);
    assert!(matches!(action, SinkAction::Exit));
    let (phase, action) = sink_step(SinkPhase::Draining, SinkEvent::Empty);
    assert_eq!(phase, SinkPhase::Draining);
    assert!(matches!(action, SinkAction::Wait));
}

#[test]
fn handshake_is_acknowledged() {
    let msg = InitMessage {
        src: "c0".to_string(),
        dest: "n3".to_string(),
        body: InitBody::Init {
            msg_id: 1,
            node_id: "n3".to_string(),
            node_ids: vec!["n1".to_string(), "n2".to_string(), "n3".to_string()],
        },
    };
    let (reply, body) = handle_init(msg);
    assert_eq!(reply.src, "n3");
    assert_eq!(reply.dest, "c0");
    match reply.body {
        InitBody::InitOk { in_reply_to } => assert_eq!(in_reply_to, 1),
        other => panic!("expected init_ok, got {:?}", other),
    }
    match body {
        InitBody::Init { msg_id, node_id, node_ids } => {
            assert_eq!(msg_id, 1);
            assert_eq!(node_id, "n3");
            assert_eq!(node_ids, vec!["n1".to_string(), "n2".to_string(), "n3".to_string()]);
        }
        other => panic!("expected init, got {:?}", other),
    }
}
