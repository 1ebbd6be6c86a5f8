//! The startup handshake: the one message that gives the node its name
//! and the names of its peers, and the acknowledgement that answers it.

use vstd::prelude::*;

use crate::data_models::{MsgId, NodeId};

verus! {

/// The payload of a handshake message.
#[derive(Debug)]
pub enum InitBody {
    Init { msg_id: MsgId, node_id: NodeId, node_ids: Vec<NodeId> },
    InitOk { in_reply_to: MsgId },
}

/// The mathematical content of an [`InitBody`].
pub ghost enum InitBodyView {
    Init { msg_id: MsgId, node_id: Seq<char>, node_ids: Seq<Seq<char>> },
    InitOk { in_reply_to: MsgId },
}

impl View for InitBody {
    type V = InitBodyView;

    open spec fn view(&self) -> InitBodyView {
        match *self {
            InitBody::Init { msg_id, node_id, node_ids } => InitBodyView::Init {
                msg_id,
                node_id: node_id@,
                node_ids: node_ids.deep_view(),
            },
            InitBody::InitOk { in_reply_to } => InitBodyView::InitOk { in_reply_to },
        }
    }
}

/// The envelope of a handshake message.
#[derive(Debug)]
pub struct InitMessage {
    pub src: NodeId,
    pub dest: NodeId,
    pub body: InitBody,
}

/// The mathematical content of an [`InitMessage`].
pub ghost struct InitMessageView {
    pub src: Seq<char>,
    pub dest: Seq<char>,
    pub body: InitBodyView,
}

impl View for InitMessage {
    type V = InitMessageView;

    open spec fn view(&self) -> InitMessageView {
        InitMessageView { src: self.src@, dest: self.dest@, body: self.body@ }
    }
}

impl InitMessageView {
    /// The acknowledgement of the handshake: from the node under its new
    /// name back to whoever sent the handshake.
    pub open spec fn acknowledgement(self) -> InitMessageView
        recommends
            self.body is Init,
    {
        InitMessageView {
            src: self.body->node_id,
            dest: self.src,
            body: InitBodyView::InitOk { in_reply_to: self.body->msg_id },
        }
    }
}

/// Answers the handshake `msg`: hands back the acknowledgement to send and
/// the body of the handshake, which holds the node's identity.  A node
/// never receives an acknowledgement in place of the handshake.
pub fn handle_init(msg: InitMessage) -> (done: (InitMessage, InitBody))
    requires
        msg@.body is Init,
    ensures
        done.0@ == msg@.acknowledgement(),
        done.1@ == msg@.body,
{
    let InitMessage { src, dest: _, body } = msg;
    let reply = match &body {
        InitBody::Init { msg_id, node_id, node_ids: _ } => InitMessage {
            src: node_id.clone(),
            dest: src,
            body: InitBody::InitOk { in_reply_to: *msg_id },
        },
        InitBody::InitOk { in_reply_to: _ } => unreached(),
    };
    (reply, body)
}

} // verus!
