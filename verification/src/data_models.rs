//! The wire vocabulary: node and message identifiers, the envelope, the
//! tagged union of message bodies and the workload a body belongs to.

use std::collections::HashSet;
use vstd::prelude::*;

use crate::node_map::NodeMap;

verus! {

/// Identifier that correlates a reply with the message that provoked it.
pub type MsgId = usize;

/// Name of one participant in the network.
pub type NodeId = String;

/// For each node named, the neighbours it gossips to, in order.
pub type Topology = NodeMap<Vec<NodeId>>;

/// The routing category of a message body.
#[derive(Clone, Copy, Debug, PartialEq, Eq, Structural)]
pub enum NodeType {
    Echo,
    Generate,
    Broadcast,
}

impl NodeType {
    /// The lower-case name under which the workload is known.
    pub open spec fn name(self) -> Seq<char> {
        match self {
            NodeType::Echo => "echo"@,
            NodeType::Generate => "generate"@,
            NodeType::Broadcast => "broadcast"@,
        }
    }

    /// The workload's name as an owned string.
    pub fn to_string(&self) -> (text: String)
        ensures
            text@ == self.name(),
    {
        match self {
            NodeType::Echo => "echo".to_string(),
            NodeType::Generate => "generate".to_string(),
            NodeType::Broadcast => "broadcast".to_string(),
        }
    }
}

/// The payload of a message.  Requests carry their own `msg_id`; replies
/// carry their own `msg_id` and, in `in_reply_to`, that of the request.
#[derive(Debug)]
pub enum Body {
    Echo { msg_id: MsgId, echo: String },
    EchoOk { msg_id: MsgId, in_reply_to: MsgId, echo: String },
    Generate { msg_id: MsgId },
    GenerateOk { msg_id: MsgId, in_reply_to: MsgId, id: String },
    Topology { msg_id: MsgId, topology: Topology },
    TopologyOk { msg_id: MsgId, in_reply_to: MsgId },
    Broadcast { msg_id: MsgId, message: usize },
    BroadcastOk { msg_id: MsgId, in_reply_to: MsgId },
    Read { msg_id: MsgId },
    ReadOk { msg_id: MsgId, in_reply_to: MsgId, messages: HashSet<usize> },
}

/// The mathematical content of a [`Body`].
pub ghost enum BodyView {
    Echo { msg_id: MsgId, echo: Seq<char> },
    EchoOk { msg_id: MsgId, in_reply_to: MsgId, echo: Seq<char> },
    Generate { msg_id: MsgId },
    GenerateOk { msg_id: MsgId, in_reply_to: MsgId, id: Seq<char> },
    Topology { msg_id: MsgId, topology: Map<Seq<char>, Seq<Seq<char>>> },
    TopologyOk { msg_id: MsgId, in_reply_to: MsgId },
    Broadcast { msg_id: MsgId, message: usize },
    BroadcastOk { msg_id: MsgId, in_reply_to: MsgId },
    Read { msg_id: MsgId },
    ReadOk { msg_id: MsgId, in_reply_to: MsgId, messages: Set<usize> },
}

/// The neighbour lists of a topology, each name taken by its characters.
pub open spec fn topology_view(topology: Topology) -> Map<Seq<char>, Seq<Seq<char>>> {
    topology@.map_values(|neighbors: Vec<NodeId>| neighbors.deep_view())
}

impl BodyView {
    /// The message's own identifier.
    pub open spec fn msg_id(self) -> MsgId {
        match self {
            BodyView::Echo { msg_id, .. } => msg_id,
            BodyView::EchoOk { msg_id, .. } => msg_id,
            BodyView::Generate { msg_id } => msg_id,
            BodyView::GenerateOk { msg_id, .. } => msg_id,
            BodyView::Topology { msg_id, .. } => msg_id,
            BodyView::TopologyOk { msg_id, .. } => msg_id,
            BodyView::Broadcast { msg_id, .. } => msg_id,
            BodyView::BroadcastOk { msg_id, .. } => msg_id,
            BodyView::Read { msg_id } => msg_id,
            BodyView::ReadOk { msg_id, .. } => msg_id,
        }
    }

    /// The same body under the identifier `id`.
    pub open spec fn with_msg_id(self, id: MsgId) -> BodyView {
        match self {
            BodyView::Echo { msg_id, echo } => BodyView::Echo { msg_id: id, echo },
            BodyView::EchoOk { msg_id, in_reply_to, echo } => BodyView::EchoOk {
                msg_id: id,
                in_reply_to,
                echo,
            },
            BodyView::Generate { msg_id } => BodyView::Generate { msg_id: id },
            BodyView::GenerateOk { msg_id, in_reply_to, id: generated } => BodyView::GenerateOk {
                msg_id: id,
                in_reply_to,
                id: generated,
            },
            BodyView::Topology { msg_id, topology } => BodyView::Topology { msg_id: id, topology },
            BodyView::TopologyOk { msg_id, in_reply_to } => BodyView::TopologyOk {
                msg_id: id,
                in_reply_to,
            },
            BodyView::Broadcast { msg_id, message } => BodyView::Broadcast { msg_id: id, message },
            BodyView::BroadcastOk { msg_id, in_reply_to } => BodyView::BroadcastOk {
                msg_id: id,
                in_reply_to,
            },
            BodyView::Read { msg_id } => BodyView::Read { msg_id: id },
            BodyView::ReadOk { msg_id, in_reply_to, messages } => BodyView::ReadOk {
                msg_id: id,
                in_reply_to,
                messages,
            },
        }
    }

    /// The workload whose handler receives the body.  Requests belong to a
    /// workload; of the replies only `ReadOk` does, because the broadcast
    /// protocol has to see what a peer answered.
    pub open spec fn workload(self) -> Option<NodeType> {
        match self {
            BodyView::Echo { .. } => Some(NodeType::Echo),
            BodyView::Generate { .. } => Some(NodeType::Generate),
            BodyView::Topology { .. } => Some(NodeType::Broadcast),
            BodyView::Broadcast { .. } => Some(NodeType::Broadcast),
            BodyView::Read { .. } => Some(NodeType::Broadcast),
            BodyView::ReadOk { .. } => Some(NodeType::Broadcast),
            _ => None,
        }
    }
}

/// A body under a new identifier carries that identifier, belongs to the
/// workload it belonged to, and forgets the identifier it had.
pub proof fn lemma_with_msg_id(body: BodyView, id: MsgId, other: MsgId)
    ensures
        body.with_msg_id(id).msg_id() == id,
        body.with_msg_id(id).workload() == body.workload(),
        body.with_msg_id(other).with_msg_id(id) == body.with_msg_id(id),
        body.with_msg_id(body.msg_id()) == body,
{
}

impl View for Body {
    type V = BodyView;

    open spec fn view(&self) -> BodyView {
        match *self {
            Body::Echo { msg_id, echo } => BodyView::Echo { msg_id, echo: echo@ },
            Body::EchoOk { msg_id, in_reply_to, echo } => BodyView::EchoOk {
                msg_id,
                in_reply_to,
                echo: echo@,
            },
            Body::Generate { msg_id } => BodyView::Generate { msg_id },
            Body::GenerateOk { msg_id, in_reply_to, id } => BodyView::GenerateOk {
                msg_id,
                in_reply_to,
                id: id@,
            },
            Body::Topology { msg_id, topology } => BodyView::Topology {
                msg_id,
                topology: topology_view(topology),
            },
            Body::TopologyOk { msg_id, in_reply_to } => BodyView::TopologyOk { msg_id, in_reply_to },
            Body::Broadcast { msg_id, message } => BodyView::Broadcast { msg_id, message },
            Body::BroadcastOk { msg_id, in_reply_to } => BodyView::BroadcastOk {
                msg_id,
                in_reply_to,
            },
            Body::Read { msg_id } => BodyView::Read { msg_id },
            Body::ReadOk { msg_id, in_reply_to, messages } => BodyView::ReadOk {
                msg_id,
                in_reply_to,
                messages: messages@,
            },
        }
    }
}

impl Body {
    /// Overwrites the message's own identifier and leaves the rest as it is.
    pub fn set_msg_id(&mut self, new_id: MsgId)
        ensures
            final(self)@ == old(self)@.with_msg_id(new_id),
    {
        match self {
            Body::Echo { msg_id, .. } => *msg_id = new_id,
            Body::EchoOk { msg_id, .. } => *msg_id = new_id,
            Body::Generate { msg_id } => *msg_id = new_id,
            Body::GenerateOk { msg_id, .. } => *msg_id = new_id,
            Body::Topology { msg_id, .. } => *msg_id = new_id,
            Body::TopologyOk { msg_id, .. } => *msg_id = new_id,
            Body::Broadcast { msg_id, .. } => *msg_id = new_id,
            Body::BroadcastOk { msg_id, .. } => *msg_id = new_id,
            Body::Read { msg_id } => *msg_id = new_id,
            Body::ReadOk { msg_id, .. } => *msg_id = new_id,
        }
    }
}

/// The envelope that travels between nodes.
#[derive(Debug)]
pub struct NodeMessage {
    pub src: NodeId,
    pub dest: NodeId,
    pub body: Body,
}

/// The mathematical content of a [`NodeMessage`].
pub ghost struct NodeMessageView {
    pub src: Seq<char>,
    pub dest: Seq<char>,
    pub body: BodyView,
}

impl View for NodeMessage {
    type V = NodeMessageView;

    open spec fn view(&self) -> NodeMessageView {
        NodeMessageView { src: self.src@, dest: self.dest@, body: self.body@ }
    }
}

impl DeepView for NodeMessage {
    type V = NodeMessageView;

    open spec fn deep_view(&self) -> NodeMessageView {
        self@
    }
}

impl NodeMessage {
    /// The workload whose handler the message is routed to, or `None` for a
    /// reply that no handler needs to see.
    pub fn as_node_type(&self) -> (workload: Option<NodeType>)
        ensures
            workload == self@.body.workload(),
    {
        match &self.body {
            Body::Echo { .. } => Some(NodeType::Echo),
            Body::Generate { .. } => Some(NodeType::Generate),
            Body::Topology { .. } => Some(NodeType::Broadcast),
            Body::Broadcast { .. } => Some(NodeType::Broadcast),
            Body::Read { .. } => Some(NodeType::Broadcast),
            Body::ReadOk { .. } => Some(NodeType::Broadcast),
            _ => None,
        }
    }
}

} // verus!
