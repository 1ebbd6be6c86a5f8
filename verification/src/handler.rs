//! The capability a node's business logic implements, and the source of
//! message identifiers that the runtime lends to it.

use core::time::Duration;
use vstd::prelude::*;

use crate::data_models::{MsgId, NodeId, NodeMessage, NodeMessageView};

verus! {

/// Name of a recurring timer.
pub type Tag = String;

/// The identifier that the `count`-th draw of a process yields: identifiers
/// count up from 1 and start over at 0 once the integer type is exhausted.
pub open spec fn id_at(count: nat) -> MsgId {
    (count % (usize::MAX as nat + 1)) as usize
}

/// The identifier drawn after `last`.
pub open spec fn id_after(last: MsgId) -> MsgId {
    if last == usize::MAX {
        0
    } else {
        (last + 1) as usize
    }
}

/// Each draw yields the successor of the one before it.
pub proof fn lemma_id_at_next(count: nat)
    ensures
        id_at(count + 1) == id_after(id_at(count)),
{
    let range = usize::MAX as int + 1;
    let n = count as int;
    assert((n + 1) % range == if n % range == range - 1 {
        0
    } else {
        n % range + 1
    }) by (nonlinear_arith)
        requires
            range > 0,
            n >= 0,
    ;
}

/// Identifiers grow from draw to draw for as long as the integer type is
/// not exhausted: of two draws among the first `usize::MAX`, the later one
/// yields the greater identifier, and each yields its own number.
pub proof fn lemma_ids_increase(earlier: nat, later: nat)
    requires
        earlier < later <= usize::MAX,
    ensures
        id_at(earlier) == earlier,
        id_at(later) == later,
        id_at(earlier) < id_at(later),
{
    let range = usize::MAX as int + 1;
    let a = earlier as int;
    let b = later as int;
    assert(a % range == a && b % range == b) by (nonlinear_arith)
        requires
            0 <= a < range,
            0 <= b < range,
    ;
}

/// The per-process source of message identifiers.  Its view is the number
/// of identifiers drawn so far.
pub struct MsgIds {
    last: MsgId,
    drawn: Ghost<nat>,
}

impl View for MsgIds {
    type V = nat;

    closed spec fn view(&self) -> nat {
        self.drawn@
    }
}

impl MsgIds {
    #[verifier::type_invariant]
    spec fn last_matches(self) -> bool {
        self.last == id_at(self.drawn@)
    }

    /// A source from which nothing has been drawn.
    pub fn new() -> (ids: Self)
        ensures
            ids@ == 0,
    {
        MsgIds { last: 0, drawn: Ghost(0) }
    }

    /// Draws the next identifier.
    pub fn next(&mut self) -> (id: MsgId)
        ensures
            final(self)@ == old(self)@ + 1,
            id == id_at(final(self)@),
    {
        proof {
            use_type_invariant(&*self);
            lemma_id_at_next(self.drawn@);
        }
        let id: MsgId = self.last.wrapping_add(1);
        *self = MsgIds { last: id, drawn: Ghost((self.drawn@ + 1) as nat) };
        id
    }
}

/// The messages a handler hands back, taken by their content.
pub open spec fn batch_view(out: Option<Vec<NodeMessage>>) -> Option<Seq<NodeMessageView>> {
    match out {
        Some(msgs) => Some(msgs.deep_view()),
        None => None,
    }
}

/// The business logic of a node.  The runtime calls `init` once when the
/// handler is registered, `handle_msg` for every message of a workload the
/// handler was registered for, and `handle_interval` whenever a registered
/// timer fires.
///
/// Each method comes with a relation that says what one call may do.  An
/// implementation that leaves a relation as it is promises nothing; one that
/// defines it has to keep to it.  In each relation `drawn` is the number of
/// identifiers drawn from the runtime before the call, `drawn_after` the
/// number after it.
pub trait NodeHandler: Sized {
    /// What `init` may do.
    open spec fn init_allows(
        before: Self,
        node_id: Seq<char>,
        node_ids: Seq<Seq<char>>,
        after: Self,
    ) -> bool {
        true
    }

    /// What `handle_msg` may do.
    open spec fn msg_allows(
        before: Self,
        msg: NodeMessageView,
        drawn: nat,
        after: Self,
        out: Option<Seq<NodeMessageView>>,
        drawn_after: nat,
    ) -> bool {
        true
    }

    /// What `handle_interval` may do other than nothing.
    open spec fn interval_allows(
        before: Self,
        tag: Seq<char>,
        elapsed: Duration,
        drawn: nat,
        after: Self,
        out: Option<Seq<NodeMessageView>>,
        drawn_after: nat,
    ) -> bool {
        true
    }

    /// Called once, when the handler is registered, with the node's own name
    /// and the names of all nodes of the network.
    fn init(&mut self, node_id: NodeId, node_ids: Vec<NodeId>)
        ensures
            Self::init_allows(*old(self), node_id@, node_ids.deep_view(), *final(self)),
    ;

    /// Called for every message of a workload the handler serves.  What it
    /// returns is sent, in order.
    fn handle_msg(&mut self, msg: NodeMessage, ids: &mut MsgIds) -> (out: Option<Vec<NodeMessage>>)
        ensures
            old(ids)@ <= final(ids)@,
            Self::msg_allows(
                *old(self),
                msg@,
                old(ids)@,
                *final(self),
                batch_view(out),
                final(ids)@,
            ),
    ;

    /// Called whenever a registered timer fires, with the timer's tag and the
    /// time since the node began to run.  A handler without timer behaviour
    /// keeps this method, which does nothing.
    fn handle_interval(&mut self, tag: Tag, elapsed: Duration, ids: &mut MsgIds) -> (out: Option<
        Vec<NodeMessage>,
    >)
        ensures
            old(ids)@ <= final(ids)@,
            Self::interval_allows(
                *old(self),
                tag@,
                elapsed,
                old(ids)@,
                *final(self),
                batch_view(out),
                final(ids)@,
            ) || (out is None && *final(self) == *old(self) && final(ids)@ == old(ids)@),
    {
        None
    }
}

} // verus!
