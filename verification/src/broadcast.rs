//! The anti-entropy broadcast handler: it replicates a growing set of
//! values over a neighbour topology and tracks, peer by peer, what the
//! other side is believed to know.

use core::time::Duration;
use std::collections::HashSet;
use vstd::prelude::*;
use vstd::std_specs::iter::IteratorSpec;

use crate::data_models::{Body, BodyView, MsgId, NodeId, NodeMessage, NodeMessageView, Topology};
use crate::handler::{id_at, MsgIds, NodeHandler};
use crate::node_map::NodeMap;

verus! {

/// The least number of extra values a read is answered with, as far as
/// that many are known.
pub const MIN_WINDOWING_SIZE: usize = 5;

/// The state of the broadcast handler.
pub struct BroadcastNode {
    node_id: NodeId,
    neighbors: Vec<NodeId>,
    known_by_peer: NodeMap<HashSet<usize>>,
    known: HashSet<usize>,
}

/// The mathematical content of a [`BroadcastNode`].
pub ghost struct BroadcastView {
    /// The node's own name.
    pub node_id: Seq<char>,
    /// The nodes that broadcasts are forwarded to, in order.
    pub neighbors: Seq<Seq<char>>,
    /// For every peer that ever sent a message, the values it is believed
    /// to know.
    pub known_by_peer: Map<Seq<char>, Set<usize>>,
    /// Every value this node has learned.
    pub known: Set<usize>,
}

/// How many extra values answer a read at a node that knows `known` values:
/// a fifth of them, at least five, and never more than there are.
pub open spec fn window(known: nat) -> nat {
    let wanted = if known / 5 > 5 {
        known / 5
    } else {
        5
    };
    if wanted <= known {
        wanted
    } else {
        known
    }
}

/// Whether `sample` may be the extra values of a read at a node that knows
/// `known`: values of `known`, as many as the window asks for.
pub open spec fn is_sample(known: Set<usize>, sample: Set<usize>) -> bool {
    &&& sample.subset_of(known)
    &&& sample.finite()
    &&& sample.len() == window(known.len())
}

impl BroadcastView {
    /// Nothing a peer is believed to know is unknown here.
    pub open spec fn inv(self) -> bool {
        forall|peer: Seq<char>| #[trigger]
            self.known_by_peer.contains_key(peer) ==> self.known_by_peer[peer].subset_of(
                self.known,
            )
    }

    /// What `peer` is believed to know; nothing, if it never sent a message.
    pub open spec fn peer_knows(self, peer: Seq<char>) -> Set<usize> {
        if self.known_by_peer.contains_key(peer) {
            self.known_by_peer[peer]
        } else {
            Set::empty()
        }
    }

    /// The state after a message from `peer` has come in: the peer has an
    /// entry in the ledger.
    pub open spec fn met(self, peer: Seq<char>) -> BroadcastView {
        BroadcastView {
            known_by_peer: self.known_by_peer.insert(peer, self.peer_knows(peer)),
            ..self
        }
    }

    /// The state after `peer` has shown that it knows `values`.
    pub open spec fn learned(self, peer: Seq<char>, values: Set<usize>) -> BroadcastView {
        BroadcastView {
            known_by_peer: self.known_by_peer.insert(peer, self.peer_knows(peer) + values),
            known: self.known + values,
            ..self
        }
    }

    /// The state after a topology message from `peer`: where the topology
    /// names this node, the neighbours are those it lists.
    pub open spec fn on_topology(
        self,
        peer: Seq<char>,
        topology: Map<Seq<char>, Seq<Seq<char>>>,
    ) -> BroadcastView {
        BroadcastView {
            neighbors: if topology.contains_key(self.node_id) {
                topology[self.node_id]
            } else {
                self.neighbors
            },
            ..self.met(peer)
        }
    }

    /// The state after `peer` has broadcast `value`.
    pub open spec fn on_broadcast(self, peer: Seq<char>, value: usize) -> BroadcastView {
        self.learned(peer, set![value])
    }

    /// The state after `peer` has answered a read with `values`.
    pub open spec fn on_read_ok(self, peer: Seq<char>, values: Set<usize>) -> BroadcastView {
        self.learned(peer, values)
    }

    /// The values known here that `peer` is not believed to know.
    pub open spec fn deficit(self, peer: Seq<char>) -> Set<usize> {
        self.known - self.peer_knows(peer)
    }

    /// The answer to a topology message `in_reply_to` of `peer`.
    pub open spec fn topology_reply(self, peer: Seq<char>, in_reply_to: MsgId, drawn: nat) -> Seq<
        NodeMessageView,
    > {
        seq![
            NodeMessageView {
                src: self.node_id,
                dest: peer,
                body: BodyView::TopologyOk { msg_id: id_at(drawn + 1), in_reply_to },
            },
        ]
    }

    /// The answer to a broadcast `in_reply_to` of `peer`: the acknowledgement
    /// first, then the value for every neighbour in turn.
    pub open spec fn broadcast_batch(
        self,
        peer: Seq<char>,
        in_reply_to: MsgId,
        value: usize,
        drawn: nat,
    ) -> Seq<NodeMessageView> {
        Seq::new(
            self.neighbors.len() + 1,
            |k: int|
                if k == 0 {
                    NodeMessageView {
                        src: self.node_id,
                        dest: peer,
                        body: BodyView::BroadcastOk { msg_id: id_at(drawn + 1), in_reply_to },
                    }
                } else {
                    NodeMessageView {
                        src: self.node_id,
                        dest: self.neighbors[k - 1],
                        body: BodyView::Broadcast {
                            msg_id: id_at((drawn + 1 + k) as nat),
                            message: value,
                        },
                    }
                },
        )
    }

    /// The answer to a read `in_reply_to` of `peer` that carries, besides
    /// the peer's deficit, the extra values `sample`.
    pub open spec fn read_reply(
        self,
        peer: Seq<char>,
        in_reply_to: MsgId,
        sample: Set<usize>,
        drawn: nat,
    ) -> NodeMessageView {
        NodeMessageView {
            src: self.node_id,
            dest: peer,
            body: BodyView::ReadOk {
                msg_id: id_at(drawn + 1),
                in_reply_to,
                messages: self.deficit(peer) + sample,
            },
        }
    }
}

/// The values that `known_by_peer` holds for each peer.
spec fn ledger_view(known_by_peer: NodeMap<HashSet<usize>>) -> Map<Seq<char>, Set<usize>> {
    known_by_peer@.map_values(|values: HashSet<usize>| values@)
}

impl View for BroadcastNode {
    type V = BroadcastView;

    closed spec fn view(&self) -> BroadcastView {
        BroadcastView {
            node_id: self.node_id@,
            neighbors: self.neighbors.deep_view(),
            known_by_peer: ledger_view(self.known_by_peer),
            known: self.known@,
        }
    }
}

/// `picked` holds the items of `list` at the positions `at`, and no
/// position occurs twice.
pub open spec fn picked_at(list: Seq<usize>, picked: Seq<usize>, at: Seq<int>) -> bool {
    &&& at.len() == picked.len()
    &&& at.no_duplicates()
    &&& forall|i: int|
        0 <= i < at.len() ==> 0 <= #[trigger] at[i] < list.len() && picked[i] == list[at[i]]
}

/// Picks `amount` items of `list` at random, or all of them if there are
/// fewer.  Calls `choose_multiple` of `rand::seq::SliceRandom` with the
/// generator of `rand::thread_rng`.  Which items come back is left to
/// chance; what is claimed is what the slice's implementation shows of
/// every outcome: it samples `min(amount, len)` distinct positions and hands
/// back the items that stand there.  Nothing is claimed of a system that
/// cannot seed the generator: there the generator gives up on first use.
#[verifier::external_body]
fn choose_multiple(list: &Vec<usize>, amount: usize) -> (picked: Vec<usize>)
    ensures
        picked@.len() == if amount <= list@.len() {
            amount as nat
        } else {
            list@.len()
        },
        exists|at: Seq<int>| picked_at(list@, picked@, at),
{
    let mut rng = rand::thread_rng();
    rand::seq::SliceRandom::choose_multiple(list.as_slice(), &mut rng, amount).cloned().collect()
}

/// Items picked at distinct positions of a list without repetitions are as
/// many values of the list as there are positions.
pub proof fn lemma_picked_is_sample(list: Seq<usize>, picked: Seq<usize>, at: Seq<int>)
    requires
        list.no_duplicates(),
        picked_at(list, picked, at),
    ensures
        picked.no_duplicates(),
        picked.to_set().subset_of(list.to_set()),
        picked.to_set().finite(),
        picked.to_set().len() == picked.len(),
{
    assert forall|i: int, j: int| 0 <= i < picked.len() && 0 <= j < picked.len() && i
        != j implies picked[i] != picked[j] by {
        assert(at[i] != at[j]);
        assert(list[at[i]] != list[at[j]]);
    }
    assert forall|v: usize| picked.to_set().contains(v) implies list.to_set().contains(v) by {
        let i = choose|i: int| 0 <= i < picked.len() && picked[i] == v;
        assert(list[at[i]] == v);
    }
    picked.unique_seq_to_set();
}

/// The values among the first `count + 1` items of a list are those among
/// the first `count` and the item that follows them.
proof fn lemma_one_more(list: Seq<usize>, count: int)
    requires
        0 <= count < list.len(),
    ensures
        list.take(count + 1).to_set() == list.take(count).to_set().insert(list[count]),
{
    assert(list.take(count + 1) =~= list.take(count).push(list[count]));
    list.take(count).lemma_push_to_set_commute(list[count]);
}

/// The same of a list that is walked by reference.
proof fn lemma_one_more_seen(walked: Seq<&usize>, count: int)
    requires
        0 <= count < walked.len(),
    ensures
        walked.take(count + 1).unref().to_set() == walked.take(count).unref().to_set().insert(
            *walked[count],
        ),
{
    assert(walked.take(count + 1).unref() =~= walked.take(count).unref().push(*walked[count]));
    walked.take(count).unref().lemma_push_to_set_commute(*walked[count]);
}

/// How many extra values answer a read at a node that knows `known` values.
pub fn window_size(known: usize) -> (size: usize)
    ensures
        size == window(known as nat),
{
    let fifth: usize = known / 5;
    let wanted: usize = if fifth > MIN_WINDOWING_SIZE {
        fifth
    } else {
        MIN_WINDOWING_SIZE
    };
    if wanted <= known {
        wanted
    } else {
        known
    }
}

impl BroadcastNode {
    /// A handler that knows nothing yet and has no name.
    pub fn new() -> (node: Self)
        ensures
            node@ == (BroadcastView {
                node_id: Seq::empty(),
                neighbors: Seq::empty(),
                known_by_peer: Map::empty(),
                known: Set::empty(),
            }),
    {
        let node = BroadcastNode {
            node_id: String::new(),
            neighbors: Vec::new(),
            known_by_peer: NodeMap::new(),
            known: HashSet::new(),
        };
        assert(node@.neighbors =~= Seq::empty());
        assert(node@.known_by_peer =~= Map::empty());
        node
    }

    /// The nodes that broadcasts are forwarded to, in order.
    pub fn neighbors(&self) -> (neighbors: &Vec<NodeId>)
        ensures
            neighbors.deep_view() == self@.neighbors,
    {
        &self.neighbors
    }

    /// Whether `value` has been learned.
    pub fn knows(&self, value: usize) -> (known: bool)
        ensures
            known == self@.known.contains(value),
    {
        self.known.contains(&value)
    }

    /// Whether `peer` is believed to know `value`.
    pub fn peer_knows(&self, peer: &NodeId, value: usize) -> (known: bool)
        ensures
            known == self@.peer_knows(peer@).contains(value),
    {
        match self.known_by_peer.get(peer) {
            Some(values) => values.contains(&value),
            None => false,
        }
    }

    /// Makes sure the ledger has an entry for `peer`.
    fn meet(&mut self, peer: &NodeId)
        ensures
            final(self)@ == old(self)@.met(peer@),
    {
        if !self.known_by_peer.contains_key(peer) {
            self.known_by_peer.insert(peer.clone(), HashSet::new());
        }
        assert(self@.known_by_peer =~= old(self)@.met(peer@).known_by_peer);
    }

    /// Records that `peer` knows `value`, and with it this node.
    fn learn_one(&mut self, peer: &NodeId, value: usize)
        ensures
            final(self)@ == old(self)@.learned(peer@, set![value]),
    {
        let mut theirs = match self.known_by_peer.remove(peer) {
            Some(values) => values,
            None => HashSet::new(),
        };
        theirs.insert(value);
        self.known.insert(value);
        self.known_by_peer.insert(peer.clone(), theirs);
        proof {
            let wanted = old(self)@.learned(peer@, set![value]);
            assert(theirs@ =~= old(self)@.peer_knows(peer@) + set![value]);
            assert(self@.known =~= wanted.known);
            assert(self@.known_by_peer =~= wanted.known_by_peer);
        }
    }

    /// Records that `peer` knows `values`, and with it this node.
    fn learn(&mut self, peer: &NodeId, values: &HashSet<usize>)
        ensures
            final(self)@ == old(self)@.learned(peer@, values@),
    {
        let mut theirs = match self.known_by_peer.remove(peer) {
            Some(held) => held,
            None => HashSet::new(),
        };
        let ghost theirs_before = theirs@;
        let ghost known_before = self.known@;
        for value in it: values.iter()
            invariant
                it.seq() == values.iter().remaining(),
                theirs@ == theirs_before + it.seq().take(it.index()).unref().to_set(),
                self.known@ == known_before + it.seq().take(it.index()).unref().to_set(),
                self.known_by_peer@ == old(self).known_by_peer@.remove(peer@),
                self.node_id == old(self).node_id,
                self.neighbors == old(self).neighbors,
        {
            proof {
                lemma_one_more_seen(it.seq(), it.index());
            }
            theirs.insert(*value);
            self.known.insert(*value);
        }
        self.known_by_peer.insert(peer.clone(), theirs);
        proof {
            let all = values.iter().remaining();
            assert(all.take(all.len() as int) =~= all);
            assert(self@.known_by_peer =~= old(self)@.learned(peer@, values@).known_by_peer);
        }
    }

    /// The values learned so far, each once, in no particular order.
    fn known_list(&self) -> (list: Vec<usize>)
        ensures
            list@.no_duplicates(),
            list@.to_set() == self@.known,
            self@.known.finite(),
            list@.len() == self@.known.len(),
    {
        let mut list: Vec<usize> = Vec::new();
        for value in it: self.known.iter()
            invariant
                it.seq() == self.known.iter().remaining(),
                list@.len() == it.index(),
                forall|k: int| 0 <= k < list@.len() ==> list@[k] == *it.seq()[k],
        {
            list.push(*value);
        }
        proof {
            assert(list@ =~= self.known.iter().remaining().unref());
        }
        list
    }

    /// The values known here that `peer` is not believed to know.
    fn deficit(&self, peer: &NodeId) -> (missing: HashSet<usize>)
        ensures
            missing@ == self@.deficit(peer@),
    {
        let mut missing: HashSet<usize> = HashSet::new();
        let theirs = self.known_by_peer.get(peer);
        for value in it: self.known.iter()
            invariant
                it.seq() == self.known.iter().remaining(),
                match theirs {
                    Some(held) => held@ == self@.peer_knows(peer@),
                    None => self@.peer_knows(peer@) == Set::<usize>::empty(),
                },
                missing@ == it.seq().take(it.index()).unref().to_set() - self@.peer_knows(peer@),
        {
            proof {
                lemma_one_more_seen(it.seq(), it.index());
            }
            let held = match theirs {
                Some(values) => values.contains(value),
                None => false,
            };
            if !held {
                missing.insert(*value);
            }
        }
        proof {
            let all = self.known.iter().remaining();
            assert(all.take(all.len() as int) =~= all);
        }
        missing
    }

    /// The answer to a read `in_reply_to` of `peer` under the identifier
    /// `msg_id`: the values that the peer is not believed to know, and with
    /// them the extra values `extras`.  The ledger stays as it is: what the
    /// peer knows is learned from what the peer sends.
    pub fn reply_to_read(
        &self,
        peer: &NodeId,
        in_reply_to: MsgId,
        msg_id: MsgId,
        extras: &Vec<usize>,
    ) -> (reply: NodeMessage)
        ensures
            reply@ == (NodeMessageView {
                src: self@.node_id,
                dest: peer@,
                body: BodyView::ReadOk {
                    msg_id,
                    in_reply_to,
                    messages: self@.deficit(peer@) + extras@.to_set(),
                },
            }),
    {
        let mut messages = self.deficit(peer);
        let ghost missing = messages@;
        let mut i: usize = 0;
        while i < extras.len()
            invariant
                i <= extras@.len(),
                messages@ == missing + extras@.take(i as int).to_set(),
            decreases extras@.len() - i,
        {
            proof {
                lemma_one_more(extras@, i as int);
            }
            messages.insert(extras[i]);
            i = i + 1;
        }
        assert(extras@.take(extras@.len() as int) =~= extras@);
        NodeMessage {
            src: self.node_id.clone(),
            dest: peer.clone(),
            body: Body::ReadOk { msg_id, in_reply_to, messages },
        }
    }

    /// The answer to a broadcast `in_reply_to` of `peer`: the
    /// acknowledgement, then the value for every neighbour.
    fn spread(&self, peer: &NodeId, in_reply_to: MsgId, value: usize, ids: &mut MsgIds) -> (batch:
        Vec<NodeMessage>)
        ensures
            batch.deep_view() == self@.broadcast_batch(peer@, in_reply_to, value, old(ids)@),
            final(ids)@ == old(ids)@ + 1 + self@.neighbors.len(),
    {
        let ghost drawn = ids@;
        let ghost wanted = self@.broadcast_batch(peer@, in_reply_to, value, drawn);
        let mut batch: Vec<NodeMessage> = Vec::new();
        batch.push(
            NodeMessage {
                src: self.node_id.clone(),
                dest: peer.clone(),
                body: Body::BroadcastOk { msg_id: ids.next(), in_reply_to },
            },
        );
        let mut k: usize = 0;
        while k < self.neighbors.len()
            invariant
                k <= self.neighbors@.len(),
                batch@.len() == k + 1,
                ids@ == drawn + 1 + k,
                wanted == self@.broadcast_batch(peer@, in_reply_to, value, drawn),
                forall|j: int| 0 <= j < batch@.len() ==> batch@[j]@ == wanted[j],
            decreases self.neighbors@.len() - k,
        {
            batch.push(
                NodeMessage {
                    src: self.node_id.clone(),
                    dest: self.neighbors[k].clone(),
                    body: Body::Broadcast { msg_id: ids.next(), message: value },
                },
            );
            k = k + 1;
        }
        batch
    }
}

impl Default for BroadcastNode {
    fn default() -> (node: Self)
        ensures
            node@ == (BroadcastView {
                node_id: Seq::empty(),
                neighbors: Seq::empty(),
                known_by_peer: Map::empty(),
                known: Set::empty(),
            }),
    {
        BroadcastNode::new()
    }
}

impl NodeHandler for BroadcastNode {
    /// The handler takes the node's name and, until a topology says
    /// otherwise, every node of the network for a neighbour.
    open spec fn init_allows(
        before: Self,
        node_id: Seq<char>,
        node_ids: Seq<Seq<char>>,
        after: Self,
    ) -> bool {
        after@ == (BroadcastView { node_id, neighbors: node_ids, ..before@ })
    }

    /// Every message enters its sender into the ledger.  A topology message
    /// sets the neighbours and is acknowledged; a broadcast is recorded,
    /// acknowledged and forwarded to every neighbour; a read is answered with
    /// the sender's deficit and a sample of what is known; the answer to a
    /// read is recorded and gets no reply.  Nothing else does anything more.
    open spec fn msg_allows(
        before: Self,
        msg: NodeMessageView,
        drawn: nat,
        after: Self,
        out: Option<Seq<NodeMessageView>>,
        drawn_after: nat,
    ) -> bool {
        match msg.body {
            BodyView::Topology { msg_id, topology } => {
                &&& after@ == before@.on_topology(msg.src, topology)
                &&& out == Some(after@.topology_reply(msg.src, msg_id, drawn))
                &&& drawn_after == drawn + 1
            },
            BodyView::Broadcast { msg_id, message } => {
                &&& after@ == before@.on_broadcast(msg.src, message)
                &&& out == Some(before@.broadcast_batch(msg.src, msg_id, message, drawn))
                &&& drawn_after == drawn + 1 + before@.neighbors.len()
            },
            BodyView::Read { msg_id } => {
                &&& after@ == before@.met(msg.src)
                &&& drawn_after == drawn + 1
                &&& exists|sample: Set<usize>| #[trigger]
                    is_sample(before@.known, sample) && out == Some(
                        seq![before@.read_reply(msg.src, msg_id, sample, drawn)],
                    )
            },
            BodyView::ReadOk { msg_id, in_reply_to, messages } => {
                &&& after@ == before@.on_read_ok(msg.src, messages)
                &&& out is None
                &&& drawn_after == drawn
            },
            _ => {
                &&& after@ == before@.met(msg.src)
                &&& out is None
                &&& drawn_after == drawn
            },
        }
    }

    /// The handler has no timer behaviour.
    open spec fn interval_allows(
        before: Self,
        tag: Seq<char>,
        elapsed: Duration,
        drawn: nat,
        after: Self,
        out: Option<Seq<NodeMessageView>>,
        drawn_after: nat,
    ) -> bool {
        false
    }

    fn init(&mut self, node_id: NodeId, node_ids: Vec<NodeId>) {
        self.node_id = node_id;
        self.neighbors = node_ids;
    }

    fn handle_msg(&mut self, msg: NodeMessage, ids: &mut MsgIds) -> (out: Option<Vec<NodeMessage>>) {
        let NodeMessage { src, dest: _, body } = msg;
        match body {
            Body::Topology { msg_id, topology } => {
                self.meet(&src);
                match topology.get(&self.node_id) {
                    Some(ours) => {
                        self.neighbors = ours.clone();
                    },
                    None => {},
                }
                let reply = NodeMessage {
                    src: self.node_id.clone(),
                    dest: src,
                    body: Body::TopologyOk { msg_id: ids.next(), in_reply_to: msg_id },
                };
                let batch = vec![reply];
                assert(batch.deep_view() =~= self@.topology_reply(src@, msg_id, old(ids)@));
                Some(batch)
            },
            Body::Broadcast { msg_id, message } => {
                let batch = self.spread(&src, msg_id, message, ids);
                self.learn_one(&src, message);
                Some(batch)
            },
            Body::Read { msg_id } => {
                self.meet(&src);
                let id: MsgId = ids.next();
                let list = self.known_list();
                let amount: usize = window_size(list.len());
                let extras = choose_multiple(&list, amount);
                let reply = self.reply_to_read(&src, msg_id, id, &extras);
                let batch = vec![reply];
                proof {
                    let at = choose|at: Seq<int>| picked_at(list@, extras@, at);
                    lemma_picked_is_sample(list@, extras@, at);
                    let sample = extras@.to_set();
                    assert(is_sample(old(self)@.known, sample));
                    assert(batch.deep_view() =~= seq![
                        old(self)@.read_reply(src@, msg_id, sample, old(ids)@),
                    ]);
                }
                Some(batch)
            },
            Body::ReadOk { msg_id: _, in_reply_to: _, messages } => {
                self.learn(&src, &messages);
                None
            },
            _ => {
                self.meet(&src);
                None
            },
        }
    }
}

/// The ledger only grows, and it stays truthful: whatever a message does to
/// a state in which nothing a peer is believed to know is unknown here, the
/// same holds of the state that follows, every value known before is known
/// after, and so is every value a peer was believed to know.  The
/// neighbours change with a topology message and with nothing else.
pub proof fn lemma_ledger_grows(
    state: BroadcastView,
    peer: Seq<char>,
    values: Set<usize>,
    topology: Map<Seq<char>, Seq<Seq<char>>>,
)
    requires
        state.inv(),
    ensures
        state.met(peer).inv(),
        state.learned(peer, values).inv(),
        state.on_topology(peer, topology).inv(),
        state.known.subset_of(state.learned(peer, values).known),
        state.met(peer).known == state.known,
        state.on_topology(peer, topology).known == state.known,
        forall|other: Seq<char>|
            state.peer_knows(other).subset_of(#[trigger] state.learned(peer, values).peer_knows(other)),
        forall|other: Seq<char>| #[trigger] state.met(peer).peer_knows(other) == state.peer_knows(other),
        state.met(peer).neighbors == state.neighbors,
        state.learned(peer, values).neighbors == state.neighbors,
{
}

/// Delivering a value again is safe.  The same broadcast from the same
/// peer leaves the state that the first delivery made; from whatever peer
/// it comes, it leaves what is known here and the neighbours as they are.
/// The value is forwarded all the same: the batch that answers the repeated
/// broadcast is that of the first, under new identifiers.
pub proof fn lemma_broadcast_idempotent(
    state: BroadcastView,
    peer: Seq<char>,
    other: Seq<char>,
    value: usize,
    in_reply_to: MsgId,
    drawn: nat,
)
    ensures
        state.on_broadcast(peer, value).known.contains(value),
        state.on_broadcast(peer, value).peer_knows(peer).contains(value),
        state.on_broadcast(peer, value).on_broadcast(peer, value) == state.on_broadcast(peer, value),
        state.on_broadcast(peer, value).on_broadcast(other, value).known == state.on_broadcast(
            peer,
            value,
        ).known,
        state.on_broadcast(peer, value).on_broadcast(other, value).neighbors == state.neighbors,
        state.on_broadcast(peer, value).broadcast_batch(peer, in_reply_to, value, drawn)
            == state.broadcast_batch(peer, in_reply_to, value, drawn),
        state.broadcast_batch(peer, in_reply_to, value, drawn).len() == state.neighbors.len() + 1,
{
    let once = state.on_broadcast(peer, value);
    let twice = once.on_broadcast(peer, value);
    assert(twice.known =~= once.known);
    assert(once.peer_knows(peer) + set![value] =~= once.peer_knows(peer));
    assert(twice.known_by_peer =~= once.known_by_peer);
}

} // verus!
