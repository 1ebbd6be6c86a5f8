//! The node runtime: identity, the handler registry, identifier stamping,
//! timer registrations and the decisions of the event loop.
//!
//! The runtime performs no I/O.  Whoever embeds it reads the events and hands
//! them to [`NodeRunner::handle_event`], then sends what comes back.

use core::time::Duration;
use vstd::prelude::*;

use crate::data_models::{
    lemma_with_msg_id, MsgId, NodeId, NodeMessage, NodeMessageView, NodeType,
};
use crate::handler::{batch_view, id_at, lemma_ids_increase, MsgIds, NodeHandler, Tag};
use crate::node_map::NodeMap;

verus! {

/// Where the runtime stands in its life.
#[derive(Clone, Copy, Debug, PartialEq, Eq, Structural)]
pub enum RunState {
    /// Handlers and timers may be registered.
    Setup,
    /// Events are dispatched.
    Running,
    /// No new work is taken; what was sent is being flushed.
    Draining,
    /// The run is over.
    Stopped,
}

/// Why a run could not begin.
#[derive(Clone, Copy, Debug, PartialEq, Eq, Structural)]
pub enum RunError {
    /// No handler was ever registered.
    NoHandlers,
    /// The node has been started before.
    AlreadyStarted,
}

/// A recurring timer: its tag and the time between two ticks.
#[derive(Debug)]
pub struct Interval {
    pub tag: Tag,
    pub period: Duration,
}

/// What the event loop waits for.
#[derive(Debug)]
pub enum Event {
    /// The next inbound message.
    Message(NodeMessage),
    /// A tick of the timer `tag`, `elapsed` after the node began to run.
    Tick { tag: Tag, elapsed: Duration },
    /// The termination signal.
    Shutdown,
    /// The input has come to its end.
    InputClosed,
    /// Everything that was sent has been written.
    Drained,
}

/// What the runtime made of an event.
#[derive(Clone, Copy, Debug, PartialEq, Eq, Structural)]
pub enum Outcome {
    /// The message went to the handler of its workload.
    Handled(NodeType),
    /// Nobody serves the message's workload; the message was dropped.
    NoHandler(NodeType),
    /// The message was a reply that no handler needs; it was dropped.
    Discarded,
    /// The tick went to every handler.
    Ticked,
    /// The run is coming to its end.
    Draining,
    /// The run is over.
    Stopped,
    /// The event came at a time when it means nothing.
    Ignored,
}

/// The result of one turn of the event loop.
#[derive(Debug)]
pub struct Step {
    pub outcome: Outcome,
    /// What is to be sent, in this order.
    pub outbound: Vec<NodeMessage>,
}

/// Which handler, by its position in the registry, serves each workload.
struct Routes {
    echo: Option<usize>,
    generate: Option<usize>,
    broadcast: Option<usize>,
}

impl Routes {
    spec fn of(self, workload: NodeType) -> Option<usize> {
        match workload {
            NodeType::Echo => self.echo,
            NodeType::Generate => self.generate,
            NodeType::Broadcast => self.broadcast,
        }
    }

    spec fn as_map(self) -> Map<NodeType, nat> {
        Map::new(
            |workload: NodeType| self.of(workload) is Some,
            |workload: NodeType| self.of(workload)->0 as nat,
        )
    }

    fn get(&self, workload: NodeType) -> (slot: Option<usize>)
        ensures
            slot == self.of(workload),
    {
        match workload {
            NodeType::Echo => self.echo,
            NodeType::Generate => self.generate,
            NodeType::Broadcast => self.broadcast,
        }
    }

    fn set(&mut self, workload: NodeType, slot: usize)
        ensures
            final(self).as_map() == old(self).as_map().insert(workload, slot as nat),
    {
        match workload {
            NodeType::Echo => self.echo = Some(slot),
            NodeType::Generate => self.generate = Some(slot),
            NodeType::Broadcast => self.broadcast = Some(slot),
        }
    }
}

/// The runtime of one node, over handlers of type `H`.
pub struct NodeRunner<H: NodeHandler> {
    node_id: NodeId,
    node_ids: Vec<NodeId>,
    ids: MsgIds,
    state: RunState,
    handlers: Vec<H>,
    routes: Routes,
    intervals: NodeMap<Duration>,
}

/// The mathematical content of a [`NodeRunner`].
pub ghost struct RunnerView<H> {
    /// The node's own name.
    pub node_id: Seq<char>,
    /// The names of all nodes of the network.
    pub node_ids: Seq<Seq<char>>,
    /// How many identifiers have been drawn.
    pub drawn: nat,
    pub state: RunState,
    /// The registered handlers, in the order of their registration.
    pub handlers: Seq<H>,
    /// For each served workload, the position of its handler.
    pub routes: Map<NodeType, nat>,
    /// The period of each registered timer.
    pub intervals: Map<Seq<char>, Duration>,
}

/// `msgs` after the runtime has put its own identifiers on them: the first
/// gets the identifier of draw `drawn + 1`, the next that of the draw after.
pub open spec fn stamped(msgs: Seq<NodeMessageView>, drawn: nat) -> Seq<NodeMessageView> {
    Seq::new(
        msgs.len(),
        |k: int|
            NodeMessageView {
                body: msgs[k].body.with_msg_id(id_at((drawn + 1 + k) as nat)),
                ..msgs[k]
            },
    )
}

/// After `register_handler`, `types` are served by the handler at `slot`
/// and every other workload by whoever served it before.
pub open spec fn routes_after(routes: Map<NodeType, nat>, types: Seq<NodeType>, slot: nat) -> Map<
    NodeType,
    nat,
> {
    Map::new(
        |workload: NodeType| types.contains(workload) || routes.contains_key(workload),
        |workload: NodeType|
            if types.contains(workload) {
                slot
            } else {
                routes[workload]
            },
    )
}

/// The timers in `timers` are those of `intervals`, each once.
pub open spec fn schedule_of(timers: Seq<Interval>, intervals: Map<Seq<char>, Duration>) -> bool {
    &&& forall|i: int, j: int| 0 <= i < j < timers.len() ==> timers[i].tag@ != timers[j].tag@
    &&& forall|i: int|
        0 <= i < timers.len() ==> intervals.contains_key(#[trigger] timers[i].tag@)
            && intervals[timers[i].tag@] == timers[i].period
    &&& forall|tag: Seq<char>| #[trigger]
        intervals.contains_key(tag) ==> exists|i: int|
            0 <= i < timers.len() && #[trigger] timers[i].tag@ == tag
}

/// The messages of a batch, none where there is no batch.
pub open spec fn batch_msgs(out: Option<Seq<NodeMessageView>>) -> Seq<NodeMessageView> {
    match out {
        Some(msgs) => msgs,
        None => Seq::empty(),
    }
}

/// The handler took `before` to `after` on `msg`, drew identifiers up to
/// draw `mid` and handed back `out`, which stamped is `outbound`.
pub open spec fn msg_served_by<H: NodeHandler>(
    before: H,
    msg: NodeMessageView,
    drawn: nat,
    after: H,
    outbound: Seq<NodeMessageView>,
    drawn_after: nat,
    out: Option<Seq<NodeMessageView>>,
    mid: nat,
) -> bool {
    &&& drawn <= mid
    &&& H::msg_allows(before, msg, drawn, after, out, mid)
    &&& outbound == stamped(batch_msgs(out), mid)
    &&& drawn_after == mid + batch_msgs(out).len()
}

/// One message served: the handler took `before` to `after` and what it
/// handed back, stamped, is `outbound`.
pub open spec fn served_msg<H: NodeHandler>(
    before: H,
    msg: NodeMessageView,
    drawn: nat,
    after: H,
    outbound: Seq<NodeMessageView>,
    drawn_after: nat,
) -> bool {
    exists|out: Option<Seq<NodeMessageView>>, mid: nat|
        msg_served_by(before, msg, drawn, after, outbound, drawn_after, out, mid)
}

/// The handler took `before` to `after` on a tick, or did nothing, drew
/// identifiers up to draw `mid` and handed back `out`, which stamped is
/// `outbound`.
pub open spec fn tick_served_by<H: NodeHandler>(
    before: H,
    tag: Seq<char>,
    elapsed: Duration,
    drawn: nat,
    after: H,
    outbound: Seq<NodeMessageView>,
    drawn_after: nat,
    out: Option<Seq<NodeMessageView>>,
    mid: nat,
) -> bool {
    &&& drawn <= mid
    &&& (H::interval_allows(before, tag, elapsed, drawn, after, out, mid) || (out is None && after
        == before && mid == drawn))
    &&& outbound == stamped(batch_msgs(out), mid)
    &&& drawn_after == mid + batch_msgs(out).len()
}

/// One handler ticked: it took `before` to `after`, or did nothing, and what
/// it handed back, stamped, is `outbound`.
pub open spec fn served_tick<H: NodeHandler>(
    before: H,
    tag: Seq<char>,
    elapsed: Duration,
    drawn: nat,
    after: H,
    outbound: Seq<NodeMessageView>,
    drawn_after: nat,
) -> bool {
    exists|out: Option<Seq<NodeMessageView>>, mid: nat|
        tick_served_by(before, tag, elapsed, drawn, after, outbound, drawn_after, out, mid)
}

/// Handler `j` ticked: it found `marks[j]` identifiers drawn and left
/// `marks[j + 1]`, and what it handed back, stamped, is `outbound` from
/// `cuts[j]` up to `cuts[j + 1]`.
pub open spec fn tick_link<H: NodeHandler>(
    before: Seq<H>,
    after: Seq<H>,
    tag: Seq<char>,
    elapsed: Duration,
    outbound: Seq<NodeMessageView>,
    cuts: Seq<int>,
    marks: Seq<nat>,
    j: int,
) -> bool {
    &&& 0 <= cuts[j] <= cuts[j + 1] <= outbound.len()
    &&& served_tick(
        before[j],
        tag,
        elapsed,
        marks[j],
        after[j],
        outbound.subrange(cuts[j], cuts[j + 1]),
        marks[j + 1],
    )
}

/// Every handler ticked, one after the other in the order of registration.
/// Handler `j` found `marks[j]` identifiers drawn and left `marks[j + 1]`;
/// what it handed back, stamped, is `outbound` from `cuts[j]` up to
/// `cuts[j + 1]`.
pub open spec fn tick_trace<H: NodeHandler>(
    before: Seq<H>,
    after: Seq<H>,
    tag: Seq<char>,
    elapsed: Duration,
    drawn: nat,
    outbound: Seq<NodeMessageView>,
    drawn_after: nat,
    cuts: Seq<int>,
    marks: Seq<nat>,
) -> bool {
    &&& after.len() == before.len()
    &&& cuts.len() == before.len() + 1
    &&& marks.len() == before.len() + 1
    &&& cuts[0] == 0
    &&& cuts.last() == outbound.len()
    &&& marks[0] == drawn
    &&& marks.last() == drawn_after
    &&& forall|j: int|
        0 <= j < before.len() ==> #[trigger] tick_link(
            before,
            after,
            tag,
            elapsed,
            outbound,
            cuts,
            marks,
            j,
        )
}

/// Every handler ticked, one after the other in the order of registration,
/// and what they handed back, stamped and put end to end, is `outbound`.
pub open spec fn ticked_all<H: NodeHandler>(
    before: Seq<H>,
    after: Seq<H>,
    tag: Seq<char>,
    elapsed: Duration,
    drawn: nat,
    outbound: Seq<NodeMessageView>,
    drawn_after: nat,
) -> bool {
    exists|cuts: Seq<int>, marks: Seq<nat>|
        tick_trace(before, after, tag, elapsed, drawn, outbound, drawn_after, cuts, marks)
}

/// One turn of the event loop: what `event` does to a runtime that stands
/// at `before`.
pub open spec fn dispatched<H: NodeHandler>(
    before: RunnerView<H>,
    event: Event,
    after: RunnerView<H>,
    outcome: Outcome,
    outbound: Seq<NodeMessageView>,
) -> bool {
    if before.state == RunState::Running {
        match event {
            Event::Message(msg) => match msg@.body.workload() {
                Some(workload) => if before.routes.contains_key(workload) {
                    let slot = before.routes[workload] as int;
                    &&& outcome == Outcome::Handled(workload)
                    &&& after == (RunnerView {
                        handlers: before.handlers.update(slot, after.handlers[slot]),
                        drawn: after.drawn,
                        ..before
                    })
                    &&& served_msg(
                        before.handlers[slot],
                        msg@,
                        before.drawn,
                        after.handlers[slot],
                        outbound,
                        after.drawn,
                    )
                } else {
                    outcome == Outcome::NoHandler(workload) && after == before && outbound.len()
                        == 0
                },
                None => outcome == Outcome::Discarded && after == before && outbound.len() == 0,
            },
            Event::Tick { tag, elapsed } => {
                &&& outcome == Outcome::Ticked
                &&& after == (RunnerView {
                    handlers: after.handlers,
                    drawn: after.drawn,
                    ..before
                })
                &&& ticked_all(
                    before.handlers,
                    after.handlers,
                    tag@,
                    elapsed,
                    before.drawn,
                    outbound,
                    after.drawn,
                )
            },
            Event::Shutdown | Event::InputClosed => {
                &&& outcome == Outcome::Draining
                &&& after == (RunnerView { state: RunState::Draining, ..before })
                &&& outbound.len() == 0
            },
            Event::Drained => outcome == Outcome::Ignored && after == before && outbound.len() == 0,
        }
    } else if before.state == RunState::Draining && event is Drained {
        &&& outcome == Outcome::Stopped
        &&& after == (RunnerView { state: RunState::Stopped, ..before })
        &&& outbound.len() == 0
    } else {
        outcome == Outcome::Ignored && after == before && outbound.len() == 0
    }
}

impl<H: NodeHandler> View for NodeRunner<H> {
    type V = RunnerView<H>;

    closed spec fn view(&self) -> RunnerView<H> {
        RunnerView {
            node_id: self.node_id@,
            node_ids: self.node_ids.deep_view(),
            drawn: self.ids@,
            state: self.state,
            handlers: self.handlers@,
            routes: self.routes.as_map(),
            intervals: self.intervals@,
        }
    }
}

impl<H> RunnerView<H> {
    /// Every route leads to a registered handler.
    pub open spec fn wf(self) -> bool {
        forall|workload: NodeType| #[trigger]
            self.routes.contains_key(workload) ==> self.routes[workload] < self.handlers.len()
    }
}

/// Whether every route leads to a handler depends on the routes and on the
/// number of handlers only.
pub proof fn lemma_wf_kept<H>(before: RunnerView<H>, after: RunnerView<H>)
    requires
        before.wf(),
        after.routes == before.routes,
        after.handlers.len() == before.handlers.len(),
    ensures
        after.wf(),
{
}

impl<H: NodeHandler> NodeRunner<H> {
    /// A runtime for the node `node_id` in the network `node_ids`, ready to
    /// be set up.
    pub fn new(node_id: NodeId, node_ids: Vec<NodeId>) -> (runner: Self)
        ensures
            runner@.wf(),
            runner@ == (RunnerView::<H> {
                node_id: node_id@,
                node_ids: node_ids.deep_view(),
                drawn: 0,
                state: RunState::Setup,
                handlers: Seq::empty(),
                routes: Map::empty(),
                intervals: Map::empty(),
            }),
    {
        let runner = NodeRunner {
            node_id,
            node_ids,
            ids: MsgIds::new(),
            state: RunState::Setup,
            handlers: Vec::new(),
            routes: Routes { echo: None, generate: None, broadcast: None },
            intervals: NodeMap::new(),
        };
        assert(runner@.routes =~= Map::empty());
        runner
    }

    /// Where the runtime stands in its life.
    pub fn state(&self) -> (state: RunState)
        ensures
            state == self@.state,
    {
        self.state
    }

    /// Binds `handler` to the workloads `for_types` and initialises it with
    /// the node's identity.  A workload that was bound before is served by
    /// `handler` from now on.  Once the node has been started nothing is
    /// registered and the answer is `false`.
    pub fn register_handler(&mut self, handler: H, for_types: &[NodeType]) -> (accepted: bool)
        requires
            old(self)@.wf(),
        ensures
            final(self)@.wf(),
            accepted == (old(self)@.state == RunState::Setup),
            !accepted ==> final(self)@ == old(self)@,
            accepted ==> final(self)@.handlers.len() == old(self)@.handlers.len() + 1,
            accepted ==> H::init_allows(
                handler,
                old(self)@.node_id,
                old(self)@.node_ids,
                final(self)@.handlers.last(),
            ),
            accepted ==> final(self)@ == (RunnerView {
                handlers: old(self)@.handlers.push(final(self)@.handlers.last()),
                routes: routes_after(old(self)@.routes, for_types@, old(self)@.handlers.len()),
                ..old(self)@
            }),
    {
        if self.state != RunState::Setup {
            return false;
        }
        let mut handler = handler;
        handler.init(self.node_id.clone(), self.node_ids.clone());
        let slot: usize = self.handlers.len();
        self.handlers.push(handler);
        let ghost pushed = self@;
        let ghost types = for_types@;
        let mut i: usize = 0;
        assert(pushed.routes =~= routes_after(pushed.routes, types.take(0), slot as nat));
        while i < for_types.len()
            invariant
                i <= types.len(),
                types == for_types@,
                self@ == (RunnerView {
                    routes: routes_after(pushed.routes, types.take(i as int), slot as nat),
                    ..pushed
                }),
            decreases types.len() - i,
        {
            self.routes.set(for_types[i], slot);
            proof {
                let shorter = types.take(i as int);
                let longer = types.take(i + 1);
                assert forall|w: NodeType| longer.contains(w) <==> (shorter.contains(w) || w
                    == types[i as int]) by {
                    if longer.contains(w) {
                        let k = choose|k: int| 0 <= k < longer.len() && longer[k] == w;
                        if k < i {
                            assert(shorter[k] == w);
                        }
                    }
                    if shorter.contains(w) {
                        let k = choose|k: int| 0 <= k < shorter.len() && shorter[k] == w;
                        assert(longer[k] == w);
                    }
                    if w == types[i as int] {
                        assert(longer[i as int] == w);
                    }
                }
                assert(self.routes.as_map() =~= routes_after(pushed.routes, longer, slot as nat));
            }
            i = i + 1;
        }
        proof {
            assert(types.take(types.len() as int) =~= types);
        }
        true
    }

    /// Schedules a recurring timer named `tag` that ticks every `interval`.
    /// A timer of the same name is replaced.  Once the node has been started
    /// nothing is registered and the answer is `false`.
    pub fn register_interval(&mut self, tag: Tag, interval: Duration) -> (accepted: bool)
        ensures
            accepted == (old(self)@.state == RunState::Setup),
            !accepted ==> final(self)@ == old(self)@,
            accepted ==> final(self)@ == (RunnerView {
                intervals: old(self)@.intervals.insert(tag@, interval),
                ..old(self)@
            }),
    {
        if self.state != RunState::Setup {
            return false;
        }
        self.intervals.insert(tag, interval);
        true
    }

    /// Begins the run.  With at least one handler registered the runtime is
    /// running from now on, and the answer holds the timers to start.  With
    /// none the run is over before it began.  A node is started once only.
    pub fn run_node(&mut self) -> (started: Result<Vec<Interval>, RunError>)
        ensures
            match started {
                Ok(timers) => {
                    &&& old(self)@.state == RunState::Setup
                    &&& old(self)@.handlers.len() > 0
                    &&& final(self)@ == (RunnerView { state: RunState::Running, ..old(self)@ })
                    &&& schedule_of(timers@, old(self)@.intervals)
                },
                Err(RunError::NoHandlers) => {
                    &&& old(self)@.state == RunState::Setup
                    &&& old(self)@.handlers.len() == 0
                    &&& final(self)@ == (RunnerView { state: RunState::Stopped, ..old(self)@ })
                },
                Err(RunError::AlreadyStarted) => {
                    &&& old(self)@.state != RunState::Setup
                    &&& final(self)@ == old(self)@
                },
            },
    {
        if self.state != RunState::Setup {
            return Err(RunError::AlreadyStarted);
        }
        if self.handlers.len() == 0 {
            self.state = RunState::Stopped;
            return Err(RunError::NoHandlers);
        }
        self.state = RunState::Running;
        let tags = self.intervals.keys();
        let mut timers: Vec<Interval> = Vec::new();
        let mut i: usize = 0;
        while i < tags.len()
            invariant
                i <= tags@.len(),
                timers@.len() == i,
                tags.deep_view().no_duplicates(),
                forall|key: Seq<char>|
                    tags.deep_view().contains(key) <==> self.intervals@.contains_key(key),
                forall|k: int| 0 <= k < i ==> (#[trigger] timers@[k]).tag@ == tags@[k]@,
                forall|k: int|
                    0 <= k < i ==> self.intervals@.contains_key(#[trigger] timers@[k].tag@)
                        && self.intervals@[timers@[k].tag@] == timers@[k].period,
            decreases tags@.len() - i,
        {
            let tag = tags[i].clone();
            assert(tags.deep_view()[i as int] == tag@);
            assert(tags.deep_view().contains(tag@));
            match self.intervals.get(&tag) {
                Some(period) => timers.push(Interval { tag, period: *period }),
                None => unreached(),
            }
            i = i + 1;
        }
        proof {
            let names = tags.deep_view();
            assert forall|a: int, b: int| 0 <= a < b < timers@.len() implies timers@[a].tag@
                != timers@[b].tag@ by {
                assert(names[a] == timers@[a].tag@);
                assert(names[b] == timers@[b].tag@);
            }
            assert forall|tag: Seq<char>| #[trigger]
                self.intervals@.contains_key(tag) implies exists|k: int|
                0 <= k < timers@.len() && #[trigger] timers@[k].tag@ == tag by {
                assert(names.contains(tag));
                let k = choose|k: int| 0 <= k < names.len() && names[k] == tag;
                assert(timers@[k].tag@ == tag);
            }
        }
        Ok(timers)
    }

    /// Serves `msg` to the handler at `slot` and stamps what it hands back.
    fn serve_msg(&mut self, slot: usize, msg: NodeMessage) -> (outbound: Vec<NodeMessage>)
        requires
            slot < old(self)@.handlers.len(),
        ensures
            final(self)@.handlers.len() == old(self)@.handlers.len(),
            final(self)@ == (RunnerView {
                handlers: old(self)@.handlers.update(slot as int, final(self)@.handlers[slot as int]),
                drawn: final(self)@.drawn,
                ..old(self)@
            }),
            served_msg(
                old(self)@.handlers[slot as int],
                msg@,
                old(self)@.drawn,
                final(self)@.handlers[slot as int],
                outbound.deep_view(),
                final(self)@.drawn,
            ),
    {
        let out = self.handlers[slot].handle_msg(msg, &mut self.ids);
        let ghost mid = self@.drawn;
        let ghost batch = batch_view(out);
        let outbound = match out {
            Some(msgs) => self.send_msgs(msgs),
            None => Vec::new(),
        };
        proof {
            assert(outbound.deep_view() =~= stamped(batch_msgs(batch), mid));
            assert(msg_served_by(
                old(self)@.handlers[slot as int],
                msg@,
                old(self)@.drawn,
                self@.handlers[slot as int],
                outbound.deep_view(),
                self@.drawn,
                batch,
                mid,
            ));
        }
        outbound
    }

    /// Ticks every handler, in the order of registration, and stamps what
    /// each hands back.
    fn serve_tick(&mut self, tag: &Tag, elapsed: Duration) -> (outbound: Vec<NodeMessage>)
        ensures
            final(self)@.handlers.len() == old(self)@.handlers.len(),
            final(self)@ == (RunnerView {
                handlers: final(self)@.handlers,
                drawn: final(self)@.drawn,
                ..old(self)@
            }),
            ticked_all(
                old(self)@.handlers,
                final(self)@.handlers,
                tag@,
                elapsed,
                old(self)@.drawn,
                outbound.deep_view(),
                final(self)@.drawn,
            ),
    {
        let ghost start = self@;
        let ghost mut cuts: Seq<int> = seq![0int];
        let ghost mut marks: Seq<nat> = seq![start.drawn];
        let mut outbound: Vec<NodeMessage> = Vec::new();
        let mut j: usize = 0;
        while j < self.handlers.len()
            invariant
                j <= start.handlers.len(),
                self@.handlers.len() == start.handlers.len(),
                self@ == (RunnerView { handlers: self@.handlers, drawn: self@.drawn, ..start }),
                forall|k: int|
                    j <= k < start.handlers.len() ==> self@.handlers[k] == start.handlers[k],
                cuts.len() == j + 1,
                marks.len() == j + 1,
                cuts[0] == 0,
                cuts.last() == outbound@.len(),
                marks[0] == start.drawn,
                marks.last() == self@.drawn,
                forall|k: int|
                    0 <= k < j ==> #[trigger] tick_link(
                        start.handlers,
                        self@.handlers,
                        tag@,
                        elapsed,
                        outbound.deep_view(),
                        cuts,
                        marks,
                        k,
                    ),
            decreases start.handlers.len() - j,
        {
            let ghost earlier = self@;
            let ghost sent_before = outbound.deep_view();
            let out = self.handlers[j].handle_interval(tag.clone(), elapsed, &mut self.ids);
            let ghost mid = self@.drawn;
            let ghost batch = batch_view(out);
            match out {
                Some(msgs) => {
                    let mut sent = self.send_msgs(msgs);
                    outbound.append(&mut sent);
                },
                None => {},
            }
            proof {
                let sent_now = outbound.deep_view();
                let cut = sent_before.len() as int;
                assert(sent_now.subrange(cut, sent_now.len() as int) =~= stamped(
                    batch_msgs(batch),
                    mid,
                ));
                assert(tick_served_by(
                    start.handlers[j as int],
                    tag@,
                    elapsed,
                    earlier.drawn,
                    self@.handlers[j as int],
                    sent_now.subrange(cut, sent_now.len() as int),
                    self@.drawn,
                    batch,
                    mid,
                ));
                let longer_cuts = cuts.push(sent_now.len() as int);
                let longer_marks = marks.push(self@.drawn);
                assert forall|k: int| 0 <= k < j + 1 implies #[trigger] tick_link(
                    start.handlers,
                    self@.handlers,
                    tag@,
                    elapsed,
                    sent_now,
                    longer_cuts,
                    longer_marks,
                    k,
                ) by {
                    if k < j {
                        assert(tick_link(
                            start.handlers,
                            earlier.handlers,
                            tag@,
                            elapsed,
                            sent_before,
                            cuts,
                            marks,
                            k,
                        ));
                        assert(sent_now.subrange(cuts[k], cuts[k + 1]) =~= sent_before.subrange(
                            cuts[k],
                            cuts[k + 1],
                        ));
                        assert(self@.handlers[k] == earlier.handlers[k]);
                    }
                }
                cuts = longer_cuts;
                marks = longer_marks;
            }
            j = j + 1;
        }
        proof {
            assert(tick_trace(
                start.handlers,
                self@.handlers,
                tag@,
                elapsed,
                start.drawn,
                outbound.deep_view(),
                self@.drawn,
                cuts,
                marks,
            ));
        }
        outbound
    }

    /// One turn of the event loop.  While the node runs, a message goes to
    /// the handler of its workload, a tick to every handler, and the
    /// termination signal or the end of the input begins the draining; what
    /// the handlers hand back is stamped and returned for sending.  Once what
    /// was sent has been written, a draining node stops.  At any other time
    /// an event changes nothing.
    pub fn handle_event(&mut self, event: Event) -> (step: Step)
        requires
            old(self)@.wf(),
        ensures
            final(self)@.wf(),
            dispatched(old(self)@, event, final(self)@, step.outcome, step.outbound.deep_view()),
    {
        let step = match self.state {
            RunState::Running => match event {
                Event::Message(msg) => match msg.as_node_type() {
                    Some(workload) => match self.routes.get(workload) {
                        Some(slot) => {
                            assert(self@.routes.contains_key(workload));
                            let outbound = self.serve_msg(slot, msg);
                            Step { outcome: Outcome::Handled(workload), outbound }
                        },
                        None => Step { outcome: Outcome::NoHandler(workload), outbound: Vec::new() },
                    },
                    None => Step { outcome: Outcome::Discarded, outbound: Vec::new() },
                },
                Event::Tick { tag, elapsed } => {
                    let outbound = self.serve_tick(&tag, elapsed);
                    Step { outcome: Outcome::Ticked, outbound }
                },
                Event::Shutdown | Event::InputClosed => {
                    self.state = RunState::Draining;
                    Step { outcome: Outcome::Draining, outbound: Vec::new() }
                },
                Event::Drained => Step { outcome: Outcome::Ignored, outbound: Vec::new() },
            },
            RunState::Draining => match event {
                Event::Drained => {
                    self.state = RunState::Stopped;
                    Step { outcome: Outcome::Stopped, outbound: Vec::new() }
                },
                _ => Step { outcome: Outcome::Ignored, outbound: Vec::new() },
            },
            _ => Step { outcome: Outcome::Ignored, outbound: Vec::new() },
        };
        proof {
            lemma_wf_kept(old(self)@, self@);
        }
        step
    }

    /// Draws a fresh identifier, for logic that has to name a message before
    /// the runtime stamps it.
    pub fn get_next_msg_id(&mut self) -> (id: MsgId)
        ensures
            id == id_at(old(self)@.drawn + 1),
            final(self)@ == (RunnerView { drawn: old(self)@.drawn + 1, ..old(self)@ }),
    {
        self.ids.next()
    }

    /// Puts the runtime's own identifiers on `msgs`, in order, whatever
    /// identifiers they carried, and hands them back ready to be sent.
    pub fn send_msgs(&mut self, msgs: Vec<NodeMessage>) -> (sent: Vec<NodeMessage>)
        ensures
            sent.deep_view() == stamped(msgs.deep_view(), old(self)@.drawn),
            final(self)@ == (RunnerView {
                drawn: old(self)@.drawn + msgs@.len(),
                ..old(self)@
            }),
    {
        let ghost given = msgs.deep_view();
        let ghost drawn = self@.drawn;
        let mut sent = msgs;
        let mut i: usize = 0;
        while i < sent.len()
            invariant
                i <= sent@.len(),
                sent@.len() == given.len(),
                forall|k: int| 0 <= k < i ==> sent@[k]@ == stamped(given, drawn)[k],
                forall|k: int| i <= k < sent@.len() ==> sent@[k]@ == given[k],
                self@ == (RunnerView { drawn: (drawn + i) as nat, ..old(self)@ }),
            decreases sent@.len() - i,
        {
            let id: MsgId = self.ids.next();
            sent[i].body.set_msg_id(id);
            i = i + 1;
        }
        sent
    }
}

/// The identifiers that the runtime puts on a batch are its own, whatever
/// the handler had set: the message at position `k` carries the identifier
/// of draw `drawn + 1 + k`.  For as long as the integer type is not
/// exhausted these grow along the batch, and each is greater than every
/// identifier drawn before.
pub proof fn lemma_stamps_increase(msgs: Seq<NodeMessageView>, drawn: nat)
    requires
        drawn + msgs.len() <= usize::MAX,
    ensures
        stamped(msgs, drawn).len() == msgs.len(),
        forall|k: int|
            0 <= k < msgs.len() ==> (#[trigger] stamped(msgs, drawn)[k]).body.msg_id() == drawn + 1
                + k,
        forall|j: int, k: int|
            0 <= j < k < msgs.len() ==> (#[trigger] stamped(msgs, drawn)[j]).body.msg_id() < (
            #[trigger] stamped(msgs, drawn)[k]).body.msg_id(),
        forall|earlier: nat, k: int|
            earlier <= drawn && 0 <= k < msgs.len() ==> #[trigger] id_at(earlier) < (
            #[trigger] stamped(msgs, drawn)[k]).body.msg_id(),
{
    assert forall|k: int| 0 <= k < msgs.len() implies (#[trigger] stamped(
        msgs,
        drawn,
    )[k]).body.msg_id() == drawn + 1 + k by {
        lemma_with_msg_id(msgs[k].body, id_at((drawn + 1 + k) as nat), 0);
        lemma_ids_increase(0, (drawn + 1 + k) as nat);
    }
    assert forall|earlier: nat, k: int| earlier <= drawn && 0 <= k < msgs.len() implies #[trigger] id_at(
        earlier,
    ) < (#[trigger] stamped(msgs, drawn)[k]).body.msg_id() by {
        lemma_ids_increase(earlier, (drawn + 1 + k) as nat);
    }
}

/// The routes after a run of registrations, the first of which put its
/// handler at position 0, the next at position 1, and so on.
pub open spec fn routes_of(registrations: Seq<Seq<NodeType>>) -> Map<NodeType, nat>
    decreases registrations.len(),
{
    if registrations.len() == 0 {
        Map::empty()
    } else {
        routes_after(
            routes_of(registrations.drop_last()),
            registrations.last(),
            (registrations.len() - 1) as nat,
        )
    }
}

/// The last registration that names a workload is the one that serves it:
/// a workload is routed if and only if some registration named it, and
/// then to a handler that was registered for it and after which no
/// registration named it again.
pub proof fn lemma_latest_registration_serves(
    registrations: Seq<Seq<NodeType>>,
    workload: NodeType,
)
    ensures
        routes_of(registrations).contains_key(workload) <==> exists|i: int|
            0 <= i < registrations.len() && #[trigger] registrations[i].contains(workload),
        routes_of(registrations).contains_key(workload) ==> {
            let slot = routes_of(registrations)[workload] as int;
            &&& 0 <= slot < registrations.len()
            &&& registrations[slot].contains(workload)
            &&& forall|i: int|
                slot < i < registrations.len() ==> !(#[trigger] registrations[i].contains(workload))
        },
    decreases registrations.len(),
{
    if registrations.len() > 0 {
        let earlier = registrations.drop_last();
        let last = registrations.len() - 1;
        lemma_latest_registration_serves(earlier, workload);
        if !registrations.last().contains(workload) {
            let from = if routes_of(earlier).contains_key(workload) {
                routes_of(earlier)[workload] as int + 1
            } else {
                0
            };
            assert forall|i: int| from <= i < registrations.len() implies !(
            #[trigger] registrations[i].contains(workload)) by {
                if i < last {
                    assert(earlier[i] == registrations[i]);
                }
            }
        }
    }
}

/// A runtime that stood at `views[0]` with no handler and took the
/// registrations `registrations`, one after the other, routes as they say.
pub proof fn lemma_registered_routes<H>(
    views: Seq<RunnerView<H>>,
    registrations: Seq<Seq<NodeType>>,
)
    requires
        views.len() == registrations.len() + 1,
        views[0].handlers.len() == 0,
        views[0].routes == Map::<NodeType, nat>::empty(),
        forall|i: int|
            0 <= i < registrations.len() ==> (#[trigger] views[i + 1]).handlers.len()
                == views[i].handlers.len() + 1 && views[i + 1].routes == routes_after(
                views[i].routes,
                registrations[i],
                views[i].handlers.len(),
            ),
    ensures
        views.last().handlers.len() == registrations.len(),
        views.last().routes == routes_of(registrations),
    decreases registrations.len(),
{
    if registrations.len() > 0 {
        lemma_registered_routes(views.drop_last(), registrations.drop_last());
    }
}

/// A message of a routed workload goes to the handler that the route names
/// and leaves every other handler as it was; a message of a workload that
/// nobody serves, or a reply that no handler needs, changes nothing and
/// sends nothing.
pub proof fn lemma_message_goes_where_routed<H: NodeHandler>(
    before: RunnerView<H>,
    msg: NodeMessage,
    after: RunnerView<H>,
    outcome: Outcome,
    outbound: Seq<NodeMessageView>,
)
    requires
        before.wf(),
        before.state == RunState::Running,
        dispatched(before, Event::Message(msg), after, outcome, outbound),
    ensures
        after.state == RunState::Running,
        after.routes == before.routes,
        match msg@.body.workload() {
            Some(workload) => if before.routes.contains_key(workload) {
                let slot = before.routes[workload] as int;
                &&& outcome == Outcome::Handled(workload)
                &&& served_msg(
                    before.handlers[slot],
                    msg@,
                    before.drawn,
                    after.handlers[slot],
                    outbound,
                    after.drawn,
                )
                &&& after.handlers.len() == before.handlers.len()
                &&& forall|other: int|
                    0 <= other < before.handlers.len() && other != slot ==> after.handlers[other]
                        == before.handlers[other]
            } else {
                &&& outcome == Outcome::NoHandler(workload)
                &&& after == before
                &&& outbound.len() == 0
            },
            None => {
                &&& outcome == Outcome::Discarded
                &&& after == before
                &&& outbound.len() == 0
            },
        },
{
}

/// How far a run has come.
pub open spec fn stage(state: RunState) -> nat {
    match state {
        RunState::Setup => 0,
        RunState::Running => 1,
        RunState::Draining => 2,
        RunState::Stopped => 3,
    }
}

/// Along a tick no handler finds fewer identifiers drawn than the handler
/// before it.
proof fn lemma_marks_grow<H: NodeHandler>(
    before: Seq<H>,
    after: Seq<H>,
    tag: Seq<char>,
    elapsed: Duration,
    drawn: nat,
    outbound: Seq<NodeMessageView>,
    drawn_after: nat,
    cuts: Seq<int>,
    marks: Seq<nat>,
    upto: int,
)
    requires
        tick_trace(before, after, tag, elapsed, drawn, outbound, drawn_after, cuts, marks),
        0 <= upto <= before.len(),
    ensures
        drawn <= marks[upto],
    decreases upto,
{
    if upto > 0 {
        lemma_marks_grow(
            before,
            after,
            tag,
            elapsed,
            drawn,
            outbound,
            drawn_after,
            cuts,
            marks,
            upto - 1,
        );
        assert(tick_link(before, after, tag, elapsed, outbound, cuts, marks, upto - 1));
    }
}

/// A run only moves on: whatever the event, the runtime does not fall back
/// to an earlier state, it keeps its identity, its routes, its timers and
/// the number of its handlers, and no identifier is drawn a second time.
/// Outside the running state nothing is sent and no handler is touched.
pub proof fn lemma_run_moves_on<H: NodeHandler>(
    before: RunnerView<H>,
    event: Event,
    after: RunnerView<H>,
    outcome: Outcome,
    outbound: Seq<NodeMessageView>,
)
    requires
        before.wf(),
        dispatched(before, event, after, outcome, outbound),
    ensures
        after.wf(),
        stage(before.state) <= stage(after.state) <= stage(before.state) + 1,
        after.state != before.state ==> stage(before.state) > 0 && outbound.len() == 0,
        after.node_id == before.node_id,
        after.node_ids == before.node_ids,
        after.routes == before.routes,
        after.intervals == before.intervals,
        after.handlers.len() == before.handlers.len(),
        before.drawn <= after.drawn,
        before.state != RunState::Running ==> outbound.len() == 0 && after.handlers
            == before.handlers && after.drawn == before.drawn,
{
    if before.state == RunState::Running {
        match event {
            Event::Tick { tag, elapsed } => {
                let (cuts, marks) = choose|cuts: Seq<int>, marks: Seq<nat>|
                    tick_trace(
                        before.handlers,
                        after.handlers,
                        tag@,
                        elapsed,
                        before.drawn,
                        outbound,
                        after.drawn,
                        cuts,
                        marks,
                    );
                lemma_marks_grow(
                    before.handlers,
                    after.handlers,
                    tag@,
                    elapsed,
                    before.drawn,
                    outbound,
                    after.drawn,
                    cuts,
                    marks,
                    before.handlers.len() as int,
                );
            },
            _ => {},
        }
    }
}

} // verus!
