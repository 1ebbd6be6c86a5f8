//! Convergence of the broadcast protocol.
//!
//! A network is a set of broadcast handlers, one per node.  In an exchange
//! one node reads from another: the responder answers the read with the
//! reader's deficit and some sample of what it knows, and the reader
//! records the answer.  The theorem at the end says that rounds of such
//! exchanges, in which every node reads from each of its neighbours, bring
//! every node to know every value that any node knew.

use vstd::prelude::*;

use crate::broadcast::{is_sample, BroadcastNode, BroadcastView};
use crate::data_models::{BodyView, MsgId, NodeMessageView};
use crate::handler::NodeHandler;
use crate::runner::{batch_msgs, stamped};

verus! {

/// The state of every node of a network, by the node's name.
pub type Network = Map<Seq<char>, BroadcastView>;

/// One read and its answer: `reader` reads from `responder`, and the answer
/// carries, besides the reader's deficit, the values `sample`.
pub ghost struct Exchange {
    pub reader: Seq<char>,
    pub responder: Seq<char>,
    pub sample: Set<usize>,
}

/// No node believes of another node of the network that it knows a value
/// which that node does not know.
pub open spec fn truthful(net: Network) -> bool {
    forall|x: Seq<char>, y: Seq<char>|
        net.contains_key(x) && net.contains_key(y) ==> (#[trigger] net[x].peer_knows(y)).subset_of(
            net[y].known,
        )
}

/// `y` is a neighbour of `x`, and both are nodes of the network.
pub open spec fn edge(net: Network, x: Seq<char>, y: Seq<char>) -> bool {
    &&& net.contains_key(x)
    &&& net.contains_key(y)
    &&& x != y
    &&& net[x].neighbors.contains(y)
}

/// From `x` one comes to `y` in at most `hops` steps, each from a node to
/// one of its neighbours.
pub open spec fn reaches(net: Network, x: Seq<char>, y: Seq<char>, hops: nat) -> bool
    decreases hops,
{
    x == y || (hops > 0 && exists|z: Seq<char>|
        #[trigger] edge(net, x, z) && reaches(net, z, y, (hops - 1) as nat))
}

/// Every value that some node of the network knows.
pub open spec fn all_known(net: Network) -> Set<usize> {
    Set::new(|v: usize| exists|x: Seq<char>| net.contains_key(x) && #[trigger] net[x].known.contains(v))
}

/// Whether `step` can take place in `net`: both nodes exist, they differ,
/// and the sample holds values that the responder knows.
pub open spec fn admissible(net: Network, step: Exchange) -> bool {
    &&& net.contains_key(step.reader)
    &&& net.contains_key(step.responder)
    &&& step.reader != step.responder
    &&& step.sample.subset_of(net[step.responder].known)
}

/// The network after `step`: the responder has met the reader, and the
/// reader has recorded the answer.
pub open spec fn exchanged(net: Network, step: Exchange) -> Network {
    let answer = net[step.responder].deficit(step.reader) + step.sample;
    net.insert(step.responder, net[step.responder].met(step.reader)).insert(
        step.reader,
        net[step.reader].on_read_ok(step.responder, answer),
    )
}

/// The network after the exchanges `steps`, one after the other.
pub open spec fn ran(net: Network, steps: Seq<Exchange>) -> Network
    decreases steps.len(),
{
    if steps.len() == 0 {
        net
    } else {
        exchanged(ran(net, steps.drop_last()), steps.last())
    }
}

/// Whether the exchanges `steps` can take place in `net` one after the
/// other.
pub open spec fn admissible_run(net: Network, steps: Seq<Exchange>) -> bool
    decreases steps.len(),
{
    steps.len() == 0 || (admissible_run(net, steps.drop_last()) && admissible(
        ran(net, steps.drop_last()),
        steps.last(),
    ))
}

/// In `round` every node of the network reads from each of its neighbours
/// at least once.
pub open spec fn full_round(net: Network, round: Seq<Exchange>) -> bool {
    forall|x: Seq<char>, y: Seq<char>| #[trigger]
        edge(net, x, y) ==> exists|i: int|
            0 <= i < round.len() && (#[trigger] round[i]).reader == x && round[i].responder == y
}

/// The exchanges of `rounds`, put end to end.
pub open spec fn in_turn(rounds: Seq<Seq<Exchange>>) -> Seq<Exchange>
    decreases rounds.len(),
{
    if rounds.len() == 0 {
        Seq::empty()
    } else {
        in_turn(rounds.drop_last()) + rounds.last()
    }
}

/// `later` has the nodes of `earlier` with their neighbours, and every node
/// knows in `later` what it knew in `earlier`.
pub open spec fn grown(earlier: Network, later: Network) -> bool {
    &&& later.dom() == earlier.dom()
    &&& forall|x: Seq<char>| #[trigger]
        earlier.contains_key(x) ==> later[x].neighbors == earlier[x].neighbors
            && earlier[x].known.subset_of(later[x].known)
}

/// An exchange keeps the network truthful and lets it grow; it brings up
/// no value that nobody knew, and after it the reader knows whatever the
/// responder knew.
pub proof fn lemma_exchange(net: Network, step: Exchange)
    requires
        truthful(net),
        admissible(net, step),
    ensures
        truthful(exchanged(net, step)),
        grown(net, exchanged(net, step)),
        all_known(exchanged(net, step)) == all_known(net),
        net[step.responder].known.subset_of(exchanged(net, step)[step.reader].known),
{
    let after = exchanged(net, step);
    let reader = step.reader;
    let responder = step.responder;
    let answer = net[responder].deficit(reader) + step.sample;
    assert(after.dom() =~= net.dom());
    assert forall|x: Seq<char>| #[trigger] net.contains_key(x) implies after[x].neighbors
        == net[x].neighbors && net[x].known.subset_of(after[x].known) by {
        if x != reader && x != responder {
            assert(after[x] == net[x]);
        }
    }
    assert forall|x: Seq<char>, y: Seq<char>|
        after.contains_key(x) && after.contains_key(y) implies (#[trigger] after[x].peer_knows(
        y,
    )).subset_of(after[y].known) by {
        assert(net[x].peer_knows(y).subset_of(net[y].known));
        assert(net[y].known.subset_of(after[y].known));
        if x == reader {
            if y == responder {
                assert(after[x].peer_knows(y) =~= net[x].peer_knows(y) + answer);
            } else {
                assert(after[x].peer_knows(y) =~= net[x].peer_knows(y));
            }
        } else if x == responder {
            assert(after[x].peer_knows(y) =~= net[x].peer_knows(y));
        } else {
            assert(after[x] == net[x]);
        }
    }
}

/// A run of exchanges keeps the network truthful and lets it grow, and it
/// brings up no value that nobody knew.
pub proof fn lemma_run(net: Network, steps: Seq<Exchange>)
    requires
        truthful(net),
        admissible_run(net, steps),
    ensures
        truthful(ran(net, steps)),
        grown(net, ran(net, steps)),
        all_known(ran(net, steps)) == all_known(net),
    decreases steps.len(),
{
    if steps.len() > 0 {
        let before = ran(net, steps.drop_last());
        lemma_run(net, steps.drop_last());
        lemma_exchange(before, steps.last());
    }
}

/// Two runs, one after the other, are one run.
pub proof fn lemma_run_in_parts(net: Network, first: Seq<Exchange>, second: Seq<Exchange>)
    ensures
        ran(net, first + second) == ran(ran(net, first), second),
        admissible_run(net, first + second) <==> admissible_run(net, first) && admissible_run(
            ran(net, first),
            second,
        ),
    decreases second.len(),
{
    if second.len() > 0 {
        assert((first + second).drop_last() =~= first + second.drop_last());
        lemma_run_in_parts(net, first, second.drop_last());
    }
}

/// After a run in which `reader` read from `responder`, both of them nodes
/// of the network, the reader knows whatever the responder knew before the
/// run.
pub proof fn lemma_read_delivers(net: Network, steps: Seq<Exchange>, at: int)
    requires
        truthful(net),
        admissible_run(net, steps),
        0 <= at < steps.len(),
    ensures
        net.contains_key(steps[at].reader),
        net.contains_key(steps[at].responder),
        net[steps[at].responder].known.subset_of(ran(net, steps)[steps[at].reader].known),
    decreases steps.len(),
{
    let earlier = steps.drop_last();
    lemma_run(net, earlier);
    if at < steps.len() - 1 {
        lemma_read_delivers(net, earlier, at);
    }
}

/// All rounds but the last are a run of their own, and the last round runs
/// from where they end.
proof fn lemma_last_round(net: Network, rounds: Seq<Seq<Exchange>>)
    requires
        rounds.len() > 0,
    ensures
        ran(net, in_turn(rounds)) == ran(ran(net, in_turn(rounds.drop_last())), rounds.last()),
        admissible_run(net, in_turn(rounds)) <==> admissible_run(net, in_turn(rounds.drop_last()))
            && admissible_run(ran(net, in_turn(rounds.drop_last())), rounds.last()),
{
    lemma_run_in_parts(net, in_turn(rounds.drop_last()), rounds.last());
}

/// After as many full rounds as there are hops from `x` to `y`, or more,
/// `x` knows whatever `y` knew at the beginning.
pub proof fn lemma_rounds_spread(
    net: Network,
    rounds: Seq<Seq<Exchange>>,
    x: Seq<char>,
    y: Seq<char>,
    hops: nat,
)
    requires
        truthful(net),
        admissible_run(net, in_turn(rounds)),
        forall|r: int| 0 <= r < rounds.len() ==> full_round(net, #[trigger] rounds[r]),
        net.contains_key(x),
        reaches(net, x, y, hops),
        hops <= rounds.len(),
    ensures
        net[y].known.subset_of(ran(net, in_turn(rounds))[x].known),
    decreases rounds.len(),
{
    lemma_run(net, in_turn(rounds));
    if x != y {
        let z = choose|z: Seq<char>|
            #[trigger] edge(net, x, z) && reaches(net, z, y, (hops - 1) as nat);
        let earlier = rounds.drop_last();
        let mid = ran(net, in_turn(earlier));
        lemma_last_round(net, rounds);
        lemma_rounds_spread(net, earlier, z, y, (hops - 1) as nat);
        lemma_run(net, in_turn(earlier));
        let last = rounds.last();
        let at = choose|i: int|
            0 <= i < last.len() && (#[trigger] last[i]).reader == x && last[i].responder == z;
        lemma_read_delivers(mid, last, at);
    }
}

/// Convergence.  Take a network whose ledgers are truthful and in which
/// every node comes to every other node in at most `hops` steps from
/// neighbour to neighbour.  Let exchanges take place in rounds, whatever
/// samples the answers carry and in whatever order, so that in every round
/// every node reads from each of its neighbours.  After `hops` rounds, and
/// from then on, every node knows exactly the values that were known
/// anywhere in the network.
pub proof fn theorem_rounds_converge(net: Network, rounds: Seq<Seq<Exchange>>, hops: nat)
    requires
        truthful(net),
        forall|x: Seq<char>, y: Seq<char>|
            net.contains_key(x) && net.contains_key(y) ==> #[trigger] reaches(net, x, y, hops),
        forall|r: int| 0 <= r < rounds.len() ==> full_round(net, #[trigger] rounds[r]),
        admissible_run(net, in_turn(rounds)),
        hops <= rounds.len(),
    ensures
        ran(net, in_turn(rounds)).dom() == net.dom(),
        forall|x: Seq<char>| #[trigger]
            net.contains_key(x) ==> ran(net, in_turn(rounds))[x].known == all_known(net),
{
    let end = ran(net, in_turn(rounds));
    lemma_run(net, in_turn(rounds));
    assert forall|x: Seq<char>| #[trigger] net.contains_key(x) implies end[x].known == all_known(
        net,
    ) by {
        assert forall|v: usize| all_known(net).contains(v) implies end[x].known.contains(v) by {
            let y = choose|y: Seq<char>| net.contains_key(y) && #[trigger] net[y].known.contains(v);
            lemma_rounds_spread(net, rounds, x, y, hops);
        }
        assert forall|v: usize| end[x].known.contains(v) implies all_known(net).contains(v) by {
            assert(end.contains_key(x));
            assert(all_known(end).contains(v));
        }
        assert(end[x].known =~= all_known(net));
    }
}

/// From `x` one comes to `y`, from neighbour to neighbour.
pub open spec fn reachable(net: Network, x: Seq<char>, y: Seq<char>) -> bool {
    exists|hops: nat| reaches(net, x, y, hops)
}

/// From every node one comes to every other node.
pub open spec fn connected(net: Network) -> bool {
    forall|x: Seq<char>, y: Seq<char>|
        net.contains_key(x) && net.contains_key(y) ==> #[trigger] reachable(net, x, y)
}

/// In every round of `rounds` every node reads from each of its
/// neighbours, and the exchanges can take place one after the other.
pub open spec fn fair(net: Network, rounds: Seq<Seq<Exchange>>) -> bool {
    &&& forall|r: int| 0 <= r < rounds.len() ==> full_round(net, #[trigger] rounds[r])
    &&& admissible_run(net, in_turn(rounds))
}

/// In `end` every node of `net` knows exactly the values that were known
/// anywhere in `net`.
pub open spec fn settled(net: Network, end: Network) -> bool {
    &&& end.dom() == net.dom()
    &&& forall|x: Seq<char>| #[trigger] net.contains_key(x) ==> end[x].known == all_known(net)
}

/// After `enough` fair rounds, or more, the network is settled.
pub open spec fn converges_within(net: Network, enough: nat) -> bool {
    forall|rounds: Seq<Seq<Exchange>>|
        rounds.len() >= enough && #[trigger] fair(net, rounds) ==> settled(
            net,
            ran(net, in_turn(rounds)),
        )
}

/// Who is reached in some number of steps is reached in any greater
/// number.
pub proof fn lemma_reaches_later(net: Network, x: Seq<char>, y: Seq<char>, hops: nat, more: nat)
    requires
        reaches(net, x, y, hops),
        hops <= more,
    ensures
        reaches(net, x, y, more),
    decreases hops,
{
    if x != y {
        let z = choose|z: Seq<char>|
            #[trigger] edge(net, x, z) && reaches(net, z, y, (hops - 1) as nat);
        lemma_reaches_later(net, z, y, (hops - 1) as nat, (more - 1) as nat);
    }
}

/// In a connected network there is a number of steps in which `x` reaches
/// every node of the finite set `targets`.
proof fn lemma_reach_of_node(net: Network, x: Seq<char>, targets: Set<Seq<char>>) -> (hops: nat)
    requires
        connected(net),
        net.contains_key(x),
        targets.finite(),
        targets.subset_of(net.dom()),
    ensures
        forall|y: Seq<char>| targets.contains(y) ==> reaches(net, x, y, hops),
    decreases targets.len(),
{
    if targets.is_empty() {
        0
    } else {
        let one = targets.choose();
        let rest = lemma_reach_of_node(net, x, targets.remove(one));
        assert(reachable(net, x, one));
        let own = choose|own: nat| reaches(net, x, one, own);
        let hops = if rest >= own {
            rest
        } else {
            own
        };
        assert forall|y: Seq<char>| targets.contains(y) implies reaches(net, x, y, hops) by {
            if y == one {
                lemma_reaches_later(net, x, y, own, hops);
            } else {
                assert(targets.remove(one).contains(y));
                lemma_reaches_later(net, x, y, rest, hops);
            }
        }
        hops
    }
}

/// In a connected network there is a number of steps in which every node
/// of the finite set `sources` reaches every node of the network.
proof fn lemma_reach_of_all(net: Network, sources: Set<Seq<char>>) -> (hops: nat)
    requires
        connected(net),
        net.dom().finite(),
        sources.finite(),
        sources.subset_of(net.dom()),
    ensures
        forall|x: Seq<char>, y: Seq<char>|
            sources.contains(x) && net.contains_key(y) ==> reaches(net, x, y, hops),
    decreases sources.len(),
{
    if sources.is_empty() {
        0
    } else {
        let one = sources.choose();
        let rest = lemma_reach_of_all(net, sources.remove(one));
        let own = lemma_reach_of_node(net, one, net.dom());
        let hops = if rest >= own {
            rest
        } else {
            own
        };
        assert forall|x: Seq<char>, y: Seq<char>|
            sources.contains(x) && net.contains_key(y) implies reaches(net, x, y, hops) by {
            if x == one {
                lemma_reaches_later(net, x, y, own, hops);
            } else {
                assert(sources.remove(one).contains(x));
                lemma_reaches_later(net, x, y, rest, hops);
            }
        }
        hops
    }
}

/// Convergence of a connected network.  In a finite, connected network
/// with truthful ledgers there is a number of rounds that is enough: after
/// that many fair rounds of exchanges, or more, whatever samples the
/// answers carry and in whatever order the exchanges of a round take place,
/// every node knows exactly the values that were known anywhere in the
/// network.
pub proof fn theorem_connected_network_converges(net: Network)
    requires
        truthful(net),
        net.dom().finite(),
        connected(net),
    ensures
        exists|enough: nat| converges_within(net, enough),
{
    let enough = lemma_reach_of_all(net, net.dom());
    assert forall|rounds: Seq<Seq<Exchange>>|
        rounds.len() >= enough && #[trigger] fair(net, rounds) implies settled(
        net,
        ran(net, in_turn(rounds)),
    ) by {
        theorem_rounds_converge(net, rounds, enough);
    }
    assert(converges_within(net, enough));
}

/// Ledgers are truthful from the beginning: a network of nodes that have
/// met nobody is truthful.
pub proof fn lemma_fresh_network_is_truthful(net: Network)
    requires
        forall|x: Seq<char>| #[trigger]
            net.contains_key(x) ==> net[x].known_by_peer == Map::<Seq<char>, Set<usize>>::empty(),
    ensures
        truthful(net),
{
}

/// Ledgers stay truthful whatever is delivered.  When a node records values
/// that their sender knew when it sent them, as a broadcast or the answer
/// to a read does, the network stays truthful.  A sender that is no node of
/// the network may send what it likes.
pub proof fn lemma_delivery_keeps_truthful(
    net: Network,
    sender: Seq<char>,
    receiver: Seq<char>,
    values: Set<usize>,
)
    requires
        truthful(net),
        net.contains_key(receiver),
        net.contains_key(sender) ==> values.subset_of(net[sender].known),
    ensures
        truthful(net.insert(receiver, net[receiver].learned(sender, values))),
        truthful(net.insert(receiver, net[receiver].met(sender))),
{
    let taught = net.insert(receiver, net[receiver].learned(sender, values));
    assert forall|x: Seq<char>, y: Seq<char>|
        taught.contains_key(x) && taught.contains_key(y) implies (#[trigger] taught[x].peer_knows(
        y,
    )).subset_of(taught[y].known) by {
        assert(net[x].peer_knows(y).subset_of(net[y].known));
        assert(net[y].known.subset_of(taught[y].known));
        if x == receiver {
            if y == sender {
                assert(taught[x].peer_knows(y) =~= net[x].peer_knows(y) + values);
            } else {
                assert(taught[x].peer_knows(y) =~= net[x].peer_knows(y));
            }
        }
    }
    let seen = net.insert(receiver, net[receiver].met(sender));
    assert forall|x: Seq<char>, y: Seq<char>|
        seen.contains_key(x) && seen.contains_key(y) implies (#[trigger] seen[x].peer_knows(
        y,
    )).subset_of(seen[y].known) by {
        assert(net[x].peer_knows(y).subset_of(net[y].known));
        if x == receiver {
            assert(seen[x].peer_knows(y) =~= net[x].peer_knows(y));
        }
    }
}

/// An exchange is what two calls of the handler do.  When the responder
/// handles a read of the reader and the reader handles the answer, under
/// whatever identifier the answer travels, the two nodes are left as an
/// exchange leaves them, with a sample of the size that the window asks
/// for.
pub proof fn lemma_read_and_answer_is_exchange(
    net: Network,
    responder_before: BroadcastNode,
    responder_after: BroadcastNode,
    reader_before: BroadcastNode,
    reader_after: BroadcastNode,
    read: NodeMessageView,
    answer: NodeMessageView,
    sent_as: MsgId,
    responder_drawn: nat,
    reader_drawn: nat,
    reader_out: Option<Seq<NodeMessageView>>,
    reader_drawn_after: nat,
)
    requires
        read.body is Read,
        read.src != read.dest,
        net.contains_key(read.src),
        net.contains_key(read.dest),
        net[read.src] == reader_before@,
        net[read.dest] == responder_before@,
        responder_before@.node_id == read.dest,
        BroadcastNode::msg_allows(
            responder_before,
            read,
            responder_drawn,
            responder_after,
            Some(seq![answer]),
            responder_drawn + 1,
        ),
        BroadcastNode::msg_allows(
            reader_before,
            NodeMessageView { body: answer.body.with_msg_id(sent_as), ..answer },
            reader_drawn,
            reader_after,
            reader_out,
            reader_drawn_after,
        ),
    ensures
        reader_out is None,
        exists|sample: Set<usize>|
            {
                let step = Exchange { reader: read.src, responder: read.dest, sample };
                &&& #[trigger] is_sample(net[read.dest].known, sample)
                &&& admissible(net, step)
                &&& exchanged(net, step) == net.insert(read.dest, responder_after@).insert(
                    read.src,
                    reader_after@,
                )
            },
{
    let msg_id = read.body->Read_msg_id;
    let sample = choose|sample: Set<usize>| #[trigger]
        is_sample(responder_before@.known, sample) && Some(seq![answer]) == Some(
            seq![responder_before@.read_reply(read.src, msg_id, sample, responder_drawn)],
        );
    let reply = responder_before@.read_reply(read.src, msg_id, sample, responder_drawn);
    assert(seq![answer][0] == seq![reply][0]);
}

/// The values that a message shows its sender to know.
pub open spec fn shown(body: BodyView) -> Set<usize> {
    match body {
        BodyView::Broadcast { message, .. } => set![message],
        BodyView::ReadOk { messages, .. } => messages,
        _ => Set::empty(),
    }
}

/// The network is truthful, every node goes by its own name, and every
/// message under way from a node of the network shows values that the node
/// knows.
pub open spec fn honest(net: Network, under_way: Set<NodeMessageView>) -> bool {
    &&& truthful(net)
    &&& forall|x: Seq<char>| #[trigger] net.contains_key(x) ==> net[x].node_id == x
    &&& forall|msg: NodeMessageView| #[trigger]
        under_way.contains(msg) && net.contains_key(msg.src) ==> shown(msg.body).subset_of(
            net[msg.src].known,
        )
}

/// A network of nodes that go by their names and have met nobody is honest
/// whatever its clients have sent; and an honest network stays honest when
/// messages are lost or a client sends another one.
pub proof fn lemma_honest_from_the_start(
    net: Network,
    under_way: Set<NodeMessageView>,
    kept: Set<NodeMessageView>,
    added: NodeMessageView,
)
    requires
        forall|x: Seq<char>| #[trigger] net.contains_key(x) ==> net[x].node_id == x,
        kept.subset_of(under_way),
        !net.contains_key(added.src),
    ensures
        (forall|x: Seq<char>| #[trigger]
            net.contains_key(x) ==> net[x].known_by_peer == Map::<Seq<char>, Set<usize>>::empty())
            && (forall|msg: NodeMessageView| #[trigger]
            under_way.contains(msg) ==> !net.contains_key(msg.src)) ==> honest(net, under_way),
        honest(net, under_way) ==> honest(net, kept),
        honest(net, under_way) ==> honest(net, under_way.insert(added)),
{
}

/// Honesty is kept by every delivery.  When a node of an honest network
/// handles a message that was under way, and the runtime stamps what the
/// handler hands back and sends it, the network is honest again: its
/// ledgers are truthful still.
pub proof fn lemma_delivery_keeps_honest(
    net: Network,
    under_way: Set<NodeMessageView>,
    msg: NodeMessageView,
    before: BroadcastNode,
    after: BroadcastNode,
    drawn: nat,
    out: Option<Seq<NodeMessageView>>,
    drawn_after: nat,
    stamped_from: nat,
)
    requires
        honest(net, under_way),
        under_way.contains(msg),
        net.contains_key(msg.dest),
        net[msg.dest] == before@,
        BroadcastNode::msg_allows(before, msg, drawn, after, out, drawn_after),
    ensures
        honest(
            net.insert(msg.dest, after@),
            under_way + stamped(batch_msgs(out), stamped_from).to_set(),
        ),
{
    let here = msg.dest;
    let next = net.insert(here, after@);
    let values = shown(msg.body);
    lemma_delivery_keeps_truthful(net, msg.src, here, values);
    if values =~= Set::<usize>::empty() {
        assert(before@.peer_knows(msg.src) + values =~= before@.peer_knows(msg.src));
    }
    assert forall|x: Seq<char>, y: Seq<char>|
        next.contains_key(x) && next.contains_key(y) implies (#[trigger] next[x].peer_knows(
        y,
    )).subset_of(next[y].known) by {
        let taught = net.insert(here, before@.learned(msg.src, values));
        assert(taught[x].peer_knows(y).subset_of(taught[y].known));
        assert(next[x].known_by_peer == taught[x].known_by_peer);
        assert(next[y].known == taught[y].known);
    }
}

} // verus!
