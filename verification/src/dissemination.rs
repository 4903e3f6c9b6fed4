//! All broadcast nodes together: why a node delivers only what a client
//! has offered, and why everything that one node has delivered reaches
//! every node once the network lets the gossip through.

use vstd::prelude::*;
use crate::broadcast::{
    carried, law_handle_delivers, law_handle_emits_delivered, law_tick_gossips_all,
    BroadcastMessageView, BroadcastPayloadView, BroadcastView,
};
use crate::topology::{
    hops, law_mesh_reaches, law_skip_reaches, linked, mesh_overlay, skip_overlay, within,
};

verus! {

/// The broadcast nodes and what travels between them.
pub struct Network {
    /// The state of every node, by its id.
    pub nodes: Map<Seq<char>, BroadcastView>,
    /// Every envelope that a node has emitted. The network may deliver
    /// each of them late, more than once, in any order, or never.
    pub sent: Set<BroadcastMessageView>,
    /// The values that clients have handed to a node.
    pub offered: Set<u64>,
}

/// What can happen in a network of broadcast nodes.
pub enum NetEvent {
    /// A client's request reaches the node that it is addressed to.
    Request { msg: BroadcastMessageView },
    /// An envelope that a node emitted reaches the node that it is
    /// addressed to.
    Deliver { msg: BroadcastMessageView },
    /// The timer of a node fires.
    Tick { node: Seq<char> },
}

/// Whether a payload is one that clients send.
pub open spec fn is_request(payload: BroadcastPayloadView) -> bool {
    payload is Broadcast || payload is Read || payload is Topology
}

impl Network {
    /// No node has delivered, and no envelope brings, a value that no
    /// client has offered.
    pub open spec fn inv(self) -> bool {
        &&& forall|id: Seq<char>| #[trigger]
            self.nodes.contains_key(id) ==> self.nodes[id].delivered().subset_of(self.offered)
        &&& forall|m: BroadcastMessageView| #[trigger]
            self.sent.contains(m) ==> carried(m.body.fields).subset_of(self.offered)
    }

    /// The network after the node `id` has gone to `node` and emitted `out`.
    pub open spec fn emitted(
        self,
        id: Seq<char>,
        node: BroadcastView,
        out: Seq<BroadcastMessageView>,
    ) -> Network {
        Network { nodes: self.nodes.insert(id, node), sent: self.sent.union(out.to_set()), ..self }
    }

    /// The network after `event`, or `None` where `event` cannot happen
    /// or stops the node.
    pub open spec fn next(self, event: NetEvent) -> Option<Network> {
        match event {
            NetEvent::Request { msg } => if self.nodes.contains_key(msg.dest) && is_request(
                msg.body.fields,
            ) {
                match self.nodes[msg.dest].handle(msg) {
                    Ok((node, out)) => Some(
                        Network {
                            offered: self.offered.union(carried(msg.body.fields)),
                            ..self.emitted(msg.dest, node, out)
                        },
                    ),
                    Err(_) => None,
                }
            } else {
                None
            },
            NetEvent::Deliver { msg } => if self.nodes.contains_key(msg.dest) && self.sent.contains(
                msg,
            ) {
                match self.nodes[msg.dest].handle(msg) {
                    Ok((node, out)) => Some(self.emitted(msg.dest, node, out)),
                    Err(_) => None,
                }
            } else {
                None
            },
            NetEvent::Tick { node } => if self.nodes.contains_key(node) {
                match self.nodes[node].tick() {
                    Ok((after, out)) => Some(self.emitted(node, after, out)),
                    Err(_) => None,
                }
            } else {
                None
            },
        }
    }
}

/// Whatever happens, and however the network loses, repeats and
/// reorders envelopes, no node comes to deliver a value that no client
/// has offered.
pub proof fn law_delivers_only_offered(net: Network, event: NetEvent)
    requires
        net.inv(),
        net.next(event) is Some,
    ensures
        net.next(event)->Some_0.inv(),
{
    let after = net.next(event)->Some_0;
    match event {
        NetEvent::Request { msg } => {
            let (node, out) = net.nodes[msg.dest].handle(msg)->Ok_0;
            law_handle_delivers(net.nodes[msg.dest], msg);
            assert forall|m: BroadcastMessageView| #[trigger] after.sent.contains(m) implies carried(
                m.body.fields,
            ).subset_of(after.offered) by {
                if out.to_set().contains(m) {
                    let i = out.index_of(m);
                    law_handle_emits_delivered(net.nodes[msg.dest], msg, i);
                } else {
                    assert(net.sent.contains(m));
                }
            }
            assert forall|id: Seq<char>| #[trigger] after.nodes.contains_key(id) implies after.nodes[id].delivered().subset_of(
                after.offered,
            ) by {
                if id != msg.dest {
                    assert(net.nodes.contains_key(id));
                }
            }
        },
        NetEvent::Deliver { msg } => {
            let (node, out) = net.nodes[msg.dest].handle(msg)->Ok_0;
            law_handle_delivers(net.nodes[msg.dest], msg);
            assert forall|m: BroadcastMessageView| #[trigger] after.sent.contains(m) implies carried(
                m.body.fields,
            ).subset_of(after.offered) by {
                if out.to_set().contains(m) {
                    let i = out.index_of(m);
                    law_handle_emits_delivered(net.nodes[msg.dest], msg, i);
                } else {
                    assert(net.sent.contains(m));
                }
            }
            assert forall|id: Seq<char>| #[trigger] after.nodes.contains_key(id) implies after.nodes[id].delivered().subset_of(
                after.offered,
            ) by {
                if id != msg.dest {
                    assert(net.nodes.contains_key(id));
                }
            }
        },
        NetEvent::Tick { node } => {
            let (ticked, out) = net.nodes[node].tick()->Ok_0;
            assert forall|m: BroadcastMessageView| #[trigger] after.sent.contains(m) implies carried(
                m.body.fields,
            ).subset_of(after.offered) by {
                if out.to_set().contains(m) {
                    let i = out.index_of(m);
                    law_tick_gossips_all(net.nodes[node], i);
                } else {
                    assert(net.sent.contains(m));
                }
            }
            assert forall|id: Seq<char>| #[trigger] after.nodes.contains_key(id) implies after.nodes[id].delivered().subset_of(
                after.offered,
            ) by {
                if id != node {
                    assert(net.nodes.contains_key(id));
                }
            }
        },
    }
}

/// A client reads only values that some client has offered.
pub proof fn law_reads_only_offered(
    net: Network,
    id: Seq<char>,
    client: Seq<char>,
    msg_id: Option<u64>,
    value: u64,
)
    requires
        net.inv(),
        net.nodes.contains_key(id),
        net.nodes[id].read(client, msg_id) is Ok,
        net.nodes[id].read(client, msg_id)->Ok_0.1[0].body.fields->ReadOk_messages.contains(value),
    ensures
        net.offered.contains(value),
{
    assert(net.nodes[id].delivered().contains(value));
}

/// One round of gossip that the network lets through: every node keeps
/// what it had delivered, and has delivered what each node had of which
/// it is a neighbor. `overlay` holds the neighbors of every node, and
/// `before` and `after` what every node has delivered, all by the
/// positions of the nodes in `ids`.
pub open spec fn healed_round(
    ids: Seq<Seq<char>>,
    overlay: Seq<Seq<Seq<char>>>,
    before: Seq<Set<u64>>,
    after: Seq<Set<u64>>,
) -> bool {
    &&& overlay.len() == ids.len()
    &&& before.len() == ids.len()
    &&& after.len() == ids.len()
    &&& forall|i: int| 0 <= i < ids.len() ==> (#[trigger] before[i]).subset_of(after[i])
    &&& forall|i: int, j: int|
        0 <= i < ids.len() && 0 <= j < ids.len() && overlay[i].contains(ids[j])
            ==> (#[trigger] before[i]).subset_of(#[trigger] after[j])
}

/// Whether each of `rounds` but the last leads to the next by a round of
/// gossip that the network lets through.
pub open spec fn healed(
    ids: Seq<Seq<char>>,
    overlay: Seq<Seq<Seq<char>>>,
    rounds: Seq<Seq<Set<u64>>>,
) -> bool {
    &&& rounds.len() > 0
    &&& rounds[0].len() == ids.len()
    &&& forall|k: int|
        0 <= k < rounds.len() - 1 ==> healed_round(ids, overlay, #[trigger] rounds[k], rounds[k + 1])
}

/// What a node has delivered stays delivered from round to round.
proof fn lemma_rounds_keep(
    ids: Seq<Seq<char>>,
    overlay: Seq<Seq<Seq<char>>>,
    rounds: Seq<Seq<Set<u64>>>,
    i: int,
    r: int,
    v: u64,
)
    requires
        healed(ids, overlay, rounds),
        0 <= i < ids.len(),
        0 <= r < rounds.len(),
        rounds[0][i].contains(v),
    ensures
        rounds[r].len() == ids.len(),
        rounds[r][i].contains(v),
    decreases r,
{
    if r > 0 {
        lemma_rounds_keep(ids, overlay, rounds, i, r - 1, v);
        assert(healed_round(ids, overlay, rounds[r - 1], rounds[r - 1 + 1]));
        assert(rounds[r - 1][i].subset_of(rounds[r][i]));
    }
}

/// Gossip follows the links of the overlay: once the network lets the
/// gossip through, a value that one node has delivered has reached,
/// after `k` rounds, every node within `k` links of it. `rounds[r]` holds
/// what every node has delivered after `r` rounds.
pub proof fn law_gossip_follows_links(
    ids: Seq<Seq<char>>,
    overlay: Seq<Seq<Seq<char>>>,
    rounds: Seq<Seq<Set<u64>>>,
    origin: int,
    v: u64,
    target: int,
    k: nat,
)
    requires
        healed(ids, overlay, rounds),
        k < rounds.len(),
        0 <= origin < ids.len(),
        0 <= target < ids.len(),
        rounds[0][origin].contains(v),
        within(ids, overlay, origin, target, k),
    ensures
        rounds[k as int].len() == ids.len(),
        rounds[k as int][target].contains(v),
    decreases k,
{
    if origin == target {
        lemma_rounds_keep(ids, overlay, rounds, origin, k as int, v);
    } else {
        let via = choose|via: int| #[trigger]
            linked(ids, overlay, via, target) && within(ids, overlay, origin, via, (k - 1) as nat);
        law_gossip_follows_links(ids, overlay, rounds, origin, v, via, (k - 1) as nat);
        assert(healed_round(ids, overlay, rounds[k - 1], rounds[k - 1 + 1]));
        assert(rounds[k - 1][via].subset_of(rounds[k as int][target]));
    }
}

/// In the skip structure, once the network lets the gossip through,
/// every value that one node has delivered reaches every node within
/// `hops` rounds.
pub proof fn law_gossip_reaches_all(
    ids: Seq<Seq<char>>,
    rounds: Seq<Seq<Set<u64>>>,
    origin: int,
    v: u64,
    target: int,
)
    requires
        healed(ids, skip_overlay(ids), rounds),
        rounds.len() > hops(ids.len()),
        0 <= origin < ids.len(),
        0 <= target < ids.len(),
        rounds[0][origin].contains(v),
    ensures
        rounds[hops(ids.len()) as int][target].contains(v),
{
    law_skip_reaches(ids, origin, target);
    law_gossip_follows_links(
        ids,
        skip_overlay(ids),
        rounds,
        origin,
        v,
        target,
        hops(ids.len()),
    );
}

/// In the full mesh, once the network lets the gossip through, every
/// value that one node has delivered reaches every node in one round.
pub proof fn law_mesh_gossip_reaches_all(
    ids: Seq<Seq<char>>,
    rounds: Seq<Seq<Set<u64>>>,
    origin: int,
    v: u64,
    target: int,
)
    requires
        ids.no_duplicates(),
        healed(ids, mesh_overlay(ids), rounds),
        rounds.len() > 1,
        0 <= origin < ids.len(),
        0 <= target < ids.len(),
        rounds[0][origin].contains(v),
    ensures
        rounds[1][target].contains(v),
{
    law_mesh_reaches(ids, origin, target);
    law_gossip_follows_links(ids, mesh_overlay(ids), rounds, origin, v, target, 1);
}

/// One link of a round: when the timer of a node fires and the gossip
/// for one of its neighbors arrives there, the neighbor has delivered
/// all that the node had, and all that it had itself.
pub proof fn law_gossip_link(from: BroadcastView, to: BroadcastView, k: int)
    requires
        from.tick() is Ok,
        0 <= k < from.neighbors.len(),
    ensures
        ({
            let gossip = from.tick()->Ok_0.1[k];
            &&& gossip.dest == from.neighbors[k]
            &&& to.handle(gossip) is Ok
            &&& from.delivered().subset_of(to.handle(gossip)->Ok_0.0.delivered())
            &&& to.delivered().subset_of(to.handle(gossip)->Ok_0.0.delivered())
        }),
{
    law_tick_gossips_all(from, k);
    let gossip = from.tick()->Ok_0.1[k];
    law_handle_delivers(to, gossip);
}

/// The nodes after the envelopes of `msgs` have arrived, each at the
/// node that it is addressed to, in the order of `msgs`. Nodes stand in
/// the order of `ids`.
pub open spec fn deliver_all(
    ids: Seq<Seq<char>>,
    nodes: Seq<BroadcastView>,
    msgs: Seq<BroadcastMessageView>,
) -> Seq<BroadcastView>
    decreases msgs.len(),
{
    if msgs.len() == 0 {
        nodes
    } else {
        let before = deliver_all(ids, nodes, msgs.drop_last());
        let at = ids.index_of(msgs.last().dest);
        match before[at].handle(msgs.last()) {
            Ok((node, _)) => before.update(at, node),
            Err(_) => before,
        }
    }
}

/// What each node has delivered.
pub open spec fn delivered_sets(nodes: Seq<BroadcastView>) -> Seq<Set<u64>> {
    nodes.map_values(|s: BroadcastView| s.delivered())
}

/// Whether a gossip envelope for `dest` with `values` is among `msgs`.
pub open spec fn arrives(msgs: Seq<BroadcastMessageView>, dest: Seq<char>, values: Seq<u64>) -> bool {
    exists|p: int|
        0 <= p < msgs.len() && (#[trigger] msgs[p]).dest == dest && msgs[p].body.fields == (
        BroadcastPayloadView::Gossip { messages: values })
}

/// Whether `msgs` holds only gossip for nodes of `ids`.
pub open spec fn all_gossip(ids: Seq<Seq<char>>, msgs: Seq<BroadcastMessageView>) -> bool {
    forall|p: int|
        0 <= p < msgs.len() ==> (#[trigger] msgs[p]).body.fields is Gossip && ids.contains(
            msgs[p].dest,
        )
}

/// Arriving gossip only adds to what a node has delivered, and every
/// envelope leaves what it brings at the node that it is addressed to.
proof fn lemma_deliver_all(
    ids: Seq<Seq<char>>,
    nodes: Seq<BroadcastView>,
    msgs: Seq<BroadcastMessageView>,
)
    requires
        ids.no_duplicates(),
        nodes.len() == ids.len(),
        all_gossip(ids, msgs),
    ensures
        deliver_all(ids, nodes, msgs).len() == ids.len(),
        forall|j: int|
            0 <= j < ids.len() ==> (#[trigger] nodes[j]).delivered().subset_of(
                deliver_all(ids, nodes, msgs)[j].delivered(),
            ),
        forall|p: int|
            0 <= p < msgs.len() ==> carried((#[trigger] msgs[p]).body.fields).subset_of(
                deliver_all(ids, nodes, msgs)[ids.index_of(msgs[p].dest)].delivered(),
            ),
    decreases msgs.len(),
{
    if msgs.len() > 0 {
        let rest = msgs.drop_last();
        let last = msgs.last();
        assert(all_gossip(ids, rest)) by {
            assert forall|p: int| 0 <= p < rest.len() implies (#[trigger] rest[p]).body.fields is Gossip
                && ids.contains(rest[p].dest) by {
                assert(rest[p] == msgs[p]);
            }
        }
        lemma_deliver_all(ids, nodes, rest);
        let before = deliver_all(ids, nodes, rest);
        let after = deliver_all(ids, nodes, msgs);
        assert(msgs[msgs.len() - 1] == last);
        let at = ids.index_of(last.dest);
        assert(0 <= at < ids.len());
        assert(before[at].handle(last) is Ok);
        law_handle_delivers(before[at], last);
        assert forall|p: int| 0 <= p < msgs.len() implies carried(
            (#[trigger] msgs[p]).body.fields,
        ).subset_of(after[ids.index_of(msgs[p].dest)].delivered()) by {
            if p < rest.len() {
                assert(rest[p] == msgs[p]);
                let to = ids.index_of(rest[p].dest);
                assert(0 <= to < ids.len());
            }
        }
    }
}

/// A round in which the gossip of every node arrives at each of its
/// neighbors is a round that the network lets through, whatever the
/// order of arrival and however often an envelope arrives. Nodes stand in
/// the order of `ids`.
pub proof fn law_round_heals(
    ids: Seq<Seq<char>>,
    overlay: Seq<Seq<Seq<char>>>,
    nodes: Seq<BroadcastView>,
    msgs: Seq<BroadcastMessageView>,
)
    requires
        ids.no_duplicates(),
        nodes.len() == ids.len(),
        overlay.len() == ids.len(),
        all_gossip(ids, msgs),
        forall|i: int| 0 <= i < ids.len() ==> (#[trigger] nodes[i]).neighbors == overlay[i],
        forall|i: int, k: int|
            0 <= i < ids.len() && 0 <= k < nodes[i].neighbors.len() ==> arrives(
                msgs,
                #[trigger] nodes[i].neighbors[k],
                nodes[i].values,
            ),
    ensures
        healed_round(
            ids,
            overlay,
            delivered_sets(nodes),
            delivered_sets(deliver_all(ids, nodes, msgs)),
        ),
{
    lemma_deliver_all(ids, nodes, msgs);
    let after = deliver_all(ids, nodes, msgs);
    let was = delivered_sets(nodes);
    let is = delivered_sets(after);
    assert forall|i: int| 0 <= i < ids.len() implies (#[trigger] was[i]).subset_of(is[i]) by {
        assert(nodes[i].delivered().subset_of(after[i].delivered()));
    }
    assert forall|i: int, j: int|
        0 <= i < ids.len() && 0 <= j < ids.len() && overlay[i].contains(
            ids[j],
        ) implies (#[trigger] was[i]).subset_of(#[trigger] is[j]) by {
        let k = nodes[i].neighbors.index_of(ids[j]);
        assert(nodes[i].neighbors[k] == ids[j]);
        assert(arrives(msgs, nodes[i].neighbors[k], nodes[i].values));
        let p = choose|p: int|
            0 <= p < msgs.len() && (#[trigger] msgs[p]).dest == ids[j] && msgs[p].body.fields == (
            BroadcastPayloadView::Gossip { messages: nodes[i].values });
        assert(ids.index_of(ids[j]) == j);
        assert(carried(msgs[p].body.fields) == nodes[i].delivered());
    }
}

} // verus!
