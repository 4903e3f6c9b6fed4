//! Gossip broadcast: every value that a client hands to one node reaches
//! the delivered set of every node.

use vstd::prelude::*;
use crate::error::NodeError;
use crate::message::{meets, views, Body, BodyView, Message, MessageView, Outcome};
use crate::sender::{advanced, envelope, Sender, SenderView};
use crate::strmap::StrMap;
use crate::text::{names, str_eq};
use crate::topology::{
    all_others, is_not, sane_neighbors, skip_neighbors, supplied_neighbors, without,
};

verus! {

/// A client hands over a value.
#[derive(Debug)]
pub struct Broadcast {
    pub message: u64,
}

impl Broadcast {
    /// The request to deliver `message`.
    pub fn new(message: u64) -> (r: Broadcast)
        ensures
            r.message == message,
    {
        Broadcast { message }
    }
}

/// Acknowledges a `Broadcast`.
#[derive(Debug)]
pub struct BroadcastOk {}

impl BroadcastOk {
    /// The acknowledgement of a `Broadcast`.
    pub fn new() -> (r: BroadcastOk)
        ensures
            r == (BroadcastOk {}),
    {
        BroadcastOk {}
    }
}

/// A node passes a value on to a neighbor. It is never acknowledged.
#[derive(Debug)]
pub struct Propagate {
    pub message: u64,
}

/// Asks for the delivered set.
#[derive(Debug)]
pub struct Read {}

impl Read {
    /// The request for the delivered set.
    pub fn new() -> (r: Read)
        ensures
            r == (Read {}),
    {
        Read {}
    }
}

/// The delivered set, in answer to a `Read`.
#[derive(Debug)]
pub struct ReadOk {
    pub messages: Vec<u64>,
}

impl ReadOk {
    /// The answer that holds `messages`.
    pub fn new(messages: Vec<u64>) -> (r: ReadOk)
        ensures
            r.messages@ == messages@,
    {
        ReadOk { messages }
    }
}

/// The whole delivered set of a node, sent to a neighbor to repair what
/// was lost on the way.
#[derive(Debug)]
pub struct Gossip {
    pub messages: Vec<u64>,
}

/// The overlay that the harness suggests: for every node its neighbors.
#[derive(Debug)]
pub struct Topology {
    pub topology: StrMap<Vec<String>>,
}

/// Acknowledges a `Topology`.
#[derive(Debug)]
pub struct TopologyOk {}

impl TopologyOk {
    /// The acknowledgement of a `Topology`.
    pub fn new() -> (r: TopologyOk)
        ensures
            r == (TopologyOk {}),
    {
        TopologyOk {}
    }
}

/// Payloads of the broadcast protocol.
#[derive(Debug)]
pub enum BroadcastPayload {
    Broadcast(Broadcast),
    BroadcastOk(BroadcastOk),
    Propagate(Propagate),
    Read(Read),
    ReadOk(ReadOk),
    Gossip(Gossip),
    Topology(Topology),
    TopologyOk(TopologyOk),
}

/// What a broadcast payload holds.
#[allow(inconsistent_fields)]
pub enum BroadcastPayloadView {
    Broadcast { message: u64 },
    BroadcastOk,
    Propagate { message: u64 },
    Read,
    ReadOk { messages: Seq<u64> },
    Gossip { messages: Seq<u64> },
    Topology { topology: Map<Seq<char>, Seq<Seq<char>>> },
    TopologyOk,
}

impl View for BroadcastPayload {
    type V = BroadcastPayloadView;

    open spec fn view(&self) -> BroadcastPayloadView {
        match *self {
            BroadcastPayload::Broadcast(b) => BroadcastPayloadView::Broadcast {
                message: b.message,
            },
            BroadcastPayload::BroadcastOk(_) => BroadcastPayloadView::BroadcastOk,
            BroadcastPayload::Propagate(p) => BroadcastPayloadView::Propagate {
                message: p.message,
            },
            BroadcastPayload::Read(_) => BroadcastPayloadView::Read,
            BroadcastPayload::ReadOk(r) => BroadcastPayloadView::ReadOk { messages: r.messages@ },
            BroadcastPayload::Gossip(g) => BroadcastPayloadView::Gossip { messages: g.messages@ },
            BroadcastPayload::Topology(t) => BroadcastPayloadView::Topology {
                topology: t.topology@.map_values(|v: Vec<String>| names(v@)),
            },
            BroadcastPayload::TopologyOk(_) => BroadcastPayloadView::TopologyOk,
        }
    }
}

/// An envelope of the broadcast protocol.
pub type BroadcastMessage = Message<Body<BroadcastPayload>>;

/// What an envelope of the broadcast protocol holds.
pub type BroadcastMessageView = MessageView<BodyView<BroadcastPayloadView>>;

/// How a node chooses the neighbors to which it gossips.
#[derive(Clone, Copy, Debug, PartialEq, Eq, Structural)]
pub enum Overlay {
    /// Every other node.
    FullMesh,
    /// The neighbors that a `Topology` request lists for the node.
    Supplied,
    /// The skip structure over the node ids.
    Skip,
}

/// The broadcast state of one node.
pub struct BroadcastNode {
    sender: Sender,
    overlay: Overlay,
    neighbors: Vec<String>,
    values: Vec<u64>,
}

/// What the broadcast state of a node is.
pub struct BroadcastView {
    pub sender: SenderView,
    pub overlay: Overlay,
    /// The nodes to which values are passed on.
    pub neighbors: Seq<Seq<char>>,
    /// The delivered values, in the order in which they were first seen.
    pub values: Seq<u64>,
}

impl View for BroadcastNode {
    type V = BroadcastView;

    closed spec fn view(&self) -> BroadcastView {
        BroadcastView {
            sender: self.sender@,
            overlay: self.overlay,
            neighbors: names(self.neighbors@),
            values: self.values@,
        }
    }
}

/// `values` after `value` was delivered: a value that is there already
/// is not added again.
pub open spec fn deliver(values: Seq<u64>, value: u64) -> Seq<u64> {
    if values.contains(value) {
        values
    } else {
        values.push(value)
    }
}

/// `values` after each value of `incoming` was delivered, in order.
pub open spec fn merged(values: Seq<u64>, incoming: Seq<u64>) -> Seq<u64>
    decreases incoming.len(),
{
    if incoming.len() == 0 {
        values
    } else {
        deliver(merged(values, incoming.drop_last()), incoming.last())
    }
}

/// One envelope with `payload` to each of `targets`, under consecutive
/// request ids.
pub open spec fn fan_out(
    sender: SenderView,
    targets: Seq<Seq<char>>,
    payload: BroadcastPayloadView,
) -> Seq<BroadcastMessageView> {
    Seq::new(targets.len(), |i: int| envelope(advanced(sender, i), targets[i], None, payload))
}

/// The neighbors with which a node starts.
pub open spec fn initial_neighbors(sender: SenderView, overlay: Overlay) -> Option<
    Seq<Seq<char>>,
> {
    match overlay {
        Overlay::FullMesh => Some(sender.node_ids.filter(is_not(sender.node_id))),
        Overlay::Supplied => Some(Seq::empty()),
        Overlay::Skip => match sender.node_ids.index_of_first(sender.node_id) {
            Some(me) => Some(skip_neighbors(sender.node_ids, me)),
            None => None,
        },
    }
}

impl BroadcastView {
    /// No value is delivered twice.
    pub open spec fn wf(self) -> bool {
        self.values.no_duplicates()
    }

    /// The delivered values as a set.
    pub open spec fn delivered(self) -> Set<u64> {
        self.values.to_set()
    }

    /// The neighbors to which `value`, received from `from`, is passed on:
    /// none if it was delivered before, else every neighbor but `from`.
    pub open spec fn forward_targets(self, from: Seq<char>, value: u64) -> Seq<Seq<char>> {
        if self.values.contains(value) {
            Seq::empty()
        } else {
            self.neighbors.filter(is_not(from))
        }
    }

    /// A neighbor passes on `value`: it is delivered, and passed on if it
    /// is new.
    pub open spec fn propagate(self, from: Seq<char>, value: u64) -> Outcome<
        BroadcastView,
        BroadcastMessageView,
    > {
        let targets = self.forward_targets(from, value);
        if self.sender.next_id + targets.len() > u64::MAX {
            Err(NodeError::IdsExhausted)
        } else {
            Ok(
                (
                    BroadcastView {
                        sender: advanced(self.sender, targets.len() as int),
                        values: deliver(self.values, value),
                        ..self
                    },
                    fan_out(
                        self.sender,
                        targets,
                        BroadcastPayloadView::Propagate { message: value },
                    ),
                ),
            )
        }
    }

    /// A client hands over `value`: it is delivered, passed on if it is
    /// new, and acknowledged in either case.
    pub open spec fn broadcast(self, client: Seq<char>, msg_id: Option<u64>, value: u64) -> Outcome<
        BroadcastView,
        BroadcastMessageView,
    > {
        let targets = self.forward_targets(client, value);
        if self.sender.next_id + targets.len() + 1 > u64::MAX {
            Err(NodeError::IdsExhausted)
        } else {
            Ok(
                (
                    BroadcastView {
                        sender: advanced(self.sender, targets.len() as int + 1),
                        values: deliver(self.values, value),
                        ..self
                    },
                    fan_out(
                        self.sender,
                        targets,
                        BroadcastPayloadView::Propagate { message: value },
                    ).push(
                        envelope(
                            advanced(self.sender, targets.len() as int),
                            client,
                            msg_id,
                            BroadcastPayloadView::BroadcastOk,
                        ),
                    ),
                ),
            )
        }
    }

    /// A client reads: it gets the delivered values.
    pub open spec fn read(self, client: Seq<char>, msg_id: Option<u64>) -> Outcome<
        BroadcastView,
        BroadcastMessageView,
    > {
        if self.sender.next_id + 1 > u64::MAX {
            Err(NodeError::IdsExhausted)
        } else {
            Ok(
                (
                    BroadcastView { sender: advanced(self.sender, 1), ..self },
                    seq![
                        envelope(
                            self.sender,
                            client,
                            msg_id,
                            BroadcastPayloadView::ReadOk { messages: self.values },
                        ),
                    ],
                ),
            )
        }
    }

    /// The delivered set of another node arrives: what is new in it is
    /// delivered. Nothing is passed on.
    pub open spec fn merge(self, incoming: Seq<u64>) -> Outcome<
        BroadcastView,
        BroadcastMessageView,
    > {
        Ok((BroadcastView { values: merged(self.values, incoming), ..self }, Seq::empty()))
    }

    /// The harness suggests an overlay. A node that takes its neighbors
    /// from it adopts its own entry, and stops if it has none. The request
    /// is acknowledged.
    pub open spec fn topology(
        self,
        client: Seq<char>,
        msg_id: Option<u64>,
        topology: Map<Seq<char>, Seq<Seq<char>>>,
    ) -> Outcome<BroadcastView, BroadcastMessageView> {
        if self.overlay == Overlay::Supplied && !topology.contains_key(self.sender.node_id) {
            Err(NodeError::MissingSelf)
        } else if self.sender.next_id + 1 > u64::MAX {
            Err(NodeError::IdsExhausted)
        } else {
            Ok(
                (
                    BroadcastView {
                        sender: advanced(self.sender, 1),
                        neighbors: if self.overlay == Overlay::Supplied {
                            topology[self.sender.node_id]
                        } else {
                            self.neighbors
                        },
                        ..self
                    },
                    seq![
                        envelope(self.sender, client, msg_id, BroadcastPayloadView::TopologyOk),
                    ],
                ),
            )
        }
    }

    /// The timer fires: every neighbor gets the whole delivered set.
    pub open spec fn tick(self) -> Outcome<BroadcastView, BroadcastMessageView> {
        if self.sender.next_id + self.neighbors.len() > u64::MAX {
            Err(NodeError::IdsExhausted)
        } else {
            Ok(
                (
                    BroadcastView {
                        sender: advanced(self.sender, self.neighbors.len() as int),
                        ..self
                    },
                    fan_out(
                        self.sender,
                        self.neighbors,
                        BroadcastPayloadView::Gossip { messages: self.values },
                    ),
                ),
            )
        }
    }

    /// The timer fires on a node that asks instead of telling: every
    /// neighbor is asked for its delivered set.
    pub open spec fn probe(self) -> Outcome<BroadcastView, BroadcastMessageView> {
        if self.sender.next_id + self.neighbors.len() > u64::MAX {
            Err(NodeError::IdsExhausted)
        } else {
            Ok(
                (
                    BroadcastView {
                        sender: advanced(self.sender, self.neighbors.len() as int),
                        ..self
                    },
                    fan_out(self.sender, self.neighbors, BroadcastPayloadView::Read),
                ),
            )
        }
    }

    /// What an inbound envelope leads to.
    pub open spec fn handle(self, msg: BroadcastMessageView) -> Outcome<
        BroadcastView,
        BroadcastMessageView,
    > {
        match msg.body.fields {
            BroadcastPayloadView::Broadcast { message } => self.broadcast(
                msg.src,
                msg.body.msg_id,
                message,
            ),
            BroadcastPayloadView::BroadcastOk => Ok((self, Seq::empty())),
            BroadcastPayloadView::Propagate { message } => self.propagate(msg.src, message),
            BroadcastPayloadView::Read => self.read(msg.src, msg.body.msg_id),
            BroadcastPayloadView::ReadOk { messages } => self.merge(messages),
            BroadcastPayloadView::Gossip { messages } => self.merge(messages),
            BroadcastPayloadView::Topology { topology } => self.topology(
                msg.src,
                msg.body.msg_id,
                topology,
            ),
            BroadcastPayloadView::TopologyOk => Ok((self, Seq::empty())),
        }
    }
}

/// Delivering a value keeps the values distinct.
pub proof fn lemma_deliver_distinct(values: Seq<u64>, value: u64)
    requires
        values.no_duplicates(),
    ensures
        deliver(values, value).no_duplicates(),
{
}

/// Delivering a value keeps what was delivered, in place, and adds
/// nothing but that value.
pub proof fn lemma_deliver(values: Seq<u64>, value: u64)
    ensures
        values.is_prefix_of(deliver(values, value)),
        deliver(values, value).to_set() == values.to_set().insert(value),
{
    let after = deliver(values, value);
    assert(after.subrange(0, values.len() as int) =~= values);
    assert forall|x: u64| after.contains(x) <==> (values.contains(x) || x == value) by {
        if values.contains(x) {
            let i = values.index_of(x);
            assert(after[i] == x);
        }
        if after.contains(x) {
            let i = after.index_of(x);
            if i < values.len() {
                assert(values[i] == x);
            }
        }
        if !values.contains(value) {
            assert(after[values.len() as int] == value);
        }
    }
    assert(after.to_set() =~= values.to_set().insert(value));
}

/// Merging a set of values keeps what was delivered, in place, and adds
/// the values of the set and nothing else.
pub proof fn lemma_merged(values: Seq<u64>, incoming: Seq<u64>)
    ensures
        values.is_prefix_of(merged(values, incoming)),
        merged(values, incoming).to_set() == values.to_set().union(incoming.to_set()),
        values.no_duplicates() ==> merged(values, incoming).no_duplicates(),
    decreases incoming.len(),
{
    if incoming.len() == 0 {
        assert(values.subrange(0, values.len() as int) =~= values);
        assert(values.to_set().union(incoming.to_set()) =~= values.to_set());
    } else {
        let rest = incoming.drop_last();
        let before = merged(values, rest);
        let after = merged(values, incoming);
        lemma_merged(values, rest);
        lemma_deliver(before, incoming.last());
        assert(after.subrange(0, values.len() as int) =~= before.subrange(
            0,
            values.len() as int,
        )) by {
            assert(after.subrange(0, before.len() as int) == before);
        }
        assert forall|x: u64| incoming.contains(x) <==> (rest.contains(x) || x
            == incoming.last()) by {
            if rest.contains(x) {
                let i = rest.index_of(x);
                assert(incoming[i] == x);
            }
            if incoming.contains(x) {
                let i = incoming.index_of(x);
                if i < rest.len() {
                    assert(rest[i] == x);
                }
            }
            assert(incoming[incoming.len() - 1] == incoming.last());
        }
        assert(after.to_set() =~= values.to_set().union(incoming.to_set()));
        if values.no_duplicates() {
            lemma_deliver_distinct(before, incoming.last());
        }
    }
}

/// The values that an envelope brings with it.
pub open spec fn carried(payload: BroadcastPayloadView) -> Set<u64> {
    match payload {
        BroadcastPayloadView::Broadcast { message } => set![message],
        BroadcastPayloadView::Propagate { message } => set![message],
        BroadcastPayloadView::ReadOk { messages } => messages.to_set(),
        BroadcastPayloadView::Gossip { messages } => messages.to_set(),
        _ => Set::empty(),
    }
}

/// Handling an envelope delivers the values that it brings, and nothing
/// else: what a node has delivered only grows, never holds a value
/// twice, and holds no value that no envelope brought.
pub proof fn law_handle_delivers(s: BroadcastView, msg: BroadcastMessageView)
    requires
        s.handle(msg) is Ok,
    ensures
        ({
            let after = s.handle(msg)->Ok_0.0;
            &&& after.delivered() == s.delivered().union(carried(msg.body.fields))
            &&& s.values.is_prefix_of(after.values)
            &&& s.wf() ==> after.wf()
            &&& after.sender.node_id == s.sender.node_id
            &&& after.sender.node_ids == s.sender.node_ids
            &&& after.overlay == s.overlay
        }),
{
    let after = s.handle(msg)->Ok_0.0;
    assert(s.values.subrange(0, s.values.len() as int) =~= s.values);
    assert(s.delivered().union(Set::<u64>::empty()) =~= s.delivered());
    match msg.body.fields {
        BroadcastPayloadView::Broadcast { message } => {
            lemma_deliver(s.values, message);
            assert(s.delivered().union(set![message]) =~= s.delivered().insert(message));
        },
        BroadcastPayloadView::Propagate { message } => {
            lemma_deliver(s.values, message);
            assert(s.delivered().union(set![message]) =~= s.delivered().insert(message));
        },
        BroadcastPayloadView::ReadOk { messages } => {
            lemma_merged(s.values, messages);
        },
        BroadcastPayloadView::Gossip { messages } => {
            lemma_merged(s.values, messages);
        },
        _ => {},
    }
}

/// Every envelope that a node emits when it handles one comes from that
/// node and brings only values that the node has delivered.
pub proof fn law_handle_emits_delivered(s: BroadcastView, msg: BroadcastMessageView, i: int)
    requires
        s.handle(msg) is Ok,
        0 <= i < s.handle(msg)->Ok_0.1.len(),
    ensures
        ({
            let (after, out) = s.handle(msg)->Ok_0;
            &&& out[i].src == s.sender.node_id
            &&& carried(out[i].body.fields).subset_of(after.delivered())
        }),
{
    let (after, out) = s.handle(msg)->Ok_0;
    match msg.body.fields {
        BroadcastPayloadView::Broadcast { message } => {
            lemma_deliver(s.values, message);
        },
        BroadcastPayloadView::Propagate { message } => {
            lemma_deliver(s.values, message);
        },
        _ => {},
    }
}

/// The timer's envelopes go to the neighbors, one each, and each brings
/// all that the node has delivered.
pub proof fn law_tick_gossips_all(s: BroadcastView, i: int)
    requires
        s.tick() is Ok,
        0 <= i < s.neighbors.len(),
    ensures
        ({
            let (after, out) = s.tick()->Ok_0;
            &&& after.values == s.values
            &&& out.len() == s.neighbors.len()
            &&& out[i].src == s.sender.node_id
            &&& out[i].dest == s.neighbors[i]
            &&& out[i].body.fields == (BroadcastPayloadView::Gossip { messages: s.values })
        }),
{
}

/// A value that arrives again changes nothing: it is not delivered a
/// second time and not passed on a second time.
pub proof fn law_redelivery(s: BroadcastView, from: Seq<char>, msg_id: Option<u64>, value: u64)
    requires
        s.values.contains(value),
    ensures
        s.propagate(from, value) == Ok::<
            (BroadcastView, Seq<BroadcastMessageView>),
            NodeError,
        >((s, Seq::empty())),
        s.broadcast(from, msg_id, value) is Ok ==> {
            let (after, out) = s.broadcast(from, msg_id, value)->Ok_0;
            &&& after.values == s.values
            &&& out == seq![
                envelope(s.sender, from, msg_id, BroadcastPayloadView::BroadcastOk),
            ]
        },
        deliver(s.values, value) == s.values,
        forall|first: Seq<u64>| #[trigger] deliver(deliver(first, value), value) == deliver(first, value),
{
    let none = fan_out(
        s.sender,
        Seq::<Seq<char>>::empty(),
        BroadcastPayloadView::Propagate { message: value },
    );
    assert(none =~= Seq::empty());
    assert(advanced(s.sender, 0) == s.sender);
    assert(none.push(envelope(s.sender, from, msg_id, BroadcastPayloadView::BroadcastOk)) =~= seq![
        envelope(s.sender, from, msg_id, BroadcastPayloadView::BroadcastOk),
    ]);
    assert forall|first: Seq<u64>| #[trigger]
        deliver(deliver(first, value), value) == deliver(first, value) by {
        if !first.contains(value) {
            assert(first.push(value)[first.len() as int] == value);
        }
    }
}

/// Delivering a value twice is delivering it once: whether a client
/// hands it over or a neighbor passes it on, the second arrival leaves
/// the delivered values as they are, and a client reads each of them
/// once.
pub proof fn law_idempotent(
    s: BroadcastView,
    first: BroadcastMessageView,
    second: BroadcastMessageView,
    client: Seq<char>,
    msg_id: Option<u64>,
)
    requires
        s.wf(),
        first.body.fields is Broadcast || first.body.fields is Propagate,
        second.body.fields is Broadcast || second.body.fields is Propagate,
        carried(first.body.fields) == carried(second.body.fields),
        s.handle(first) is Ok,
        s.handle(first)->Ok_0.0.handle(second) is Ok,
        s.handle(first)->Ok_0.0.handle(second)->Ok_0.0.read(client, msg_id) is Ok,
    ensures
        ({
            let once = s.handle(first)->Ok_0.0;
            let twice = once.handle(second)->Ok_0.0;
            let read = twice.read(client, msg_id)->Ok_0.1[0].body.fields->ReadOk_messages;
            &&& twice.values == once.values
            &&& read == once.values
            &&& read.no_duplicates()
        }),
{
    let once = s.handle(first)->Ok_0.0;
    law_handle_delivers(s, first);
    let value: u64 = match second.body.fields {
        BroadcastPayloadView::Broadcast { message } => message,
        BroadcastPayloadView::Propagate { message } => message,
        _ => 0,
    };
    assert(carried(second.body.fields).contains(value));
    assert(once.delivered().contains(value));
    law_redelivery(once, second.src, second.body.msg_id, value);
}

/// Whether `value` is among `values`.
fn is_member(values: &Vec<u64>, value: u64) -> (b: bool)
    ensures
        b == values@.contains(value),
{
    let mut i: usize = 0;
    while i < values.len()
        invariant
            i <= values@.len(),
            forall|j: int| 0 <= j < i ==> values@[j] != value,
        decreases values@.len() - i,
    {
        if values[i] == value {
            return true;
        }
        i += 1;
    }
    false
}

/// Whether a payload is one that a node sends to all its neighbors.
spec fn is_circular(payload: BroadcastPayload) -> bool {
    payload is Propagate || payload is Gossip || payload is Read
}

/// A copy of a payload that is passed to every neighbor.
fn copy_of(payload: &BroadcastPayload) -> (r: BroadcastPayload)
    requires
        is_circular(*payload),
    ensures
        r@ == payload@,
{
    match payload {
        BroadcastPayload::Gossip(g) => {
            let messages = g.messages.clone();
            assert(messages@ =~= g.messages@);
            BroadcastPayload::Gossip(Gossip { messages })
        },
        BroadcastPayload::Propagate(p) => BroadcastPayload::Propagate(
            Propagate { message: p.message },
        ),
        _ => BroadcastPayload::Read(Read {}),
    }
}

/// Makes one envelope with `payload` for each of `targets`.
fn send_each(sender: &mut Sender, targets: &Vec<String>, payload: &BroadcastPayload) -> (out: Vec<
    BroadcastMessage,
>)
    requires
        is_circular(*payload),
        old(sender)@.next_id + targets@.len() <= u64::MAX,
    ensures
        views(out@) == fan_out(old(sender)@, names(targets@), payload@),
        final(sender)@ == advanced(old(sender)@, targets@.len() as int),
{
    let mut out: Vec<BroadcastMessage> = Vec::new();
    let mut i: usize = 0;
    while i < targets.len()
        invariant
            i <= targets@.len(),
            is_circular(*payload),
            old(sender)@.next_id + targets@.len() <= u64::MAX,
            sender@ == advanced(old(sender)@, i as int),
            out@.len() == i,
            forall|j: int|
                0 <= j < i ==> (#[trigger] out@[j])@ == envelope(
                    advanced(old(sender)@, j),
                    targets@[j]@,
                    None,
                    payload@,
                ),
        decreases targets@.len() - i,
    {
        match sender.message(targets[i].as_str(), copy_of(payload)) {
            Ok(m) => {
                out.push(m);
            },
            Err(_) => {},
        }
        i += 1;
    }
    assert(views(out@) =~= fan_out(old(sender)@, names(targets@), payload@));
    out
}

impl BroadcastNode {
    /// A node that has delivered nothing, with the neighbors that
    /// `overlay` starts with.
    pub fn new(sender: Sender, overlay: Overlay) -> (r: Result<BroadcastNode, NodeError>)
        ensures
            match r {
                Ok(node) => initial_neighbors(sender@, overlay) is Some && node@ == (BroadcastView {
                    sender: sender@,
                    overlay,
                    neighbors: initial_neighbors(sender@, overlay)->Some_0,
                    values: Seq::empty(),
                }) && node@.wf(),
                Err(e) => e == NodeError::MissingSelf && initial_neighbors(sender@, overlay) is None,
            },
    {
        let neighbors = match overlay {
            Overlay::FullMesh => all_others(&sender),
            Overlay::Supplied => {
                let none: Vec<String> = Vec::new();
                assert(names(none@) =~= Seq::empty());
                none
            },
            Overlay::Skip => match sane_neighbors(&sender) {
                Ok(v) => v,
                Err(e) => {
                    return Err(e);
                },
            },
        };
        Ok(BroadcastNode { sender, overlay, neighbors, values: Vec::new() })
    }

    /// The delivered values, in the order in which they were first seen.
    pub fn values(&self) -> (r: &Vec<u64>)
        ensures
            r@ == self@.values,
    {
        &self.values
    }

    /// The nodes to which values are passed on.
    pub fn neighbors(&self) -> (r: &Vec<String>)
        ensures
            names(r@) == self@.neighbors,
    {
        &self.neighbors
    }

    /// The identity under which the node sends.
    pub fn sender(&self) -> (r: &Sender)
        ensures
            r@ == self@.sender,
    {
        &self.sender
    }

    /// Delivers `value`, and makes the envelopes that pass it on to every
    /// neighbor but `from` if it is new. `extra` request ids are left for
    /// the caller.
    fn accept(&mut self, from: &str, value: u64, extra: u64) -> (r: Result<
        Vec<BroadcastMessage>,
        NodeError,
    >)
        requires
            old(self)@.wf(),
            extra <= 1,
        ensures
            final(self)@.wf(),
            ({
                let targets = old(self)@.forward_targets(from@, value);
                match r {
                    Ok(out) => old(self)@.sender.next_id + targets.len() + extra <= u64::MAX
                        && views(out@) == fan_out(
                        old(self)@.sender,
                        targets,
                        BroadcastPayloadView::Propagate { message: value },
                    ) && final(self)@ == (BroadcastView {
                        sender: advanced(old(self)@.sender, targets.len() as int),
                        values: deliver(old(self)@.values, value),
                        ..old(self)@
                    }),
                    Err(e) => old(self)@.sender.next_id + targets.len() + extra > u64::MAX && e
                        == NodeError::IdsExhausted && final(self)@ == old(self)@,
                }
            }),
    {
        let fresh = !is_member(&self.values, value);
        let targets: Vec<String> = if fresh {
            without(&self.neighbors, from)
        } else {
            let none: Vec<String> = Vec::new();
            assert(names(none@) =~= Seq::empty());
            none
        };
        let left = self.sender.ids_left();
        if left < extra || left - extra < targets.len() as u64 {
            return Err(NodeError::IdsExhausted);
        }
        let out = send_each(
            &mut self.sender,
            &targets,
            &BroadcastPayload::Propagate(Propagate { message: value }),
        );
        if fresh {
            self.values.push(value);
        }
        Ok(out)
    }

    /// Handles a value that a neighbor passes on.
    pub fn propagate(&mut self, from: &str, value: u64) -> (r: Result<
        Vec<BroadcastMessage>,
        NodeError,
    >)
        requires
            old(self)@.wf(),
        ensures
            final(self)@.wf(),
            meets(r, old(self)@, final(self)@, old(self)@.propagate(from@, value)),
    {
        self.accept(from, value, 0)
    }

    /// Handles a client's `broadcast`.
    pub fn broadcast(&mut self, request: &BroadcastMessage, value: u64) -> (r: Result<
        Vec<BroadcastMessage>,
        NodeError,
    >)
        requires
            old(self)@.wf(),
        ensures
            final(self)@.wf(),
            meets(
                r,
                old(self)@,
                final(self)@,
                old(self)@.broadcast(request@.src, request@.body.msg_id, value),
            ),
    {
        let mut out = match self.accept(request.src.as_str(), value, 1) {
            Ok(out) => out,
            Err(e) => {
                return Err(e);
            },
        };
        let ghost forwards = views(out@);
        match self.sender.respond(request, BroadcastPayload::BroadcastOk(BroadcastOk::new())) {
            Ok(ack) => {
                out.push(ack);
                assert(views(out@) =~= forwards.push(ack@));
                Ok(out)
            },
            Err(e) => Err(e),
        }
    }

    /// Handles a client's `read`.
    pub fn read(&mut self, request: &BroadcastMessage) -> (r: Result<
        Vec<BroadcastMessage>,
        NodeError,
    >)
        requires
            old(self)@.wf(),
        ensures
            final(self)@.wf(),
            meets(r, old(self)@, final(self)@, old(self)@.read(request@.src, request@.body.msg_id)),
    {
        let messages = self.values.clone();
        assert(messages@ =~= self.values@);
        let reply = match self.sender.respond(
            request,
            BroadcastPayload::ReadOk(ReadOk::new(messages)),
        ) {
            Ok(m) => m,
            Err(e) => {
                return Err(e);
            },
        };
        let mut out: Vec<BroadcastMessage> = Vec::new();
        out.push(reply);
        assert(views(out@) =~= old(self)@.read(request@.src, request@.body.msg_id)->Ok_0.1);
        Ok(out)
    }

    /// Handles the delivered set of another node.
    pub fn merge(&mut self, incoming: &Vec<u64>) -> (r: Result<Vec<BroadcastMessage>, NodeError>)
        requires
            old(self)@.wf(),
        ensures
            final(self)@.wf(),
            meets(r, old(self)@, final(self)@, old(self)@.merge(incoming@)),
    {
        let mut i: usize = 0;
        while i < incoming.len()
            invariant
                i <= incoming@.len(),
                self@.wf(),
                self@ == (BroadcastView {
                    values: merged(old(self)@.values, incoming@.take(i as int)),
                    ..old(self)@
                }),
            decreases incoming@.len() - i,
        {
            assert(incoming@.take(i + 1).drop_last() =~= incoming@.take(i as int));
            if !is_member(&self.values, incoming[i]) {
                self.values.push(incoming[i]);
            }
            i += 1;
        }
        assert(incoming@.take(i as int) =~= incoming@);
        let out: Vec<BroadcastMessage> = Vec::new();
        assert(views(out@) =~= Seq::empty());
        Ok(out)
    }

    /// Handles a `topology` request.
    pub fn topology(&mut self, request: &BroadcastMessage, topology: &StrMap<Vec<String>>) -> (r:
        Result<Vec<BroadcastMessage>, NodeError>)
        requires
            old(self)@.wf(),
        ensures
            final(self)@.wf(),
            meets(
                r,
                old(self)@,
                final(self)@,
                old(self)@.topology(
                    request@.src,
                    request@.body.msg_id,
                    topology@.map_values(|v: Vec<String>| names(v@)),
                ),
            ),
    {
        let adopted: Option<Vec<String>> = match self.overlay {
            Overlay::Supplied => match supplied_neighbors(&self.sender, topology) {
                Ok(v) => Some(v),
                Err(e) => {
                    return Err(e);
                },
            },
            _ => None,
        };
        let ack = match self.sender.respond(
            request,
            BroadcastPayload::TopologyOk(TopologyOk::new()),
        ) {
            Ok(m) => m,
            Err(e) => {
                return Err(e);
            },
        };
        match adopted {
            Some(v) => {
                self.neighbors = v;
            },
            None => {},
        }
        let mut out: Vec<BroadcastMessage> = Vec::new();
        out.push(ack);
        assert(views(out@) =~= seq![ack@]);
        Ok(out)
    }

    /// Handles the timer: sends the whole delivered set to every neighbor.
    pub fn tick(&mut self) -> (r: Result<Vec<BroadcastMessage>, NodeError>)
        requires
            old(self)@.wf(),
        ensures
            final(self)@.wf(),
            meets(r, old(self)@, final(self)@, old(self)@.tick()),
    {
        if self.sender.ids_left() < self.neighbors.len() as u64 {
            return Err(NodeError::IdsExhausted);
        }
        let messages = self.values.clone();
        assert(messages@ =~= self.values@);
        let out = send_each(
            &mut self.sender,
            &self.neighbors,
            &BroadcastPayload::Gossip(Gossip { messages }),
        );
        Ok(out)
    }

    /// Handles the timer of a node that asks instead of telling: asks
    /// every neighbor for its delivered set.
    pub fn probe(&mut self) -> (r: Result<Vec<BroadcastMessage>, NodeError>)
        requires
            old(self)@.wf(),
        ensures
            final(self)@.wf(),
            meets(r, old(self)@, final(self)@, old(self)@.probe()),
    {
        if self.sender.ids_left() < self.neighbors.len() as u64 {
            return Err(NodeError::IdsExhausted);
        }
        let out = send_each(
            &mut self.sender,
            &self.neighbors,
            &BroadcastPayload::Read(Read::new()),
        );
        Ok(out)
    }

    /// Routes an inbound envelope to the step that handles its payload.
    pub fn handle(&mut self, msg: &BroadcastMessage) -> (r: Result<
        Vec<BroadcastMessage>,
        NodeError,
    >)
        requires
            old(self)@.wf(),
        ensures
            final(self)@.wf(),
            meets(r, old(self)@, final(self)@, old(self)@.handle(msg@)),
    {
        match &msg.body.fields {
            BroadcastPayload::Broadcast(b) => self.broadcast(msg, b.message),
            BroadcastPayload::Propagate(p) => self.propagate(msg.src.as_str(), p.message),
            BroadcastPayload::Read(_) => self.read(msg),
            BroadcastPayload::ReadOk(r) => self.merge(&r.messages),
            BroadcastPayload::Gossip(g) => self.merge(&g.messages),
            BroadcastPayload::Topology(t) => self.topology(msg, &t.topology),
            BroadcastPayload::BroadcastOk(_) | BroadcastPayload::TopologyOk(_) => {
                let out: Vec<BroadcastMessage> = Vec::new();
                assert(views(out@) =~= Seq::empty());
                Ok(out)
            },
        }
    }
}

} // verus!
