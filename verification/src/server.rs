//! The node as the harness sees it: a handshake, then one workload that
//! answers inbound envelopes and a timer.

use vstd::prelude::*;
use crate::broadcast::{
    initial_neighbors, BroadcastNode, BroadcastPayload, BroadcastPayloadView, BroadcastView, Overlay,
};
use crate::counter::{CounterNode, CounterPayload, CounterPayloadView, CounterView};
use crate::echo::{echo, echoed, EchoPayload, EchoPayloadView};
use crate::error::NodeError;
use crate::log::{
    clock_micros, LogNode, LogPayload, LogPayloadView, LogServiceView, LogView, Offset,
};
use crate::message::{meets, views, Body, BodyView, Init, InitOk, Message, MessageView, Outcome};
use crate::sender::{advanced, envelope, handshake, id_seed, Sender, SenderView};
use crate::unique_id::{generate, generated, IdPayload};

verus! {

/// What a node does for its clients.
#[derive(Clone, Copy, Debug, PartialEq, Eq, Structural)]
pub enum Workload {
    Echo,
    UniqueIds,
    Broadcast(Overlay),
    Counter,
    Log,
}

/// A payload of any workload.
#[derive(Debug)]
pub enum Payload {
    Echo(EchoPayload),
    Id(IdPayload),
    Broadcast(BroadcastPayload),
    Counter(CounterPayload),
    Log(LogPayload),
}

/// What a payload of any workload holds.
pub enum PayloadView {
    Echo(EchoPayloadView),
    Id(IdPayload),
    Broadcast(BroadcastPayloadView),
    Counter(CounterPayloadView),
    Log(LogPayloadView),
}

impl View for Payload {
    type V = PayloadView;

    open spec fn view(&self) -> PayloadView {
        match *self {
            Payload::Echo(p) => PayloadView::Echo(p@),
            Payload::Id(p) => PayloadView::Id(p),
            Payload::Broadcast(p) => PayloadView::Broadcast(p@),
            Payload::Counter(p) => PayloadView::Counter(p@),
            Payload::Log(p) => PayloadView::Log(p@),
        }
    }
}

/// An envelope of any workload.
pub type Envelope = Message<Body<Payload>>;

/// What an envelope of any workload holds.
pub type EnvelopeView = MessageView<BodyView<PayloadView>>;

/// What the node reacts to.
#[derive(Debug)]
pub enum Event {
    /// An envelope has arrived.
    Inbound(Envelope),
    /// The timer has fired.
    Timer,
}

/// What an event holds.
pub enum EventView {
    Inbound(EnvelopeView),
    Timer,
}

impl View for Event {
    type V = EventView;

    open spec fn view(&self) -> EventView {
        match *self {
            Event::Inbound(msg) => EventView::Inbound(msg@),
            Event::Timer => EventView::Timer,
        }
    }
}

/// The state of the workload that a node runs.
enum Engine {
    Echo(Sender),
    UniqueIds(Sender),
    Broadcast(BroadcastNode),
    Counter(CounterNode),
    Log(LogNode),
}

/// A node after its handshake.
pub struct Server {
    engine: Engine,
}

/// What a `Server` is: the state of its workload.
pub enum ServerView {
    Echo(SenderView),
    UniqueIds(SenderView),
    Broadcast(BroadcastView),
    Counter(CounterView),
    Log(LogView),
}

impl View for Server {
    type V = ServerView;

    closed spec fn view(&self) -> ServerView {
        match self.engine {
            Engine::Echo(s) => ServerView::Echo(s@),
            Engine::UniqueIds(s) => ServerView::UniqueIds(s@),
            Engine::Broadcast(n) => ServerView::Broadcast(n@),
            Engine::Counter(n) => ServerView::Counter(n@),
            Engine::Log(n) => ServerView::Log(n@),
        }
    }
}

/// The payloads of one workload among the payloads of any workload.
pub trait Family: View + Sized {
    /// What a payload of this workload is among the payloads of any.
    spec fn widened(p: Self::V) -> PayloadView;

    /// The payload among the payloads of any workload.
    fn widen(self) -> (r: Payload)
        ensures
            r@ == Self::widened(self@),
    ;
}

impl Family for EchoPayload {
    open spec fn widened(p: EchoPayloadView) -> PayloadView {
        PayloadView::Echo(p)
    }

    fn widen(self) -> (r: Payload) {
        Payload::Echo(self)
    }
}

impl Family for IdPayload {
    open spec fn widened(p: IdPayload) -> PayloadView {
        PayloadView::Id(p)
    }

    fn widen(self) -> (r: Payload) {
        Payload::Id(self)
    }
}

impl Family for BroadcastPayload {
    open spec fn widened(p: BroadcastPayloadView) -> PayloadView {
        PayloadView::Broadcast(p)
    }

    fn widen(self) -> (r: Payload) {
        Payload::Broadcast(self)
    }
}

impl Family for CounterPayload {
    open spec fn widened(p: CounterPayloadView) -> PayloadView {
        PayloadView::Counter(p)
    }

    fn widen(self) -> (r: Payload) {
        Payload::Counter(self)
    }
}

impl Family for LogPayload {
    open spec fn widened(p: LogPayloadView) -> PayloadView {
        PayloadView::Log(p)
    }

    fn widen(self) -> (r: Payload) {
        Payload::Log(self)
    }
}

/// An envelope of one workload as an envelope of any workload.
pub open spec fn lift<P: Family>(m: MessageView<BodyView<P::V>>) -> EnvelopeView {
    MessageView {
        src: m.src,
        dest: m.dest,
        body: BodyView {
            msg_id: m.body.msg_id,
            in_reply_to: m.body.in_reply_to,
            fields: P::widened(m.body.fields),
        },
    }
}

/// Envelopes of one workload as envelopes of any workload.
pub open spec fn lift_all<P: Family>(out: Seq<MessageView<BodyView<P::V>>>) -> Seq<EnvelopeView> {
    out.map_values(|m: MessageView<BodyView<P::V>>| lift::<P>(m))
}

/// The envelope `m` with the payload `fields` in place of its own.
pub open spec fn with_fields<P>(m: EnvelopeView, fields: P) -> MessageView<BodyView<P>> {
    MessageView {
        src: m.src,
        dest: m.dest,
        body: BodyView { msg_id: m.body.msg_id, in_reply_to: m.body.in_reply_to, fields },
    }
}

impl ServerView {
    /// The state in which a workload starts.
    pub open spec fn initial(sender: SenderView, workload: Workload) -> Option<ServerView> {
        match workload {
            Workload::Echo => Some(ServerView::Echo(sender)),
            Workload::UniqueIds => Some(ServerView::UniqueIds(sender)),
            Workload::Broadcast(overlay) => match initial_neighbors(sender, overlay) {
                Some(neighbors) => Some(
                    ServerView::Broadcast(
                        BroadcastView { sender, overlay, neighbors, values: Seq::empty() },
                    ),
                ),
                None => None,
            },
            Workload::Counter => Some(
                ServerView::Counter(
                    CounterView { sender, delta: 0, last_known_global: 0, pending: None },
                ),
            ),
            Workload::Log => Some(
                ServerView::Log(
                    LogView {
                        sender,
                        service: LogServiceView { logs: Map::empty(), commits: Map::empty() },
                    },
                ),
            ),
        }
    }

    pub open spec fn wf(self) -> bool {
        match self {
            ServerView::Broadcast(s) => s.wf(),
            ServerView::Counter(s) => s.wf(),
            ServerView::Log(s) => s.wf(),
            _ => true,
        }
    }

    /// What an inbound envelope leads to while the clock reads `now`: it
    /// goes to the workload of the node if it is of that workload, and
    /// has no handler otherwise.
    pub open spec fn handle_at(self, msg: EnvelopeView, now: Offset) -> Outcome<
        ServerView,
        EnvelopeView,
    > {
        match (self, msg.body.fields) {
            (ServerView::Echo(s), PayloadView::Echo(p)) => match echoed(s, with_fields(msg, p)) {
                Ok((after, out)) => Ok((ServerView::Echo(after), lift_all::<EchoPayload>(out))),
                Err(e) => Err(e),
            },
            (ServerView::UniqueIds(s), PayloadView::Id(p)) => match generated(
                s,
                with_fields(msg, p),
            ) {
                Ok((after, out)) => Ok((ServerView::UniqueIds(after), lift_all::<IdPayload>(out))),
                Err(e) => Err(e),
            },
            (ServerView::Broadcast(s), PayloadView::Broadcast(p)) => match s.handle(
                with_fields(msg, p),
            ) {
                Ok((after, out)) => Ok(
                    (ServerView::Broadcast(after), lift_all::<BroadcastPayload>(out)),
                ),
                Err(e) => Err(e),
            },
            (ServerView::Counter(s), PayloadView::Counter(p)) => match s.handle(
                with_fields(msg, p),
            ) {
                Ok((after, out)) => Ok((ServerView::Counter(after), lift_all::<CounterPayload>(out))),
                Err(e) => Err(e),
            },
            (ServerView::Log(s), PayloadView::Log(p)) => match s.handle_at(
                with_fields(msg, p),
                now,
            ) {
                Ok((after, out)) => Ok((ServerView::Log(after), lift_all::<LogPayload>(out))),
                Err(e) => Err(e),
            },
            _ => Err(NodeError::UnsupportedType),
        }
    }

    /// What the timer leads to: a round of gossip, a look at the store,
    /// or nothing, by the workload.
    pub open spec fn tick(self) -> Outcome<ServerView, EnvelopeView> {
        match self {
            ServerView::Broadcast(s) => match s.tick() {
                Ok((after, out)) => Ok(
                    (ServerView::Broadcast(after), lift_all::<BroadcastPayload>(out)),
                ),
                Err(e) => Err(e),
            },
            ServerView::Counter(s) => match s.tick() {
                Ok((after, out)) => Ok((ServerView::Counter(after), lift_all::<CounterPayload>(out))),
                Err(e) => Err(e),
            },
            _ => Ok((self, Seq::empty())),
        }
    }

    /// What the node sends of its own accord when it starts.
    pub open spec fn start(self) -> Outcome<ServerView, EnvelopeView> {
        match self {
            ServerView::Counter(s) => match s.start() {
                Ok((after, out)) => Ok((ServerView::Counter(after), lift_all::<CounterPayload>(out))),
                Err(e) => Err(e),
            },
            _ => Ok((self, Seq::empty())),
        }
    }

    /// What an event leads to while the clock reads `now`.
    pub open spec fn serve_at(self, event: EventView, now: Offset) -> Outcome<
        ServerView,
        EnvelopeView,
    > {
        match event {
            EventView::Inbound(msg) => self.handle_at(msg, now),
            EventView::Timer => self.tick(),
        }
    }
}

impl Server {
    /// Performs the handshake and starts `workload`: takes the identity
    /// that `init` assigns, and makes the acknowledgement.
    pub fn new(init: &Message<Body<Init>>, workload: Workload) -> (r: Result<
        (Server, Message<Body<InitOk>>),
        NodeError,
    >)
        ensures
            ({
                let start = SenderView {
                    node_id: init@.body.fields.node_id,
                    node_ids: init@.body.fields.node_ids,
                    next_id: id_seed(init@.body.fields.node_id),
                };
                match r {
                    Ok((server, ack)) => {
                        &&& start.next_id < u64::MAX
                        &&& ack@ == envelope(start, init@.src, init@.body.msg_id, InitOk {})
                        &&& ServerView::initial(advanced(start, 1), workload) == Some(server@)
                        &&& server@.wf()
                    },
                    Err(e) => if start.next_id == u64::MAX {
                        e == NodeError::IdsExhausted
                    } else {
                        e == NodeError::MissingSelf && ServerView::initial(
                            advanced(start, 1),
                            workload,
                        ) is None
                    },
                }
            }),
    {
        let (sender, ack) = match handshake(init) {
            Ok(pair) => pair,
            Err(e) => {
                return Err(e);
            },
        };
        let engine = match workload {
            Workload::Echo => Engine::Echo(sender),
            Workload::UniqueIds => Engine::UniqueIds(sender),
            Workload::Broadcast(overlay) => match BroadcastNode::new(sender, overlay) {
                Ok(node) => Engine::Broadcast(node),
                Err(e) => {
                    return Err(e);
                },
            },
            Workload::Counter => Engine::Counter(CounterNode::new(sender)),
            Workload::Log => Engine::Log(LogNode::new(sender)),
        };
        Ok((Server { engine }, ack))
    }

    /// Makes the envelopes that the node sends of its own accord after
    /// the handshake.
    pub fn start(&mut self) -> (r: Result<Vec<Envelope>, NodeError>)
        requires
            old(self)@.wf(),
        ensures
            final(self)@.wf(),
            meets(r, old(self)@, final(self)@, old(self)@.start()),
    {
        match &mut self.engine {
            Engine::Counter(node) => match node.start() {
                Ok(out) => Ok(wrap(out)),
                Err(e) => Err(e),
            },
            _ => {
                let out: Vec<Envelope> = Vec::new();
                assert(views(out@) =~= Seq::empty());
                Ok(out)
            },
        }
    }

    /// Handles an inbound envelope while the clock reads `now`.
    pub fn handle_at(&mut self, msg: Envelope, now: Offset) -> (r: Result<Vec<Envelope>, NodeError>)
        requires
            old(self)@.wf(),
        ensures
            final(self)@.wf(),
            meets(r, old(self)@, final(self)@, old(self)@.handle_at(msg@, now)),
    {
        let Message { src, dest, body } = msg;
        let Body { msg_id, in_reply_to, fields } = body;
        match (&mut self.engine, fields) {
            (Engine::Echo(sender), Payload::Echo(p)) => {
                let inner = Message { src, dest, body: Body { msg_id, in_reply_to, fields: p } };
                match echo(sender, &inner) {
                    Ok(out) => Ok(wrap(out)),
                    Err(e) => Err(e),
                }
            },
            (Engine::UniqueIds(sender), Payload::Id(p)) => {
                let inner = Message { src, dest, body: Body { msg_id, in_reply_to, fields: p } };
                match generate(sender, &inner) {
                    Ok(out) => Ok(wrap(out)),
                    Err(e) => Err(e),
                }
            },
            (Engine::Broadcast(node), Payload::Broadcast(p)) => {
                let inner = Message { src, dest, body: Body { msg_id, in_reply_to, fields: p } };
                match node.handle(&inner) {
                    Ok(out) => Ok(wrap(out)),
                    Err(e) => Err(e),
                }
            },
            (Engine::Counter(node), Payload::Counter(p)) => {
                let inner = Message { src, dest, body: Body { msg_id, in_reply_to, fields: p } };
                match node.handle(&inner) {
                    Ok(out) => Ok(wrap(out)),
                    Err(e) => Err(e),
                }
            },
            (Engine::Log(node), Payload::Log(p)) => {
                let inner = Message { src, dest, body: Body { msg_id, in_reply_to, fields: p } };
                match node.handle_at(&inner, now) {
                    Ok(out) => Ok(wrap(out)),
                    Err(e) => Err(e),
                }
            },
            _ => Err(NodeError::UnsupportedType),
        }
    }

    /// Handles the timer.
    pub fn tick(&mut self) -> (r: Result<Vec<Envelope>, NodeError>)
        requires
            old(self)@.wf(),
        ensures
            final(self)@.wf(),
            meets(r, old(self)@, final(self)@, old(self)@.tick()),
    {
        match &mut self.engine {
            Engine::Broadcast(node) => match node.tick() {
                Ok(out) => Ok(wrap(out)),
                Err(e) => Err(e),
            },
            Engine::Counter(node) => match node.tick() {
                Ok(out) => Ok(wrap(out)),
                Err(e) => Err(e),
            },
            _ => {
                let out: Vec<Envelope> = Vec::new();
                assert(views(out@) =~= Seq::empty());
                Ok(out)
            },
        }
    }

    /// Handles one event while the clock reads `now`.
    pub fn serve_at(&mut self, event: Event, now: Offset) -> (r: Result<Vec<Envelope>, NodeError>)
        requires
            old(self)@.wf(),
        ensures
            final(self)@.wf(),
            meets(r, old(self)@, final(self)@, old(self)@.serve_at(event@, now)),
    {
        match event {
            Event::Inbound(msg) => self.handle_at(msg, now),
            Event::Timer => self.tick(),
        }
    }

    /// Handles an inbound envelope: routes it to the workload of the node.
    /// The log workload reads the system clock for the offset of a `send`.
    pub fn handle(&mut self, msg: Envelope) -> (r: Result<Vec<Envelope>, NodeError>)
        requires
            old(self)@.wf(),
        ensures
            final(self)@.wf(),
            exists|now: Offset|
                meets(r, old(self)@, final(self)@, #[trigger] old(self)@.handle_at(msg@, now)),
    {
        let now: Offset = match &self.engine {
            Engine::Log(_) => clock_micros(),
            _ => 0,
        };
        self.handle_at(msg, now)
    }

    /// Handles one event: the decision of one turn of the node's loop.
    pub fn serve(&mut self, event: Event) -> (r: Result<Vec<Envelope>, NodeError>)
        requires
            old(self)@.wf(),
        ensures
            final(self)@.wf(),
            exists|now: Offset|
                meets(r, old(self)@, final(self)@, #[trigger] old(self)@.serve_at(event@, now)),
    {
        match event {
            Event::Inbound(msg) => {
                let r = self.handle(msg);
                proof {
                    let now = choose|now: Offset|
                        meets(r, old(self)@, self@, #[trigger] old(self)@.handle_at(msg@, now));
                    assert(old(self)@.serve_at(event@, now) == old(self)@.handle_at(msg@, now));
                }
                r
            },
            Event::Timer => {
                let r = self.tick();
                assert(old(self)@.serve_at(event@, 0) == old(self)@.tick());
                r
            },
        }
    }
}

/// Makes envelopes of one workload envelopes of any workload.
fn wrap<P: Family>(out: Vec<Message<Body<P>>>) -> (r: Vec<Envelope>)
    ensures
        views(r@) == lift_all::<P>(views(out@)),
{
    let ghost given = views(out@);
    let mut r: Vec<Envelope> = Vec::new();
    for m in iter: out
        invariant
            r@.len() == iter.index(),
            iter.seq().len() == given.len(),
            forall|j: int| 0 <= j < iter.seq().len() ==> (#[trigger] iter.seq()[j])@ == given[j],
            forall|j: int| 0 <= j < r@.len() ==> (#[trigger] r@[j])@ == lift::<P>(given[j]),
    {
        let Message { src, dest, body } = m;
        let Body { msg_id, in_reply_to, fields } = body;
        r.push(Message { src, dest, body: Body { msg_id, in_reply_to, fields: fields.widen() } });
    }
    assert(views(r@) =~= lift_all::<P>(given));
    r
}

} // verus!
