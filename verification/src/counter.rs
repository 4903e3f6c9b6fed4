//! A counter that converges on the sum of all increments, kept in an
//! outside store that every node updates by compare-and-swap.

use vstd::prelude::*;
use crate::error::NodeError;
use crate::message::{meets, views, Body, BodyView, Message, MessageView, Outcome};
use crate::sender::{advanced, envelope, Sender, SenderView};

verus! {

/// The node id of the store.
pub const STORE_ID: &'static str = "seq-kv";

/// The key under which the store holds the counter.
pub const GLOBAL_KEY: &'static str = "global";

/// The store's error code for a compare-and-swap whose expected value
/// was not the stored one. It is the one code that is retried.
pub const PRECONDITION_FAILED: u64 = 22;

/// Payloads of the counter protocol and of the store's protocol.
#[allow(inconsistent_fields)]
#[derive(Debug)]
pub enum CounterPayload {
    Add { delta: u64 },
    AddOk,
    Read { key: Option<String> },
    ReadOk { value: u64 },
    Write { key: String, value: u64 },
    WriteOk,
    Cas { key: String, from: u64, to: u64, create_if_not_exists: bool },
    CasOk,
    Error { code: u64, text: String },
}

/// What a counter payload holds.
#[allow(inconsistent_fields)]
pub enum CounterPayloadView {
    Add { delta: u64 },
    AddOk,
    Read { key: Option<Seq<char>> },
    ReadOk { value: u64 },
    Write { key: Seq<char>, value: u64 },
    WriteOk,
    Cas { key: Seq<char>, from: u64, to: u64, create_if_not_exists: bool },
    CasOk,
    Error { code: u64, text: Seq<char> },
}

impl View for CounterPayload {
    type V = CounterPayloadView;

    open spec fn view(&self) -> CounterPayloadView {
        match *self {
            CounterPayload::Add { delta } => CounterPayloadView::Add { delta },
            CounterPayload::AddOk => CounterPayloadView::AddOk,
            CounterPayload::Read { key } => CounterPayloadView::Read {
                key: match key {
                    Some(k) => Some(k@),
                    None => None,
                },
            },
            CounterPayload::ReadOk { value } => CounterPayloadView::ReadOk { value },
            CounterPayload::Write { key, value } => CounterPayloadView::Write { key: key@, value },
            CounterPayload::WriteOk => CounterPayloadView::WriteOk,
            CounterPayload::Cas { key, from, to, create_if_not_exists } => CounterPayloadView::Cas {
                key: key@,
                from,
                to,
                create_if_not_exists,
            },
            CounterPayload::CasOk => CounterPayloadView::CasOk,
            CounterPayload::Error { code, text } => CounterPayloadView::Error { code, text: text@ },
        }
    }
}

/// An envelope of the counter protocol.
pub type CounterMessage = Message<Body<CounterPayload>>;

/// What an envelope of the counter protocol holds.
pub type CounterMessageView = MessageView<BodyView<CounterPayloadView>>;

/// The one compare-and-swap that a node has in flight.
#[derive(Clone, Copy, Debug, PartialEq, Eq, Structural)]
pub struct Pending {
    /// Request id of the compare-and-swap.
    pub id: u64,
    /// The local increments that it merges.
    pub delta: u64,
    /// The value that the store holds if it succeeds.
    pub expected: u64,
}

/// The counter state of one node.
pub struct CounterNode {
    sender: Sender,
    delta: u64,
    last_known_global: u64,
    pending: Option<Pending>,
}

/// What the counter state of a node is.
pub struct CounterView {
    pub sender: SenderView,
    /// Sum of the local increments that the store does not hold yet,
    /// as far as this node knows.
    pub delta: u64,
    /// The value of the shared counter that was observed last.
    pub last_known_global: u64,
    pub pending: Option<Pending>,
}

impl View for CounterNode {
    type V = CounterView;

    closed spec fn view(&self) -> CounterView {
        CounterView {
            sender: self.sender@,
            delta: self.delta,
            last_known_global: self.last_known_global,
            pending: self.pending,
        }
    }
}

/// The request for the store's value of the counter.
pub open spec fn read_global(sender: SenderView) -> CounterMessageView {
    envelope(sender, STORE_ID@, None, CounterPayloadView::Read { key: Some(GLOBAL_KEY@) })
}

/// The request that moves the store's counter from `from` to `to`.
pub open spec fn cas_global(sender: SenderView, from: u64, to: u64) -> CounterMessageView {
    envelope(
        sender,
        STORE_ID@,
        None,
        CounterPayloadView::Cas { key: GLOBAL_KEY@, from, to, create_if_not_exists: true },
    )
}

/// The request that makes the store hold 0 for the counter.
pub open spec fn write_zero(sender: SenderView) -> CounterMessageView {
    envelope(sender, STORE_ID@, None, CounterPayloadView::Write { key: GLOBAL_KEY@, value: 0 })
}

impl CounterView {
    /// A compare-and-swap in flight merges some, and no more than all, of
    /// the local increments.
    pub open spec fn wf(self) -> bool {
        self.pending matches Some(p) ==> 0 < p.delta <= self.delta && p.delta <= p.expected
    }

    /// The node starts: it makes the store hold 0 for the counter, so
    /// that there is a value to read. Every node does so, and the harness
    /// starts all nodes before it sends the first request.
    pub open spec fn start(self) -> Outcome<CounterView, CounterMessageView> {
        if self.sender.next_id + 1 > u64::MAX {
            Err(NodeError::IdsExhausted)
        } else {
            Ok(
                (
                    CounterView { sender: advanced(self.sender, 1), ..self },
                    seq![write_zero(self.sender)],
                ),
            )
        }
    }

    /// A client adds `delta`: the increment is taken locally, the store
    /// is asked for its value, and the client gets its acknowledgement.
    pub open spec fn add(self, client: Seq<char>, msg_id: Option<u64>, delta: u64) -> Outcome<
        CounterView,
        CounterMessageView,
    > {
        if self.sender.next_id + 2 > u64::MAX {
            Err(NodeError::IdsExhausted)
        } else if self.delta + delta > u64::MAX {
            Err(NodeError::Overflow)
        } else {
            Ok(
                (
                    CounterView {
                        sender: advanced(self.sender, 2),
                        delta: (self.delta + delta) as u64,
                        ..self
                    },
                    seq![
                        read_global(self.sender),
                        envelope(
                            advanced(self.sender, 1),
                            client,
                            msg_id,
                            CounterPayloadView::AddOk,
                        ),
                    ],
                ),
            )
        }
    }

    /// A client reads: it gets the value that was observed last.
    pub open spec fn read(self, client: Seq<char>, msg_id: Option<u64>) -> Outcome<
        CounterView,
        CounterMessageView,
    > {
        if self.sender.next_id + 1 > u64::MAX {
            Err(NodeError::IdsExhausted)
        } else {
            Ok(
                (
                    CounterView { sender: advanced(self.sender, 1), ..self },
                    seq![
                        envelope(
                            self.sender,
                            client,
                            msg_id,
                            CounterPayloadView::ReadOk { value: self.last_known_global },
                        ),
                    ],
                ),
            )
        }
    }

    /// Whether observing a value of the store starts a compare-and-swap.
    pub open spec fn reconciles(self) -> bool {
        self.delta > 0 && self.pending is None
    }

    /// The store reports `value`: it becomes the value observed last, and
    /// if there are local increments and nothing is in flight, a
    /// compare-and-swap from `value` to `value` plus the increments starts.
    pub open spec fn observe(self, value: u64) -> Outcome<CounterView, CounterMessageView> {
        if !self.reconciles() {
            Ok((CounterView { last_known_global: value, ..self }, Seq::empty()))
        } else if self.sender.next_id + 1 > u64::MAX {
            Err(NodeError::IdsExhausted)
        } else if value + self.delta > u64::MAX {
            Err(NodeError::Overflow)
        } else {
            let expected = (value + self.delta) as u64;
            Ok(
                (
                    CounterView {
                        sender: advanced(self.sender, 1),
                        last_known_global: value,
                        pending: Some(
                            Pending { id: self.sender.next_id, delta: self.delta, expected },
                        ),
                        ..self
                    },
                    seq![cas_global(self.sender, value, expected)],
                ),
            )
        }
    }

    /// Whether a reply with correlation id `in_reply_to` answers the
    /// compare-and-swap in flight.
    pub open spec fn answers_pending(self, in_reply_to: Option<u64>) -> bool {
        self.pending matches Some(p) && in_reply_to == Some(p.id)
    }

    /// The store confirms a compare-and-swap: the increments that it
    /// merged leave the local sum, and the store's new value is known.
    pub open spec fn confirm(self, in_reply_to: Option<u64>) -> Outcome<
        CounterView,
        CounterMessageView,
    > {
        if self.answers_pending(in_reply_to) {
            let p = self.pending->Some_0;
            Ok(
                (
                    CounterView {
                        delta: (self.delta - p.delta) as u64,
                        last_known_global: p.expected,
                        pending: None,
                        ..self
                    },
                    Seq::empty(),
                ),
            )
        } else {
            Err(NodeError::UnmatchedReply)
        }
    }

    /// The store reports an error. A failed precondition ends the
    /// compare-and-swap that it answers, and the store is asked for its
    /// value again. Every other code stops the node.
    pub open spec fn reject(self, in_reply_to: Option<u64>, code: u64) -> Outcome<
        CounterView,
        CounterMessageView,
    > {
        if code != PRECONDITION_FAILED {
            Err(NodeError::FatalStore { code })
        } else if self.sender.next_id + 1 > u64::MAX {
            Err(NodeError::IdsExhausted)
        } else {
            Ok(
                (
                    CounterView {
                        sender: advanced(self.sender, 1),
                        pending: if self.answers_pending(in_reply_to) {
                            None
                        } else {
                            self.pending
                        },
                        ..self
                    },
                    seq![read_global(self.sender)],
                ),
            )
        }
    }

    /// The timer fires: the store is asked for its value.
    pub open spec fn tick(self) -> Outcome<CounterView, CounterMessageView> {
        if self.sender.next_id + 1 > u64::MAX {
            Err(NodeError::IdsExhausted)
        } else {
            Ok(
                (
                    CounterView { sender: advanced(self.sender, 1), ..self },
                    seq![read_global(self.sender)],
                ),
            )
        }
    }

    /// What an inbound envelope leads to.
    pub open spec fn handle(self, msg: CounterMessageView) -> Outcome<
        CounterView,
        CounterMessageView,
    > {
        match msg.body.fields {
            CounterPayloadView::Add { delta } => self.add(msg.src, msg.body.msg_id, delta),
            CounterPayloadView::Read { key: None } => self.read(msg.src, msg.body.msg_id),
            CounterPayloadView::ReadOk { value } => self.observe(value),
            CounterPayloadView::WriteOk => Ok((self, Seq::empty())),
            CounterPayloadView::CasOk => self.confirm(msg.body.in_reply_to),
            CounterPayloadView::Error { code, text } => self.reject(msg.body.in_reply_to, code),
            _ => Err(NodeError::UnsupportedType),
        }
    }
}

impl CounterNode {
    /// A counter that has seen no increment and no value of the store.
    pub fn new(sender: Sender) -> (r: CounterNode)
        ensures
            r@ == (CounterView {
                sender: sender@,
                delta: 0,
                last_known_global: 0,
                pending: None,
            }),
            r@.wf(),
    {
        CounterNode { sender, delta: 0, last_known_global: 0, pending: None }
    }

    /// The value of the shared counter that was observed last.
    pub fn last_known_global(&self) -> (r: u64)
        ensures
            r == self@.last_known_global,
    {
        self.last_known_global
    }

    /// Sum of the local increments that are not known to be merged.
    pub fn delta(&self) -> (r: u64)
        ensures
            r == self@.delta,
    {
        self.delta
    }

    /// The compare-and-swap in flight, if there is one.
    pub fn pending(&self) -> (r: Option<Pending>)
        ensures
            r == self@.pending,
    {
        self.pending
    }

    fn ask_store(&mut self) -> (r: Result<CounterMessage, NodeError>)
        ensures
            match r {
                Ok(m) => old(self)@.sender.next_id < u64::MAX && m@ == read_global(
                    old(self)@.sender,
                ) && final(self)@ == (CounterView {
                    sender: advanced(old(self)@.sender, 1),
                    ..old(self)@
                }),
                Err(e) => old(self)@.sender.next_id == u64::MAX && e == NodeError::IdsExhausted
                    && final(self)@ == old(self)@,
            },
    {
        self.sender.message(
            STORE_ID,
            CounterPayload::Read { key: Some(GLOBAL_KEY.to_owned()) },
        )
    }

    /// Makes the request with which the node starts.
    pub fn start(&mut self) -> (r: Result<Vec<CounterMessage>, NodeError>)
        requires
            old(self)@.wf(),
        ensures
            final(self)@.wf(),
            meets(r, old(self)@, final(self)@, old(self)@.start()),
    {
        let write = match self.sender.message(
            STORE_ID,
            CounterPayload::Write { key: GLOBAL_KEY.to_owned(), value: 0 },
        ) {
            Ok(m) => m,
            Err(e) => {
                return Err(e);
            },
        };
        let mut out: Vec<CounterMessage> = Vec::new();
        out.push(write);
        assert(views(out@) =~= seq![write@]);
        Ok(out)
    }

    /// Handles a client's `add`.
    pub fn add(&mut self, request: &CounterMessage, delta: u64) -> (r: Result<
        Vec<CounterMessage>,
        NodeError,
    >)
        requires
            old(self)@.wf(),
        ensures
            final(self)@.wf(),
            meets(
                r,
                old(self)@,
                final(self)@,
                old(self)@.add(request@.src, request@.body.msg_id, delta),
            ),
    {
        if self.sender.ids_left() < 2 {
            return Err(NodeError::IdsExhausted);
        }
        let sum = match self.delta.checked_add(delta) {
            Some(sum) => sum,
            None => {
                return Err(NodeError::Overflow);
            },
        };
        let ask = match self.ask_store() {
            Ok(m) => m,
            Err(e) => {
                return Err(e);
            },
        };
        let ack = match self.sender.respond(request, CounterPayload::AddOk) {
            Ok(m) => m,
            Err(e) => {
                return Err(e);
            },
        };
        self.delta = sum;
        let mut out: Vec<CounterMessage> = Vec::new();
        out.push(ask);
        out.push(ack);
        assert(views(out@) =~= old(self)@.add(request@.src, request@.body.msg_id, delta)->Ok_0.1);
        Ok(out)
    }

    /// Handles a client's `read`.
    pub fn read(&mut self, request: &CounterMessage) -> (r: Result<Vec<CounterMessage>, NodeError>)
        requires
            old(self)@.wf(),
        ensures
            final(self)@.wf(),
            meets(r, old(self)@, final(self)@, old(self)@.read(request@.src, request@.body.msg_id)),
    {
        let value = self.last_known_global;
        let reply = match self.sender.respond(request, CounterPayload::ReadOk { value }) {
            Ok(m) => m,
            Err(e) => {
                return Err(e);
            },
        };
        let mut out: Vec<CounterMessage> = Vec::new();
        out.push(reply);
        assert(views(out@) =~= old(self)@.read(request@.src, request@.body.msg_id)->Ok_0.1);
        Ok(out)
    }

    /// Handles a value that the store reports.
    pub fn observe(&mut self, value: u64) -> (r: Result<Vec<CounterMessage>, NodeError>)
        requires
            old(self)@.wf(),
        ensures
            final(self)@.wf(),
            meets(r, old(self)@, final(self)@, old(self)@.observe(value)),
    {
        let mut out: Vec<CounterMessage> = Vec::new();
        if self.delta == 0 || self.pending.is_some() {
            self.last_known_global = value;
            assert(views(out@) =~= Seq::empty());
            return Ok(out);
        }
        if self.sender.ids_left() < 1 {
            return Err(NodeError::IdsExhausted);
        }
        let expected = match value.checked_add(self.delta) {
            Some(sum) => sum,
            None => {
                return Err(NodeError::Overflow);
            },
        };
        let id = self.sender.next_id();
        let cas = match self.sender.message(
            STORE_ID,
            CounterPayload::Cas {
                key: GLOBAL_KEY.to_owned(),
                from: value,
                to: expected,
                create_if_not_exists: true,
            },
        ) {
            Ok(m) => m,
            Err(e) => {
                return Err(e);
            },
        };
        self.last_known_global = value;
        self.pending = Some(Pending { id, delta: self.delta, expected });
        out.push(cas);
        assert(views(out@) =~= old(self)@.observe(value)->Ok_0.1);
        Ok(out)
    }

    /// Handles the store's confirmation of a compare-and-swap.
    pub fn confirm(&mut self, in_reply_to: Option<u64>) -> (r: Result<
        Vec<CounterMessage>,
        NodeError,
    >)
        requires
            old(self)@.wf(),
        ensures
            final(self)@.wf(),
            meets(r, old(self)@, final(self)@, old(self)@.confirm(in_reply_to)),
    {
        match (self.pending, in_reply_to) {
            (Some(p), Some(id)) => {
                if p.id == id {
                    self.delta = self.delta - p.delta;
                    self.last_known_global = p.expected;
                    self.pending = None;
                    let out: Vec<CounterMessage> = Vec::new();
                    assert(views(out@) =~= Seq::empty());
                    Ok(out)
                } else {
                    Err(NodeError::UnmatchedReply)
                }
            },
            _ => Err(NodeError::UnmatchedReply),
        }
    }

    /// Handles an error that the store reports.
    pub fn reject(&mut self, in_reply_to: Option<u64>, code: u64) -> (r: Result<
        Vec<CounterMessage>,
        NodeError,
    >)
        requires
            old(self)@.wf(),
        ensures
            final(self)@.wf(),
            meets(r, old(self)@, final(self)@, old(self)@.reject(in_reply_to, code)),
    {
        if code != PRECONDITION_FAILED {
            return Err(NodeError::FatalStore { code });
        }
        let ask = match self.ask_store() {
            Ok(m) => m,
            Err(e) => {
                return Err(e);
            },
        };
        match (self.pending, in_reply_to) {
            (Some(p), Some(id)) => {
                if p.id == id {
                    self.pending = None;
                }
            },
            _ => {},
        }
        let mut out: Vec<CounterMessage> = Vec::new();
        out.push(ask);
        assert(views(out@) =~= old(self)@.reject(in_reply_to, code)->Ok_0.1);
        Ok(out)
    }

    /// Handles the timer: asks the store for its value, so that the
    /// increments of other nodes are seen without a local `add`.
    pub fn tick(&mut self) -> (r: Result<Vec<CounterMessage>, NodeError>)
        requires
            old(self)@.wf(),
        ensures
            final(self)@.wf(),
            meets(r, old(self)@, final(self)@, old(self)@.tick()),
    {
        let ask = match self.ask_store() {
            Ok(m) => m,
            Err(e) => {
                return Err(e);
            },
        };
        let mut out: Vec<CounterMessage> = Vec::new();
        out.push(ask);
        assert(views(out@) =~= old(self)@.tick()->Ok_0.1);
        Ok(out)
    }

    /// Routes an inbound envelope to the step that handles its payload.
    pub fn handle(&mut self, msg: &CounterMessage) -> (r: Result<Vec<CounterMessage>, NodeError>)
        requires
            old(self)@.wf(),
        ensures
            final(self)@.wf(),
            meets(r, old(self)@, final(self)@, old(self)@.handle(msg@)),
    {
        match &msg.body.fields {
            CounterPayload::Add { delta } => self.add(msg, *delta),
            CounterPayload::Read { key: None } => self.read(msg),
            CounterPayload::ReadOk { value } => self.observe(*value),
            CounterPayload::WriteOk => {
                let out: Vec<CounterMessage> = Vec::new();
                assert(views(out@) =~= Seq::empty());
                Ok(out)
            },
            CounterPayload::CasOk => self.confirm(msg.body.in_reply_to),
            CounterPayload::Error { code, text } => self.reject(msg.body.in_reply_to, *code),
            _ => Err(NodeError::UnsupportedType),
        }
    }
}

} // verus!
