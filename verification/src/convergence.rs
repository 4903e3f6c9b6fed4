//! One counter node together with the store and the other nodes: why a
//! client never reads more than was added, and when it reads all of it.

use vstd::prelude::*;
use crate::counter::{CounterPayloadView, CounterView, PRECONDITION_FAILED};
use crate::sender::envelope;

verus! {

/// A counter node in its surroundings. The store handles every request
/// once; its answers may be late and out of order. The writes of 0 with
/// which the nodes start reach the store before it holds anything else.
pub struct Shared {
    pub node: CounterView,
    /// The value that the store holds for the counter.
    pub store: nat,
    /// Sum of all increments that clients have added at any node.
    pub total: nat,
    /// Increments added at other nodes that the store does not hold yet.
    pub elsewhere: nat,
    /// What the store did with the node's compare-and-swap in flight, as
    /// long as the node has not seen the answer: `Some(true)` if it was
    /// applied, `Some(false)` if it was refused, `None` before.
    pub verdict: Option<bool>,
}

/// What can happen to a counter node and its surroundings.
#[allow(inconsistent_fields)]
pub enum Event {
    /// The node starts.
    Start,
    /// The store handles the write of 0 of a node that has started.
    Zero,
    /// A client adds `delta` at the node.
    Add { client: Seq<char>, msg_id: Option<u64>, delta: u64 },
    /// A client adds `delta` at another node.
    AddElsewhere { delta: nat },
    /// Another node merges `amount` of its increments into the store.
    MergeElsewhere { amount: nat },
    /// An answer to a read reaches the node. It holds a value that the
    /// store had at some time, so at most what it has now.
    Observe { value: u64 },
    /// The store handles the node's compare-and-swap.
    Decide,
    /// The store's confirmation reaches the node.
    Confirm,
    /// The store's refusal reaches the node.
    Refuse,
    /// A failed precondition reaches the node that answers no
    /// compare-and-swap in flight.
    Stray { in_reply_to: Option<u64> },
    /// The node's timer fires.
    Tick,
    /// A client reads at the node.
    Read { client: Seq<char>, msg_id: Option<u64> },
}

impl Shared {
    /// The local increments that the store does not hold.
    pub open spec fn unmerged(self) -> int {
        if self.verdict == Some(true) {
            self.node.delta - self.node.pending->Some_0.delta
        } else {
            self.node.delta as int
        }
    }

    /// What holds of a counter node and its surroundings at all times:
    /// every increment is held either by the store or by one node as
    /// unmerged, and the node has observed no more than the store holds.
    pub open spec fn inv(self) -> bool {
        &&& self.node.wf()
        &&& self.store + self.unmerged() + self.elsewhere == self.total
        &&& self.node.last_known_global <= self.store
        &&& self.verdict is Some ==> self.node.pending is Some
        &&& self.verdict == Some(true) ==> self.node.pending->Some_0.expected <= self.store
    }

    /// A node that starts beside an empty store.
    pub open spec fn initial(node: CounterView) -> Shared {
        Shared { node, store: 0, total: 0, elsewhere: 0, verdict: None }
    }

    /// The state after `event`, or `None` where `event` cannot happen or
    /// stops the node.
    pub open spec fn next(self, event: Event) -> Option<Shared> {
        match event {
            Event::Start => match self.node.start() {
                Ok((node, _)) => Some(Shared { node, ..self }),
                Err(_) => None,
            },
            Event::Zero => if self.store == 0 {
                Some(self)
            } else {
                None
            },
            Event::Add { client, msg_id, delta } => match self.node.add(client, msg_id, delta) {
                Ok((node, _)) => Some(Shared { node, total: self.total + delta as nat, ..self }),
                Err(_) => None,
            },
            Event::AddElsewhere { delta } => Some(
                Shared {
                    elsewhere: self.elsewhere + delta,
                    total: self.total + delta,
                    ..self
                },
            ),
            Event::MergeElsewhere { amount } => if amount <= self.elsewhere {
                Some(
                    Shared {
                        store: self.store + amount,
                        elsewhere: (self.elsewhere - amount) as nat,
                        ..self
                    },
                )
            } else {
                None
            },
            Event::Observe { value } => if value <= self.store {
                match self.node.observe(value) {
                    Ok((node, _)) => Some(Shared { node, ..self }),
                    Err(_) => None,
                }
            } else {
                None
            },
            Event::Decide => match (self.node.pending, self.verdict) {
                (Some(p), None) => if self.store == p.expected - p.delta {
                    Some(Shared { store: p.expected as nat, verdict: Some(true), ..self })
                } else {
                    Some(Shared { verdict: Some(false), ..self })
                },
                _ => None,
            },
            Event::Confirm => match (self.node.pending, self.verdict) {
                (Some(p), Some(true)) => match self.node.confirm(Some(p.id)) {
                    Ok((node, _)) => Some(Shared { node, verdict: None, ..self }),
                    Err(_) => None,
                },
                _ => None,
            },
            Event::Refuse => match (self.node.pending, self.verdict) {
                (Some(p), Some(false)) => match self.node.reject(Some(p.id), PRECONDITION_FAILED) {
                    Ok((node, _)) => Some(Shared { node, verdict: None, ..self }),
                    Err(_) => None,
                },
                _ => None,
            },
            Event::Stray { in_reply_to } => if self.node.answers_pending(in_reply_to) {
                None
            } else {
                match self.node.reject(in_reply_to, PRECONDITION_FAILED) {
                    Ok((node, _)) => Some(Shared { node, ..self }),
                    Err(_) => None,
                }
            },
            Event::Tick => match self.node.tick() {
                Ok((node, _)) => Some(Shared { node, ..self }),
                Err(_) => None,
            },
            Event::Read { client, msg_id } => match self.node.read(client, msg_id) {
                Ok((node, _)) => Some(Shared { node, ..self }),
                Err(_) => None,
            },
        }
    }
}

/// A node that has added nothing stands well beside an empty store.
pub proof fn law_initial(node: CounterView)
    requires
        node.delta == 0,
        node.last_known_global == 0,
        node.pending is None,
    ensures
        Shared::initial(node).inv(),
{
}

/// Whatever happens, every increment stays accounted for.
pub proof fn law_step_keeps_account(w: Shared, event: Event)
    requires
        w.inv(),
        w.next(event) is Some,
    ensures
        w.next(event)->Some_0.inv(),
{
}

/// A client never reads more than has been added: the counter may lag
/// behind the sum of all increments, and never runs ahead of it.
pub proof fn law_never_overcounts(w: Shared, client: Seq<char>, msg_id: Option<u64>)
    requires
        w.inv(),
        w.node.read(client, msg_id) is Ok,
    ensures
        w.node.last_known_global <= w.total,
        w.node.read(client, msg_id)->Ok_0.1 == seq![
            envelope(
                w.node.sender,
                client,
                msg_id,
                CounterPayloadView::ReadOk { value: w.node.last_known_global },
            ),
        ],
{
}

/// A compare-and-swap in flight ends with the store's answer: once the
/// store has handled it and the answer has reached the node, nothing is
/// in flight.
pub proof fn law_flight_ends(w: Shared)
    requires
        w.inv(),
        w.node.pending is Some,
        w.node.sender.next_id < u64::MAX,
    ensures
        ({
            let decided = if w.verdict is None {
                w.next(Event::Decide)
            } else {
                Some(w)
            };
            let answered = if decided->Some_0.verdict == Some(true) {
                decided->Some_0.next(Event::Confirm)
            } else {
                decided->Some_0.next(Event::Refuse)
            };
            &&& decided is Some
            &&& answered is Some
            &&& answered->Some_0.inv()
            &&& answered->Some_0.node.pending is None
            &&& answered->Some_0.verdict is None
            &&& answered->Some_0.total == w.total
            &&& answered->Some_0.elsewhere == w.elsewhere
        }),
{
}

/// One undisturbed round with the store merges all local increments:
/// the node observes the store's value, moves the store by its own
/// increments with a compare-and-swap, and sees the confirmation. After
/// it the node holds nothing unmerged and has observed what the store
/// holds. Once the increments of all other nodes are in the store as
/// well, that is the sum of everything that was added, and it is what a
/// client reads from then on.
pub proof fn law_converges(w: Shared)
    requires
        w.inv(),
        w.node.pending is None,
        w.store + w.node.delta <= u64::MAX,
        w.node.sender.next_id < u64::MAX,
    ensures
        ({
            let observed = w.next(Event::Observe { value: w.store as u64 });
            let merged = if w.node.delta == 0 {
                observed
            } else {
                match observed->Some_0.next(Event::Decide) {
                    Some(decided) => decided.next(Event::Confirm),
                    None => None,
                }
            };
            &&& observed is Some
            &&& merged is Some
            &&& merged->Some_0.inv()
            &&& merged->Some_0.total == w.total
            &&& merged->Some_0.elsewhere == w.elsewhere
            &&& merged->Some_0.store == w.store + w.node.delta
            &&& merged->Some_0.node.delta == 0
            &&& merged->Some_0.node.pending is None
            &&& merged->Some_0.node.last_known_global == merged->Some_0.store
            &&& w.elsewhere == 0 ==> merged->Some_0.node.last_known_global == w.total
        }),
{
}

} // verus!
