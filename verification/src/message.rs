//! Envelopes, bodies, and the handshake payloads.

use vstd::prelude::*;
use crate::error::NodeError;
use crate::text::names;

verus! {

/// The unit exchanged over the transport.
#[derive(Debug)]
pub struct Message<T> {
    pub src: String,
    pub dest: String,
    pub body: T,
}

/// What an envelope is, with strings as character sequences.
pub struct MessageView<B> {
    pub src: Seq<char>,
    pub dest: Seq<char>,
    pub body: B,
}

impl<T: View> View for Message<T> {
    type V = MessageView<T::V>;

    open spec fn view(&self) -> MessageView<T::V> {
        MessageView { src: self.src@, dest: self.dest@, body: self.body@ }
    }
}

/// Request id, reply correlation id, and payload of an envelope.
#[derive(Debug)]
pub struct Body<T> {
    /// Present on every envelope that this library sends.
    pub msg_id: Option<u64>,
    /// Present only on responses: the `msg_id` of the request answered.
    pub in_reply_to: Option<u64>,
    pub fields: T,
}

/// What a body is, with the payload as its view.
pub struct BodyView<P> {
    pub msg_id: Option<u64>,
    pub in_reply_to: Option<u64>,
    pub fields: P,
}

impl<T: View> View for Body<T> {
    type V = BodyView<T::V>;

    open spec fn view(&self) -> BodyView<T::V> {
        BodyView { msg_id: self.msg_id, in_reply_to: self.in_reply_to, fields: self.fields@ }
    }
}

/// The views of a list of envelopes.
pub open spec fn views<T: View>(msgs: Seq<Message<Body<T>>>) -> Seq<MessageView<BodyView<T::V>>> {
    msgs.map_values(|m: Message<Body<T>>| m@)
}

/// What a protocol step leads to: the state after it and the envelopes
/// that it emits, or the condition on which the node stops.
pub type Outcome<S, M> = Result<(S, Seq<M>), NodeError>;

/// Whether a step that went from `before` to `after` and returned `r`
/// did what `expected` says. A step that fails leaves the state as it was.
pub open spec fn meets<S, T: View>(
    r: Result<Vec<Message<Body<T>>>, NodeError>,
    before: S,
    after: S,
    expected: Outcome<S, MessageView<BodyView<T::V>>>,
) -> bool {
    match expected {
        Ok((state, out)) => r is Ok && views(r->Ok_0@) == out && after == state,
        Err(e) => r == Err::<Vec<Message<Body<T>>>, NodeError>(e) && after == before,
    }
}

/// Payload of the handshake request: the node's id and the ids of all nodes.
#[derive(Debug)]
pub struct Init {
    pub node_id: String,
    pub node_ids: Vec<String>,
}

/// What a handshake request holds.
pub struct InitView {
    pub node_id: Seq<char>,
    pub node_ids: Seq<Seq<char>>,
}

impl View for Init {
    type V = InitView;

    open spec fn view(&self) -> InitView {
        InitView { node_id: self.node_id@, node_ids: names(self.node_ids@) }
    }
}

/// Payload of the handshake acknowledgement.
#[derive(Clone, Copy, Debug, PartialEq, Eq, Structural)]
pub struct InitOk {}

impl View for InitOk {
    type V = InitOk;

    open spec fn view(&self) -> InitOk {
        *self
    }
}

impl InitOk {
    /// The acknowledgement of a handshake.
    pub fn new() -> (r: InitOk)
        ensures
            r == (InitOk {}),
    {
        InitOk {}
    }
}

} // verus!
