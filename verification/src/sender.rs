//! Node identity and request/response correlation.

use vstd::prelude::*;
use vstd::std_specs::hash::DefaultHasherAdditionalSpecFns;
use vstd::string::StringSliceAdditionalSpecFns;
use std::collections::hash_map::DefaultHasher;
use std::hash::Hasher;
use crate::error::NodeError;
use crate::message::{Body, BodyView, Init, InitOk, Message, MessageView};
use crate::text::{clone_names, names};

verus! {

/// The identity of a node and the counter from which it takes request ids.
pub struct Sender {
    node_id: String,
    node_ids: Vec<String>,
    counter: u64,
}

/// What a `Sender` is: its id, the ids of all nodes, and the next request id.
pub struct SenderView {
    pub node_id: Seq<char>,
    pub node_ids: Seq<Seq<char>>,
    pub next_id: u64,
}

impl View for Sender {
    type V = SenderView;

    closed spec fn view(&self) -> SenderView {
        SenderView {
            node_id: self.node_id@,
            node_ids: names(self.node_ids@),
            next_id: self.counter,
        }
    }
}

/// The first request id of the node called `node_id`: the hash of its id
/// as a string, which is the hash of its bytes and a closing byte. Two
/// nodes rarely start from the same number.
pub open spec fn id_seed(node_id: Seq<char>) -> u64 {
    DefaultHasher::spec_finish(seq![vstd::utf8::encode_utf8(node_id), seq![0xffu8]])
}

/// The envelope that `sender` makes for `fields`, to `dest`, in answer to
/// the request `in_reply_to` if there is one.
pub open spec fn envelope<P>(
    sender: SenderView,
    dest: Seq<char>,
    in_reply_to: Option<u64>,
    fields: P,
) -> MessageView<BodyView<P>> {
    MessageView {
        src: sender.node_id,
        dest,
        body: BodyView { msg_id: Some(sender.next_id), in_reply_to, fields },
    }
}

/// `sender` after it has given out `n` request ids.
pub open spec fn advanced(sender: SenderView, n: int) -> SenderView {
    SenderView { next_id: (sender.next_id + n) as u64, ..sender }
}

impl Sender {
    /// Whether `n` more request ids can be given out.
    pub open spec fn can_send(&self, n: int) -> bool {
        self@.next_id + n <= u64::MAX
    }

    /// The node's own id.
    pub fn node_id(&self) -> (r: &String)
        ensures
            r@ == self@.node_id,
    {
        &self.node_id
    }

    /// The ids of all nodes, in the order of the handshake.
    pub fn node_ids(&self) -> (r: &Vec<String>)
        ensures
            names(r@) == self@.node_ids,
    {
        &self.node_ids
    }

    /// A sender without identity, as it is before the handshake.
    pub fn new() -> (r: Sender)
        ensures
            r@ == (SenderView { node_id: Seq::empty(), node_ids: Seq::empty(), next_id: 0 }),
    {
        let r = Sender { node_id: String::new(), node_ids: Vec::new(), counter: 0 };
        assert(names(r.node_ids@) =~= Seq::<Seq<char>>::empty());
        r
    }

    /// A sender with the given identity whose next request id is `next_id`.
    pub fn starting_at(node_id: String, node_ids: Vec<String>, next_id: u64) -> (r: Sender)
        ensures
            r@ == (SenderView { node_id: node_id@, node_ids: names(node_ids@), next_id }),
    {
        Sender { node_id, node_ids, counter: next_id }
    }

    /// Takes the identity that the handshake request assigns.
    pub fn init(&mut self, init: &Message<Body<Init>>)
        ensures
            final(self)@ == (SenderView {
                node_id: init@.body.fields.node_id,
                node_ids: init@.body.fields.node_ids,
                next_id: id_seed(init@.body.fields.node_id),
            }),
    {
        self.node_id = init.body.fields.node_id.clone();
        self.node_ids = clone_names(&init.body.fields.node_ids);
        let mut hasher = DefaultHasher::new();
        hasher.write(self.node_id.as_str().as_bytes());
        let closing: [u8; 1] = [0xff];
        hasher.write(closing.as_slice());
        proof {
            assert(closing@ =~= seq![0xffu8]);
            assert(hasher@ =~= seq![vstd::utf8::encode_utf8(self.node_id@), seq![0xffu8]]);
        }
        self.counter = hasher.finish();
    }

    /// The request id that the next envelope gets.
    pub fn next_id(&self) -> (r: u64)
        ensures
            r == self@.next_id,
    {
        self.counter
    }

    /// How many request ids are left.
    pub fn ids_left(&self) -> (n: u64)
        ensures
            n == u64::MAX - self@.next_id,
    {
        u64::MAX - self.counter
    }

    /// Wraps `fields` in an envelope to `to` under a fresh request id.
    pub fn message<T: View>(&mut self, to: &str, fields: T) -> (r: Result<
        Message<Body<T>>,
        NodeError,
    >)
        ensures
            match r {
                Ok(m) => old(self).can_send(1) && m@ == envelope(old(self)@, to@, None, fields@)
                    && final(self)@ == advanced(old(self)@, 1),
                Err(e) => !old(self).can_send(1) && e == NodeError::IdsExhausted && final(self)@
                    == old(self)@,
            },
    {
        self.envelope_to(to, None, fields)
    }

    /// Wraps `fields` in an envelope that answers `to`: it goes to the
    /// sender of `to` and carries the request id of `to`, if it has one,
    /// as its correlation id.
    pub fn respond<T, U: View>(&mut self, to: &Message<Body<T>>, fields: U) -> (r: Result<
        Message<Body<U>>,
        NodeError,
    >)
        ensures
            match r {
                Ok(m) => old(self).can_send(1) && m@ == envelope(
                    old(self)@,
                    to.src@,
                    to.body.msg_id,
                    fields@,
                ) && final(self)@ == advanced(old(self)@, 1),
                Err(e) => !old(self).can_send(1) && e == NodeError::IdsExhausted && final(self)@
                    == old(self)@,
            },
    {
        self.envelope_to(to.src.as_str(), to.body.msg_id, fields)
    }

    fn envelope_to<T: View>(&mut self, to: &str, in_reply_to: Option<u64>, fields: T) -> (r: Result<
        Message<Body<T>>,
        NodeError,
    >)
        ensures
            match r {
                Ok(m) => old(self).can_send(1) && m@ == envelope(
                    old(self)@,
                    to@,
                    in_reply_to,
                    fields@,
                ) && final(self)@ == advanced(old(self)@, 1),
                Err(e) => !old(self).can_send(1) && e == NodeError::IdsExhausted && final(self)@
                    == old(self)@,
            },
    {
        if self.counter == u64::MAX {
            return Err(NodeError::IdsExhausted);
        }
        let msg_id: u64 = self.counter;
        self.counter = self.counter + 1;
        Ok(
            Message {
                src: self.node_id.clone(),
                dest: to.to_owned(),
                body: Body { msg_id: Some(msg_id), in_reply_to, fields },
            },
        )
    }
}

/// Performs the handshake: takes the identity that `init` assigns and
/// makes the acknowledgement.
pub fn handshake(init: &Message<Body<Init>>) -> (r: Result<
    (Sender, Message<Body<InitOk>>),
    NodeError,
>)
    ensures
        match r {
            Ok((sender, ack)) => {
                let start = SenderView {
                    node_id: init@.body.fields.node_id,
                    node_ids: init@.body.fields.node_ids,
                    next_id: id_seed(init@.body.fields.node_id),
                };
                &&& id_seed(init@.body.fields.node_id) < u64::MAX
                &&& ack@ == envelope(start, init@.src, init@.body.msg_id, InitOk {})
                &&& sender@ == advanced(start, 1)
            },
            Err(e) => e == NodeError::IdsExhausted && id_seed(init@.body.fields.node_id)
                == u64::MAX,
        },
{
    let mut sender = Sender::new();
    sender.init(init);
    match sender.respond(init, InitOk::new()) {
        Ok(ack) => Ok((sender, ack)),
        Err(e) => Err(e),
    }
}

} // verus!
