//! Ids that no two requests share.

use vstd::prelude::*;
use crate::error::NodeError;
use crate::message::{meets, views, Body, BodyView, Message, MessageView, Outcome};
use crate::sender::{advanced, envelope, Sender, SenderView};

verus! {

/// Payloads of the id protocol.
#[derive(Clone, Copy, Debug, PartialEq, Eq, Structural)]
pub enum IdPayload {
    Generate,
    GenerateOk { id: u64 },
}

impl View for IdPayload {
    type V = IdPayload;

    open spec fn view(&self) -> IdPayload {
        *self
    }
}

/// An envelope of the id protocol.
pub type IdMessage = Message<Body<IdPayload>>;

/// What an envelope of the id protocol holds.
pub type IdMessageView = MessageView<BodyView<IdPayload>>;

/// What an inbound envelope leads to: a `generate` is answered with a
/// fresh id, the request id of the answer itself, and nothing else has a
/// handler. The ids of one node increase with every answer, and the ids
/// of different nodes start from the hashes of their names.
pub open spec fn generated(sender: SenderView, msg: IdMessageView) -> Outcome<
    SenderView,
    IdMessageView,
> {
    match msg.body.fields {
        IdPayload::Generate => if sender.next_id + 1 > u64::MAX {
            Err(NodeError::IdsExhausted)
        } else {
            Ok(
                (
                    advanced(sender, 1),
                    seq![
                        envelope(
                            sender,
                            msg.src,
                            msg.body.msg_id,
                            IdPayload::GenerateOk { id: sender.next_id },
                        ),
                    ],
                ),
            )
        },
        IdPayload::GenerateOk { .. } => Err(NodeError::UnsupportedType),
    }
}

/// Handles an inbound envelope of the id protocol.
pub fn generate(sender: &mut Sender, request: &IdMessage) -> (r: Result<Vec<IdMessage>, NodeError>)
    ensures
        meets(r, old(sender)@, final(sender)@, generated(old(sender)@, request@)),
{
    match &request.body.fields {
        IdPayload::Generate => {
            let id: u64 = sender.next_id();
            match sender.respond(request, IdPayload::GenerateOk { id }) {
                Ok(reply) => {
                    let mut out: Vec<IdMessage> = Vec::new();
                    out.push(reply);
                    assert(views(out@) =~= seq![reply@]);
                    Ok(out)
                },
                Err(e) => Err(e),
            }
        },
        IdPayload::GenerateOk { .. } => Err(NodeError::UnsupportedType),
    }
}

/// Two answers of one node never carry the same id: the later id is the
/// larger one.
pub proof fn law_ids_increase(
    sender: SenderView,
    first: IdMessageView,
    later: SenderView,
    second: IdMessageView,
)
    requires
        generated(sender, first) is Ok,
        generated(later, second) is Ok,
        later.next_id >= generated(sender, first)->Ok_0.0.next_id,
    ensures
        generated(sender, first)->Ok_0.1[0].body.fields->id < generated(
            later,
            second,
        )->Ok_0.1[0].body.fields->id,
{
}

} // verus!
