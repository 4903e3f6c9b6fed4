//! Echo: every request comes back to its sender.

use vstd::prelude::*;
use crate::error::NodeError;
use crate::message::{meets, views, Body, BodyView, Message, MessageView, Outcome};
use crate::sender::{advanced, envelope, Sender, SenderView};

verus! {

/// Payloads of the echo protocol.
#[derive(Debug)]
pub enum EchoPayload {
    Echo { echo: Option<String> },
    EchoOk { echo: Option<String> },
}

/// What an echo payload holds.
pub enum EchoPayloadView {
    Echo { echo: Option<Seq<char>> },
    EchoOk { echo: Option<Seq<char>> },
}

/// The text of an optional string.
pub open spec fn text_of(s: Option<String>) -> Option<Seq<char>> {
    match s {
        Some(t) => Some(t@),
        None => None,
    }
}

impl View for EchoPayload {
    type V = EchoPayloadView;

    open spec fn view(&self) -> EchoPayloadView {
        match *self {
            EchoPayload::Echo { echo } => EchoPayloadView::Echo { echo: text_of(echo) },
            EchoPayload::EchoOk { echo } => EchoPayloadView::EchoOk { echo: text_of(echo) },
        }
    }
}

/// An envelope of the echo protocol.
pub type EchoMessage = Message<Body<EchoPayload>>;

/// What an envelope of the echo protocol holds.
pub type EchoMessageView = MessageView<BodyView<EchoPayloadView>>;

/// What an inbound envelope leads to: an `echo` is answered with its own
/// text, and nothing else has a handler.
pub open spec fn echoed(sender: SenderView, msg: EchoMessageView) -> Outcome<
    SenderView,
    EchoMessageView,
> {
    match msg.body.fields {
        EchoPayloadView::Echo { echo } => if sender.next_id + 1 > u64::MAX {
            Err(NodeError::IdsExhausted)
        } else {
            Ok(
                (
                    advanced(sender, 1),
                    seq![
                        envelope(
                            sender,
                            msg.src,
                            msg.body.msg_id,
                            EchoPayloadView::EchoOk { echo },
                        ),
                    ],
                ),
            )
        },
        EchoPayloadView::EchoOk { .. } => Err(NodeError::UnsupportedType),
    }
}

/// Handles an inbound envelope of the echo protocol.
pub fn echo(sender: &mut Sender, request: &EchoMessage) -> (r: Result<Vec<EchoMessage>, NodeError>)
    ensures
        meets(r, old(sender)@, final(sender)@, echoed(old(sender)@, request@)),
{
    match &request.body.fields {
        EchoPayload::Echo { echo } => {
            let text: Option<String> = match echo {
                Some(t) => Some(t.clone()),
                None => None,
            };
            match sender.respond(request, EchoPayload::EchoOk { echo: text }) {
                Ok(reply) => {
                    let mut out: Vec<EchoMessage> = Vec::new();
                    out.push(reply);
                    assert(views(out@) =~= seq![reply@]);
                    Ok(out)
                },
                Err(e) => Err(e),
            }
        },
        EchoPayload::EchoOk { .. } => Err(NodeError::UnsupportedType),
    }
}

} // verus!
