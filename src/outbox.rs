//! Messages sent to clients, and the outgoing queue that handlers fill.

use vstd::prelude::*;

use crate::ids::ClientID;
use crate::iterate::{IterateResponses, Iterates};
use crate::message::{RejectLevel, RejectMessage, RejectReason};
use crate::method::{Methods, Responses};
use crate::notify_c::NotifyC;

verus! {

/// A message received from a client.
#[derive(Debug)]
pub enum MsgRecv {
    /// A method call expecting one response.
    Method(Methods),
    /// A call expecting a streamed response.
    Iterate(Iterates),
}

/// A message sent to a client.
#[derive(Debug)]
pub enum MsgSend {
    /// A response to a method call.
    Response(Responses),
    /// A notification for every client.
    NotifyC(NotifyC),
    /// A part of a streamed response.
    IterateResponse(IterateResponses),
    /// A rejected request.
    Reject(RejectMessage),
}

/// A message with its recipients.
#[derive(Debug)]
pub enum Outgoing {
    /// A message for one client.
    Direct(ClientID, MsgSend),
    /// One message for several clients, in the order listed.
    Broadcast(Vec<ClientID>, MsgSend),
}

/// What a handle sends to its client: nothing where the client has no link.
pub open spec fn direct_to(client: Option<ClientID>, msg: MsgSend) -> Seq<Outgoing> {
    match client {
        Some(c) => seq![Outgoing::Direct(c, msg)],
        None => Seq::empty(),
    }
}

/// The rejection message of request `id` of protocol `protocol`.
pub open spec fn reject_msg(
    protocol: &'static str,
    id: u32,
    level: RejectLevel,
    reason: RejectReason,
) -> MsgSend {
    MsgSend::Reject(
        RejectMessage { request_protocol: protocol, request_id: Some(id), level, reason },
    )
}

/// Appends to `out` the message for `client`, where it has a link.
pub fn send_direct(out: &mut Vec<Outgoing>, client: Option<ClientID>, msg: MsgSend)
    ensures
        final(out)@ == old(out)@ + direct_to(client, msg),
{
    match client {
        Some(c) => {
            out.push(Outgoing::Direct(c, msg));
            assert(final(out)@ =~= old(out)@ + direct_to(client, msg));
        },
        None => {
            assert(final(out)@ =~= old(out)@ + direct_to(client, msg));
        },
    }
}

} // verus!
