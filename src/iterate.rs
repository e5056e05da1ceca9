//! Calls answered by a stream of parts, and the handle that buffers and
//! sends those parts.

use vstd::prelude::*;

use crate::geometry::SplineNode;
use crate::ids::{ClientID, ItemID, PathID};
use crate::item::Item;
use crate::message::{self, Error, RejectLevel, RejectMessage, RejectReason};
use crate::outbox::{direct_to, reject_msg, send_direct, MsgSend, Outgoing};

verus! {

/// The information describing a streamed call.
pub trait IterateType: Sized {
    /// The type of the streamed items.
    type Item;

    /// The name of the call.
    spec fn protocol() -> &'static str;

    /// The response enumeration value for `r`.
    spec fn spec_make(r: IterateResponse<Self::Item>) -> IterateResponses;

    /// The name of the call.
    fn name() -> (r: &'static str)
        ensures
            r == Self::protocol();

    /// Wraps a part of this call's response in the response enumeration.
    fn make_response(r: IterateResponse<Self::Item>) -> (m: IterateResponses)
        ensures
            m == Self::spec_make(r);
}

/// A streamed call packet.
#[derive(Debug)]
pub struct IterateCall<M> {
    /// The call ID.
    pub id: u32,
    /// The call parameters.
    pub params: M,
}

/// One part of a streamed response.
#[derive(Debug)]
pub struct IterateResponse<T> {
    /// The ID of the call this answers.
    pub id: u32,
    /// Whether this is the last part.
    pub complete: bool,
    /// The index of the part, from zero.
    pub part: u32,
    /// The items of the part.
    pub items: Vec<T>,
}

/// Buffers the items of a streamed response and sends them in parts.
#[derive(Debug)]
pub struct IterateHandle<M: IterateType> {
    /// The call ID.
    pub id: u32,
    /// The index of the next part.
    pub current_part: u32,
    /// Items not yet sent.
    pub current_items: Vec<M::Item>,
    /// The calling client, where it has a link to send on.
    pub client: Option<ClientID>,
}

/// The part index after `part`; it stays at the largest value once there.
pub open spec fn next_part(part: u32) -> u32 {
    if part < u32::MAX { (part + 1) as u32 } else { part }
}

impl<M: IterateType> IterateCall<M> {
    /// Splits the call into its parameters and a handle that answers it.
    pub fn get_handle(self, client: Option<ClientID>) -> (r: (M, IterateHandle<M>))
        ensures
            r.0 == self.params,
            r.1.id == self.id,
            r.1.client == client,
            r.1.current_part == 0,
            r.1.current_items@.len() == 0,
    {
        (self.params, IterateHandle { id: self.id, current_part: 0, current_items: Vec::new(), client })
    }
}

impl<M: IterateType> IterateHandle<M> {
    /// The message of a part with the given completion flag and items.
    pub open spec fn part_msg(&self, complete: bool, items: Vec<M::Item>) -> MsgSend {
        MsgSend::IterateResponse(
            M::spec_make(IterateResponse { id: self.id, complete, part: self.current_part, items }),
        )
    }

    /// Buffers one item.
    pub fn add_item(&mut self, item: M::Item)
        ensures
            final(self).current_items@ == old(self).current_items@.push(item),
            final(self).id == old(self).id,
            final(self).current_part == old(self).current_part,
            final(self).client == old(self).client,
    {
        self.current_items.push(item);
    }

    /// Buffers a copy of each item of `items`, in order.
    pub fn add_items(&mut self, items: &Vec<M::Item>)
        where
            M::Item: Copy,
        ensures
            final(self).current_items@ == old(self).current_items@ + items@,
            final(self).id == old(self).id,
            final(self).current_part == old(self).current_part,
            final(self).client == old(self).client,
    {
        let mut i: usize = 0;
        while i < items.len()
            invariant
                i <= items.len(),
                self.current_items@ == old(self).current_items@ + items@.subrange(0, i as int),
                self.id == old(self).id,
                self.current_part == old(self).current_part,
                self.client == old(self).client,
            decreases items.len() - i,
        {
            self.current_items.push(items[i]);
            i = i + 1;
            assert(self.current_items@ =~= old(self).current_items@ + items@.subrange(0, i as int));
        }
        assert(items@.subrange(0, i as int) =~= items@);
    }

    /// Sends the buffered items as an incomplete part and starts the next part.
    pub fn flush_response(&mut self, out: &mut Vec<Outgoing>)
        ensures
            final(out)@ == old(out)@ + direct_to(
                old(self).client,
                old(self).part_msg(false, old(self).current_items),
            ),
            final(self).current_items@.len() == 0,
            final(self).current_part == next_part(old(self).current_part),
            final(self).id == old(self).id,
            final(self).client == old(self).client,
    {
        let mut items: Vec<M::Item> = Vec::new();
        std::mem::swap(&mut items, &mut self.current_items);
        let response = IterateResponse::<M::Item> {
            id: self.id,
            complete: false,
            part: self.current_part,
            items,
        };
        if self.current_part < u32::MAX {
            self.current_part = self.current_part + 1;
        }
        send_direct(out, self.client, MsgSend::IterateResponse(M::make_response(response)));
    }

    /// Sends the buffered items as the last part.
    pub fn finalize(self, out: &mut Vec<Outgoing>)
        ensures
            final(out)@ == old(out)@ + direct_to(self.client, self.part_msg(true, self.current_items)),
    {
        let response = IterateResponse::<M::Item> {
            id: self.id,
            complete: true,
            part: self.current_part,
            items: self.current_items,
        };
        send_direct(out, self.client, MsgSend::IterateResponse(M::make_response(response)));
    }

    fn send_reject(&self, reason: RejectReason, level: RejectLevel, out: &mut Vec<Outgoing>)
        ensures
            final(out)@ == old(out)@ + direct_to(
                self.client,
                reject_msg(M::protocol(), self.id, level, reason),
            ),
    {
        let message = RejectMessage {
            request_protocol: M::name(),
            request_id: Some(self.id),
            level,
            reason,
        };
        send_direct(out, self.client, MsgSend::Reject(message));
    }

    /// Rejects the call with an error.
    pub fn error(self, reason: RejectReason, out: &mut Vec<Outgoing>)
        ensures
            final(out)@ == old(out)@ + direct_to(
                self.client,
                reject_msg(M::protocol(), self.id, RejectLevel::Error, reason),
            ),
    {
        self.send_reject(reason, RejectLevel::Error, out)
    }

    /// Sends a warning about part of the call.
    pub fn warn(&self, reason: RejectReason, out: &mut Vec<Outgoing>)
        ensures
            final(out)@ == old(out)@ + direct_to(
                self.client,
                reject_msg(M::protocol(), self.id, RejectLevel::Warning, reason),
            ),
    {
        self.send_reject(reason, RejectLevel::Warning, out)
    }
}

/// All streamed calls.
#[derive(Debug)]
pub enum Iterates {
    GetFullItems(IterateCall<GetFullItems>),
    GetActivePath(IterateCall<GetActivePath>),
}

/// All streamed response parts.
#[derive(Debug)]
pub enum IterateResponses {
    GetFullItems(IterateResponse<message::Result<(ItemID, Item), Error>>),
    GetActivePath(IterateResponse<SplineNode>),
}

/// Fetch the full value of each listed item.
#[derive(Debug)]
pub struct GetFullItems {
    pub ids: Vec<ItemID>,
}

/// Follow the nodes of a path as it is drawn.
#[derive(Debug)]
pub struct GetActivePath {
    pub path: PathID,
}

impl IterateType for GetFullItems {
    type Item = message::Result<(ItemID, Item), Error>;

    open spec fn protocol() -> &'static str {
        "GetFullItems"
    }

    open spec fn spec_make(r: IterateResponse<Self::Item>) -> IterateResponses {
        IterateResponses::GetFullItems(r)
    }

    fn name() -> (r: &'static str) {
        "GetFullItems"
    }

    fn make_response(r: IterateResponse<Self::Item>) -> (m: IterateResponses) {
        IterateResponses::GetFullItems(r)
    }
}

impl IterateType for GetActivePath {
    type Item = SplineNode;

    open spec fn protocol() -> &'static str {
        "GetActivePath"
    }

    open spec fn spec_make(r: IterateResponse<Self::Item>) -> IterateResponses {
        IterateResponses::GetActivePath(r)
    }

    fn name() -> (r: &'static str) {
        "GetActivePath"
    }

    fn make_response(r: IterateResponse<Self::Item>) -> (m: IterateResponses) {
        IterateResponses::GetActivePath(r)
    }
}

} // verus!
