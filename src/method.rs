//! Method calls: requests that expect exactly one response, and the handle
//! through which a handler answers them.

use vstd::prelude::*;

use crate::geometry::{SplineNode, Stroke, Transform};
use crate::ids::{ClientID, ItemID, PathID};
use crate::item::{Item, LocationUpdate};
use crate::message::{self, BatchChanges, ClientInfo, Error, RejectLevel, RejectMessage, RejectReason};
use crate::outbox::{direct_to, reject_msg, send_direct, MsgSend, Outgoing};

verus! {

/// A snapshot of one client's state.
#[derive(Debug)]
pub struct ClientSnapshot {
    pub info: ClientInfo,
    pub paths: Vec<PathID>,
    pub selected_items: Vec<(ItemID, Transform)>,
    pub selection_transform: Transform,
}

/// The return packet of a method call.
#[derive(Debug)]
pub struct Response<T> {
    /// The ID of the call this answers.
    pub id: u32,
    /// The return value.
    pub value: T,
}

/// The information describing a method.
pub trait MethodType: Sized {
    /// The type sent back to the client.
    type Response;

    /// The name of the method.
    spec fn protocol() -> &'static str;

    /// The response enumeration value for `r`.
    spec fn spec_wrap(r: Response<Self::Response>) -> Responses;

    /// The name of the method.
    fn name() -> (r: &'static str)
        ensures
            r == Self::protocol();

    /// Wraps a response of this method in the response enumeration.
    fn wrap_response(r: Response<Self::Response>) -> (m: Responses)
        ensures
            m == Self::spec_wrap(r);
}

/// A method call packet.
#[derive(Debug)]
pub struct Call<T> {
    /// The call ID, for the client to associate the response with the call.
    pub id: u32,
    /// The call parameters.
    pub params: T,
}

/// What a handler needs to answer a method call.
pub struct MethodHandle<T> {
    /// The call ID.
    pub id: u32,
    /// The calling client, where it has a link to send on.
    pub client: Option<ClientID>,
    /// The method answered.
    pub method: core::marker::PhantomData<T>,
}

impl<T: MethodType> Call<T> {
    /// Splits the call into its parameters and a handle that answers it.
    pub fn create_handle(self, client: Option<ClientID>) -> (r: (T, MethodHandle<T>))
        ensures
            r.0 == self.params,
            r.1.id == self.id,
            r.1.client == client,
    {
        (self.params, MethodHandle { id: self.id, client, method: core::marker::PhantomData })
    }
}

impl<T: MethodType> MethodHandle<T> {
    /// The response message carrying `value`.
    pub open spec fn response_msg(&self, value: T::Response) -> MsgSend {
        MsgSend::Response(T::spec_wrap(Response { id: self.id, value }))
    }

    /// Sends a response to the client.
    pub fn respond(self, value: T::Response, out: &mut Vec<Outgoing>)
        ensures
            final(out)@ == old(out)@ + direct_to(self.client, self.response_msg(value)),
    {
        let response = T::wrap_response(Response { id: self.id, value });
        send_direct(out, self.client, MsgSend::Response(response));
    }

    fn send_reject(&self, reason: RejectReason, level: RejectLevel, out: &mut Vec<Outgoing>)
        ensures
            final(out)@ == old(out)@ + direct_to(
                self.client,
                reject_msg(T::protocol(), self.id, level, reason),
            ),
    {
        let message = RejectMessage {
            request_protocol: T::name(),
            request_id: Some(self.id),
            level,
            reason,
        };
        send_direct(out, self.client, MsgSend::Reject(message));
    }

    /// Rejects the call with an error, instead of a response.
    pub fn error(self, reason: RejectReason, out: &mut Vec<Outgoing>)
        ensures
            final(out)@ == old(out)@ + direct_to(
                self.client,
                reject_msg(T::protocol(), self.id, RejectLevel::Error, reason),
            ),
    {
        self.send_reject(reason, RejectLevel::Error, out)
    }

    /// Sends a warning about part of the call.
    pub fn warn(&self, reason: RejectReason, out: &mut Vec<Outgoing>)
        ensures
            final(out)@ == old(out)@ + direct_to(
                self.client,
                reject_msg(T::protocol(), self.id, RejectLevel::Warning, reason),
            ),
    {
        self.send_reject(reason, RejectLevel::Warning, out)
    }
}

impl<TOk, T: MethodType<Response = message::Result<TOk, Error>>> MethodHandle<T> {
    /// Responds with a success value.
    pub fn ok(self, value: TOk, out: &mut Vec<Outgoing>)
        ensures
            final(out)@ == old(out)@ + direct_to(
                self.client,
                self.response_msg(message::Result::Success(value)),
            ),
    {
        self.respond(message::Result::Success(value), out)
    }

    /// Responds with an error value.
    pub fn err(self, value: Error, out: &mut Vec<Outgoing>)
        ensures
            final(out)@ == old(out)@ + direct_to(
                self.client,
                self.response_msg(message::Result::Failure(value)),
            ),
    {
        self.respond(message::Result::Failure(value), out)
    }
}

/// All method calls.
#[derive(Debug)]
pub enum Methods {
    SelectionAddItems(Call<SelectionAddItems>),
    SelectionRemoveItems(Call<SelectionRemoveItems>),
    SelectionMove(Call<SelectionMove>),
    EditBatchItems(Call<EditBatchItems>),
    EditSingleItem(Call<EditSingleItem>),
    DeleteItems(Call<DeleteItems>),
    CreateItem(Call<CreateItem>),
    BeginPath(Call<BeginPath>),
    ContinuePath(Call<ContinuePath>),
    EndPath(Call<EndPath>),
    GetAllItemIDs(Call<GetAllItemIDs>),
    GetAllClientIDs(Call<GetAllClientIDs>),
    GetClientState(Call<GetClientState>),
}

/// All method responses.
#[derive(Debug)]
pub enum Responses {
    SelectionAddItems(Response<Vec<message::Result<(), Error>>>),
    SelectionRemoveItems(Response<message::Result<(), Error>>),
    SelectionMove(Response<()>),
    EditBatchItems(Response<Vec<message::Result<(), Error>>>),
    EditSingleItem(Response<message::Result<(), Error>>),
    DeleteItems(Response<()>),
    CreateItem(Response<ItemID>),
    BeginPath(Response<PathID>),
    ContinuePath(Response<()>),
    EndPath(Response<message::Result<ItemID, Error>>),
    GetAllItemIDs(Response<Vec<ItemID>>),
    GetAllClientIDs(Response<Vec<ClientID>>),
    GetClientState(Response<ClientSnapshot>),
}

/// Attempt to add a set of items to the client's selection.
#[derive(Debug)]
pub struct SelectionAddItems {
    pub new_srt: Transform,
    pub old_sits: Vec<(ItemID, Transform)>,
    pub new_sits: Vec<(ItemID, Transform)>,
}

impl MethodType for SelectionAddItems {
    type Response = Vec<message::Result<(), Error>>;

    open spec fn protocol() -> &'static str {
        "SelectionAddItems"
    }

    open spec fn spec_wrap(r: Response<Vec<message::Result<(), Error>>>) -> Responses {
        Responses::SelectionAddItems(r)
    }

    fn name() -> (r: &'static str) {
        "SelectionAddItems"
    }

    fn wrap_response(r: Response<Vec<message::Result<(), Error>>>) -> (m: Responses) {
        Responses::SelectionAddItems(r)
    }
}

/// Remove a set of items from the client's selection.
#[derive(Debug)]
pub struct SelectionRemoveItems {
    pub items: Vec<(ItemID, LocationUpdate)>,
}

impl MethodType for SelectionRemoveItems {
    type Response = message::Result<(), Error>;

    open spec fn protocol() -> &'static str {
        "SelectionRemoveItems"
    }

    open spec fn spec_wrap(r: Response<message::Result<(), Error>>) -> Responses {
        Responses::SelectionRemoveItems(r)
    }

    fn name() -> (r: &'static str) {
        "SelectionRemoveItems"
    }

    fn wrap_response(r: Response<message::Result<(), Error>>) -> (m: Responses) {
        Responses::SelectionRemoveItems(r)
    }
}

/// Move the client's selection.
#[derive(Debug)]
pub struct SelectionMove {
    pub new_srt: Transform,
    pub new_sits: Option<Vec<(ItemID, Transform)>>,
}

impl MethodType for SelectionMove {
    type Response = ();

    open spec fn protocol() -> &'static str {
        "SelectionMove"
    }

    open spec fn spec_wrap(r: Response<()>) -> Responses {
        Responses::SelectionMove(r)
    }

    fn name() -> (r: &'static str) {
        "SelectionMove"
    }

    fn wrap_response(r: Response<()>) -> (m: Responses) {
        Responses::SelectionMove(r)
    }
}

/// Apply the same changes to several items.
#[derive(Debug)]
pub struct EditBatchItems {
    pub ids: Vec<ItemID>,
    pub changes: BatchChanges,
}

impl MethodType for EditBatchItems {
    type Response = Vec<message::Result<(), Error>>;

    open spec fn protocol() -> &'static str {
        "EditBatchItems"
    }

    open spec fn spec_wrap(r: Response<Vec<message::Result<(), Error>>>) -> Responses {
        Responses::EditBatchItems(r)
    }

    fn name() -> (r: &'static str) {
        "EditBatchItems"
    }

    fn wrap_response(r: Response<Vec<message::Result<(), Error>>>) -> (m: Responses) {
        Responses::EditBatchItems(r)
    }
}

/// Replace an item with a new one.
#[derive(Debug)]
pub struct EditSingleItem {
    pub item_id: ItemID,
    pub item: Item,
}

impl MethodType for EditSingleItem {
    type Response = message::Result<(), Error>;

    open spec fn protocol() -> &'static str {
        "EditSingleItem"
    }

    open spec fn spec_wrap(r: Response<message::Result<(), Error>>) -> Responses {
        Responses::EditSingleItem(r)
    }

    fn name() -> (r: &'static str) {
        "EditSingleItem"
    }

    fn wrap_response(r: Response<message::Result<(), Error>>) -> (m: Responses) {
        Responses::EditSingleItem(r)
    }
}

/// Delete several items from the board.
#[derive(Debug)]
pub struct DeleteItems {
    pub ids: Vec<ItemID>,
}

impl MethodType for DeleteItems {
    type Response = ();

    open spec fn protocol() -> &'static str {
        "DeleteItems"
    }

    open spec fn spec_wrap(r: Response<()>) -> Responses {
        Responses::DeleteItems(r)
    }

    fn name() -> (r: &'static str) {
        "DeleteItems"
    }

    fn wrap_response(r: Response<()>) -> (m: Responses) {
        Responses::DeleteItems(r)
    }
}

/// Create a new item.
#[derive(Debug)]
pub struct CreateItem {
    pub item: Item,
}

impl MethodType for CreateItem {
    type Response = ItemID;

    open spec fn protocol() -> &'static str {
        "CreateItem"
    }

    open spec fn spec_wrap(r: Response<ItemID>) -> Responses {
        Responses::CreateItem(r)
    }

    fn name() -> (r: &'static str) {
        "CreateItem"
    }

    fn wrap_response(r: Response<ItemID>) -> (m: Responses) {
        Responses::CreateItem(r)
    }
}

/// Start a new path.
#[derive(Debug)]
pub struct BeginPath {
    pub stroke: Stroke,
}

impl MethodType for BeginPath {
    type Response = PathID;

    open spec fn protocol() -> &'static str {
        "BeginPath"
    }

    open spec fn spec_wrap(r: Response<PathID>) -> Responses {
        Responses::BeginPath(r)
    }

    fn name() -> (r: &'static str) {
        "BeginPath"
    }

    fn wrap_response(r: Response<PathID>) -> (m: Responses) {
        Responses::BeginPath(r)
    }
}

/// Continue a path.
#[derive(Debug)]
pub struct ContinuePath {
    pub path_id: PathID,
    pub points: Vec<SplineNode>,
}

impl MethodType for ContinuePath {
    type Response = ();

    open spec fn protocol() -> &'static str {
        "ContinuePath"
    }

    open spec fn spec_wrap(r: Response<()>) -> Responses {
        Responses::ContinuePath(r)
    }

    fn name() -> (r: &'static str) {
        "ContinuePath"
    }

    fn wrap_response(r: Response<()>) -> (m: Responses) {
        Responses::ContinuePath(r)
    }
}

/// Close a path.
#[derive(Debug)]
pub struct EndPath {
    pub path_id: PathID,
}

impl MethodType for EndPath {
    type Response = message::Result<ItemID, Error>;

    open spec fn protocol() -> &'static str {
        "EndPath"
    }

    open spec fn spec_wrap(r: Response<message::Result<ItemID, Error>>) -> Responses {
        Responses::EndPath(r)
    }

    fn name() -> (r: &'static str) {
        "EndPath"
    }

    fn wrap_response(r: Response<message::Result<ItemID, Error>>) -> (m: Responses) {
        Responses::EndPath(r)
    }
}

/// Get a list of every item ID on the board.
#[derive(Debug)]
pub struct GetAllItemIDs {
}

impl MethodType for GetAllItemIDs {
    type Response = Vec<ItemID>;

    open spec fn protocol() -> &'static str {
        "GetAllItemIDs"
    }

    open spec fn spec_wrap(r: Response<Vec<ItemID>>) -> Responses {
        Responses::GetAllItemIDs(r)
    }

    fn name() -> (r: &'static str) {
        "GetAllItemIDs"
    }

    fn wrap_response(r: Response<Vec<ItemID>>) -> (m: Responses) {
        Responses::GetAllItemIDs(r)
    }
}

/// Get a list of every client ID.
#[derive(Debug)]
pub struct GetAllClientIDs {
}

impl MethodType for GetAllClientIDs {
    type Response = Vec<ClientID>;

    open spec fn protocol() -> &'static str {
        "GetAllClientIDs"
    }

    open spec fn spec_wrap(r: Response<Vec<ClientID>>) -> Responses {
        Responses::GetAllClientIDs(r)
    }

    fn name() -> (r: &'static str) {
        "GetAllClientIDs"
    }

    fn wrap_response(r: Response<Vec<ClientID>>) -> (m: Responses) {
        Responses::GetAllClientIDs(r)
    }
}

/// Get the state of a client.
#[derive(Debug)]
pub struct GetClientState {
    pub client_id: ClientID,
}

impl MethodType for GetClientState {
    type Response = ClientSnapshot;

    open spec fn protocol() -> &'static str {
        "GetClientState"
    }

    open spec fn spec_wrap(r: Response<ClientSnapshot>) -> Responses {
        Responses::GetClientState(r)
    }

    fn name() -> (r: &'static str) {
        "GetClientState"
    }

    fn wrap_response(r: Response<ClientSnapshot>) -> (m: Responses) {
        Responses::GetClientState(r)
    }
}

} // verus!
