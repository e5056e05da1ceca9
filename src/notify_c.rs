//! Server-to-client notifications, broadcast to every attached client.

use vstd::prelude::*;

use crate::geometry::{Stroke, Transform};
use crate::ids::{ClientID, ItemID, PathID};
use crate::item::{Item, LocationUpdate};
use crate::message::{BatchChanges, ClientInfo};
use crate::outbox::MsgSend;

verus! {

/// A new client has joined the board (not necessarily connected).
#[derive(Debug)]
pub struct ClientJoined {
    pub id: ClientID,
    pub info: ClientInfo,
}

/// A client has established a connection with the board.
#[derive(Debug)]
pub struct ClientConnected {
    pub id: ClientID,
}

/// A client's connection has closed.
#[derive(Debug)]
pub struct ClientDisconnected {
    pub id: ClientID,
}

/// A client has left the board.
#[derive(Debug)]
pub struct ClientExited {
    pub id: ClientID,
}

/// A client has added items to its selection.
#[derive(Debug)]
pub struct SelectionItemsAdded {
    pub id: ClientID,
    pub items: Vec<ItemID>,
    pub new_srt: Transform,
}

/// A client has released items, each with the location it was left at.
#[derive(Debug)]
pub struct SelectionItemsRemoved {
    pub id: ClientID,
    pub items: Vec<(ItemID, LocationUpdate)>,
}

/// A client has moved its selection.
#[derive(Debug)]
pub struct SelectionMoved {
    pub id: ClientID,
    pub transform: Transform,
    pub new_sits: Option<Vec<(ItemID, Transform)>>,
}

/// Several items were edited at once.
#[derive(Debug)]
pub struct BatchItemsEdited {
    pub ids: Vec<ItemID>,
    pub changes: BatchChanges,
}

/// One item was replaced.
#[derive(Debug)]
pub struct SingleItemEdited {
    pub id: ItemID,
    pub item: Item,
}

/// Items were deleted.
#[derive(Debug)]
pub struct ItemsDeleted {
    pub ids: Vec<ItemID>,
}

/// An item was created.
#[derive(Debug)]
pub struct ItemCreated {
    pub id: ItemID,
    pub client: ClientID,
    pub item: Item,
}

/// A client has started drawing a path.
#[derive(Debug)]
pub struct PathStarted {
    pub client: ClientID,
    pub stroke: Stroke,
    pub path: PathID,
}

/// All notification kinds.
#[derive(Debug)]
pub enum NotifyC {
    ClientJoined(ClientJoined),
    ClientConnected(ClientConnected),
    ClientDisconnected(ClientDisconnected),
    ClientExited(ClientExited),
    SelectionItemsAdded(SelectionItemsAdded),
    SelectionItemsRemoved(SelectionItemsRemoved),
    SelectionMoved(SelectionMoved),
    BatchItemsEdited(BatchItemsEdited),
    SingleItemEdited(SingleItemEdited),
    ItemsDeleted(ItemsDeleted),
    ItemCreated(ItemCreated),
    PathStarted(PathStarted),
}

impl NotifyC {
    /// Wraps the notification in a message.
    pub fn as_msg(self) -> (r: MsgSend)
        ensures
            r == MsgSend::NotifyC(self),
    {
        MsgSend::NotifyC(self)
    }
}

/// A single notification kind.
pub trait NotifyCType: Sized {
    /// The notification this value becomes.
    spec fn spec_notify(self) -> NotifyC;

    /// Wraps the value in the notification enumeration.
    fn as_notify(self) -> (r: NotifyC)
        ensures
            r == self.spec_notify();
}

impl NotifyCType for ClientJoined {
    open spec fn spec_notify(self) -> NotifyC { NotifyC::ClientJoined(self) }
    fn as_notify(self) -> (r: NotifyC) { NotifyC::ClientJoined(self) }
}

impl NotifyCType for ClientConnected {
    open spec fn spec_notify(self) -> NotifyC { NotifyC::ClientConnected(self) }
    fn as_notify(self) -> (r: NotifyC) { NotifyC::ClientConnected(self) }
}

impl NotifyCType for ClientDisconnected {
    open spec fn spec_notify(self) -> NotifyC { NotifyC::ClientDisconnected(self) }
    fn as_notify(self) -> (r: NotifyC) { NotifyC::ClientDisconnected(self) }
}

impl NotifyCType for ClientExited {
    open spec fn spec_notify(self) -> NotifyC { NotifyC::ClientExited(self) }
    fn as_notify(self) -> (r: NotifyC) { NotifyC::ClientExited(self) }
}

impl NotifyCType for SelectionItemsAdded {
    open spec fn spec_notify(self) -> NotifyC { NotifyC::SelectionItemsAdded(self) }
    fn as_notify(self) -> (r: NotifyC) { NotifyC::SelectionItemsAdded(self) }
}

impl NotifyCType for SelectionItemsRemoved {
    open spec fn spec_notify(self) -> NotifyC { NotifyC::SelectionItemsRemoved(self) }
    fn as_notify(self) -> (r: NotifyC) { NotifyC::SelectionItemsRemoved(self) }
}

impl NotifyCType for SelectionMoved {
    open spec fn spec_notify(self) -> NotifyC { NotifyC::SelectionMoved(self) }
    fn as_notify(self) -> (r: NotifyC) { NotifyC::SelectionMoved(self) }
}

impl NotifyCType for BatchItemsEdited {
    open spec fn spec_notify(self) -> NotifyC { NotifyC::BatchItemsEdited(self) }
    fn as_notify(self) -> (r: NotifyC) { NotifyC::BatchItemsEdited(self) }
}

impl NotifyCType for SingleItemEdited {
    open spec fn spec_notify(self) -> NotifyC { NotifyC::SingleItemEdited(self) }
    fn as_notify(self) -> (r: NotifyC) { NotifyC::SingleItemEdited(self) }
}

impl NotifyCType for ItemsDeleted {
    open spec fn spec_notify(self) -> NotifyC { NotifyC::ItemsDeleted(self) }
    fn as_notify(self) -> (r: NotifyC) { NotifyC::ItemsDeleted(self) }
}

impl NotifyCType for ItemCreated {
    open spec fn spec_notify(self) -> NotifyC { NotifyC::ItemCreated(self) }
    fn as_notify(self) -> (r: NotifyC) { NotifyC::ItemCreated(self) }
}

impl NotifyCType for PathStarted {
    open spec fn spec_notify(self) -> NotifyC { NotifyC::PathStarted(self) }
    fn as_notify(self) -> (r: NotifyC) { NotifyC::PathStarted(self) }
}

} // verus!
