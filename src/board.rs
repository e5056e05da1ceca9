//! The state of one board and the operations that keep its parts
//! consistent: clients, the selection index, active paths and broadcast.

use vstd::prelude::*;

use crate::canvas::ActiveCanvas;
use crate::geometry::{copy_vec, SplineNode, Stroke};
use crate::ids::{ClientID, CounterU64, ItemID, PathID, SessionID};
use crate::item::{accepts_location, with_location, Item, ItemView, LocationUpdate, PathItem};
use crate::iterate::{GetActivePath, GetFullItems, IterateCall, IterateHandle, IterateResponses, IterateType, Iterates};
use crate::message::{non_existent_id, non_existent_reason, not_owned_reason, resource_not_owned, ClientInfo, ConnectionInfo, RejectLevel};
use crate::message::{self, error_of, Error, ErrorCode};
use crate::method::{
    BeginPath, Call, ClientSnapshot, ContinuePath, CreateItem, DeleteItems, EditBatchItems, EndPath, Methods, SelectionAddItems, SelectionMove, SelectionRemoveItems, EditSingleItem, GetAllClientIDs, GetAllItemIDs, GetClientState,
    MethodHandle, MethodType, Response, Responses,
};
use crate::notify_c::{ClientJoined, ItemCreated, ItemsDeleted, PathStarted, SelectionItemsAdded, SelectionItemsRemoved, SelectionMoved, NotifyC, NotifyCType, SingleItemEdited};
use crate::outbox::{direct_to, reject_msg, MsgRecv, MsgSend, Outgoing};
use crate::selection::{holds_id, lemma_merged_keys, merged, SelectionState};
use crate::geometry::{identity_transform, Spline, Transform};
use crate::table::{
    client_table, clients_connected, clients_new, clients_read, clients_upsert, owner_table, owners_new, owners_read,
    owners_remove, owners_upsert, path_owner, path_table, paths_new, paths_remove, paths_upsert,
};

verus! {

/// The state the board keeps for one client.
#[derive(Debug)]
pub struct ClientState {
    /// What the client said about itself.
    pub info: ClientInfo,
    /// Whether the client has a socket attached; messages to a detached
    /// client are dropped.
    pub connected: bool,
    /// The paths the client is drawing.
    pub active_paths: Vec<PathID>,
    /// The client's selection.
    pub selection: SelectionState,
}

impl ClientState {
    /// Whether `o` holds the same values as `self`.
    pub open spec fn same_as(&self, o: ClientState) -> bool {
        &&& self.info == o.info
        &&& self.connected == o.connected
        &&& self.active_paths@ == o.active_paths@
        &&& self.selection.items@ == o.selection.items@
        &&& self.selection.own_transform == o.selection.own_transform
    }
}

impl Clone for ClientState {
    fn clone(&self) -> (r: Self)
        ensures
            r.same_as(*self),
    {
        ClientState {
            info: self.info.clone(),
            connected: self.connected,
            active_paths: copy_vec(&self.active_paths),
            selection: SelectionState {
                items: copy_vec(&self.selection.items),
                own_transform: self.selection.own_transform,
            },
        }
    }
}

/// A path being drawn.
#[derive(Debug)]
pub struct ActivePath {
    /// The client drawing it.
    pub client: ClientID,
    /// The nodes drawn so far.
    pub nodes: Vec<SplineNode>,
    /// The streamed calls following the path.
    pub listeners: Vec<IterateHandle<GetActivePath>>,
    /// How the path is drawn.
    pub stroke: Stroke,
    /// When the listeners were last flushed, in milliseconds.
    pub last_flush: u64,
}

/// The outcome of an attempt to select an item.
#[derive(PartialEq, Eq, Structural, Debug, Clone, Copy)]
pub enum TakeResult {
    /// The item was free and now belongs to the client.
    Successful,
    /// No such item.
    NonExistent,
    /// Another client has selected the item.
    Occupied,
    /// The client had already selected the item.
    AlreadyOwned,
}

/// Something that answers a request and can carry warnings.
pub trait Handle {
    /// The messages a warning with `reason` produces.
    spec fn warning(&self, reason: crate::message::RejectReason) -> Seq<Outgoing>;

    /// Sends a warning with `reason`.
    fn send_warn(&self, reason: crate::message::RejectReason, out: &mut Vec<Outgoing>)
        ensures
            final(out)@ == old(out)@ + self.warning(reason);
}

impl<T: MethodType> Handle for MethodHandle<T> {
    open spec fn warning(&self, reason: crate::message::RejectReason) -> Seq<Outgoing> {
        direct_to(self.client, reject_msg(T::protocol(), self.id, RejectLevel::Warning, reason))
    }

    fn send_warn(&self, reason: crate::message::RejectReason, out: &mut Vec<Outgoing>) {
        self.warn(reason, out)
    }
}

impl<M: IterateType> Handle for IterateHandle<M> {
    open spec fn warning(&self, reason: crate::message::RejectReason) -> Seq<Outgoing> {
        direct_to(self.client, reject_msg(M::protocol(), self.id, RejectLevel::Warning, reason))
    }

    fn send_warn(&self, reason: crate::message::RejectReason, out: &mut Vec<Outgoing>) {
        self.warn(reason, out)
    }
}

/// Whether the client IDs of `s` are strictly ascending.
pub open spec fn ascending_clients(s: Seq<ClientID>) -> bool {
    forall|i: int, j: int| 0 <= i < j < s.len() ==> s[i].0 < s[j].0
}

/// The clients of `order` that have a socket attached, in the same order.
pub open spec fn attached(order: Seq<ClientID>, clients: Map<u32, ClientState>) -> Seq<ClientID> {
    order.filter(|c: ClientID| clients.contains_key(c.0) && clients[c.0].connected)
}

/// Each client's selection is well formed and holds only items that the
/// selection index gives to that client.
pub open spec fn selections_owned(clients: Map<u32, ClientState>, owners: Map<u32, Option<ClientID>>) -> bool {
    &&& forall|c: u32| #[trigger] clients.contains_key(c) ==> clients[c].selection.wf()
    &&& forall|c: u32, k: u32| #[trigger] clients.contains_key(c)
        && #[trigger] clients[c].selection@.contains_key(k)
            ==> owners.contains_key(k) && owners[k] == Some(ClientID(c))
}

/// The client order lists exactly the clients, ascending, all below `next`.
pub open spec fn clients_listed(order: Seq<ClientID>, clients: Map<u32, ClientState>, next: nat) -> bool {
    &&& ascending_clients(order)
    &&& forall|c: u32| clients.contains_key(c)
        <==> exists|i: int| 0 <= i < order.len() && order[i].0 == c
    &&& forall|c: u32| #[trigger] clients.contains_key(c) ==> c < next
}

/// Each path belongs to one client, which lists it; a client lists only
/// paths that belong to it; every path ID is below `next`.
pub open spec fn paths_owned(clients: Map<u32, ClientState>, paths: Map<u32, ActivePath>, next: nat) -> bool {
    &&& forall|p: u32| #[trigger] paths.contains_key(p)
        ==> clients.contains_key(paths[p].client.0)
            && clients[paths[p].client.0].active_paths@.contains(PathID(p))
    &&& forall|c: u32, i: int| #![trigger clients[c].active_paths@[i]]
        clients.contains_key(c) && 0 <= i < clients[c].active_paths@.len()
            ==> paths.contains_key(clients[c].active_paths@[i].0)
                && paths[clients[c].active_paths@[i].0].client == ClientID(c)
    &&& forall|p: u32| #[trigger] paths.contains_key(p) ==> p < next
    &&& forall|c: u32| #[trigger] clients.contains_key(c) ==> clients[c].active_paths@.no_duplicates()
}

/// The state of one board.
pub struct Board {
    client_ids: Vec<ClientID>,
    clients: scc::HashMap<u32, ClientState>,
    canvas: ActiveCanvas,
    selected_items: scc::HashMap<u32, Option<ClientID>>,
    active_paths: scc::HashMap<u32, ActivePath>,
    client_counter: CounterU64,
    path_counter: CounterU64,
}

impl Board {
    /// The canvas.
    pub closed spec fn canvas(&self) -> ActiveCanvas {
        self.canvas
    }

    /// The selection index: for each item, the client that has selected it.
    pub closed spec fn owners(&self) -> Map<u32, Option<ClientID>> {
        owner_table(self.selected_items)
    }

    /// The clients, keyed by ID.
    pub closed spec fn clients(&self) -> Map<u32, ClientState> {
        client_table(self.clients)
    }

    /// The paths being drawn, keyed by ID.
    pub closed spec fn paths(&self) -> Map<u32, ActivePath> {
        path_table(self.active_paths)
    }

    /// The client IDs in ascending order.
    pub closed spec fn client_order(&self) -> Seq<ClientID> {
        self.client_ids@
    }

    /// The next client and path IDs to be handed out.
    pub closed spec fn next_ids(&self) -> (nat, nat) {
        (self.client_counter@, self.path_counter@)
    }

    /// Whether a new client ID can still be handed out.
    pub open spec fn can_add_client(&self) -> bool {
        self.next_ids().0 < u32::MAX
    }

    /// The clients that a broadcast reaches, in broadcast order.
    pub open spec fn attached_clients(&self) -> Seq<ClientID> {
        attached(self.client_order(), self.clients())
    }

    /// The board's parts agree with one another.
    pub closed spec fn wf(&self) -> bool {
        &&& self.canvas.wf()
        &&& self.owners().dom() == self.canvas@.dom()
        &&& selections_owned(self.clients(), self.owners())
        &&& clients_listed(self.client_ids@, self.clients(), self.client_counter@)
        &&& paths_owned(self.clients(), self.paths(), self.path_counter@)
    }

    /// A board around `canvas`, with no clients, nothing selected and no
    /// paths; client IDs start at 0 and path IDs at 1.
    pub fn new_from_canvas(canvas: ActiveCanvas) -> (r: Self)
        requires
            canvas.wf(),
        ensures
            r.wf(),
            r.canvas() == canvas,
            r.clients().dom() == Set::<u32>::empty(),
            r.paths().dom() == Set::<u32>::empty(),
            r.client_order() == Seq::<ClientID>::empty(),
            r.next_ids() == (0nat, 1nat),
            r.owners().dom() == canvas@.dom(),
            forall|k: u32| #[trigger] r.owners().contains_key(k) ==> r.owners()[k] is None,
    {
        Board::from_parts(canvas, CounterU64::new(), CounterU64::starting_at(1))
    }

    /// A board whose workers have stopped, started again from its canvas:
    /// no clients, nothing selected and no paths, while the client and path
    /// IDs go on from where they were, so none is handed out twice.
    pub fn rebuild(self) -> (r: Self)
        requires
            self.wf(),
        ensures
            r.wf(),
            r.canvas() == self.canvas(),
            r.clients().dom() == Set::<u32>::empty(),
            r.paths().dom() == Set::<u32>::empty(),
            r.client_order() == Seq::<ClientID>::empty(),
            r.next_ids() == self.next_ids(),
            r.owners().dom() == self.canvas()@.dom(),
            forall|k: u32| #[trigger] r.owners().contains_key(k) ==> r.owners()[k] is None,
    {
        Board::from_parts(self.canvas, self.client_counter, self.path_counter)
    }

    fn from_parts(canvas: ActiveCanvas, client_counter: CounterU64, path_counter: CounterU64) -> (r: Self)
        requires
            canvas.wf(),
        ensures
            r.wf(),
            r.canvas() == canvas,
            r.clients().dom() == Set::<u32>::empty(),
            r.paths().dom() == Set::<u32>::empty(),
            r.client_order() == Seq::<ClientID>::empty(),
            r.next_ids() == (client_counter@, path_counter@),
            r.owners().dom() == canvas@.dom(),
            forall|k: u32| #[trigger] r.owners().contains_key(k) ==> r.owners()[k] is None,
    {
        let ids = canvas.get_item_ids();
        let mut selected_items = owners_new();
        let mut i: usize = 0;
        while i < ids.len()
            invariant
                canvas.wf(),
                ids@ == canvas.ids(),
                i <= ids.len(),
                forall|k: u32| #[trigger] owner_table(selected_items).contains_key(k)
                    <==> exists|j: int| 0 <= j < i && ids@[j].0 == k,
                forall|k: u32| #[trigger] owner_table(selected_items).contains_key(k)
                    ==> owner_table(selected_items)[k] is None,
            decreases ids.len() - i,
        {
            owners_upsert(&mut selected_items, ids[i].0, None);
            i = i + 1;
            proof {
                assert forall|k: u32| (exists|j: int| 0 <= j < i && ids@[j].0 == k) implies #[trigger] owner_table(selected_items).contains_key(k) by {
                    {
                        let j = choose|j: int| 0 <= j < i && ids@[j].0 == k;
                        if j < i - 1 {
                            assert(exists|j2: int| 0 <= j2 < i - 1 && ids@[j2].0 == k);
                        }
                    }
                }
            }
        }
        let r = Board {
            client_ids: Vec::new(),
            clients: clients_new(),
            canvas,
            selected_items,
            active_paths: paths_new(),
            client_counter,
            path_counter,
        };
        proof {
            canvas.lemma_keys();
            assert forall|k: u32| r.owners().dom().contains(k) <==> r.canvas@.dom().contains(k) by {
                assert(owner_table(selected_items).contains_key(k) <==> crate::canvas::lists_id(canvas.ids(), k));
            }
            assert(r.owners().dom() =~= r.canvas@.dom());
        }
        r
    }
}


/// Whether `o` is one message `msg` for the clients `to`, in that order.
pub open spec fn is_broadcast(o: Outgoing, to: Seq<ClientID>, msg: MsgSend) -> bool {
    o matches Outgoing::Broadcast(r, m) && r@ == to && m == msg
}

/// Whether `new` is `old` followed by one broadcast of `msg` to `to`.
pub open spec fn broadcast_appended(old: Seq<Outgoing>, new: Seq<Outgoing>, to: Seq<ClientID>, msg: MsgSend) -> bool {
    &&& new.len() == old.len() + 1
    &&& new.subrange(0, old.len() as int) == old
    &&& is_broadcast(new[old.len() as int], to, msg)
}

impl Board {
    /// Client `id` as a recipient, where it has a socket attached.
    pub open spec fn link_of(&self, id: ClientID) -> Option<ClientID> {
        if self.clients().contains_key(id.0) && self.clients()[id.0].connected {
            Some(id)
        } else {
            None
        }
    }

    /// The calling client, as a recipient, where it has a socket attached.
    pub fn get_handle(&self, id: ClientID) -> (r: Option<ClientID>)
        ensures
            r == self.link_of(id),
    {
        match clients_connected(&self.clients, id.0) {
            Some(true) => Some(id),
            _ => None,
        }
    }

    /// Sends `msg` once to every attached client, in ascending client order.
    pub fn send_notify_c<N: NotifyCType>(&self, msg: N, out: &mut Vec<Outgoing>)
        requires
            self.wf(),
        ensures
            broadcast_appended(old(out)@, final(out)@, self.attached_clients(), MsgSend::NotifyC(msg.spec_notify())),
    {
        let notify = msg.as_notify();
        let mut to: Vec<ClientID> = Vec::new();
        let mut i: usize = 0;
        let ghost f = |c: ClientID| self.clients().contains_key(c.0) && self.clients()[c.0].connected;
        while i < self.client_ids.len()
            invariant
                i <= self.client_ids.len(),
                f == (|c: ClientID| self.clients().contains_key(c.0) && self.clients()[c.0].connected),
                to@ == self.client_ids@.subrange(0, i as int).filter(f),
            decreases self.client_ids.len() - i,
        {
            let c = self.client_ids[i];
            let connected = clients_connected(&self.clients, c.0);
            if let Some(true) = connected {
                to.push(c);
            }
            proof {
                reveal(Seq::filter);
                assert(self.client_ids@.subrange(0, i + 1).drop_last() =~= self.client_ids@.subrange(0, i as int));
            }
            i = i + 1;
        }
        assert(self.client_ids@.subrange(0, i as int) =~= self.client_ids@);
        out.push(Outgoing::Broadcast(to, notify.as_msg()));
        assert(final(out)@.subrange(0, old(out)@.len() as int) =~= old(out)@);
    }

    /// Whether the item is selected by `id`; otherwise warns through
    /// `handle` that it does not exist or belongs to someone else.
    pub fn check_owned<H: Handle>(&self, id: ClientID, handle: &H, item_id: ItemID, out: &mut Vec<Outgoing>) -> (r: bool)
        ensures
            r == (self.owners().contains_key(item_id.0) && self.owners()[item_id.0] == Some(id)),
            !self.owners().contains_key(item_id.0) ==> final(out)@ == old(out)@ + handle.warning(non_existent_reason(item_id)),
            self.owners().contains_key(item_id.0) && !r ==> final(out)@ == old(out)@ + handle.warning(not_owned_reason(item_id)),
            r ==> final(out)@ == old(out)@,
    {
        match owners_read(&self.selected_items, item_id.0) {
            Some(owner) => {
                if owner == Some(id) {
                    true
                } else {
                    handle.send_warn(resource_not_owned(item_id), out);
                    false
                }
            },
            None => {
                handle.send_warn(non_existent_id(item_id), out);
                false
            },
        }
    }

    /// Attempts to give the item to client `id`; warns through `handle`
    /// where the item does not exist.
    pub fn take_item<H: Handle>(&mut self, id: ClientID, handle: &H, item_id: ItemID, out: &mut Vec<Outgoing>) -> (r: TakeResult)
        requires
            old(self).wf(),
        ensures
            final(self).wf(),
            r == TakeResult::NonExistent <==> !old(self).owners().contains_key(item_id.0),
            r == TakeResult::Successful <==> old(self).owners().contains_key(item_id.0) && old(self).owners()[item_id.0] is None,
            r == TakeResult::AlreadyOwned <==> old(self).owners().contains_key(item_id.0) && old(self).owners()[item_id.0] == Some(id),
            r == TakeResult::Occupied <==> old(self).owners().contains_key(item_id.0)
                && old(self).owners()[item_id.0] is Some && old(self).owners()[item_id.0] != Some(id),
            r == TakeResult::Successful ==> final(self).owners() == old(self).owners().insert(item_id.0, Some(id)),
            r != TakeResult::Successful ==> final(self).owners() == old(self).owners(),
            r == TakeResult::NonExistent ==> final(out)@ == old(out)@ + handle.warning(non_existent_reason(item_id)),
            r != TakeResult::NonExistent ==> final(out)@ == old(out)@,
            final(self).canvas() == old(self).canvas(),
            final(self).clients() == old(self).clients(),
            final(self).paths() == old(self).paths(),
            final(self).client_order() == old(self).client_order(),
            final(self).next_ids() == old(self).next_ids(),
    {
        match owners_read(&self.selected_items, item_id.0) {
            None => {
                handle.send_warn(non_existent_id(item_id), out);
                TakeResult::NonExistent
            },
            Some(None) => {
                owners_upsert(&mut self.selected_items, item_id.0, Some(id));
                proof {
                    assert(self.owners().dom() =~= old(self).owners().dom());
                    assert forall|c: u32, k: u32| #[trigger] self.clients().contains_key(c)
                        && #[trigger] self.clients()[c].selection@.contains_key(k)
                        implies self.owners().contains_key(k) && self.owners()[k] == Some(ClientID(c)) by {
                        assert(old(self).clients().contains_key(c));
                        assert(old(self).clients()[c].selection@.contains_key(k));
                        assert(old(self).owners()[k] == Some(ClientID(c)));
                    }
                }
                TakeResult::Successful
            },
            Some(Some(owner)) => {
                if owner == id {
                    TakeResult::AlreadyOwned
                } else {
                    TakeResult::Occupied
                }
            },
        }
    }
}


/// Whether `new` is `old`, then the messages `first`, then one broadcast of
/// `msg` to `to`.
pub open spec fn then_broadcast(
    old: Seq<Outgoing>,
    new: Seq<Outgoing>,
    first: Seq<Outgoing>,
    to: Seq<ClientID>,
    msg: MsgSend,
) -> bool {
    &&& new.len() == old.len() + first.len() + 1
    &&& new.subrange(0, (old.len() + first.len()) as int) == old + first
    &&& is_broadcast(new[(old.len() + first.len()) as int], to, msg)
}

proof fn lemma_then_broadcast(a: Seq<Outgoing>, b: Seq<Outgoing>, c: Seq<Outgoing>, first: Seq<Outgoing>, to: Seq<ClientID>, msg: MsgSend)
    requires
        b == a + first,
        broadcast_appended(b, c, to, msg),
    ensures
        then_broadcast(a, c, first, to, msg),
{
}

impl Board {
    /// Registers a new client with a fresh client ID and the given session
    /// ID, and announces it to the attached clients.
    pub fn handle_session_request(&mut self, info: ClientInfo, session_id: SessionID, out: &mut Vec<Outgoing>) -> (r: ConnectionInfo)
        requires
            old(self).wf(),
            old(self).can_add_client(),
        ensures
            final(self).wf(),
            session_request_done(*old(self), *final(self), info, session_id, r, old(out)@, final(out)@),
    {
        let client_id = ClientID::new(&mut self.client_counter);
        let client = ClientState {
            info: info.clone(),
            connected: false,
            active_paths: Vec::new(),
            selection: SelectionState::new(),
        };
        proof {
            assert(!old(self).clients().contains_key(client_id.0));
        }
        clients_upsert(&mut self.clients, client_id.0, client);
        self.client_ids.push(client_id);
        proof {
            let order = self.client_ids@;
            let old_order = old(self).client_ids@;
            assert forall|i: int, j: int| 0 <= i < j < order.len() implies order[i].0 < order[j].0 by {
                if j == order.len() - 1 {
                    assert(old_order[i] == order[i]);
                    assert(old(self).clients().contains_key(order[i].0));
                }
            }
            assert forall|c: u32| self.clients().contains_key(c)
                <==> exists|i: int| 0 <= i < order.len() && order[i].0 == c by {
                if c == client_id.0 {
                    assert(order[order.len() - 1].0 == c);
                } else {
                    if old(self).clients().contains_key(c) {
                        let i = choose|i: int| 0 <= i < old_order.len() && old_order[i].0 == c;
                        assert(order[i] == old_order[i]);
                    }
                    if exists|i: int| 0 <= i < order.len() && order[i].0 == c {
                        let i = choose|i: int| 0 <= i < order.len() && order[i].0 == c;
                        assert(old_order[i] == order[i]);
                    }
                }
            }
            assert forall|c: u32, k: u32| #[trigger] self.clients().contains_key(c)
                && #[trigger] self.clients()[c].selection@.contains_key(k)
                implies self.owners().contains_key(k) && self.owners()[k] == Some(ClientID(c)) by {
                if c != client_id.0 {
                    assert(old(self).clients().contains_key(c));
                }
            }
            assert(paths_owned(self.clients(), self.paths(), self.path_counter@)) by {
                assert forall|p: u32| #[trigger] self.paths().contains_key(p)
                    implies self.clients().contains_key(self.paths()[p].client.0)
                    && self.clients()[self.paths()[p].client.0].active_paths@.contains(PathID(p)) by {
                    assert(old(self).clients().contains_key(old(self).paths()[p].client.0));
                }
                assert forall|c: u32, i: int| #![trigger self.clients()[c].active_paths@[i]]
                    self.clients().contains_key(c) && 0 <= i < self.clients()[c].active_paths@.len()
                    implies self.paths().contains_key(self.clients()[c].active_paths@[i].0)
                        && self.paths()[self.clients()[c].active_paths@[i].0].client == ClientID(c) by {
                    assert(old(self).clients()[c] == self.clients()[c]);
                }
            }
            assert(self.clients() =~= old(self).clients().insert(client_id.0, self.clients()[client_id.0]));
        }
        let connection = ConnectionInfo { client_id, session_id };
        self.send_notify_c(ClientJoined { id: client_id, info }, out);
        connection
    }

    /// Marks client `id` as attached or detached.
    pub fn set_connected(&mut self, id: ClientID, connected: bool)
        requires
            old(self).wf(),
            old(self).clients().contains_key(id.0),
        ensures
            final(self).wf(),
            connection_set_done(*old(self), *final(self), id, connected),
    {
        let mut client = clients_read(&self.clients, id.0).unwrap();
        client.connected = connected;
        clients_upsert(&mut self.clients, id.0, client);
        proof {
            assert forall|k: u32| #[trigger] self.clients()[id.0].selection@.contains_key(k)
                implies self.owners().contains_key(k) && self.owners()[k] == Some(id) by {
                assert(old(self).clients()[id.0].selection@.contains_key(k));
            }
            self.lemma_client_update(*old(self), id.0);
        }
    }

    /// A board that differs from a well-formed one in the state of client
    /// `c` (not its paths), and in index entries that no other client held,
    /// is well formed when the index gives `c` every item of its selection.
    proof fn lemma_client_update(&self, prev: Board, c: u32)
        requires
            prev.wf(),
            self.canvas.wf(),
            self.owners().dom() == self.canvas@.dom(),
            prev.clients().contains_key(c),
            self.clients() == prev.clients().insert(c, self.clients()[c]),
            self.clients()[c].active_paths@ == prev.clients()[c].active_paths@,
            self.clients()[c].selection.wf(),
            forall|k: u32| #[trigger] self.clients()[c].selection@.contains_key(k)
                ==> self.owners().contains_key(k) && self.owners()[k] == Some(ClientID(c)),
            forall|k: u32| #[trigger] prev.owners().contains_key(k) && prev.owners()[k] is Some
                && prev.owners()[k] != Some(ClientID(c))
                ==> self.owners().contains_key(k) && self.owners()[k] == prev.owners()[k],
            self.paths() == prev.paths(),
            self.client_order() == prev.client_order(),
            self.next_ids() == prev.next_ids(),
        ensures
            self.wf(),
    {
        assert(self.clients().dom() =~= prev.clients().dom());
        assert forall|c2: u32, k: u32| #[trigger] self.clients().contains_key(c2)
            && #[trigger] self.clients()[c2].selection@.contains_key(k)
            implies self.owners().contains_key(k) && self.owners()[k] == Some(ClientID(c2)) by {
            if c2 != c {
                assert(prev.clients().contains_key(c2));
                assert(prev.clients()[c2].selection@.contains_key(k));
                assert(prev.owners()[k] == Some(ClientID(c2)));
            }
        }
        assert forall|c2: u32| #[trigger] self.clients().contains_key(c2) implies self.clients()[c2].selection.wf() by {
            assert(prev.clients().contains_key(c2));
        }
        assert forall|p: u32| #[trigger] self.paths().contains_key(p)
            implies self.clients().contains_key(self.paths()[p].client.0)
            && self.clients()[self.paths()[p].client.0].active_paths@.contains(PathID(p)) by {
            assert(prev.clients().contains_key(prev.paths()[p].client.0));
        }
        assert forall|c2: u32, i: int| #![trigger self.clients()[c2].active_paths@[i]]
            self.clients().contains_key(c2) && 0 <= i < self.clients()[c2].active_paths@.len()
            implies self.paths().contains_key(self.clients()[c2].active_paths@[i].0)
                && self.paths()[self.clients()[c2].active_paths@[i].0].client == ClientID(c2) by {
            assert(prev.clients()[c2].active_paths@[i] == self.clients()[c2].active_paths@[i]);
        }
        assert forall|c2: u32| self.clients().contains_key(c2)
            <==> exists|i: int| 0 <= i < self.client_ids@.len() && self.client_ids@[i].0 == c2 by {
            assert(self.clients().contains_key(c2) == prev.clients().contains_key(c2));
        }
    }
}

/// The effect of a session request that returned `r`.
pub open spec fn session_request_done(b0: Board, b1: Board, info: ClientInfo, session_id: SessionID, r: ConnectionInfo, o0: Seq<Outgoing>, o1: Seq<Outgoing>) -> bool {
    &&& crate::ids::allocation(b0.next_ids().0, b1.next_ids().0, r.client_id.0 as nat)
    &&& r.session_id == session_id
    &&& b1.clients()[r.client_id.0].selection.own_transform == identity_transform()
    &&& !b0.clients().contains_key(r.client_id.0)
    &&& b1.clients() == b0.clients().insert(r.client_id.0, b1.clients()[r.client_id.0])
    &&& b1.clients()[r.client_id.0].info == info
    &&& !b1.clients()[r.client_id.0].connected
    &&& b1.clients()[r.client_id.0].active_paths@.len() == 0
    &&& b1.clients()[r.client_id.0].selection@.dom() == Set::<u32>::empty()
    &&& b1.client_order() == b0.client_order().push(r.client_id)
    &&& b1.canvas() == b0.canvas()
    &&& b1.owners() == b0.owners()
    &&& b1.paths() == b0.paths()
    &&& b1.next_ids() == (b0.next_ids().0 + 1, b0.next_ids().1)
    &&& broadcast_appended(o0, o1, b1.attached_clients(),
                    MsgSend::NotifyC(NotifyC::ClientJoined(ClientJoined { id: r.client_id, info })))
}

/// The effect of marking client `id` as attached or detached.
pub open spec fn connection_set_done(b0: Board, b1: Board, id: ClientID, connected: bool) -> bool {
    &&& b1.clients() == b0.clients().insert(id.0, b1.clients()[id.0])
    &&& b1.clients()[id.0].connected == connected
    &&& b1.clients()[id.0].info == b0.clients()[id.0].info
    &&& b1.clients()[id.0].active_paths@ == b0.clients()[id.0].active_paths@
    &&& b1.clients()[id.0].selection.items@ == b0.clients()[id.0].selection.items@
    &&& b1.clients()[id.0].selection.own_transform == b0.clients()[id.0].selection.own_transform
    &&& b1.client_order() == b0.client_order()
    &&& b1.canvas() == b0.canvas()
    &&& b1.owners() == b0.owners()
    &&& b1.paths() == b0.paths()
    &&& b1.next_ids() == b0.next_ids()
}

/// The effect of a `create_item` call from client `id`.
pub open spec fn create_item_done(b0: Board, b1: Board, id: ClientID, call: Call<CreateItem>, o0: Seq<Outgoing>, o1: Seq<Outgoing>) -> bool {
    let r = ItemID(b0.canvas().next_id() as u32);
    &&& crate::ids::allocation(b0.canvas().next_id(), b1.canvas().next_id(), r.0 as nat)
    &&& !b0.canvas()@.contains_key(r.0)
    &&& b1.canvas()@ == b0.canvas()@.insert(r.0, call.params.item@)
    &&& b1.canvas().ids() == b0.canvas().ids().push(r)
    &&& b1.owners() == b0.owners().insert(r.0, None)
    &&& b1.clients() == b0.clients()
    &&& b1.paths() == b0.paths()
    &&& b1.client_order() == b0.client_order()
    &&& b1.next_ids() == b0.next_ids()
    &&& then_broadcast(o0, o1,
                    direct_to(b0.link_of(id), MsgSend::Response(Responses::CreateItem(Response { id: call.id, value: r }))),
                    b1.attached_clients(),
                    MsgSend::NotifyC(NotifyC::ItemCreated(ItemCreated { id: r, client: id, item: call.params.item })))
}

/// The effect of an `edit_single_item` call from client `id`.
pub open spec fn edit_single_item_done(b0: Board, b1: Board, id: ClientID, call: Call<EditSingleItem>, o0: Seq<Outgoing>, o1: Seq<Outgoing>) -> bool {
    &&& ({
                    let item_id = call.params.item_id;
                    let link = b0.link_of(id);
                    if !b0.owners().contains_key(item_id.0) {
                        &&& b1 == b0
                        &&& o1 == o0 + direct_to(link, reject_msg(EditSingleItem::protocol(), call.id, RejectLevel::Error, non_existent_reason(item_id)))
                    } else if b0.owners()[item_id.0] != Some(id) {
                        &&& b1 == b0
                        &&& o1 == o0 + direct_to(link, reject_msg(EditSingleItem::protocol(), call.id, RejectLevel::Error, not_owned_reason(item_id)))
                    } else {
                        &&& b1.canvas()@ == b0.canvas()@.insert(item_id.0, call.params.item@)
                        &&& b1.canvas().ids() == b0.canvas().ids()
                        &&& b1.owners() == b0.owners()
                        &&& b1.clients() == b0.clients()
                        &&& b1.paths() == b0.paths()
                        &&& b1.client_order() == b0.client_order()
                        &&& then_broadcast(o0, o1,
                            direct_to(link, MsgSend::Response(Responses::EditSingleItem(Response { id: call.id, value: message::Result::Success(()) }))),
                            b1.attached_clients(),
                            MsgSend::NotifyC(NotifyC::SingleItemEdited(SingleItemEdited { id: item_id, item: call.params.item })))
                    }
                })
}

/// The effect of a `get_all_item_ids` call from client `id`.
pub open spec fn get_all_item_ids_done(b: Board, id: ClientID, call: Call<GetAllItemIDs>, o0: Seq<Outgoing>, o1: Seq<Outgoing>) -> bool {
    &&& replied(o0, o1, b.link_of(id), |m: MsgSend|
                    m matches MsgSend::Response(Responses::GetAllItemIDs(r)) && r.id == call.id && r.value@ == b.canvas().ids())
}

/// The effect of a `get_all_client_ids` call from client `id`.
pub open spec fn get_all_client_ids_done(b: Board, id: ClientID, call: Call<GetAllClientIDs>, o0: Seq<Outgoing>, o1: Seq<Outgoing>) -> bool {
    &&& replied(o0, o1, b.link_of(id), |m: MsgSend|
                    m matches MsgSend::Response(Responses::GetAllClientIDs(r)) && r.id == call.id && r.value@ == b.client_order())
}

/// The effect of a `get_client_state` call from client `id`.
pub open spec fn get_client_state_done(b: Board, id: ClientID, call: Call<GetClientState>, o0: Seq<Outgoing>, o1: Seq<Outgoing>) -> bool {
    &&& ({
                    let target = call.params.client_id;
                    if b.clients().contains_key(target.0) {
                        replied(o0, o1, b.link_of(id), |m: MsgSend|
                            m matches MsgSend::Response(Responses::GetClientState(r)) && r.id == call.id
                                && r.value.info == b.clients()[target.0].info
                                && r.value.paths@ == b.clients()[target.0].active_paths@
                                && r.value.selected_items@ == b.clients()[target.0].selection.items@
                                && r.value.selection_transform == b.clients()[target.0].selection.own_transform)
                    } else {
                        o1 == o0 + direct_to(b.link_of(id),
                            reject_msg(GetClientState::protocol(), call.id, RejectLevel::Error, non_existent_reason(target)))
                    }
                })
}

/// The effect of a `selection_add_items` call from client `id`.
pub open spec fn selection_add_items_done(b0: Board, b1: Board, id: ClientID, call: Call<SelectionAddItems>, o0: Seq<Outgoing>, o1: Seq<Outgoing>) -> bool {
    &&& ({
                    let owners0 = b0.owners();
                    let p = call.params;
                    let kept = kept_sits(owners0, id, p.new_sits@);
                    let client0 = b0.clients()[id.0];
                    let client1 = b1.clients()[id.0];
                    let owned = owned_sits(owners0, id, p.old_sits@);
                    let changed = kept.len() > 0 || owned.len() > 0;
                    let link = b0.link_of(id);
                    let warnings = ownership_warnings(link, SelectionAddItems::protocol(), call.id, owners0, id, sit_ids(p.old_sits@))
                        + existence_warnings(link, SelectionAddItems::protocol(), call.id, owners0, sit_ids(p.new_sits@));
                    let reply = o1[o1.len() - if changed { 2int } else { 1int }];
                    &&& b1.owners() == taken_index(owners0, id, p.new_sits@)
                    &&& b1.canvas() == b0.canvas()
                    &&& b1.paths() == b0.paths()
                    &&& b1.client_order() == b0.client_order()
                    &&& b1.next_ids() == b0.next_ids()
                    &&& b1.clients() == b0.clients().insert(id.0, client1)
                    &&& client1.info == client0.info
                    &&& client1.connected == client0.connected
                    &&& client1.active_paths@ == client0.active_paths@
                    &&& client1.selection.own_transform == if changed { p.new_srt } else { client0.selection.own_transform }
                    &&& client1.selection@ == if changed { merged(merged(client0.selection@, kept), owned) } else { client0.selection@ }
                    &&& forall|k: u32| #[trigger] client1.selection@.contains_key(k)
                        <==> client0.selection@.contains_key(k) || holds_id(kept, k) || holds_id(owned, k)
                    &&& o1.subrange(0, o0.len() as int) == o0
                    &&& o1.len() == o0.len() + warnings.len()
                        + (if b0.link_of(id) is Some { 1int } else { 0int }) + (if changed { 1int } else { 0int })
                    &&& o1.subrange(o0.len() as int, (o0.len() + warnings.len()) as int) == warnings
                    &&& changed ==> o1.len() >= o0.len() + 1
                    &&& changed ==> (o1.last() matches Outgoing::Broadcast(to, MsgSend::NotifyC(NotifyC::SelectionItemsAdded(n)))
                        && to@ == b1.attached_clients() && n.id == id && n.new_srt == p.new_srt
                        && n.items@ == kept.map_values(|e: (ItemID, Transform)| e.0))
                    &&& !changed ==> b1.clients() == b0.clients()
                    &&& b0.link_of(id) is Some ==> o1.len() >= o0.len() + 1
                        && reply == Outgoing::Direct(id, MsgSend::Response(Responses::SelectionAddItems(
                            Response { id: call.id, value: reply->Direct_1->Response_0->SelectionAddItems_0.value })))
                        && reply->Direct_1->Response_0->SelectionAddItems_0.value@
                            == p.new_sits@.map_values(|e: (ItemID, Transform)| take_reply(take_outcome(owners0, id, e.0.0)))
                })
}

/// The effect of a `selection_remove_items` call from client `id`.
pub open spec fn selection_remove_items_done(b0: Board, b1: Board, id: ClientID, call: Call<SelectionRemoveItems>, o0: Seq<Outgoing>, o1: Seq<Outgoing>) -> bool {
    &&& ({
                    let (c, o, ids, clean, warns, locs) = removal(b0.canvas()@, b0.owners(), id, call.params.items@);
                    let link = b0.link_of(id);
                    let nw = if link is Some { warns.len() as int } else { 0int };
                    let client0 = b0.clients()[id.0];
                    let client1 = b1.clients()[id.0];
                    &&& b1.canvas()@ == c
                    &&& b1.canvas().ids() == b0.canvas().ids()
                    &&& b1.owners() == o
                    &&& b1.paths() == b0.paths()
                    &&& b1.client_order() == b0.client_order()
                    &&& b1.next_ids() == b0.next_ids()
                    &&& b1.clients() == b0.clients().insert(id.0, client1)
                    &&& client1.info == client0.info
                    &&& client1.connected == client0.connected
                    &&& client1.active_paths@ == client0.active_paths@
                    &&& client1.selection.own_transform == client0.selection.own_transform
                    &&& forall|k: u32| #[trigger] client1.selection@.contains_key(k)
                        <==> client0.selection@.contains_key(k) && !(exists|j: int| 0 <= j < ids.len() && ids[j].0 == k)
                    &&& o1.len() >= o0.len() + 1
                    &&& o1.subrange(0, o0.len() as int) == o0
                    &&& o1.len() == o0.len() + nw + 1 + (if link is Some { 1int } else { 0int })
                    &&& forall|j: int| 0 <= j < nw ==> is_removal_warning(#[trigger] o1[o0.len() + j], id, call.id, warns[j])
                    &&& o1.last() matches Outgoing::Broadcast(to, MsgSend::NotifyC(NotifyC::SelectionItemsRemoved(n)))
                        && to@ == b1.attached_clients() && n.id == id
                        && n.items@.map_values(|e: (ItemID, LocationUpdate)| e.0) == ids
                        && n.items@.map_values(|e: (ItemID, LocationUpdate)| e.1@) == locs
                    &&& b0.link_of(id) is Some ==> o1[o1.len() - 2] == Outgoing::Direct(id,
                        MsgSend::Response(Responses::SelectionRemoveItems(Response { id: call.id, value:
                            if clean { message::Result::Success(()) } else { message::Result::Failure(error_of(ErrorCode::BadData)) } })))
                })
}

/// The effect of a `selection_move` call from client `id`.
pub open spec fn selection_move_done(b0: Board, b1: Board, id: ClientID, call: Call<SelectionMove>, o0: Seq<Outgoing>, o1: Seq<Outgoing>) -> bool {
    &&& ({
                    let owners0 = b0.owners();
                    let p = call.params;
                    let client0 = b0.clients()[id.0];
                    let client1 = b1.clients()[id.0];
                    let moved = moved_sits(owners0, id, p.new_sits);
                    let link = b0.link_of(id);
                    let warnings = move_warnings(link, call.id, owners0, id, p.new_sits);
                    &&& b1.owners() == owners0
                    &&& b1.canvas() == b0.canvas()
                    &&& b1.paths() == b0.paths()
                    &&& b1.client_order() == b0.client_order()
                    &&& b1.next_ids() == b0.next_ids()
                    &&& b1.clients() == b0.clients().insert(id.0, client1)
                    &&& client1.info == client0.info
                    &&& client1.connected == client0.connected
                    &&& client1.active_paths@ == client0.active_paths@
                    &&& client1.selection.own_transform == p.new_srt
                    &&& client1.selection@ == merged(client0.selection@, moved)
                    &&& forall|k: u32| #[trigger] client1.selection@.contains_key(k)
                        <==> client0.selection@.contains_key(k) || holds_id(moved, k)
                    &&& o1.len() >= o0.len() + 1
                    &&& o1.subrange(0, o0.len() as int) == o0
                    &&& o1.len() == o0.len() + warnings.len() + 1 + (if link is Some { 1int } else { 0int })
                    &&& o1.subrange(o0.len() as int, (o0.len() + warnings.len()) as int) == warnings
                    &&& o1[o1.len() - 1 - direct_to(b0.link_of(id), MsgSend::Response(Responses::SelectionMove(Response { id: call.id, value: () }))).len()]
                        matches Outgoing::Broadcast(to, MsgSend::NotifyC(NotifyC::SelectionMoved(n)))
                        && to@ == b1.attached_clients() && n.id == id && n.transform == p.new_srt
                        && (n.new_sits is Some <==> p.new_sits is Some)
                        && (n.new_sits matches Some(v) ==> v@ == moved)
                    &&& b0.link_of(id) is Some ==> o1.last() == Outgoing::Direct(id,
                        MsgSend::Response(Responses::SelectionMove(Response { id: call.id, value: () })))
                })
}

/// The effect of a `delete_items` call from client `id`.
pub open spec fn delete_items_done(b0: Board, b1: Board, id: ClientID, call: Call<DeleteItems>, o0: Seq<Outgoing>, o1: Seq<Outgoing>) -> bool {
    &&& ({
                    let (o, removed) = deletion(b0.owners(), id, call.params.ids@);
                    let link = b0.link_of(id);
                    let warnings = deletion_warnings(link, call.id, b0.owners(), id, call.params.ids@);
                    let client0 = b0.clients()[id.0];
                    let client1 = b1.clients()[id.0];
                    &&& b1.owners() == o
                    &&& b1.canvas()@.dom() == o.dom()
                    &&& forall|k: u32| #[trigger] b1.canvas()@.contains_key(k) ==> b1.canvas()@[k] == b0.canvas()@[k]
                    &&& b1.paths() == b0.paths()
                    &&& b1.client_order() == b0.client_order()
                    &&& b1.next_ids() == b0.next_ids()
                    &&& b1.clients() == b0.clients().insert(id.0, client1)
                    &&& client1.info == client0.info
                    &&& client1.connected == client0.connected
                    &&& client1.active_paths@ == client0.active_paths@
                    &&& client1.selection.own_transform == client0.selection.own_transform
                    &&& forall|k: u32| #[trigger] client1.selection@.contains_key(k)
                        <==> client0.selection@.contains_key(k) && !(exists|j: int| 0 <= j < removed.len() && removed[j].0 == k)
                    &&& o1.len() >= o0.len() + 1
                    &&& o1.subrange(0, o0.len() as int) == o0
                    &&& o1.len() == o0.len() + warnings.len() + 1 + (if link is Some { 1int } else { 0int })
                    &&& o1.subrange(o0.len() as int, (o0.len() + warnings.len()) as int) == warnings
                    &&& o1.last() matches Outgoing::Broadcast(to, MsgSend::NotifyC(NotifyC::ItemsDeleted(n)))
                        && to@ == b1.attached_clients() && n.ids@ == removed
                    &&& b0.link_of(id) is Some ==> o1[o1.len() - 2] == Outgoing::Direct(id,
                        MsgSend::Response(Responses::DeleteItems(Response { id: call.id, value: () })))
                })
}

/// The effect of a `begin_path` call from client `id`.
pub open spec fn begin_path_done(b0: Board, b1: Board, id: ClientID, call: Call<BeginPath>, now: u64, o0: Seq<Outgoing>, o1: Seq<Outgoing>) -> bool {
    let r = PathID(b0.next_ids().1 as u32);
    &&& r.0 == b0.next_ids().1
    &&& crate::ids::allocation(b0.next_ids().1, b1.next_ids().1, r.0 as nat)
    &&& !b0.paths().contains_key(r.0)
    &&& b1.paths().dom() == b0.paths().dom().insert(r.0)
    &&& b1.paths().remove(r.0) == b0.paths()
    &&& b1.paths()[r.0].client == id
    &&& b1.paths()[r.0].nodes@.len() == 0
    &&& b1.paths()[r.0].listeners@.len() == 0
    &&& b1.paths()[r.0].stroke == call.params.stroke
    &&& b1.paths()[r.0].last_flush == now
    &&& b1.clients() == b0.clients().insert(id.0, b1.clients()[id.0])
    &&& b1.clients()[id.0].active_paths@ == b0.clients()[id.0].active_paths@.push(r)
    &&& b1.clients()[id.0].selection.items@ == b0.clients()[id.0].selection.items@
    &&& b1.clients()[id.0].selection.own_transform == b0.clients()[id.0].selection.own_transform
    &&& b1.clients()[id.0].info == b0.clients()[id.0].info
    &&& b1.clients()[id.0].connected == b0.clients()[id.0].connected
    &&& b1.canvas() == b0.canvas()
    &&& b1.owners() == b0.owners()
    &&& b1.client_order() == b0.client_order()
    &&& b1.next_ids() == (b0.next_ids().0, b0.next_ids().1 + 1)
    &&& then_broadcast(o0, o1,
                    direct_to(b0.link_of(id), MsgSend::Response(Responses::BeginPath(Response { id: call.id, value: r }))),
                    b1.attached_clients(),
                    MsgSend::NotifyC(NotifyC::PathStarted(PathStarted { client: id, stroke: call.params.stroke, path: r })))
}

/// The effect of a `continue_path` call from client `id`.
pub open spec fn continue_path_done(b0: Board, b1: Board, id: ClientID, call: Call<ContinuePath>, now: u64, o0: Seq<Outgoing>, o1: Seq<Outgoing>) -> bool {
    &&& ({
                    let p = call.params.path_id;
                    let link = b0.link_of(id);
                    if !b0.paths().contains_key(p.0) {
                        &&& b1 == b0
                        &&& o1 == o0 + direct_to(link, reject_msg(ContinuePath::protocol(), call.id, RejectLevel::Error, non_existent_reason(p)))
                    } else if b0.paths()[p.0].client != id {
                        &&& b1 == b0
                        &&& o1 == o0 + direct_to(link, reject_msg(ContinuePath::protocol(), call.id, RejectLevel::Error, not_owned_reason(p)))
                    } else {
                        let path0 = b0.paths()[p.0];
                        let path1 = b1.paths()[p.0];
                        let resp = direct_to(link, MsgSend::Response(Responses::ContinuePath(Response { id: call.id, value: () })));
                        let due = flush_due(path0.last_flush, now);
                        &&& b1.paths() == b0.paths().insert(p.0, path1)
                        &&& path1.client == id
                        &&& path1.nodes@ == path0.nodes@ + call.params.points@
                        &&& path1.stroke == path0.stroke
                        &&& path1.last_flush == if due { now } else { path0.last_flush }
                        &&& path1.listeners@.len() == path0.listeners@.len()
                        &&& forall|j: int| 0 <= j < path1.listeners@.len() ==> {
                            let (a, b) = (#[trigger] path1.listeners@[j], path0.listeners@[j]);
                            &&& a.id == b.id && a.client == b.client
                            &&& if due {
                                a.current_items@.len() == 0 && a.current_part == crate::iterate::next_part(b.current_part)
                            } else {
                                a.current_items@ == b.current_items@ + call.params.points@ && a.current_part == b.current_part
                            }
                        }
                        &&& b1.canvas() == b0.canvas()
                        &&& b1.owners() == b0.owners()
                        &&& b1.clients() == b0.clients()
                        &&& b1.client_order() == b0.client_order()
                        &&& b1.next_ids() == b0.next_ids()
                        &&& o1.len() >= o0.len() + resp.len()
                        &&& o1.subrange(0, (o0.len() + resp.len()) as int) == o0 + resp
                        &&& !due ==> o1 == o0 + resp
                        &&& due ==> parts_sent(o1.subrange((o0.len() + resp.len()) as int, o1.len() as int),
                            path0.listeners@, call.params.points@, false)
                    }
                })
}

/// The effect of an `end_path` call from client `id`.
pub open spec fn end_path_done(b0: Board, b1: Board, id: ClientID, call: Call<EndPath>, o0: Seq<Outgoing>, o1: Seq<Outgoing>) -> bool {
    &&& ({
                    let p = call.params.path_id;
                    let link = b0.link_of(id);
                    if !b0.paths().contains_key(p.0) {
                        &&& b1 == b0
                        &&& o1 == o0 + direct_to(link, reject_msg(EndPath::protocol(), call.id, RejectLevel::Error, non_existent_reason(p)))
                    } else if b0.paths()[p.0].client != id {
                        &&& b1 == b0
                        &&& o1 == o0 + direct_to(link, reject_msg(EndPath::protocol(), call.id, RejectLevel::Error, not_owned_reason(p)))
                    } else {
                        let path0 = b0.paths()[p.0];
                        let client0 = b0.clients()[id.0];
                        let client1 = b1.clients()[id.0];
                        let nid = ItemID(b0.canvas().next_id() as u32);
                        let made = path0.nodes@.len() > 0;
                        let tail = (if made { 1int } else { 0int }) + (if link is Some { 1int } else { 0int });
                        &&& b1.paths() == b0.paths().remove(p.0)
                        &&& b1.clients() == b0.clients().insert(id.0, client1)
                        &&& forall|x: PathID| #[trigger] client1.active_paths@.contains(x) <==> client0.active_paths@.contains(x) && x != p
                        &&& client1.selection.items@ == client0.selection.items@
                        &&& client1.selection.own_transform == client0.selection.own_transform
                        &&& client1.info == client0.info
                        &&& client1.connected == client0.connected
                        &&& b1.client_order() == b0.client_order()
                        &&& made ==> b1.canvas()@ == b0.canvas()@.insert(nid.0, path_item_view(path0))
                        &&& made ==> b1.owners() == b0.owners().insert(nid.0, None)
                        &&& made ==> !b0.canvas()@.contains_key(nid.0)
                        &&& made ==> b1.canvas().ids() == b0.canvas().ids().push(nid)
                        &&& made ==> crate::ids::allocation(b0.canvas().next_id(), b1.canvas().next_id(), nid.0 as nat)
                        &&& b1.next_ids() == b0.next_ids()
                        &&& !made ==> b1.canvas() == b0.canvas() && b1.owners() == b0.owners()
                        &&& o1.len() >= o0.len() + tail
                        &&& o1.subrange(0, o0.len() as int) == o0
                        &&& parts_sent(o1.subrange(o0.len() as int, o1.len() - tail), path0.listeners@, Seq::empty(), true)
                        &&& link is Some ==> o1.last() == Outgoing::Direct(id, MsgSend::Response(Responses::EndPath(Response {
                            id: call.id,
                            value: if made { message::Result::Success(nid) } else { message::Result::Failure(error_of(ErrorCode::EmptyPath)) },
                        })))
                        &&& made ==> (o1[o1.len() - 1 - (if link is Some { 1int } else { 0int })]
                            matches Outgoing::Broadcast(to, MsgSend::NotifyC(NotifyC::ItemCreated(n)))
                            && to@ == b1.attached_clients() && n.id == nid && n.client == id && n.item@ == path_item_view(path0))
                    }
                })
}

/// The effect of a `get_full_items` call from client `id`.
pub open spec fn get_full_items_done(b: Board, id: ClientID, call: IterateCall<GetFullItems>, o0: Seq<Outgoing>, o1: Seq<Outgoing>) -> bool {
    &&& b.link_of(id) is None ==> o1 == o0
    &&& b.link_of(id) is Some ==> ({
                    let new = o1.subrange(o0.len() as int, o1.len() as int);
                    let ids = call.params.ids@;
                    &&& o1.len() > o0.len()
                    &&& o1.subrange(0, o0.len() as int) == o0
                    &&& forall|j: int| 0 <= j < new.len() ==> is_full_items_part(#[trigger] new[j], id, call.id)
                    &&& forall|j: int| 0 <= j < new.len() ==> (is_complete_part(#[trigger] new[j]) <==> j == new.len() - 1)
                    &&& forall|j: int| 0 <= j < new.len() ==> part_of(#[trigger] new[j]) == capped(j)
                    &&& forall|j: int| 0 <= j < new.len() - 1 ==> part_items(#[trigger] new[j]).len() == FULL_ITEMS_PART
                    &&& part_items(new.last()).len() < FULL_ITEMS_PART
                    &&& concat_items(new).len() == ids.len()
                    &&& forall|j: int| 0 <= j < ids.len() ==> full_item_ok(#[trigger] concat_items(new)[j], b.canvas()@, ids[j])
                })
}

/// The effect of a `get_active_path` call from client `id`.
pub open spec fn get_active_path_done(b0: Board, b1: Board, id: ClientID, call: IterateCall<GetActivePath>, o0: Seq<Outgoing>, o1: Seq<Outgoing>) -> bool {
    &&& ({
                    let p = call.params.path;
                    let link = b0.link_of(id);
                    if !b0.paths().contains_key(p.0) {
                        &&& b1 == b0
                        &&& o1 == o0 + direct_to(link, reject_msg(GetActivePath::protocol(), call.id, RejectLevel::Error, non_existent_reason(p)))
                    } else {
                        let path0 = b0.paths()[p.0];
                        let path1 = b1.paths()[p.0];
                        let h = path1.listeners@.last();
                        &&& b1.paths() == b0.paths().insert(p.0, path1)
                        &&& path1.client == path0.client
                        &&& path1.nodes@ == path0.nodes@
                        &&& path1.stroke == path0.stroke
                        &&& path1.last_flush == path0.last_flush
                        &&& path1.listeners@.drop_last() == path0.listeners@
                        &&& path1.listeners@.len() == path0.listeners@.len() + 1
                        &&& h.id == call.id && h.client == link && h.current_part == 1 && h.current_items@.len() == 0
                        &&& b1.canvas() == b0.canvas()
                        &&& b1.owners() == b0.owners()
                        &&& b1.clients() == b0.clients()
                        &&& b1.client_order() == b0.client_order()
                        &&& b1.next_ids() == b0.next_ids()
                        &&& replied(o0, o1, link, |m: MsgSend|
                            m matches MsgSend::IterateResponse(IterateResponses::GetActivePath(r))
                                && r.id == call.id && !r.complete && r.part == 0 && r.items@ == path0.nodes@)
                    }
                })
}

/// The effect of an `edit_batch_items` call from client `id`.
pub open spec fn edit_batch_items_done(b: Board, id: ClientID, call: Call<EditBatchItems>, o0: Seq<Outgoing>, o1: Seq<Outgoing>) -> bool {
    &&& replied(o0, o1, b.link_of(id), |m: MsgSend|
                    m matches MsgSend::Response(Responses::EditBatchItems(r)) && r.id == call.id
                        && r.value@.len() == call.params.ids@.len()
                        && forall|j: int| 0 <= j < r.value@.len()
                            ==> #[trigger] r.value@[j] == message::Result::<(), Error>::Failure(error_of(ErrorCode::Internal)))
}

/// Whether an `EndPath` call of client `id` on path `p` may run: a new
/// item ID must be free where the call would create an item.
pub open spec fn end_path_allowed(b: Board, id: ClientID, p: PathID) -> bool {
    b.paths().contains_key(p.0) && b.paths()[p.0].client == id && b.paths()[p.0].nodes@.len() > 0
        ==> b.canvas().can_add()
}

/// Whether client `id` may make the method call `m`: it is registered, and
/// an ID is free for each call that hands one out.
pub open spec fn method_allowed(b: Board, id: ClientID, m: Methods) -> bool {
    &&& b.clients().contains_key(id.0)
    &&& m is CreateItem ==> b.canvas().can_add()
    &&& m is BeginPath ==> b.next_ids().1 < u32::MAX
    &&& m matches Methods::EndPath(c) ==> end_path_allowed(b, id, c.params.path_id)
}

/// The effect of method call `m` from client `id`: that of its handler.
pub open spec fn method_done(b0: Board, b1: Board, id: ClientID, m: Methods, now: u64, o0: Seq<Outgoing>, o1: Seq<Outgoing>) -> bool {
    match m {
        Methods::SelectionAddItems(c) => selection_add_items_done(b0, b1, id, c, o0, o1),
        Methods::SelectionRemoveItems(c) => selection_remove_items_done(b0, b1, id, c, o0, o1),
        Methods::SelectionMove(c) => selection_move_done(b0, b1, id, c, o0, o1),
        Methods::EditBatchItems(c) => b1 == b0 && edit_batch_items_done(b0, id, c, o0, o1),
        Methods::EditSingleItem(c) => edit_single_item_done(b0, b1, id, c, o0, o1),
        Methods::DeleteItems(c) => delete_items_done(b0, b1, id, c, o0, o1),
        Methods::CreateItem(c) => create_item_done(b0, b1, id, c, o0, o1),
        Methods::BeginPath(c) => begin_path_done(b0, b1, id, c, now, o0, o1),
        Methods::ContinuePath(c) => continue_path_done(b0, b1, id, c, now, o0, o1),
        Methods::EndPath(c) => end_path_done(b0, b1, id, c, o0, o1),
        Methods::GetAllItemIDs(c) => b1 == b0 && get_all_item_ids_done(b0, id, c, o0, o1),
        Methods::GetAllClientIDs(c) => b1 == b0 && get_all_client_ids_done(b0, id, c, o0, o1),
        Methods::GetClientState(c) => b1 == b0 && get_client_state_done(b0, id, c, o0, o1),
    }
}

/// The effect of streamed call `call` from client `id`: that of its handler.
pub open spec fn iterate_done(b0: Board, b1: Board, id: ClientID, call: Iterates, o0: Seq<Outgoing>, o1: Seq<Outgoing>) -> bool {
    match call {
        Iterates::GetFullItems(c) => b1 == b0 && get_full_items_done(b0, id, c, o0, o1),
        Iterates::GetActivePath(c) => get_active_path_done(b0, b1, id, c, o0, o1),
    }
}

/// Whether board message `msg` may be applied: its client is registered,
/// and the IDs it may hand out are free.
pub open spec fn message_allowed(b: Board, msg: BoardMessage) -> bool {
    match msg {
        BoardMessage::ClientMessage(c, MsgRecv::Method(m)) => method_allowed(b, c, m),
        BoardMessage::ClientMessage(c, MsgRecv::Iterate(_)) => b.clients().contains_key(c.0),
        BoardMessage::SessionRequest(_, _) => b.can_add_client(),
        BoardMessage::ClientConnected(c) => b.clients().contains_key(c.0),
        BoardMessage::ClientDisconnected(c) => b.clients().contains_key(c.0),
    }
}

/// The effect of board message `msg`, which returned `r`.
pub open spec fn message_done(
    b0: Board,
    b1: Board,
    msg: BoardMessage,
    now: u64,
    r: Option<ConnectionInfo>,
    o0: Seq<Outgoing>,
    o1: Seq<Outgoing>,
) -> bool {
    match msg {
        BoardMessage::ClientMessage(c, MsgRecv::Method(m)) => r is None && method_done(b0, b1, c, m, now, o0, o1),
        BoardMessage::ClientMessage(c, MsgRecv::Iterate(it)) => r is None && iterate_done(b0, b1, c, it, o0, o1),
        BoardMessage::SessionRequest(info, sid) => r matches Some(ci) && session_request_done(b0, b1, info, sid, ci, o0, o1),
        BoardMessage::ClientConnected(c) => r is None && o1 == o0 && connection_set_done(b0, b1, c, true),
        BoardMessage::ClientDisconnected(c) => r is None && o1 == o0 && connection_set_done(b0, b1, c, false),
    }
}

/// Whether `new` is `old` with, where `to` is a recipient, one direct
/// message appended for it that satisfies `p`.
pub open spec fn replied(old: Seq<Outgoing>, new: Seq<Outgoing>, to: Option<ClientID>, p: spec_fn(MsgSend) -> bool) -> bool {
    match to {
        None => new == old,
        Some(c) => {
            &&& new.len() == old.len() + 1
            &&& new.subrange(0, old.len() as int) == old
            &&& new[old.len() as int] matches Outgoing::Direct(d, m) && d == c && p(m)
        },
    }
}

impl Board {
    /// Adds the call's item to the canvas, unselected, answers with its ID
    /// and announces it.
    pub fn handle_create_item(&mut self, id: ClientID, call: Call<CreateItem>, out: &mut Vec<Outgoing>) -> (r: ItemID)
        requires
            old(self).wf(),
            old(self).canvas().can_add(),
        ensures
            final(self).wf(),
            r == ItemID(old(self).canvas().next_id() as u32),
            create_item_done(*old(self), *final(self), id, call, old(out)@, final(out)@),
    {
        let (params, handle) = call.create_handle(self.get_handle(id));
        let ghost out0 = out@;
        let item_id = self.canvas.add_item(params.item.clone());
        owners_upsert(&mut self.selected_items, item_id.0, None);
        proof {
            self.canvas.lemma_keys();
            assert(self.owners().dom() =~= self.canvas@.dom());
            assert forall|c: u32, k: u32| #[trigger] self.clients().contains_key(c)
                && #[trigger] self.clients()[c].selection@.contains_key(k)
                implies self.owners().contains_key(k) && self.owners()[k] == Some(ClientID(c)) by {
                assert(old(self).owners().contains_key(k));
            }
        }
        handle.respond(item_id, out);
        let ghost out1 = out@;
        self.send_notify_c(ItemCreated { id: item_id, client: id, item: params.item }, out);
        proof {
            lemma_then_broadcast(out0, out1, out@, direct_to(old(self).link_of(id),
                MsgSend::Response(Responses::CreateItem(Response { id: call.id, value: item_id }))),
                self.attached_clients(), MsgSend::NotifyC(NotifyC::ItemCreated(ItemCreated { id: item_id, client: id, item: params.item })));
        }
        item_id
    }

    /// Replaces an item that the caller has selected, answers `Ok` and
    /// announces the new item; rejects the call where the item does not
    /// exist or is not the caller's.
    pub fn handle_edit_single_item(&mut self, id: ClientID, call: Call<EditSingleItem>, out: &mut Vec<Outgoing>)
        requires
            old(self).wf(),
        ensures
            final(self).wf(),
            edit_single_item_done(*old(self), *final(self), id, call, old(out)@, final(out)@),
    {
        let (params, handle) = call.create_handle(self.get_handle(id));
        let selected = owners_read(&self.selected_items, params.item_id.0);
        match selected {
            None => {
                handle.error(non_existent_id(params.item_id), out);
                return;
            },
            Some(owner) => {
                if owner != Some(id) {
                    handle.error(resource_not_owned(params.item_id), out);
                    return;
                }
            },
        }
        let ghost out0 = out@;
        self.canvas.replace_item(params.item_id, params.item.clone());
        assert(self.canvas@.dom() =~= old(self).canvas@.dom());
        handle.ok((), out);
        let ghost out1 = out@;
        self.send_notify_c(SingleItemEdited { id: params.item_id, item: params.item }, out);
        proof {
            lemma_then_broadcast(out0, out1, out@, direct_to(old(self).link_of(id),
                MsgSend::Response(Responses::EditSingleItem(Response { id: call.id, value: message::Result::Success(()) }))),
                self.attached_clients(), MsgSend::NotifyC(NotifyC::SingleItemEdited(SingleItemEdited { id: params.item_id, item: params.item })));
        }
    }

    /// Answers with every item ID, ascending.
    pub fn handle_get_all_item_ids(&self, id: ClientID, call: Call<GetAllItemIDs>, out: &mut Vec<Outgoing>)
        ensures
            get_all_item_ids_done(*self, id, call, old(out)@, final(out)@),
    {
        let (_, handle) = call.create_handle(self.get_handle(id));
        let ids = self.canvas.get_item_ids();
        handle.respond(ids, out);
        assert(out@.subrange(0, old(out)@.len() as int) =~= old(out)@);
    }

    /// Answers with every client ID, ascending.
    pub fn handle_get_all_client_ids(&self, id: ClientID, call: Call<GetAllClientIDs>, out: &mut Vec<Outgoing>)
        ensures
            get_all_client_ids_done(*self, id, call, old(out)@, final(out)@),
    {
        let (_, handle) = call.create_handle(self.get_handle(id));
        let ids = copy_vec(&self.client_ids);
        handle.respond(ids, out);
        assert(out@.subrange(0, old(out)@.len() as int) =~= old(out)@);
    }

    /// Answers with a snapshot of the state of the requested client, or
    /// rejects the call where there is no such client.
    pub fn handle_get_client_state(&self, id: ClientID, call: Call<GetClientState>, out: &mut Vec<Outgoing>)
        ensures
            get_client_state_done(*self, id, call, old(out)@, final(out)@),
    {
        let (params, handle) = call.create_handle(self.get_handle(id));
        match clients_read(&self.clients, params.client_id.0) {
            None => handle.error(non_existent_id(params.client_id), out),
            Some(target) => {
                let result = ClientSnapshot {
                    info: target.info,
                    paths: target.active_paths,
                    selected_items: target.selection.items,
                    selection_transform: target.selection.own_transform,
                };
                handle.respond(result, out);
                assert(out@.subrange(0, old(out)@.len() as int) =~= old(out)@);
            },
        }
    }
}


/// The warnings sent while checking that client `id` holds each listed
/// item: one for each item that does not exist or is someone else's.
pub open spec fn ownership_warnings(
    link: Option<ClientID>,
    protocol: &'static str,
    call_id: u32,
    owners: Map<u32, Option<ClientID>>,
    id: ClientID,
    ids: Seq<ItemID>,
) -> Seq<Outgoing>
    decreases ids.len(),
{
    if ids.len() == 0 {
        Seq::empty()
    } else {
        let k = ids.last();
        ownership_warnings(link, protocol, call_id, owners, id, ids.drop_last()) + if !owners.contains_key(k.0) {
            direct_to(link, reject_msg(protocol, call_id, RejectLevel::Warning, non_existent_reason(k)))
        } else if owners[k.0] != Some(id) {
            direct_to(link, reject_msg(protocol, call_id, RejectLevel::Warning, not_owned_reason(k)))
        } else {
            Seq::empty()
        }
    }
}

/// The warnings sent while taking each listed item: one for each item
/// that does not exist.
pub open spec fn existence_warnings(
    link: Option<ClientID>,
    protocol: &'static str,
    call_id: u32,
    owners: Map<u32, Option<ClientID>>,
    ids: Seq<ItemID>,
) -> Seq<Outgoing>
    decreases ids.len(),
{
    if ids.len() == 0 {
        Seq::empty()
    } else {
        let k = ids.last();
        existence_warnings(link, protocol, call_id, owners, ids.drop_last()) + if !owners.contains_key(k.0) {
            direct_to(link, reject_msg(protocol, call_id, RejectLevel::Warning, non_existent_reason(k)))
        } else {
            Seq::empty()
        }
    }
}

/// The item IDs of a list of entries.
pub open spec fn sit_ids(sits: Seq<(ItemID, Transform)>) -> Seq<ItemID> {
    sits.map_values(|e: (ItemID, Transform)| e.0)
}

proof fn lemma_sit_ids_step(sits: Seq<(ItemID, Transform)>, i: int)
    requires
        0 <= i < sits.len(),
    ensures
        sit_ids(sits.subrange(0, i + 1)).drop_last() == sit_ids(sits.subrange(0, i)),
        sit_ids(sits.subrange(0, i + 1)).last() == sits[i].0,
        sit_ids(sits.subrange(0, i + 1)).len() == i + 1,
{
    assert(sit_ids(sits.subrange(0, i + 1)).drop_last() =~= sit_ids(sits.subrange(0, i)));
}

/// The entries of a selection move that the mover holds, in order.
pub open spec fn moved_sits(owners: Map<u32, Option<ClientID>>, id: ClientID, sits: Option<Vec<(ItemID, Transform)>>) -> Seq<(ItemID, Transform)> {
    match sits {
        Some(v) => owned_sits(owners, id, v@),
        None => Seq::empty(),
    }
}

/// The warnings of a selection move that lists `sits`, if it lists any.
pub open spec fn move_warnings(
    link: Option<ClientID>,
    call_id: u32,
    owners: Map<u32, Option<ClientID>>,
    id: ClientID,
    sits: Option<Vec<(ItemID, Transform)>>,
) -> Seq<Outgoing> {
    match sits {
        Some(v) => ownership_warnings(link, SelectionMove::protocol(), call_id, owners, id, sit_ids(v@)),
        None => Seq::empty(),
    }
}

/// The outcome of taking item `k` for client `id` under the index `owners`.
pub open spec fn take_outcome(owners: Map<u32, Option<ClientID>>, id: ClientID, k: u32) -> TakeResult {
    if !owners.contains_key(k) {
        TakeResult::NonExistent
    } else if owners[k] is None {
        TakeResult::Successful
    } else if owners[k] == Some(id) {
        TakeResult::AlreadyOwned
    } else {
        TakeResult::Occupied
    }
}

/// Whether item `k` ends up selected by `id` when taken: it exists and is
/// free or already `id`'s.
pub open spec fn take_kept(owners: Map<u32, Option<ClientID>>, id: ClientID, k: u32) -> bool {
    owners.contains_key(k) && (owners[k] is None || owners[k] == Some(id))
}

/// Whether item `k` is selected by `id` under the index `owners`.
pub open spec fn owned_by(owners: Map<u32, Option<ClientID>>, id: ClientID, k: u32) -> bool {
    owners.contains_key(k) && owners[k] == Some(id)
}

/// The answer to one requested item of a selection request.
pub open spec fn take_reply(r: TakeResult) -> message::Result<(), Error> {
    match r {
        TakeResult::Successful => message::Result::Success(()),
        TakeResult::AlreadyOwned => message::Result::Success(()),
        TakeResult::Occupied => message::Result::Failure(error_of(ErrorCode::NotAvailable)),
        TakeResult::NonExistent => message::Result::Failure(error_of(ErrorCode::NotFound)),
    }
}

/// The index after client `id` takes every free item listed in `sits`.
pub open spec fn taken_index(owners: Map<u32, Option<ClientID>>, id: ClientID, sits: Seq<(ItemID, Transform)>) -> Map<u32, Option<ClientID>> {
    Map::new(
        |k: u32| owners.contains_key(k),
        |k: u32| if owners[k] is None && holds_id(sits, k) { Some(id) } else { owners[k] },
    )
}

/// The entries of `sits` whose item `id` ends up holding.
pub open spec fn kept_sits(owners: Map<u32, Option<ClientID>>, id: ClientID, sits: Seq<(ItemID, Transform)>) -> Seq<(ItemID, Transform)> {
    sits.filter(|e: (ItemID, Transform)| take_kept(owners, id, e.0.0))
}

/// The entries of `sits` whose item `id` already holds.
pub open spec fn owned_sits(owners: Map<u32, Option<ClientID>>, id: ClientID, sits: Seq<(ItemID, Transform)>) -> Seq<(ItemID, Transform)> {
    sits.filter(|e: (ItemID, Transform)| owned_by(owners, id, e.0.0))
}

proof fn lemma_filter_step<A>(s: Seq<A>, i: int, f: spec_fn(A) -> bool)
    requires
        0 <= i < s.len(),
    ensures
        s.subrange(0, i + 1).filter(f) == if f(s[i]) {
            s.subrange(0, i).filter(f).push(s[i])
        } else {
            s.subrange(0, i).filter(f)
        },
{
    reveal(Seq::filter);
    assert(s.subrange(0, i + 1).drop_last() =~= s.subrange(0, i));
}

proof fn lemma_holds_filtered(s: Seq<(ItemID, Transform)>, f: spec_fn((ItemID, Transform)) -> bool, k: u32)
    ensures
        holds_id(s.filter(f), k) <==> exists|j: int| 0 <= j < s.len() && s[j].0.0 == k && f(s[j]),
{
    let fs = s.filter(f);
    if holds_id(fs, k) {
        let j = choose|j: int| 0 <= j < fs.len() && fs[j].0.0 == k;
        s.lemma_filter_pred(f, j);
        assert(fs.contains(fs[j]));
        s.lemma_filter_contains_rev(f, fs[j]);
        let i = choose|i: int| 0 <= i < s.len() && s[i] == fs[j];
        assert(s[i].0.0 == k && f(s[i]));
    }
    if exists|j: int| 0 <= j < s.len() && s[j].0.0 == k && f(s[j]) {
        let j = choose|j: int| 0 <= j < s.len() && s[j].0.0 == k && f(s[j]);
        s.lemma_filter_contains(f, j);
        let i = choose|i: int| 0 <= i < fs.len() && fs[i] == s[j];
        assert(fs[i].0.0 == k);
    }
}

impl Board {
    /// Adds items to the caller's selection: those of `old_sits` it
    /// already holds (warning about the others) and those of `new_sits`
    /// that are free or already its own, and sets the selection transform.
    /// Answers one result per entry of `new_sits` and announces the items
    /// taken. Where no item is added, the caller's state is left as it was
    /// and nothing is announced.
    pub fn handle_selection_add_items(&mut self, id: ClientID, call: Call<SelectionAddItems>, out: &mut Vec<Outgoing>)
        requires
            old(self).wf(),
            old(self).clients().contains_key(id.0),
        ensures
            final(self).wf(),
            selection_add_items_done(*old(self), *final(self), id, call, old(out)@, final(out)@),
    {
        let (params, handle) = call.create_handle(self.get_handle(id));
        let ghost owners0 = self.owners();
        let ghost out0 = out@;
        let ghost fo = |e: (ItemID, Transform)| owned_by(owners0, id, e.0.0);
        let ghost fk = |e: (ItemID, Transform)| take_kept(owners0, id, e.0.0);
        let ghost fr = |e: (ItemID, Transform)| take_reply(take_outcome(owners0, id, e.0.0));

        let mut old_checked: Vec<(ItemID, Transform)> = Vec::new();
        let mut i: usize = 0;
        while i < params.old_sits.len()
            invariant
                *self == *old(self),
                owners0 == self.owners(),
                i <= params.old_sits.len(),
                fo == (|e: (ItemID, Transform)| owned_by(owners0, id, e.0.0)),
                old_checked@ == params.old_sits@.subrange(0, i as int).filter(fo),
                handle.client == old(self).link_of(id),
                handle.id == call.id,
                out@ == out0 + ownership_warnings(handle.client, SelectionAddItems::protocol(), call.id, owners0, id,
                    sit_ids(params.old_sits@.subrange(0, i as int))),
            decreases params.old_sits.len() - i,
        {
            let entry = params.old_sits[i];
            let ghost before = out@;
            if self.check_owned(id, &handle, entry.0, out) {
                old_checked.push(entry);
            }
            proof {
                lemma_filter_step(params.old_sits@, i as int, fo);
                lemma_sit_ids_step(params.old_sits@, i as int);
                assert(out@ =~= out0 + ownership_warnings(handle.client, SelectionAddItems::protocol(), call.id, owners0, id,
                    sit_ids(params.old_sits@.subrange(0, i + 1))));
            }
            i = i + 1;
        }
        assert(params.old_sits@.subrange(0, i as int) =~= params.old_sits@);
        let ghost out_w = out@;

        let mut new_checked: Vec<(ItemID, Transform)> = Vec::new();
        let mut new_ids: Vec<ItemID> = Vec::new();
        let mut results: Vec<message::Result<(), Error>> = Vec::new();
        let mut i: usize = 0;
        while i < params.new_sits.len()
            invariant
                self.wf(),
                i <= params.new_sits.len(),
                fk == (|e: (ItemID, Transform)| take_kept(owners0, id, e.0.0)),
                fr == (|e: (ItemID, Transform)| take_reply(take_outcome(owners0, id, e.0.0))),
                new_checked@ == params.new_sits@.subrange(0, i as int).filter(fk),
                new_ids@ == new_checked@.map_values(|e: (ItemID, Transform)| e.0),
                results@ == params.new_sits@.subrange(0, i as int).map_values(fr),
                self.owners() == taken_index(owners0, id, params.new_sits@.subrange(0, i as int)),
                self.canvas() == old(self).canvas(),
                self.clients() == old(self).clients(),
                self.paths() == old(self).paths(),
                self.client_order() == old(self).client_order(),
                self.next_ids() == old(self).next_ids(),
                handle.client == old(self).link_of(id),
                handle.id == call.id,
                out@ == out_w + existence_warnings(handle.client, SelectionAddItems::protocol(), call.id, owners0,
                    sit_ids(params.new_sits@.subrange(0, i as int))),
            decreases params.new_sits.len() - i,
        {
            let entry = params.new_sits[i];
            let ghost before = out@;
            let ghost owners_before = self.owners();
            let taken = self.take_item(id, &handle, entry.0, out);
            let ghost k = entry.0.0;
            let ghost sub = params.new_sits@.subrange(0, i as int);
            let ghost sub1 = params.new_sits@.subrange(0, i + 1);
            proof {
                assert forall|k2: u32| holds_id(sub1, k2) <==> holds_id(sub, k2) || k2 == k by {
                    if holds_id(sub1, k2) {
                        let j = choose|j: int| 0 <= j < sub1.len() && sub1[j].0.0 == k2;
                        if j < i {
                            assert(sub[j] == sub1[j]);
                        }
                    }
                    if holds_id(sub, k2) {
                        let j = choose|j: int| 0 <= j < sub.len() && sub[j].0.0 == k2;
                        assert(sub1[j] == sub[j]);
                    }
                    if k2 == k {
                        assert(sub1[i as int].0.0 == k2);
                    }
                }
            }
            match taken {
                TakeResult::Successful => {
                    results.push(message::Result::Success(()));
                    new_checked.push(entry);
                    new_ids.push(entry.0);
                },
                TakeResult::AlreadyOwned => {
                    results.push(message::Result::Success(()));
                    new_checked.push(entry);
                    new_ids.push(entry.0);
                },
                TakeResult::Occupied => {
                    results.push(message::Result::Failure(Error::code(ErrorCode::NotAvailable)));
                },
                TakeResult::NonExistent => {
                    results.push(message::Result::Failure(Error::code(ErrorCode::NotFound)));
                },
            }
            proof {
                lemma_filter_step(params.new_sits@, i as int, fk);
                assert(self.owners() =~= taken_index(owners0, id, sub1));
                assert(results@ =~= sub1.map_values(fr));
                assert(new_ids@ =~= new_checked@.map_values(|e: (ItemID, Transform)| e.0));
                lemma_sit_ids_step(params.new_sits@, i as int);
                assert(owners_before.contains_key(k) == owners0.contains_key(k));
                assert(out@ =~= out_w + existence_warnings(handle.client, SelectionAddItems::protocol(), call.id, owners0,
                    sit_ids(params.new_sits@.subrange(0, i + 1))));
            }
            i = i + 1;
        }
        assert(params.new_sits@.subrange(0, i as int) =~= params.new_sits@);
        let ghost warnings = ownership_warnings(handle.client, SelectionAddItems::protocol(), call.id, owners0, id, sit_ids(params.old_sits@))
            + existence_warnings(handle.client, SelectionAddItems::protocol(), call.id, owners0, sit_ids(params.new_sits@));
        assert(out@ =~= out0 + warnings);

        if new_checked.len() == 0 && old_checked.len() == 0 {
            let ghost o0 = out@;
            handle.respond(results, out);
            proof {
                assert(out@.subrange(0, out0.len() as int) =~= o0.subrange(0, out0.len() as int));
                assert(out@.subrange(out0.len() as int, (out0.len() + warnings.len()) as int) =~= warnings);
                assert forall|k: u32| #[trigger] self.clients()[id.0].selection@.contains_key(k)
                    <==> old(self).clients()[id.0].selection@.contains_key(k)
                        || holds_id(new_checked@, k) || holds_id(old_checked@, k) by {
                }
                assert(self.clients() =~= old(self).clients().insert(id.0, self.clients()[id.0]));
            }
            proof {
                assert(out@.subrange(0, old(out)@.len() as int) =~= old(out)@);
            }
            return;
        }
        let ghost mid = *self;
        let mut client = clients_read(&self.clients, id.0).unwrap();
        client.selection.own_transform = params.new_srt;
        client.selection.insert_all(&new_checked);
        client.selection.insert_all(&old_checked);
        clients_upsert(&mut self.clients, id.0, client);
        proof {
            let c1 = self.clients()[id.0];
            let sel0 = old(self).clients()[id.0].selection@;
            assert forall|k: u32| #[trigger] c1.selection@.contains_key(k)
                <==> sel0.contains_key(k) || holds_id(new_checked@, k) || holds_id(old_checked@, k) by {
                lemma_merged_keys(sel0, new_checked@, k);
                lemma_merged_keys(merged(sel0, new_checked@), old_checked@, k);
            }
            assert forall|k: u32| #[trigger] c1.selection@.contains_key(k)
                implies self.owners().contains_key(k) && self.owners()[k] == Some(id) by {
                lemma_holds_filtered(params.new_sits@, fk, k);
                lemma_holds_filtered(params.old_sits@, fo, k);
                if old(self).clients()[id.0].selection@.contains_key(k) {
                    assert(owners0[k] == Some(id));
                }
            }
            assert forall|k: u32| #[trigger] owners0.contains_key(k) && owners0[k] is Some
                && owners0[k] != Some(id) implies self.owners().contains_key(k) && self.owners()[k] == owners0[k] by {
            }
            self.lemma_client_update(*old(self), id.0);
        }
        let ghost o0 = out@;
        handle.respond(results, out);
        let ghost o1 = out@;
        self.send_notify_c(SelectionItemsAdded { id, items: new_ids, new_srt: params.new_srt }, out);
        proof {
            assert(out@.subrange(0, out0.len() as int) =~= o0.subrange(0, out0.len() as int));
            assert(o0 == out0 + warnings);
            assert(out@.subrange(0, o1.len() as int) == o1);
            assert(o1.subrange(0, o0.len() as int) =~= o0);
            assert(out@.subrange(out0.len() as int, (out0.len() + warnings.len()) as int) =~= o0.subrange(out0.len() as int, (out0.len() + warnings.len()) as int));
            assert(o0.subrange(out0.len() as int, (out0.len() + warnings.len()) as int) =~= warnings);
            assert(out@.subrange(out0.len() as int, (out0.len() + warnings.len()) as int) =~= warnings);
            if old(self).link_of(id) is Some {
                assert(o1 == o0.push(Outgoing::Direct(id, MsgSend::Response(Responses::SelectionAddItems(Response { id: call.id, value: results })))));
                assert(out@[out@.len() - 2] == o1[o1.len() - 1]);
            }
        }
        proof {
            assert(out@.subrange(0, old(out)@.len() as int) =~= old(out)@);
        }
    }
}


/// Why one entry of a release request was warned about.
pub enum RemovalWarning {
    /// The item does not exist.
    Missing(ItemID),
    /// The item is not the caller's.
    NotOwned(ItemID),
    /// The location update does not fit the item, which had this value.
    Mismatch(ItemID, ItemView, crate::item::LocationView),
}

/// Whether `o` is the warning `w` about request `call_id`, sent to `to`.
pub open spec fn is_removal_warning(o: Outgoing, to: ClientID, call_id: u32, w: RemovalWarning) -> bool {
    let protocol = SelectionRemoveItems::protocol();
    match w {
        RemovalWarning::Missing(k) => o == Outgoing::Direct(to,
            reject_msg(protocol, call_id, RejectLevel::Warning, non_existent_reason(k))),
        RemovalWarning::NotOwned(k) => o == Outgoing::Direct(to,
            reject_msg(protocol, call_id, RejectLevel::Warning, not_owned_reason(k))),
        RemovalWarning::Mismatch(k, item, u) => o matches Outgoing::Direct(c, MsgSend::Reject(r))
            && c == to && r.request_protocol == protocol && r.request_id == Some(call_id)
            && r.level == RejectLevel::Warning && crate::item::is_location_mismatch(r.reason, k, item, u),
    }
}

/// The effect of releasing the listed items in order, for client `id`:
/// the canvas, the index, the IDs released, whether every entry was held
/// by `id` and its location update fitted, the warnings, and the location
/// announced for each released item (the update where it fitted, the
/// item's current location where it did not). An entry
/// whose item `id` holds moves the item where the update fits and frees it
/// either way.
pub open spec fn removal(
    canvas: Map<u32, ItemView>,
    owners: Map<u32, Option<ClientID>>,
    id: ClientID,
    items: Seq<(ItemID, LocationUpdate)>,
) -> (Map<u32, ItemView>, Map<u32, Option<ClientID>>, Seq<ItemID>, bool, Seq<RemovalWarning>, Seq<crate::item::LocationView>)
    decreases items.len(),
{
    if items.len() == 0 {
        (canvas, owners, Seq::empty(), true, Seq::empty(), Seq::empty())
    } else {
        let (c, o, ids, clean, warns, locs) = removal(canvas, owners, id, items.drop_last());
        let k = items.last().0;
        let u = items.last().1@;
        if owned_by(o, id, k.0) {
            let fits = accepts_location(c[k.0], u);
            (
                if fits { c.insert(k.0, with_location(c[k.0], u)) } else { c },
                o.insert(k.0, None),
                ids.push(k),
                clean && fits,
                if fits { warns } else { warns.push(RemovalWarning::Mismatch(k, c[k.0], u)) },
                locs.push(if fits { u } else { crate::item::location_of(c[k.0]) }),
            )
        } else if !o.contains_key(k.0) {
            (c, o, ids, false, warns.push(RemovalWarning::Missing(k)), locs)
        } else {
            (c, o, ids, false, warns.push(RemovalWarning::NotOwned(k)), locs)
        }
    }
}

proof fn lemma_removal_frame(canvas: Map<u32, ItemView>, owners: Map<u32, Option<ClientID>>, id: ClientID, items: Seq<(ItemID, LocationUpdate)>)
    requires
        owners.dom() == canvas.dom(),
    ensures
        ({
            let (c, o, ids, clean, warns, locs) = removal(canvas, owners, id, items);
            &&& c.dom() == canvas.dom()
            &&& o.dom() == owners.dom()
            &&& forall|k: u32| #[trigger] o.contains_key(k) && o[k] != owners[k] ==> owned_by(owners, id, k) && o[k] is None
                && exists|j: int| 0 <= j < ids.len() && ids[j].0 == k
            &&& forall|k: u32| #[trigger] o.contains_key(k) && owned_by(owners, id, k) && o[k] == owners[k]
                ==> !(exists|j: int| 0 <= j < ids.len() && ids[j].0 == k)
            &&& forall|j: int| 0 <= j < ids.len() ==> #[trigger] o[ids[j].0] is None && owned_by(owners, id, ids[j].0)
        }),
    decreases items.len(),
{
    if items.len() > 0 {
        lemma_removal_frame(canvas, owners, id, items.drop_last());
        let (c, o, ids, clean, warns, locs) = removal(canvas, owners, id, items.drop_last());
        let k = items.last().0;
        if owned_by(o, id, k.0) {
            assert(o.insert(k.0, None).dom() =~= o.dom());
            let u = items.last().1@;
            if accepts_location(c[k.0], u) {
                assert(c.insert(k.0, with_location(c[k.0], u)).dom() =~= c.dom());
            }
            let ids2 = ids.push(k);
            let o2 = o.insert(k.0, None);
            assert forall|k2: u32| #[trigger] o2.contains_key(k2) && o2[k2] != owners[k2]
                implies exists|j: int| 0 <= j < ids2.len() && ids2[j].0 == k2 by {
                if k2 == k.0 {
                    assert(ids2[ids.len() as int].0 == k2);
                } else {
                    let j = choose|j: int| 0 <= j < ids.len() && ids[j].0 == k2;
                    assert(ids2[j] == ids[j]);
                }
            }
            assert forall|k2: u32| #[trigger] o2.contains_key(k2) && owned_by(owners, id, k2) && o2[k2] == owners[k2]
                implies !(exists|j: int| 0 <= j < ids2.len() && ids2[j].0 == k2) by {
                if exists|j: int| 0 <= j < ids2.len() && ids2[j].0 == k2 {
                    let j = choose|j: int| 0 <= j < ids2.len() && ids2[j].0 == k2;
                    if j < ids.len() {
                        assert(ids[j] == ids2[j]);
                        assert(o[ids[j].0] is None);
                    }
                }
            }
            assert forall|j: int| 0 <= j < ids2.len() implies #[trigger] o2[ids2[j].0] is None && owned_by(owners, id, ids2[j].0) by {
                if j < ids.len() {
                    assert(ids[j] == ids2[j]);
                    assert(o[ids[j].0] is None);
                }
            }
        }
    }
}

impl Board {
    /// Releases the listed items from the caller's selection, moving each
    /// by its location update where the update fits. Warns about each entry
    /// that is not the caller's or whose update does not fit; answers `Ok`
    /// only when there was no warning, `BadData` otherwise; announces the
    /// released items.
    pub fn handle_selection_remove_items(&mut self, id: ClientID, call: Call<SelectionRemoveItems>, out: &mut Vec<Outgoing>)
        requires
            old(self).wf(),
            old(self).clients().contains_key(id.0),
        ensures
            final(self).wf(),
            selection_remove_items_done(*old(self), *final(self), id, call, old(out)@, final(out)@),
    {
        let (params, handle) = call.create_handle(self.get_handle(id));
        let ghost canvas0 = self.canvas@;
        let ghost owners0 = self.owners();
        let ghost out0 = out@;
        let mut released: Vec<(ItemID, LocationUpdate)> = Vec::new();
        let mut ok = true;
        let mut i: usize = 0;
        proof {
            lemma_removal_frame(canvas0, owners0, id, params.items@);
        }
        while i < params.items.len()
            invariant
                i <= params.items.len(),
                self.canvas.wf(),
                self.owners().dom() == self.canvas@.dom(),
                owners0.dom() == canvas0.dom(),
                ({
                    let (c, o, ids, clean, warns, locs) = removal(canvas0, owners0, id, params.items@.subrange(0, i as int));
                    &&& self.canvas@ == c
                    &&& self.owners() == o
                    &&& released@.map_values(|e: (ItemID, LocationUpdate)| e.0) == ids
                    &&& released@.map_values(|e: (ItemID, LocationUpdate)| e.1@) == locs
                    &&& ok == clean
                    &&& handle.client is None ==> out@ == out0
                    &&& handle.client is Some ==> out@.len() == out0.len() + warns.len()
                        && forall|j: int| 0 <= j < warns.len() ==> is_removal_warning(#[trigger] out@[out0.len() + j], id, call.id, warns[j])
                }),
                handle.client == old(self).link_of(id),
                handle.id == call.id,
                self.canvas.ids() == old(self).canvas.ids(),
                self.clients() == old(self).clients(),
                self.paths() == old(self).paths(),
                self.client_order() == old(self).client_order(),
                self.next_ids() == old(self).next_ids(),
                out@.len() >= out0.len(),
                out@.subrange(0, out0.len() as int) == out0,
            decreases params.items.len() - i,
        {
            let item_id = params.items[i].0;
            let ghost before = out@;
            proof {
                assert(params.items@.subrange(0, i + 1).drop_last() =~= params.items@.subrange(0, i as int));
            }
            match owners_read(&self.selected_items, item_id.0) {
                None => {
                    handle.warn(non_existent_id(item_id), out);
                    ok = false;
                },
                Some(owner) => {
                    if owner == Some(id) {
                        let res = self.canvas.apply_location_update(item_id, &params.items[i].1);
                        owners_upsert(&mut self.selected_items, item_id.0, None);
                        proof {
                            assert(self.owners().dom() =~= self.canvas@.dom());
                        }
                        match res {
                            Err((current, reason)) => {
                                released.push((item_id, current));
                                handle.warn(reason, out);
                                ok = false;
                            },
                            Ok(()) => {
                                released.push((item_id, params.items[i].1.clone()));
                            },
                        }
                    } else {
                        handle.warn(resource_not_owned(item_id), out);
                        ok = false;
                    }
                },
            }
            proof {
                assert(released@.map_values(|e: (ItemID, LocationUpdate)| e.0) =~= removal(canvas0, owners0, id, params.items@.subrange(0, i + 1)).2);
                assert(released@.map_values(|e: (ItemID, LocationUpdate)| e.1@) =~= removal(canvas0, owners0, id, params.items@.subrange(0, i + 1)).5);
                assert(out@.subrange(0, out0.len() as int) =~= before.subrange(0, out0.len() as int));
                let w1 = removal(canvas0, owners0, id, params.items@.subrange(0, i + 1)).4;
                let w0 = removal(canvas0, owners0, id, params.items@.subrange(0, i as int)).4;
                if handle.client is Some {
                    assert forall|j: int| 0 <= j < w1.len() implies is_removal_warning(#[trigger] out@[out0.len() + j], id, call.id, w1[j]) by {
                        if j < w0.len() {
                            assert(out@[out0.len() + j] == before[out0.len() + j]);
                            assert(w1[j] == w0[j]);
                        }
                    }
                }
            }
            i = i + 1;
        }
        assert(params.items@.subrange(0, i as int) =~= params.items@);
        let ghost ids = removal(canvas0, owners0, id, params.items@).2;

        let mut client = clients_read(&self.clients, id.0).unwrap();
        let mut j: usize = 0;
        while j < released.len()
            invariant
                j <= released.len(),
                old(self).clients().contains_key(id.0),
                client.selection.wf(),
                client.selection.own_transform == old(self).clients()[id.0].selection.own_transform,
                client.info == old(self).clients()[id.0].info,
                client.connected == old(self).clients()[id.0].connected,
                client.active_paths@ == old(self).clients()[id.0].active_paths@,
                released@.map_values(|e: (ItemID, LocationUpdate)| e.0) == ids,
                forall|k: u32| #[trigger] client.selection@.contains_key(k)
                    <==> old(self).clients()[id.0].selection@.contains_key(k)
                        && !(exists|j2: int| 0 <= j2 < j && ids[j2].0 == k),
            decreases released.len() - j,
        {
            let rid = released[j].0;
            client.selection.remove(rid);
            j = j + 1;
            proof {
                assert(ids[j - 1] == rid);
                assert forall|k: u32| #[trigger] client.selection@.contains_key(k)
                    <==> old(self).clients()[id.0].selection@.contains_key(k)
                        && !(exists|j2: int| 0 <= j2 < j && ids[j2].0 == k) by {
                    if exists|j2: int| 0 <= j2 < j && ids[j2].0 == k {
                        let j2 = choose|j2: int| 0 <= j2 < j && ids[j2].0 == k;
                        if j2 < j - 1 {
                            assert(exists|j3: int| 0 <= j3 < j - 1 && ids[j3].0 == k);
                        }
                    }
                }
            }
        }
        clients_upsert(&mut self.clients, id.0, client);
        proof {
            let c1 = self.clients()[id.0];
            assert forall|k: u32| #[trigger] c1.selection@.contains_key(k)
                implies self.owners().contains_key(k) && self.owners()[k] == Some(id) by {
                assert(old(self).clients()[id.0].selection@.contains_key(k));
                assert(owned_by(owners0, id, k));
                if self.owners()[k] != owners0[k] {
                    assert(exists|j2: int| 0 <= j2 < ids.len() && ids[j2].0 == k);
                }
            }
            assert forall|k: u32| #[trigger] owners0.contains_key(k) && owners0[k] is Some
                && owners0[k] != Some(id) implies self.owners().contains_key(k) && self.owners()[k] == owners0[k] by {
            }
            self.lemma_client_update(*old(self), id.0);
        }
        let ghost o0 = out@;
        if ok {
            handle.ok((), out);
        } else {
            handle.err(Error::code(ErrorCode::BadData), out);
        }
        let ghost o1 = out@;
        self.send_notify_c(SelectionItemsRemoved { id, items: released }, out);
        proof {
            assert(out@.subrange(0, out0.len() as int) =~= o0.subrange(0, out0.len() as int));
            assert(out@.subrange(0, o1.len() as int) == o1);
            assert(o1.subrange(0, o0.len() as int) =~= o0);
            let warns = removal(canvas0, owners0, id, params.items@).4;
            if old(self).link_of(id) is Some {
                assert(out@[out@.len() - 2] == o1[o1.len() - 1]);
                assert forall|j: int| 0 <= j < warns.len() implies is_removal_warning(#[trigger] out@[out0.len() + j], id, call.id, warns[j]) by {
                    assert(out@[out0.len() + j] == o0[out0.len() + j]);
                }
            }
        }
    }
}


/// The effect on the index of client `id` deleting the listed items in
/// order: each item it holds loses its entry and is listed as deleted.
pub open spec fn deletion(owners: Map<u32, Option<ClientID>>, id: ClientID, ids: Seq<ItemID>) -> (Map<u32, Option<ClientID>>, Seq<ItemID>)
    decreases ids.len(),
{
    if ids.len() == 0 {
        (owners, Seq::empty())
    } else {
        let (o, removed) = deletion(owners, id, ids.drop_last());
        let k = ids.last();
        if owned_by(o, id, k.0) {
            (o.remove(k.0), removed.push(k))
        } else {
            (o, removed)
        }
    }
}

/// The warnings of client `id` deleting the listed items in order: one
/// for each item that no longer exists or is someone else's when reached.
pub open spec fn deletion_warnings(
    link: Option<ClientID>,
    call_id: u32,
    owners: Map<u32, Option<ClientID>>,
    id: ClientID,
    ids: Seq<ItemID>,
) -> Seq<Outgoing>
    decreases ids.len(),
{
    if ids.len() == 0 {
        Seq::empty()
    } else {
        let k = ids.last();
        let o = deletion(owners, id, ids.drop_last()).0;
        deletion_warnings(link, call_id, owners, id, ids.drop_last()) + if !o.contains_key(k.0) {
            direct_to(link, reject_msg(DeleteItems::protocol(), call_id, RejectLevel::Warning, non_existent_reason(k)))
        } else if o[k.0] != Some(id) {
            direct_to(link, reject_msg(DeleteItems::protocol(), call_id, RejectLevel::Warning, not_owned_reason(k)))
        } else {
            Seq::empty()
        }
    }
}

proof fn lemma_deletion_frame(owners: Map<u32, Option<ClientID>>, id: ClientID, ids: Seq<ItemID>)
    ensures
        ({
            let (o, removed) = deletion(owners, id, ids);
            &&& forall|k: u32| #[trigger] o.contains_key(k) <==> owners.contains_key(k)
                && !(exists|j: int| 0 <= j < removed.len() && removed[j].0 == k)
            &&& forall|k: u32| #[trigger] o.contains_key(k) ==> o[k] == owners[k]
            &&& forall|j: int| 0 <= j < removed.len() ==> #[trigger] owned_by(owners, id, removed[j].0)
        }),
    decreases ids.len(),
{
    if ids.len() > 0 {
        lemma_deletion_frame(owners, id, ids.drop_last());
        let (o, removed) = deletion(owners, id, ids.drop_last());
        let k = ids.last();
        let (o2, r2) = deletion(owners, id, ids);
        if owned_by(o, id, k.0) {
            assert(o[k.0] == owners[k.0]);
            assert(o2 == o.remove(k.0));
            assert(r2 == removed.push(k));
            assert forall|k2: u32| #[trigger] o2.contains_key(k2) <==> owners.contains_key(k2)
                && !(exists|j: int| 0 <= j < r2.len() && r2[j].0 == k2) by {
                if exists|j: int| 0 <= j < removed.len() && removed[j].0 == k2 {
                    let j = choose|j: int| 0 <= j < removed.len() && removed[j].0 == k2;
                    assert(r2[j] == removed[j]);
                }
                if exists|j: int| 0 <= j < r2.len() && r2[j].0 == k2 {
                    let j = choose|j: int| 0 <= j < r2.len() && r2[j].0 == k2;
                    if j < removed.len() {
                        assert(r2[j] == removed[j]);
                    }
                }
                if k2 == k.0 {
                    assert(r2[removed.len() as int].0 == k2);
                }
            }
            assert forall|j: int| 0 <= j < r2.len() implies #[trigger] owned_by(owners, id, r2[j].0) by {
                if j < removed.len() {
                    assert(r2[j] == removed[j]);
                }
            }
        } else {
            assert(o2 == o && r2 == removed);
        }
    }
}

impl Board {
    /// Moves the caller's selection: sets its transform and, where items
    /// are listed, records the transforms of those the caller holds
    /// (warning about the others). Announces the move, then answers.
    pub fn handle_selection_move(&mut self, id: ClientID, call: Call<SelectionMove>, out: &mut Vec<Outgoing>)
        requires
            old(self).wf(),
            old(self).clients().contains_key(id.0),
        ensures
            final(self).wf(),
            selection_move_done(*old(self), *final(self), id, call, old(out)@, final(out)@),
    {
        let (params, handle) = call.create_handle(self.get_handle(id));
        let ghost owners0 = self.owners();
        let ghost out0 = out@;
        let ghost fo = |e: (ItemID, Transform)| owned_by(owners0, id, e.0.0);
        let new_sits = match params.new_sits {
            Some(sits) => {
                let mut checked: Vec<(ItemID, Transform)> = Vec::new();
                let mut i: usize = 0;
                while i < sits.len()
                    invariant
                        *self == *old(self),
                        owners0 == self.owners(),
                        i <= sits.len(),
                        fo == (|e: (ItemID, Transform)| owned_by(owners0, id, e.0.0)),
                        checked@ == sits@.subrange(0, i as int).filter(fo),
                        handle.client == old(self).link_of(id),
                        handle.id == call.id,
                        out@ == out0 + ownership_warnings(handle.client, SelectionMove::protocol(), call.id, owners0, id,
                            sit_ids(sits@.subrange(0, i as int))),
                    decreases sits.len() - i,
                {
                    let entry = sits[i];
                    if self.check_owned(id, &handle, entry.0, out) {
                        checked.push(entry);
                    }
                    proof {
                        lemma_filter_step(sits@, i as int, fo);
                        lemma_sit_ids_step(sits@, i as int);
                        assert(out@ =~= out0 + ownership_warnings(handle.client, SelectionMove::protocol(), call.id, owners0, id,
                            sit_ids(sits@.subrange(0, i + 1))));
                    }
                    i = i + 1;
                }
                assert(sits@.subrange(0, i as int) =~= sits@);
                Some(checked)
            },
            None => None,
        };
        let mut client = clients_read(&self.clients, id.0).unwrap();
        client.selection.own_transform = params.new_srt;
        match &new_sits {
            Some(v) => client.selection.insert_all(v),
            None => {},
        }
        clients_upsert(&mut self.clients, id.0, client);
        proof {
            let c1 = self.clients()[id.0];
            let sel0 = old(self).clients()[id.0].selection@;
            let moved = moved_sits(owners0, id, call.params.new_sits);
            assert forall|k: u32| #[trigger] c1.selection@.contains_key(k)
                <==> sel0.contains_key(k) || holds_id(moved, k) by {
                lemma_merged_keys(sel0, moved, k);
            }
            assert forall|k: u32| #[trigger] c1.selection@.contains_key(k)
                implies self.owners().contains_key(k) && self.owners()[k] == Some(id) by {
                if let Some(v) = params.new_sits {
                    lemma_holds_filtered(v@, fo, k);
                }
                if old(self).clients()[id.0].selection@.contains_key(k) {
                    assert(owners0[k] == Some(id));
                }
            }
            self.lemma_client_update(*old(self), id.0);
        }
        let ghost o0 = out@;
        let ghost warnings = move_warnings(handle.client, call.id, owners0, id, call.params.new_sits);
        assert(o0 =~= out0 + warnings);
        self.send_notify_c(SelectionMoved { id, transform: params.new_srt, new_sits }, out);
        let ghost o1 = out@;
        handle.respond((), out);
        proof {
            assert(out@.subrange(0, out0.len() as int) =~= o0.subrange(0, out0.len() as int));
            assert(o1.subrange(0, o0.len() as int) == o0);
            assert(out@.subrange(0, o1.len() as int) =~= o1);
            assert(out@.subrange(out0.len() as int, (out0.len() + warnings.len()) as int) =~= o0.subrange(out0.len() as int, (out0.len() + warnings.len()) as int));
            assert(o0.subrange(out0.len() as int, (out0.len() + warnings.len()) as int) =~= warnings);
            assert(out@.subrange(out0.len() as int, (out0.len() + warnings.len()) as int) =~= warnings);
            assert(out@[o1.len() - 1] == o1[o1.len() - 1]);
        }
        proof {
            assert(out@.subrange(0, old(out)@.len() as int) =~= old(out)@);
        }
    }

    /// Deletes each listed item that the caller holds (warning about the
    /// others), answers, and announces the items deleted.
    pub fn handle_delete_items(&mut self, id: ClientID, call: Call<DeleteItems>, out: &mut Vec<Outgoing>)
        requires
            old(self).wf(),
            old(self).clients().contains_key(id.0),
        ensures
            final(self).wf(),
            delete_items_done(*old(self), *final(self), id, call, old(out)@, final(out)@),
    {
        let (params, handle) = call.create_handle(self.get_handle(id));
        let ghost owners0 = self.owners();
        let ghost canvas0 = self.canvas@;
        let ghost out0 = out@;
        let mut removed: Vec<ItemID> = Vec::new();
        let mut i: usize = 0;
        proof {
            lemma_deletion_frame(owners0, id, params.ids@);
        }
        while i < params.ids.len()
            invariant
                i <= params.ids.len(),
                ({
                    let (o, r) = deletion(owners0, id, params.ids@.subrange(0, i as int));
                    self.owners() == o && removed@ == r
                }),
                self.canvas == old(self).canvas,
                self.clients() == old(self).clients(),
                self.paths() == old(self).paths(),
                self.client_order() == old(self).client_order(),
                self.next_ids() == old(self).next_ids(),
                handle.client == old(self).link_of(id),
                handle.id == call.id,
                out@ == out0 + deletion_warnings(handle.client, call.id, owners0, id, params.ids@.subrange(0, i as int)),
            decreases params.ids.len() - i,
        {
            let item_id = params.ids[i];
            proof {
                assert(params.ids@.subrange(0, i + 1).drop_last() =~= params.ids@.subrange(0, i as int));
            }
            if self.check_owned(id, &handle, item_id, out) {
                owners_remove(&mut self.selected_items, item_id.0);
                removed.push(item_id);
            }
            proof {
                assert(out@ =~= out0 + deletion_warnings(handle.client, call.id, owners0, id, params.ids@.subrange(0, i + 1)));
            }
            i = i + 1;
        }
        assert(params.ids@.subrange(0, i as int) =~= params.ids@);

        let mut client = clients_read(&self.clients, id.0).unwrap();
        let mut j: usize = 0;
        while j < removed.len()
            invariant
                j <= removed.len(),
                old(self).clients().contains_key(id.0),
                client.selection.wf(),
                client.selection.own_transform == old(self).clients()[id.0].selection.own_transform,
                client.info == old(self).clients()[id.0].info,
                client.connected == old(self).clients()[id.0].connected,
                client.active_paths@ == old(self).clients()[id.0].active_paths@,
                forall|k: u32| #[trigger] client.selection@.contains_key(k)
                    <==> old(self).clients()[id.0].selection@.contains_key(k)
                        && !(exists|j2: int| 0 <= j2 < j && removed@[j2].0 == k),
            decreases removed.len() - j,
        {
            client.selection.remove(removed[j]);
            j = j + 1;
            proof {
                assert forall|k: u32| #[trigger] client.selection@.contains_key(k)
                    <==> old(self).clients()[id.0].selection@.contains_key(k)
                        && !(exists|j2: int| 0 <= j2 < j && removed@[j2].0 == k) by {
                    if exists|j2: int| 0 <= j2 < j && removed@[j2].0 == k {
                        let j2 = choose|j2: int| 0 <= j2 < j && removed@[j2].0 == k;
                        if j2 < j - 1 {
                            assert(exists|j3: int| 0 <= j3 < j - 1 && removed@[j3].0 == k);
                        }
                    }
                }
            }
        }
        clients_upsert(&mut self.clients, id.0, client);
        let ghost mid = *self;
        assert(owners0.dom() == canvas0.dom());

        let mut j: usize = 0;
        while j < removed.len()
            invariant
                j <= removed.len(),
                self.clients() == mid.clients(),
                self.owners() == mid.owners(),
                self.paths() == mid.paths(),
                self.client_order() == mid.client_order(),
                self.next_ids() == mid.next_ids(),
                self.canvas.wf(),
                forall|k: u32| #[trigger] self.canvas@.contains_key(k) <==> canvas0.contains_key(k)
                    && !(exists|j2: int| 0 <= j2 < j && removed@[j2].0 == k),
                forall|k: u32| #[trigger] self.canvas@.contains_key(k) ==> self.canvas@[k] == canvas0[k],
            decreases removed.len() - j,
        {
            self.canvas.delete_item(removed[j]);
            j = j + 1;
            proof {
                assert forall|k: u32| #[trigger] self.canvas@.contains_key(k) <==> canvas0.contains_key(k)
                    && !(exists|j2: int| 0 <= j2 < j && removed@[j2].0 == k) by {
                    if exists|j2: int| 0 <= j2 < j && removed@[j2].0 == k {
                        let j2 = choose|j2: int| 0 <= j2 < j && removed@[j2].0 == k;
                        if j2 < j - 1 {
                            assert(exists|j3: int| 0 <= j3 < j - 1 && removed@[j3].0 == k);
                        }
                    }
                }
            }
        }
        proof {
            assert(self.owners().dom() =~= self.canvas@.dom());
            let c1 = self.clients()[id.0];
            let (o, r) = deletion(owners0, id, params.ids@);
            assert(self.owners() == o);
            assert(removed@ == r);
            assert forall|k: u32| #[trigger] c1.selection@.contains_key(k)
                implies self.owners().contains_key(k) && self.owners()[k] == Some(id) by {
                assert(old(self).clients()[id.0].selection@.contains_key(k));
                assert(owners0[k] == Some(id));
                assert(o.contains_key(k));
            }
            assert forall|k: u32| #[trigger] owners0.contains_key(k) && owners0[k] is Some
                && owners0[k] != Some(id) implies self.owners().contains_key(k) && self.owners()[k] == owners0[k] by {
                if exists|j2: int| 0 <= j2 < r.len() && r[j2].0 == k {
                    let j2 = choose|j2: int| 0 <= j2 < r.len() && r[j2].0 == k;
                    assert(owned_by(owners0, id, r[j2].0));
                }
                assert(o.contains_key(k));
            }
            self.lemma_client_update(*old(self), id.0);
        }
        let ghost o0 = out@;
        let ghost warnings = deletion_warnings(handle.client, call.id, owners0, id, params.ids@);
        assert(o0 == out0 + warnings);
        handle.respond((), out);
        let ghost o1 = out@;
        self.send_notify_c(ItemsDeleted { ids: removed }, out);
        proof {
            assert(out@.subrange(0, out0.len() as int) =~= o0.subrange(0, out0.len() as int));
            assert(out@.subrange(0, o1.len() as int) == o1);
            assert(o1.subrange(0, o0.len() as int) =~= o0);
            assert(out@.subrange(out0.len() as int, (out0.len() + warnings.len()) as int) =~= o0.subrange(out0.len() as int, (out0.len() + warnings.len()) as int));
            assert(o0.subrange(out0.len() as int, (out0.len() + warnings.len()) as int) =~= warnings);
            assert(out@.subrange(out0.len() as int, (out0.len() + warnings.len()) as int) =~= warnings);
            if old(self).link_of(id) is Some {
                assert(out@[out@.len() - 2] == o1[o1.len() - 1]);
            }
        }
        proof {
            assert(out@.subrange(0, old(out)@.len() as int) =~= old(out)@);
        }
    }
}


/// How long listeners of a path may wait for new nodes, in milliseconds.
pub const PATH_FLUSH_MS: u64 = 750;

/// Whether, at time `now`, a path last flushed at `last` is due a flush.
pub open spec fn flush_due(last: u64, now: u64) -> bool {
    now > last && now - last > PATH_FLUSH_MS
}

impl Board {
    /// Starts a path drawn by the caller: records it with no nodes, lists it
    /// among the caller's paths, answers with its ID and announces it.
    pub fn handle_begin_path(&mut self, id: ClientID, call: Call<BeginPath>, now: u64, out: &mut Vec<Outgoing>) -> (r: PathID)
        requires
            old(self).wf(),
            old(self).clients().contains_key(id.0),
            old(self).next_ids().1 < u32::MAX,
        ensures
            final(self).wf(),
            r == PathID(old(self).next_ids().1 as u32),
            begin_path_done(*old(self), *final(self), id, call, now, old(out)@, final(out)@),
    {
        let (params, handle) = call.create_handle(self.get_handle(id));
        let ghost out0 = out@;
        let path_id = PathID::new(&mut self.path_counter);
        let path = ActivePath {
            client: id,
            nodes: Vec::new(),
            listeners: Vec::new(),
            stroke: params.stroke.clone(),
            last_flush: now,
        };
        paths_upsert(&mut self.active_paths, path_id.0, path);
        let mut client = clients_read(&self.clients, id.0).unwrap();
        client.active_paths.push(path_id);
        clients_upsert(&mut self.clients, id.0, client);
        proof {
            let paths0 = old(self).paths();
            let c0 = old(self).clients();
            assert(!paths0.contains_key(path_id.0));
            assert(self.paths().remove(path_id.0) =~= paths0);
            assert(self.clients().dom() =~= c0.dom());
            assert forall|c: u32, k: u32| #[trigger] self.clients().contains_key(c)
                && #[trigger] self.clients()[c].selection@.contains_key(k)
                implies self.owners().contains_key(k) && self.owners()[k] == Some(ClientID(c)) by {
                assert(c0.contains_key(c));
                assert(c0[c].selection@.contains_key(k));
            }
            assert forall|c: u32| #[trigger] self.clients().contains_key(c) implies self.clients()[c].selection.wf() by {
                assert(c0.contains_key(c));
            }
            assert forall|c: u32| self.clients().contains_key(c)
                <==> exists|i: int| 0 <= i < self.client_ids@.len() && self.client_ids@[i].0 == c by {
                assert(self.clients().contains_key(c) == c0.contains_key(c));
                assert(self.client_ids@ == old(self).client_ids@);
                assert(clients_listed(old(self).client_ids@, c0, old(self).client_counter@));
                assert(c0.contains_key(c) <==> exists|i: int| 0 <= i < old(self).client_ids@.len() && old(self).client_ids@[i].0 == c);
            }
            assert forall|p: u32| #[trigger] self.paths().contains_key(p)
                implies self.clients().contains_key(self.paths()[p].client.0)
                && self.clients()[self.paths()[p].client.0].active_paths@.contains(PathID(p)) by {
                if p == path_id.0 {
                    assert(self.clients()[id.0].active_paths@[self.clients()[id.0].active_paths@.len() - 1] == PathID(p));
                } else {
                    let c = paths0[p].client.0;
                    assert(c0.contains_key(c));
                    assert(c0[c].active_paths@.contains(PathID(p)));
                    if c == id.0 {
                        let i = choose|i: int| 0 <= i < c0[c].active_paths@.len() && c0[c].active_paths@[i] == PathID(p);
                        assert(self.clients()[c].active_paths@[i] == PathID(p));
                    }
                }
            }
            assert forall|c: u32, i: int| #![trigger self.clients()[c].active_paths@[i]]
                self.clients().contains_key(c) && 0 <= i < self.clients()[c].active_paths@.len()
                implies self.paths().contains_key(self.clients()[c].active_paths@[i].0)
                    && self.paths()[self.clients()[c].active_paths@[i].0].client == ClientID(c) by {
                if c == id.0 && i == self.clients()[c].active_paths@.len() - 1 {
                } else {
                    assert(c0[c].active_paths@[i] == self.clients()[c].active_paths@[i]);
                    assert(c0[c].active_paths@[i].0 != path_id.0);
                }
            }
            assert forall|c: u32| #[trigger] self.clients().contains_key(c) implies self.clients()[c].active_paths@.no_duplicates() by {
                if c == id.0 {
                    assert forall|i: int| 0 <= i < c0[c].active_paths@.len() implies c0[c].active_paths@[i] != path_id by {
                        assert(paths0.contains_key(c0[c].active_paths@[i].0));
                    }
                }
            }
        }
        handle.respond(path_id, out);
        let ghost out1 = out@;
        self.send_notify_c(PathStarted { client: id, stroke: params.stroke, path: path_id }, out);
        proof {
            lemma_then_broadcast(out0, out1, out@, direct_to(old(self).link_of(id),
                MsgSend::Response(Responses::BeginPath(Response { id: call.id, value: path_id }))),
                self.attached_clients(), MsgSend::NotifyC(NotifyC::PathStarted(PathStarted { client: id, stroke: params.stroke, path: path_id })));
        }
        path_id
    }
}


/// Whether `msgs` are, in listener order, one part for each listener of
/// `ls` that has a link: its buffered nodes followed by `extra`, under its
/// current part index, marked `complete` or not.
pub open spec fn parts_sent(
    msgs: Seq<Outgoing>,
    ls: Seq<IterateHandle<GetActivePath>>,
    extra: Seq<SplineNode>,
    complete: bool,
) -> bool
    decreases ls.len(),
{
    if ls.len() == 0 {
        msgs.len() == 0
    } else {
        let l = ls.last();
        match l.client {
            None => parts_sent(msgs, ls.drop_last(), extra, complete),
            Some(c) => {
                &&& msgs.len() > 0
                &&& parts_sent(msgs.drop_last(), ls.drop_last(), extra, complete)
                &&& msgs.last() matches Outgoing::Direct(d, MsgSend::IterateResponse(IterateResponses::GetActivePath(r)))
                    && d == c && r.id == l.id && r.complete == complete && r.part == l.current_part
                    && r.items@ == l.current_items@ + extra
            },
        }
    }
}

/// Appends copies of `points` to each listener's buffer and, where `flush`
/// holds, sends each buffer as a part.
fn feed_listeners(listeners: &mut Vec<IterateHandle<GetActivePath>>, points: &Vec<SplineNode>, flush: bool, out: &mut Vec<Outgoing>)
    ensures
        final(listeners)@.len() == old(listeners)@.len(),
        forall|j: int| 0 <= j < final(listeners)@.len() ==> {
            let (a, b) = (#[trigger] final(listeners)@[j], old(listeners)@[j]);
            &&& a.id == b.id && a.client == b.client
            &&& if flush {
                a.current_items@.len() == 0 && a.current_part == crate::iterate::next_part(b.current_part)
            } else {
                a.current_items@ == b.current_items@ + points@ && a.current_part == b.current_part
            }
        },
        !flush ==> final(out)@ == old(out)@,
        final(out)@.len() >= old(out)@.len(),
        final(out)@.subrange(0, old(out)@.len() as int) == old(out)@,
        flush ==> parts_sent(final(out)@.subrange(old(out)@.len() as int, final(out)@.len() as int), old(listeners)@, points@, false),
{
    let mut pending: Vec<IterateHandle<GetActivePath>> = Vec::new();
    std::mem::swap(&mut pending, listeners);
    let ghost all = pending@;
    let ghost out0 = out@;
    assert(pending@.len() == pending.len());
    let mut i: usize = 0;
    while pending.len() > 0
        invariant
            i + pending@.len() == all.len(),
            all.len() <= usize::MAX,
            pending@ == all.subrange(i as int, all.len() as int),
            listeners@.len() == i,
            forall|j: int| 0 <= j < i ==> {
                let (a, b) = (#[trigger] listeners@[j], all[j]);
                &&& a.id == b.id && a.client == b.client
                &&& if flush {
                    a.current_items@.len() == 0 && a.current_part == crate::iterate::next_part(b.current_part)
                } else {
                    a.current_items@ == b.current_items@ + points@ && a.current_part == b.current_part
                }
            },
            !flush ==> out@ == out0,
            out@.len() >= out0.len(),
            out@.subrange(0, out0.len() as int) == out0,
            flush ==> parts_sent(out@.subrange(out0.len() as int, out@.len() as int), all.subrange(0, i as int), points@, false),
        decreases pending@.len(),
    {
        let mut h = pending.remove(0);
        let ghost h0 = h;
        let ghost before = out@;
        h.add_items(points);
        if flush {
            h.flush_response(out);
        }
        listeners.push(h);
        i = i + 1;
        proof {
            assert(pending@ =~= all.subrange(i as int, all.len() as int));
            assert(out@.subrange(0, out0.len() as int) =~= before.subrange(0, out0.len() as int));
            if flush {
                let ls = all.subrange(0, i as int);
                assert(ls.drop_last() =~= all.subrange(0, i - 1));
                assert(ls.last() == h0);
                let m0 = before.subrange(out0.len() as int, before.len() as int);
                let m1 = out@.subrange(out0.len() as int, out@.len() as int);
                if h0.client is Some {
                    assert(m1.drop_last() =~= m0);
                } else {
                    assert(m1 =~= m0);
                }
            }
        }
    }
    assert(all.subrange(0, i as int) =~= all);
}

/// Sends each listener its last part, in order.
fn finalize_listeners(listeners: Vec<IterateHandle<GetActivePath>>, out: &mut Vec<Outgoing>)
    ensures
        final(out)@.len() >= old(out)@.len(),
        final(out)@.subrange(0, old(out)@.len() as int) == old(out)@,
        parts_sent(final(out)@.subrange(old(out)@.len() as int, final(out)@.len() as int), listeners@, Seq::empty(), true),
{
    let mut pending = listeners;
    let ghost all = pending@;
    let ghost out0 = out@;
    assert(pending@.len() == pending.len());
    let mut i: usize = 0;
    while pending.len() > 0
        invariant
            i + pending@.len() == all.len(),
            all.len() <= usize::MAX,
            pending@ == all.subrange(i as int, all.len() as int),
            out@.len() >= out0.len(),
            out@.subrange(0, out0.len() as int) == out0,
            parts_sent(out@.subrange(out0.len() as int, out@.len() as int), all.subrange(0, i as int), Seq::empty(), true),
        decreases pending@.len(),
    {
        let h = pending.remove(0);
        let ghost h0 = h;
        let ghost before = out@;
        h.finalize(out);
        i = i + 1;
        proof {
            assert(pending@ =~= all.subrange(i as int, all.len() as int));
            assert(out@.subrange(0, out0.len() as int) =~= before.subrange(0, out0.len() as int));
            let ls = all.subrange(0, i as int);
            assert(ls.drop_last() =~= all.subrange(0, i - 1));
            assert(ls.last() == h0);
            assert(h0.current_items@ =~= h0.current_items@ + Seq::<SplineNode>::empty());
            let m0 = before.subrange(out0.len() as int, before.len() as int);
            let m1 = out@.subrange(out0.len() as int, out@.len() as int);
            if h0.client is Some {
                assert(m1.drop_last() =~= m0);
            } else {
                assert(m1 =~= m0);
            }
        }
    }
    assert(all.subrange(0, i as int) =~= all);
}

impl Board {
    /// Appends nodes to a path the caller is drawing: answers, buffers the
    /// nodes for every listener, and flushes the listeners where the last
    /// flush is more than `PATH_FLUSH_MS` before `now`. Rejects the call
    /// where the path does not exist or is not the caller's.
    pub fn handle_continue_path(&mut self, id: ClientID, call: Call<ContinuePath>, now: u64, out: &mut Vec<Outgoing>)
        requires
            old(self).wf(),
        ensures
            final(self).wf(),
            continue_path_done(*old(self), *final(self), id, call, now, old(out)@, final(out)@),
    {
        let (params, handle) = call.create_handle(self.get_handle(id));
        let path_id = params.path_id;
        match path_owner(&self.active_paths, path_id.0) {
            None => {
                handle.error(non_existent_id(path_id), out);
                proof {
                    assert(out@.subrange(0, old(out)@.len() as int) =~= old(out)@);
                }
                return;
            },
            Some(owner) => {
                if owner != id {
                    handle.error(resource_not_owned(path_id), out);
                    proof {
                        assert(out@.subrange(0, old(out)@.len() as int) =~= old(out)@);
                    }
                    return;
                }
            },
        }
        let mut path = paths_remove(&mut self.active_paths, path_id.0).unwrap();
        let ghost out0 = out@;
        handle.respond((), out);
        let ghost out1 = out@;
        let due = now > path.last_flush && now - path.last_flush > PATH_FLUSH_MS;
        feed_listeners(&mut path.listeners, &params.points, due, out);
        let mut points = params.points;
        path.nodes.append(&mut points);
        if due {
            path.last_flush = now;
        }
        paths_upsert(&mut self.active_paths, path_id.0, path);
        proof {
            assert(self.paths().dom() =~= old(self).paths().dom());
            assert(out@.subrange(0, out1.len() as int) =~= out1);
        }
        assert(self.paths() =~= old(self).paths().insert(path_id.0, self.paths()[path_id.0]));
        proof {
            assert(out@.subrange(0, old(out)@.len() as int) =~= old(out)@);
        }
    }
}


/// Removes `p` from a list of path IDs without duplicates.
fn remove_path_id(v: &mut Vec<PathID>, p: PathID)
    requires
        old(v)@.no_duplicates(),
    ensures
        final(v)@.no_duplicates(),
        forall|x: PathID| #[trigger] final(v)@.contains(x) <==> old(v)@.contains(x) && x != p,
        forall|i: int| 0 <= i < final(v)@.len() ==> old(v)@.contains(#[trigger] final(v)@[i]),
{
    let mut i: usize = 0;
    while i < v.len() && v[i] != p
        invariant
            i <= v.len(),
            v@ == old(v)@,
            forall|j: int| 0 <= j < i ==> v@[j] != p,
        decreases v.len() - i,
    {
        i = i + 1;
    }
    if i < v.len() {
        v.remove(i);
        proof {
            let s0 = old(v)@;
            let s1 = v@;
            assert(s1 =~= s0.subrange(0, i as int) + s0.subrange(i + 1, s0.len() as int));
            assert forall|x: PathID| #[trigger] s1.contains(x) <==> s0.contains(x) && x != p by {
                if s0.contains(x) && x != p {
                    let j = choose|j: int| 0 <= j < s0.len() && s0[j] == x;
                    if j < i {
                        assert(s1[j] == x);
                    } else {
                        assert(s1[j - 1] == x);
                    }
                }
                if s1.contains(x) {
                    let j = choose|j: int| 0 <= j < s1.len() && s1[j] == x;
                    if j < i {
                        assert(s0[j] == x);
                    } else {
                        assert(s0[j + 1] == x);
                        assert(j + 1 != i);
                    }
                }
            }
            assert forall|a: int, b: int| 0 <= a < s1.len() && 0 <= b < s1.len() && a != b implies s1[a] != s1[b] by {
                let a0 = if a < i { a } else { a + 1 };
                let b0 = if b < i { b } else { b + 1 };
                assert(s1[a] == s0[a0] && s1[b] == s0[b0]);
            }
            assert forall|k: int| 0 <= k < s1.len() implies s0.contains(#[trigger] s1[k]) by {
                if k < i {
                    assert(s0[k] == s1[k]);
                } else {
                    assert(s0[k + 1] == s1[k]);
                }
            }
        }
    } else {
        assert forall|x: PathID| #[trigger] v@.contains(x) <==> old(v)@.contains(x) && x != p by {
            if v@.contains(x) {
                let j = choose|j: int| 0 <= j < v@.len() && v@[j] == x;
                assert(v@[j] != p);
            }
        }
    }
}

/// The item a finished path becomes.
pub open spec fn path_item_view(path: ActivePath) -> ItemView {
    ItemView::Path { transform: identity_transform(), nodes: path.nodes@, stroke: path.stroke }
}

impl Board {
    /// Closes a path the caller is drawing: removes it, finalizes its
    /// listeners and, where it has nodes, turns it into an unselected path
    /// item, announces the item and answers with its ID; a path without
    /// nodes is answered with `EmptyPath`. Rejects the call where the path
    /// does not exist or is not the caller's.
    pub fn handle_end_path(&mut self, id: ClientID, call: Call<EndPath>, out: &mut Vec<Outgoing>)
        requires
            old(self).wf(),
            end_path_allowed(*old(self), id, call.params.path_id),
        ensures
            final(self).wf(),
            end_path_done(*old(self), *final(self), id, call, old(out)@, final(out)@),
    {
        let (params, handle) = call.create_handle(self.get_handle(id));
        let path_id = params.path_id;
        match path_owner(&self.active_paths, path_id.0) {
            None => {
                handle.error(non_existent_id(path_id), out);
                return;
            },
            Some(owner) => {
                if owner != id {
                    handle.error(resource_not_owned(path_id), out);
                    return;
                }
            },
        }
        let ghost out0 = out@;
        let path = paths_remove(&mut self.active_paths, path_id.0).unwrap();
        let mut client = clients_read(&self.clients, id.0).unwrap();
        remove_path_id(&mut client.active_paths, path_id);
        clients_upsert(&mut self.clients, id.0, client);
        proof {
            let c0 = old(self).clients();
            let paths0 = old(self).paths();
            assert(self.clients().dom() =~= c0.dom());
            assert forall|c: u32, k: u32| #[trigger] self.clients().contains_key(c)
                && #[trigger] self.clients()[c].selection@.contains_key(k)
                implies self.owners().contains_key(k) && self.owners()[k] == Some(ClientID(c)) by {
                assert(c0.contains_key(c));
                assert(c0[c].selection@.contains_key(k));
            }
            assert forall|c: u32| #[trigger] self.clients().contains_key(c) implies self.clients()[c].selection.wf() by {
                assert(c0.contains_key(c));
            }
            assert forall|c: u32| self.clients().contains_key(c)
                <==> exists|i: int| 0 <= i < self.client_ids@.len() && self.client_ids@[i].0 == c by {
                assert(self.client_ids@ == old(self).client_ids@);
                assert(self.clients().contains_key(c) == c0.contains_key(c));
                assert(clients_listed(old(self).client_ids@, c0, old(self).client_counter@));
            }
            assert forall|q: u32| #[trigger] self.paths().contains_key(q)
                implies self.clients().contains_key(self.paths()[q].client.0)
                && self.clients()[self.paths()[q].client.0].active_paths@.contains(PathID(q)) by {
                let c = paths0[q].client.0;
                assert(c0.contains_key(c));
                assert(c0[c].active_paths@.contains(PathID(q)));
            }
            assert forall|c: u32, i: int| #![trigger self.clients()[c].active_paths@[i]]
                self.clients().contains_key(c) && 0 <= i < self.clients()[c].active_paths@.len()
                implies self.paths().contains_key(self.clients()[c].active_paths@[i].0)
                    && self.paths()[self.clients()[c].active_paths@[i].0].client == ClientID(c) by {
                let x = self.clients()[c].active_paths@[i];
                if c == id.0 {
                    assert(c0[c].active_paths@.contains(x));
                    let j = choose|j: int| 0 <= j < c0[c].active_paths@.len() && c0[c].active_paths@[j] == x;
                    assert(c0[c].active_paths@[j] == x);
                    assert(self.clients()[c].active_paths@.contains(x));
                } else {
                    assert(c0[c].active_paths@[i] == x);
                    if x.0 == path_id.0 {
                        assert(paths0[x.0].client == ClientID(c));
                    }
                }
            }
            assert forall|c: u32| #[trigger] self.clients().contains_key(c) implies self.clients()[c].active_paths@.no_duplicates() by {
                assert(c0.contains_key(c));
            }
        }
        let ActivePath { client: _, nodes, listeners, stroke, last_flush: _ } = path;
        finalize_listeners(listeners, out);
        let ghost out1 = out@;
        if nodes.len() > 0 {
            let ghost nodes_view = nodes@;
            let item = Item::Path(PathItem { transform: Transform::identity(), path: Spline { points: nodes }, stroke });
            let item_id = self.canvas.add_item(item.clone());
            owners_upsert(&mut self.selected_items, item_id.0, None);
            proof {
                self.canvas.lemma_keys();
                assert(self.owners().dom() =~= self.canvas@.dom());
                assert forall|c: u32, k: u32| #[trigger] self.clients().contains_key(c)
                    && #[trigger] self.clients()[c].selection@.contains_key(k)
                    implies self.owners().contains_key(k) && self.owners()[k] == Some(ClientID(c)) by {
                    assert(old(self).owners().contains_key(k));
                }
            }
            self.send_notify_c(ItemCreated { id: item_id, client: id, item }, out);
            let ghost out2 = out@;
            handle.ok(item_id, out);
            proof {
                assert(out@.subrange(0, out0.len() as int) =~= out1.subrange(0, out0.len() as int));
                assert(out@[out2.len() - 1] == out2[out2.len() - 1]);
                assert(out2.subrange(0, out1.len() as int) == out1);
                assert(out@.subrange(0, out2.len() as int) =~= out2);
                assert(out@.subrange(out0.len() as int, out1.len() as int) =~= out1.subrange(out0.len() as int, out1.len() as int));
            }
        } else {
            handle.err(Error::code(ErrorCode::EmptyPath), out);
            proof {
                assert(out@.subrange(0, out0.len() as int) =~= out1.subrange(0, out0.len() as int));
                assert(out@.subrange(out0.len() as int, out1.len() as int) =~= out1.subrange(out0.len() as int, out1.len() as int));
            }
        }
    }
}


/// What a full-item request answers for item `k`: the item, or `NotFound`.
pub open spec fn full_item_ok(r: message::Result<(ItemID, Item), Error>, canvas: Map<u32, ItemView>, k: ItemID) -> bool {
    if canvas.contains_key(k.0) {
        r matches message::Result::Success((i, it)) && i == k && it@ == canvas[k.0]
    } else {
        r == message::Result::<(ItemID, Item), Error>::Failure(error_of(ErrorCode::NotFound))
    }
}

/// Whether `o` is a part of the full-item response `call_id` for `to`.
pub open spec fn is_full_items_part(o: Outgoing, to: ClientID, call_id: u32) -> bool {
    o matches Outgoing::Direct(c, MsgSend::IterateResponse(IterateResponses::GetFullItems(r)))
        && c == to && r.id == call_id
}

/// Whether `o` is a response part marked complete.
pub open spec fn is_complete_part(o: Outgoing) -> bool {
    o matches Outgoing::Direct(_, MsgSend::IterateResponse(IterateResponses::GetFullItems(r))) && r.complete
}

/// The part number of a full-item response part.
pub open spec fn part_of(o: Outgoing) -> u32 {
    match o {
        Outgoing::Direct(_, MsgSend::IterateResponse(IterateResponses::GetFullItems(r))) => r.part,
        _ => 0,
    }
}

/// The number `j` as a part number, which stops at the largest `u32`.
pub open spec fn capped(j: int) -> u32 {
    if j < u32::MAX { j as u32 } else { u32::MAX }
}

/// The items of a full-item response part.
pub open spec fn part_items(o: Outgoing) -> Seq<message::Result<(ItemID, Item), Error>> {
    match o {
        Outgoing::Direct(_, MsgSend::IterateResponse(IterateResponses::GetFullItems(r))) => r.items@,
        _ => Seq::empty(),
    }
}

/// The items of all the parts in `s`, in order.
pub open spec fn concat_items(s: Seq<Outgoing>) -> Seq<message::Result<(ItemID, Item), Error>>
    decreases s.len(),
{
    if s.len() == 0 {
        Seq::empty()
    } else {
        concat_items(s.drop_last()) + part_items(s.last())
    }
}

/// The number of items in each full-item response part but the last.
pub const FULL_ITEMS_PART: usize = 16;

impl Board {
    /// Streams the full value of each requested item, or `NotFound`, in
    /// parts; the last part is marked complete.
    pub fn handle_get_full_items(&self, id: ClientID, call: IterateCall<GetFullItems>, out: &mut Vec<Outgoing>)
        requires
            self.wf(),
        ensures
            get_full_items_done(*self, id, call, old(out)@, final(out)@),
    {
        let (params, mut handle) = call.get_handle(self.get_handle(id));
        let ghost out0 = out@;
        let ghost link = self.link_of(id);
        let mut idx: usize = 0;
        while idx < params.ids.len()
            invariant
                self.wf(),
                idx <= params.ids.len(),
                handle.id == call.id,
                handle.client == link,
                link == self.link_of(id),
                out@.len() >= out0.len(),
                out@.subrange(0, out0.len() as int) == out0,
                link is None ==> out@ == out0,
                handle.current_items@.len() < FULL_ITEMS_PART,
                link is Some ==> ({
                    let new = out@.subrange(out0.len() as int, out@.len() as int);
                    let acc = concat_items(new) + handle.current_items@;
                    &&& forall|j: int| 0 <= j < new.len() ==> is_full_items_part(#[trigger] new[j], id, call.id)
                    &&& forall|j: int| 0 <= j < new.len() ==> !is_complete_part(#[trigger] new[j])
                    &&& forall|j: int| 0 <= j < new.len() ==> part_of(#[trigger] new[j]) == capped(j)
                    &&& handle.current_part == capped(new.len() as int)
                    &&& forall|j: int| 0 <= j < new.len() ==> part_items(#[trigger] new[j]).len() == FULL_ITEMS_PART
                    &&& acc.len() == idx
                    &&& forall|j: int| 0 <= j < idx ==> full_item_ok(#[trigger] acc[j], self.canvas()@, params.ids@[j])
                }),
            decreases params.ids.len() - idx,
        {
            let item_id = params.ids[idx];
            let ghost items0 = handle.current_items@;
            match self.canvas.get_item(item_id) {
                Some(item) => handle.add_item(message::Result::Success((item_id, item))),
                None => handle.add_item(message::Result::Failure(Error::code(ErrorCode::NotFound))),
            }
            proof {
                if link is Some {
                    let new = out@.subrange(out0.len() as int, out@.len() as int);
                    assert(concat_items(new) + handle.current_items@ =~= (concat_items(new) + items0).push(handle.current_items@.last()));
                }
            }
            if handle.current_items.len() == FULL_ITEMS_PART {
                let ghost before = out@;
                let ghost items = handle.current_items@;
                handle.flush_response(out);
                proof {
                    assert(out@.subrange(0, out0.len() as int) =~= before.subrange(0, out0.len() as int));
                    if link is Some {
                        let nb = before.subrange(out0.len() as int, before.len() as int);
                        let na = out@.subrange(out0.len() as int, out@.len() as int);
                        assert(na =~= nb.push(out@.last()));
                        assert(na.drop_last() =~= nb);
                        assert(concat_items(na) =~= concat_items(nb) + items);
                    }
                }
            }
            idx = idx + 1;
        }
        let ghost before = out@;
        let ghost items = handle.current_items@;
        handle.finalize(out);
        proof {
            assert(out@.subrange(0, out0.len() as int) =~= before.subrange(0, out0.len() as int));
            if link is Some {
                let nb = before.subrange(out0.len() as int, before.len() as int);
                let na = out@.subrange(out0.len() as int, out@.len() as int);
                assert(na =~= nb.push(out@.last()));
                assert(na.drop_last() =~= nb);
                assert(concat_items(na) =~= concat_items(nb) + items);
            }
        }
    }

    /// Follows a path being drawn: sends its nodes so far as the first part
    /// and adds the call to the path's listeners, which later parts and the
    /// final part reach. Rejects the call where the path does not exist.
    pub fn handle_get_active_path(&mut self, id: ClientID, call: IterateCall<GetActivePath>, out: &mut Vec<Outgoing>)
        requires
            old(self).wf(),
        ensures
            final(self).wf(),
            get_active_path_done(*old(self), *final(self), id, call, old(out)@, final(out)@),
    {
        let (params, mut handle) = call.get_handle(self.get_handle(id));
        if path_owner(&self.active_paths, params.path.0).is_none() {
            handle.error(non_existent_id(params.path), out);
            proof {
                assert(out@.subrange(0, old(out)@.len() as int) =~= old(out)@);
            }
            return;
        }
        let mut path = paths_remove(&mut self.active_paths, params.path.0).unwrap();
        handle.add_items(&path.nodes);
        handle.flush_response(out);
        path.listeners.push(handle);
        paths_upsert(&mut self.active_paths, params.path.0, path);
        proof {
            assert(self.paths().dom() =~= old(self).paths().dom());
            assert(self.paths()[params.path.0].listeners@.drop_last() =~= old(self).paths()[params.path.0].listeners@);
            assert(out@.subrange(0, old(out)@.len() as int) =~= old(out)@);
        }
        assert(self.paths() =~= old(self).paths().insert(params.path.0, self.paths()[params.path.0]));
        proof {
            assert(out@.subrange(0, old(out)@.len() as int) =~= old(out)@);
        }
    }
}


/// A message for the board from the transport or a client.
#[derive(Debug)]
pub enum BoardMessage {
    /// A request from an attached client.
    ClientMessage(ClientID, MsgRecv),
    /// A new client asks for a session, under a session ID handed out by
    /// the caller.
    SessionRequest(ClientInfo, SessionID),
    /// A client's socket was attached.
    ClientConnected(ClientID),
    /// A client's socket was closed.
    ClientDisconnected(ClientID),
}

impl Board {
    /// Whether client `id` is registered.
    pub fn has_client(&self, id: ClientID) -> (r: bool)
        ensures
            r == self.clients().contains_key(id.0),
    {
        clients_connected(&self.clients, id.0).is_some()
    }

    /// Whether a new item ID can still be handed out.
    pub fn item_ids_available(&self) -> (r: bool)
        ensures
            r == self.canvas().can_add(),
    {
        self.canvas.can_add_exec()
    }

    /// Whether a new path ID can still be handed out.
    pub fn path_ids_available(&self) -> (r: bool)
        ensures
            r == (self.next_ids().1 < u32::MAX),
    {
        self.path_counter.get() < 0xFFFF_FFFF
    }

    /// Whether a new client ID can still be handed out.
    pub fn client_ids_available(&self) -> (r: bool)
        ensures
            r == self.can_add_client(),
    {
        self.client_counter.get() < 0xFFFF_FFFF
    }

    /// Answers a batch edit, which this engine does not support, with an
    /// `Internal` error for each listed item.
    pub fn handle_edit_batch_items(&self, id: ClientID, call: Call<EditBatchItems>, out: &mut Vec<Outgoing>)
        ensures
            edit_batch_items_done(*self, id, call, old(out)@, final(out)@),
    {
        let (params, handle) = call.create_handle(self.get_handle(id));
        let mut results: Vec<message::Result<(), Error>> = Vec::new();
        let mut i: usize = 0;
        while i < params.ids.len()
            invariant
                i <= params.ids.len(),
                results@.len() == i,
                forall|j: int| 0 <= j < i ==> #[trigger] results@[j] == message::Result::<(), Error>::Failure(error_of(ErrorCode::Internal)),
            decreases params.ids.len() - i,
        {
            results.push(message::Result::Failure(Error::internal()));
            i = i + 1;
        }
        handle.respond(results, out);
        assert(out@.subrange(0, old(out)@.len() as int) =~= old(out)@);
    }

    /// Runs the handler of a method call from client `id`.
    pub fn handle_method(&mut self, id: ClientID, method: Methods, now: u64, out: &mut Vec<Outgoing>)
        requires
            old(self).wf(),
            method_allowed(*old(self), id, method),
        ensures
            final(self).wf(),
            method_done(*old(self), *final(self), id, method, now, old(out)@, final(out)@),
    {
        match method {
            Methods::SelectionAddItems(call) => self.handle_selection_add_items(id, call, out),
            Methods::SelectionRemoveItems(call) => self.handle_selection_remove_items(id, call, out),
            Methods::SelectionMove(call) => self.handle_selection_move(id, call, out),
            Methods::EditBatchItems(call) => self.handle_edit_batch_items(id, call, out),
            Methods::EditSingleItem(call) => self.handle_edit_single_item(id, call, out),
            Methods::DeleteItems(call) => self.handle_delete_items(id, call, out),
            Methods::CreateItem(call) => {
                self.handle_create_item(id, call, out);
            },
            Methods::BeginPath(call) => {
                self.handle_begin_path(id, call, now, out);
            },
            Methods::ContinuePath(call) => self.handle_continue_path(id, call, now, out),
            Methods::EndPath(call) => self.handle_end_path(id, call, out),
            Methods::GetAllItemIDs(call) => self.handle_get_all_item_ids(id, call, out),
            Methods::GetAllClientIDs(call) => self.handle_get_all_client_ids(id, call, out),
            Methods::GetClientState(call) => self.handle_get_client_state(id, call, out),
        }
    }

    /// Runs the handler of a streamed call from client `id`.
    pub fn handle_iterate(&mut self, id: ClientID, call: Iterates, out: &mut Vec<Outgoing>)
        requires
            old(self).wf(),
        ensures
            final(self).wf(),
            iterate_done(*old(self), *final(self), id, call, old(out)@, final(out)@),
    {
        match call {
            Iterates::GetFullItems(call) => self.handle_get_full_items(id, call, out),
            Iterates::GetActivePath(call) => self.handle_get_active_path(id, call, out),
        }
    }

    /// Applies one board message at time `now`: runs a client's request,
    /// registers a client (returning its IDs), or records that a client's
    /// socket was attached or closed.
    pub fn handle_message(&mut self, msg: BoardMessage, now: u64, out: &mut Vec<Outgoing>) -> (r: Option<ConnectionInfo>)
        requires
            old(self).wf(),
            message_allowed(*old(self), msg),
        ensures
            final(self).wf(),
            message_done(*old(self), *final(self), msg, now, r, old(out)@, final(out)@),
    {
        match msg {
            BoardMessage::ClientMessage(id, m) => {
                match m {
                    MsgRecv::Method(method) => self.handle_method(id, method, now, out),
                    MsgRecv::Iterate(call) => self.handle_iterate(id, call, out),
                }
                None
            },
            BoardMessage::SessionRequest(info, session_id) => Some(self.handle_session_request(info, session_id, out)),
            BoardMessage::ClientConnected(id) => {
                self.set_connected(id, true);
                None
            },
            BoardMessage::ClientDisconnected(id) => {
                self.set_connected(id, false);
                None
            },
        }
    }
}

impl Board {
    /// The canvas.
    pub fn get_canvas(&self) -> (r: &ActiveCanvas)
        ensures
            *r == self.canvas(),
    {
        &self.canvas
    }

    /// The client that has selected the item: `None` where there is no
    /// such item, `Some(None)` where it is not selected.
    pub fn owner_of(&self, item_id: ItemID) -> (r: Option<Option<ClientID>>)
        ensures
            r is Some <==> self.owners().contains_key(item_id.0),
            r is Some ==> r->Some_0 == self.owners()[item_id.0],
    {
        owners_read(&self.selected_items, item_id.0)
    }

    /// A snapshot of the state of client `id`, if it is registered.
    pub fn client_snapshot(&self, id: ClientID) -> (r: Option<ClientSnapshot>)
        ensures
            r is Some <==> self.clients().contains_key(id.0),
            r matches Some(v) ==> v.info == self.clients()[id.0].info
                && v.paths@ == self.clients()[id.0].active_paths@
                && v.selected_items@ == self.clients()[id.0].selection.items@
                && v.selection_transform == self.clients()[id.0].selection.own_transform,
    {
        match clients_read(&self.clients, id.0) {
            None => None,
            Some(c) => Some(ClientSnapshot {
                info: c.info,
                paths: c.active_paths,
                selected_items: c.selection.items,
                selection_transform: c.selection.own_transform,
            }),
        }
    }

    /// Whether path `p` is being drawn.
    pub fn has_path(&self, p: PathID) -> (r: bool)
        ensures
            r == self.paths().contains_key(p.0),
    {
        path_owner(&self.active_paths, p.0).is_some()
    }
}

/// Selection exclusivity: in a well-formed board no item is in the
/// selections of two different clients. Every constructor, handler and
/// dispatcher ensures `wf`, so this holds after any sequence of calls.
pub proof fn lemma_selection_exclusive(b: Board, c1: u32, c2: u32, k: u32)
    requires
        b.wf(),
        b.clients().contains_key(c1),
        b.clients().contains_key(c2),
        b.clients()[c1].selection@.contains_key(k),
        b.clients()[c2].selection@.contains_key(k),
    ensures
        c1 == c2,
{
    assert(b.owners()[k] == Some(ClientID(c1)));
    assert(b.owners()[k] == Some(ClientID(c2)));
}

/// Index totality: in a well-formed board the selection index has an entry
/// for exactly the items on the canvas. Every constructor, handler and
/// dispatcher ensures `wf`, so this holds after any sequence of calls.
pub proof fn lemma_index_total(b: Board)
    requires
        b.wf(),
    ensures
        forall|k: u32| #[trigger] b.canvas()@.contains_key(k) <==> b.owners().contains_key(k),
{
}

/// Path ownership: in a well-formed board every path is listed by exactly
/// one client, its owner, and clients list only paths that exist. Every
/// constructor, handler and dispatcher ensures `wf`, so this holds after any
/// sequence of calls.
pub proof fn lemma_path_owned_once(b: Board, p: u32)
    requires
        b.wf(),
        b.paths().contains_key(p),
    ensures
        b.clients().contains_key(b.paths()[p].client.0),
        b.clients()[b.paths()[p].client.0].active_paths@.contains(PathID(p)),
        forall|c: u32| #[trigger] b.clients().contains_key(c) && b.clients()[c].active_paths@.contains(PathID(p))
            ==> c == b.paths()[p].client.0,
{
    assert forall|c: u32| #[trigger] b.clients().contains_key(c) && b.clients()[c].active_paths@.contains(PathID(p))
        implies c == b.paths()[p].client.0 by {
        let i = choose|i: int| 0 <= i < b.clients()[c].active_paths@.len() && b.clients()[c].active_paths@[i] == PathID(p);
        assert(b.paths()[b.clients()[c].active_paths@[i].0].client == ClientID(c));
    }
}

/// In a well-formed board a client lists only paths that exist, so a path
/// that was ended is listed by no client.
pub proof fn lemma_listed_paths_exist(b: Board, c: u32, p: PathID)
    requires
        b.wf(),
        b.clients().contains_key(c),
        b.clients()[c].active_paths@.contains(p),
    ensures
        b.paths().contains_key(p.0),
{
    let i = choose|i: int| 0 <= i < b.clients()[c].active_paths@.len() && b.clients()[c].active_paths@[i] == p;
    assert(b.paths().contains_key(b.clients()[c].active_paths@[i].0));
}

/// Broadcast coverage: the recipients of a broadcast are exactly the
/// registered clients with a socket attached, each listed once, in
/// ascending client order.
pub proof fn lemma_broadcast_coverage(b: Board, c: u32)
    requires
        b.wf(),
    ensures
        b.attached_clients().contains(ClientID(c)) <==> b.clients().contains_key(c) && b.clients()[c].connected,
        b.attached_clients().no_duplicates(),
        ascending_clients(b.attached_clients()),
{
    let order = b.client_order();
    let f = |x: ClientID| b.clients().contains_key(x.0) && b.clients()[x.0].connected;
    let s = order.filter(f);
    if b.clients().contains_key(c) && b.clients()[c].connected {
        assert(exists|i: int| 0 <= i < order.len() && order[i].0 == c);
        let i = choose|i: int| 0 <= i < order.len() && order[i].0 == c;
        order.lemma_filter_contains(f, i);
        assert(order[i] == ClientID(c));
    }
    if s.contains(ClientID(c)) {
        let j = choose|j: int| 0 <= j < s.len() && s[j] == ClientID(c);
        order.lemma_filter_pred(f, j);
    }
    lemma_ascending_filter(order, f);
}

proof fn lemma_ascending_filter(s: Seq<ClientID>, f: spec_fn(ClientID) -> bool)
    requires
        ascending_clients(s),
    ensures
        ascending_clients(s.filter(f)),
        s.filter(f).no_duplicates(),
    decreases s.len(),
{
    reveal(Seq::filter);
    if s.len() > 0 {
        lemma_ascending_filter(s.drop_last(), f);
        let t = s.drop_last().filter(f);
        if f(s.last()) {
            assert forall|j: int| 0 <= j < t.len() implies t[j].0 < s.last().0 by {
                s.drop_last().lemma_filter_pred(f, j);
                assert(t.contains(t[j]));
                s.drop_last().lemma_filter_contains_rev(f, t[j]);
            }
        }
    }
}

} // verus!
