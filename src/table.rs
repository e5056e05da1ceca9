//! The concurrent hash maps (`scc::HashMap`) that hold board state, with the
//! contracts of the operations that the board engine performs on them. Each
//! map's contents are named by a spec function over the map.

use vstd::prelude::*;

use crate::board::{ActivePath, ClientState};
use crate::ids::ClientID;
use crate::item::Item;

verus! {

/// Declares `scc::HashMap` to Verus as an opaque type.
#[verifier::external_type_specification]
#[verifier::external_body]
#[verifier::reject_recursive_types(K)]
#[verifier::reject_recursive_types(V)]
#[verifier::reject_recursive_types(H)]
pub struct ExHashMap<K, V, H: std::hash::BuildHasher>(scc::HashMap<K, V, H>);

/// The contents of a map from item ID to item.
pub uninterp spec fn item_table(m: scc::HashMap<u32, Item>) -> Map<u32, Item>;

/// Relies on `scc::HashMap::new`: the new map is empty.
#[verifier::external_body]
pub(crate) fn items_new() -> (r: scc::HashMap<u32, Item>)
    ensures
        item_table(r).dom() == Set::<u32>::empty(),
{
    scc::HashMap::new()
}

/// Relies on `scc::HashMap::upsert`: the key maps to the value afterwards,
/// whether or not it was present.
#[verifier::external_body]
pub(crate) fn items_upsert(m: &mut scc::HashMap<u32, Item>, k: u32, v: Item)
    ensures
        item_table(*final(m)) == item_table(*old(m)).insert(k, v),
{
    m.upsert(k, v);
}

/// Relies on `scc::HashMap::read`: the reader runs on the value of a present
/// key, and `None` comes back for an absent one. The reader clones the item
/// with `Item::clone`, whose contract gives an equal view.
#[verifier::external_body]
pub(crate) fn items_read(m: &scc::HashMap<u32, Item>, k: u32) -> (r: Option<Item>)
    ensures
        r is Some <==> item_table(*m).contains_key(k),
        r is Some ==> r->Some_0@ == item_table(*m)[k]@,
{
    m.read(&k, |_, v| v.clone())
}

/// Relies on `scc::HashMap::remove`: a present key is removed and its value
/// handed back; an absent key gives `None` and leaves the map as it is.
#[verifier::external_body]
pub(crate) fn items_remove(m: &mut scc::HashMap<u32, Item>, k: u32) -> (r: Option<Item>)
    ensures
        r is Some <==> item_table(*old(m)).contains_key(k),
        r is Some ==> r->Some_0 == item_table(*old(m))[k],
        item_table(*final(m)) == item_table(*old(m)).remove(k),
{
    m.remove(&k).map(|(_, v)| v)
}
/// The contents of a map from item ID to the client that has selected it.
pub uninterp spec fn owner_table(m: scc::HashMap<u32, Option<ClientID>>) -> Map<u32, Option<ClientID>>;

/// Relies on `scc::HashMap::new`: the new map is empty.
#[verifier::external_body]
pub(crate) fn owners_new() -> (r: scc::HashMap<u32, Option<ClientID>>)
    ensures
        owner_table(r).dom() == Set::<u32>::empty(),
{
    scc::HashMap::new()
}

/// Relies on `scc::HashMap::upsert`: the key maps to the value afterwards,
/// whether or not it was present.
#[verifier::external_body]
pub(crate) fn owners_upsert(m: &mut scc::HashMap<u32, Option<ClientID>>, k: u32, v: Option<ClientID>)
    ensures
        owner_table(*final(m)) == owner_table(*old(m)).insert(k, v),
{
    m.upsert(k, v);
}

/// Relies on `scc::HashMap::read`: the reader runs on the value of a present
/// key, and `None` comes back for an absent one. The reader copies the value.
#[verifier::external_body]
pub(crate) fn owners_read(m: &scc::HashMap<u32, Option<ClientID>>, k: u32) -> (r: Option<Option<ClientID>>)
    ensures
        r is Some <==> owner_table(*m).contains_key(k),
        r is Some ==> r->Some_0 == owner_table(*m)[k],
{
    m.read(&k, |_, v| *v)
}

/// Relies on `scc::HashMap::remove`: a present key is removed and its value
/// handed back; an absent key gives `None` and leaves the map as it is.
#[verifier::external_body]
pub(crate) fn owners_remove(m: &mut scc::HashMap<u32, Option<ClientID>>, k: u32) -> (r: Option<Option<ClientID>>)
    ensures
        r is Some <==> owner_table(*old(m)).contains_key(k),
        r is Some ==> r->Some_0 == owner_table(*old(m))[k],
        owner_table(*final(m)) == owner_table(*old(m)).remove(k),
{
    m.remove(&k).map(|(_, v)| v)
}
/// The contents of a map from client ID to client state.
pub uninterp spec fn client_table(m: scc::HashMap<u32, ClientState>) -> Map<u32, ClientState>;

/// Relies on `scc::HashMap::new`: the new map is empty.
#[verifier::external_body]
pub(crate) fn clients_new() -> (r: scc::HashMap<u32, ClientState>)
    ensures
        client_table(r).dom() == Set::<u32>::empty(),
{
    scc::HashMap::new()
}

/// Relies on `scc::HashMap::upsert`: the key maps to the value afterwards,
/// whether or not it was present.
#[verifier::external_body]
pub(crate) fn clients_upsert(m: &mut scc::HashMap<u32, ClientState>, k: u32, v: ClientState)
    ensures
        client_table(*final(m)) == client_table(*old(m)).insert(k, v),
{
    m.upsert(k, v);
}

/// Relies on `scc::HashMap::read`: the reader runs on the value of a present
/// key, and `None` comes back for an absent one. The reader clones the state
/// with `ClientState::clone`, whose contract gives the same field values.
#[verifier::external_body]
pub(crate) fn clients_read(m: &scc::HashMap<u32, ClientState>, k: u32) -> (r: Option<ClientState>)
    ensures
        r is Some <==> client_table(*m).contains_key(k),
        r is Some ==> r->Some_0.same_as(client_table(*m)[k]),
{
    m.read(&k, |_, v| v.clone())
}
/// Relies on `scc::HashMap::read`: the reader runs on the value of a present
/// key, and `None` comes back for an absent one.
#[verifier::external_body]
pub(crate) fn clients_connected(m: &scc::HashMap<u32, ClientState>, k: u32) -> (r: Option<bool>)
    ensures
        r is Some <==> client_table(*m).contains_key(k),
        r is Some ==> r->Some_0 == client_table(*m)[k].connected,
{
    m.read(&k, |_, c| c.connected)
}

/// The contents of a map from path ID to the path being drawn.
pub uninterp spec fn path_table(m: scc::HashMap<u32, ActivePath>) -> Map<u32, ActivePath>;

/// Relies on `scc::HashMap::new`: the new map is empty.
#[verifier::external_body]
pub(crate) fn paths_new() -> (r: scc::HashMap<u32, ActivePath>)
    ensures
        path_table(r).dom() == Set::<u32>::empty(),
{
    scc::HashMap::new()
}

/// Relies on `scc::HashMap::upsert`: the key maps to the value afterwards,
/// whether or not it was present.
#[verifier::external_body]
pub(crate) fn paths_upsert(m: &mut scc::HashMap<u32, ActivePath>, k: u32, v: ActivePath)
    ensures
        path_table(*final(m)) == path_table(*old(m)).insert(k, v),
{
    m.upsert(k, v);
}

/// Relies on `scc::HashMap::remove`: a present key is removed and its value
/// handed back; an absent key gives `None` and leaves the map as it is.
#[verifier::external_body]
pub(crate) fn paths_remove(m: &mut scc::HashMap<u32, ActivePath>, k: u32) -> (r: Option<ActivePath>)
    ensures
        r is Some <==> path_table(*old(m)).contains_key(k),
        r is Some ==> r->Some_0 == path_table(*old(m))[k],
        path_table(*final(m)) == path_table(*old(m)).remove(k),
{
    m.remove(&k).map(|(_, v)| v)
}

/// Relies on `scc::HashMap::read`: the reader runs on the value of a present
/// key, and `None` comes back for an absent one.
#[verifier::external_body]
pub(crate) fn path_owner(m: &scc::HashMap<u32, ActivePath>, k: u32) -> (r: Option<ClientID>)
    ensures
        r is Some <==> path_table(*m).contains_key(k),
        r is Some ==> r->Some_0 == path_table(*m)[k].client,
{
    m.read(&k, |_, p| p.client)
}

} // verus!
