//! An open canvas: the items of a board, their ascending ID index and an
//! edit counter.

use vstd::prelude::*;

use crate::ids::{CounterU64, ItemID};
use crate::item::{accepts_location, with_location, Item, ItemView, LocationUpdate};
use crate::message::RejectReason;
use crate::table::{item_table, items_new, items_read, items_remove, items_upsert};

verus! {

/// Whether the IDs of `s` are strictly ascending.
pub open spec fn ascending_ids(s: Seq<ItemID>) -> bool {
    forall|i: int, j: int| 0 <= i < j < s.len() ==> s[i].0 < s[j].0
}

/// Whether `id` occurs in `s`.
pub open spec fn lists_id(s: Seq<ItemID>, id: u32) -> bool {
    exists|i: int| 0 <= i < s.len() && s[i].0 == id
}

/// The edit count after one more edit: one more, up to the largest value.
pub open spec fn bumped(edits: nat) -> nat {
    if edits < u64::MAX { edits + 1 } else { edits }
}

/// An open canvas.
pub struct ActiveCanvas {
    next_id: CounterU64,
    item_ids: Vec<ItemID>,
    items: scc::HashMap<u32, Item>,
    edit_count: CounterU64,
}

impl ActiveCanvas {
    /// The items, keyed by ID.
    pub closed spec fn view(&self) -> Map<u32, ItemView> {
        item_table(self.items).map_values(|i: Item| i@)
    }

    /// The item IDs in ascending order.
    pub closed spec fn ids(&self) -> Seq<ItemID> {
        self.item_ids@
    }

    /// The ID that the next added item gets.
    pub closed spec fn next_id(&self) -> nat {
        self.next_id@
    }

    /// The number of edits made so far.
    pub closed spec fn edits(&self) -> nat {
        self.edit_count@
    }

    /// The ID index lists exactly the items, in ascending order, and every
    /// ID is below the next one to be handed out.
    pub closed spec fn wf(&self) -> bool {
        &&& ascending_ids(self.item_ids@)
        &&& forall|k: u32| item_table(self.items).contains_key(k) <==> lists_id(self.item_ids@, k)
        &&& forall|i: int| 0 <= i < self.item_ids@.len() ==> self.item_ids@[i].0 < self.next_id@
        &&& self.next_id@ >= 1
    }

    /// Whether another item can be added.
    pub open spec fn can_add(&self) -> bool {
        self.next_id() < u32::MAX
    }

    /// The ID index lists exactly the items, all below the next ID.
    pub proof fn lemma_keys(&self)
        requires
            self.wf(),
        ensures
            ascending_ids(self.ids()),
            forall|k: u32| self@.contains_key(k) <==> lists_id(self.ids(), k),
            forall|k: u32| self@.contains_key(k) ==> k < self.next_id(),
    {
        assert forall|k: u32| self@.contains_key(k) implies k < self.next_id() by {
            assert(lists_id(self.item_ids@, k));
        }
    }

    /// Whether another item can be added.
    pub fn can_add_exec(&self) -> (r: bool)
        ensures
            r == self.can_add(),
    {
        self.next_id.get() < 0xFFFF_FFFF
    }

    /// An empty canvas whose first item gets ID 1.
    pub fn new_empty() -> (r: Self)
        ensures
            r.wf(),
            r@ == Map::<u32, ItemView>::empty(),
            r.ids() == Seq::<ItemID>::empty(),
            r.next_id() == 1,
            r.edits() == 0,
    {
        let r = ActiveCanvas {
            next_id: CounterU64::starting_at(1),
            item_ids: Vec::new(),
            items: items_new(),
            edit_count: CounterU64::new(),
        };
        assert(r@ =~= Map::<u32, ItemView>::empty());
        r
    }

    fn bump_edits(&mut self)
        ensures
            final(self).edits() == bumped(old(self).edits()),
            final(self).items == old(self).items,
            final(self).item_ids == old(self).item_ids,
            final(self).next_id == old(self).next_id,
    {
        if self.edit_count.get() < u64::MAX {
            self.edit_count.next();
        }
    }

    /// Inserts a new item under the next ID and returns that ID.
    pub fn add_item(&mut self, item: Item) -> (id: ItemID)
        requires
            old(self).wf(),
            old(self).can_add(),
        ensures
            final(self).wf(),
            id.0 == old(self).next_id(),
            !old(self)@.contains_key(id.0),
            final(self)@ == old(self)@.insert(id.0, item@),
            final(self).ids() == old(self).ids().push(id),
            crate::ids::allocation(old(self).next_id(), final(self).next_id(), id.0 as nat),
            final(self).edits() == bumped(old(self).edits()),
    {
        proof {
            self.lemma_keys();
        }
        let id = ItemID(self.next_id.next() as u32);
        items_upsert(&mut self.items, id.0, item);
        self.item_ids.push(id);
        self.bump_edits();
        proof {
            assert forall|k: u32| item_table(self.items).contains_key(k) <==> lists_id(self.item_ids@, k) by {
                if lists_id(old(self).item_ids@, k) {
                    let i = choose|i: int| 0 <= i < old(self).item_ids@.len() && old(self).item_ids@[i].0 == k;
                    assert(self.item_ids@[i] == old(self).item_ids@[i]);
                }
                if lists_id(self.item_ids@, k) && k != id.0 {
                    let i = choose|i: int| 0 <= i < self.item_ids@.len() && self.item_ids@[i].0 == k;
                    assert(old(self).item_ids@[i] == self.item_ids@[i]);
                }
                if k == id.0 {
                    assert(self.item_ids@[self.item_ids@.len() - 1].0 == k);
                }
            }
            assert(self@ =~= old(self)@.insert(id.0, item@));
        }
        id
    }

    /// A copy of the item with the given ID, if there is one.
    pub fn get_item(&self, id: ItemID) -> (r: Option<Item>)
        requires
            self.wf(),
        ensures
            r is Some <==> self@.contains_key(id.0),
            r is Some ==> r->Some_0@ == self@[id.0],
    {
        items_read(&self.items, id.0)
    }

    /// Whether an item with the given ID exists.
    pub fn contains(&self, id: ItemID) -> (r: bool)
        requires
            self.wf(),
        ensures
            r == self@.contains_key(id.0),
    {
        proof {
            self.lemma_keys();
        }
        let mut i: usize = 0;
        while i < self.item_ids.len()
            invariant
                self.wf(),
                i <= self.item_ids.len(),
                forall|j: int| 0 <= j < i ==> self.item_ids@[j].0 != id.0,
                forall|k: u32| self@.contains_key(k) <==> lists_id(self.ids(), k),
            decreases self.item_ids.len() - i,
        {
            if self.item_ids[i].0 == id.0 {
                assert(lists_id(self.ids(), id.0));
                return true;
            }
            i = i + 1;
        }
        assert(!lists_id(self.ids(), id.0));
        false
    }

    /// Replaces the item with the given ID, which must exist.
    pub fn replace_item(&mut self, id: ItemID, item: Item)
        requires
            old(self).wf(),
            old(self)@.contains_key(id.0),
        ensures
            final(self).wf(),
            final(self)@ == old(self)@.insert(id.0, item@),
            final(self).ids() == old(self).ids(),
            final(self).next_id() == old(self).next_id(),
            final(self).edits() == bumped(old(self).edits()),
    {
        items_upsert(&mut self.items, id.0, item);
        self.bump_edits();
        assert(self@ =~= old(self)@.insert(id.0, item@));
    }

    /// Applies a location update to the item with the given ID, which must
    /// exist; see `Item::apply_location_update`.
    pub fn apply_location_update(&mut self, id: ItemID, update: &LocationUpdate) -> (r:
        core::result::Result<(), (LocationUpdate, RejectReason)>)
        requires
            old(self).wf(),
            old(self)@.contains_key(id.0),
        ensures
            final(self).wf(),
            final(self).ids() == old(self).ids(),
            final(self).next_id() == old(self).next_id(),
            final(self).edits() == if r is Ok { bumped(old(self).edits()) } else { old(self).edits() },
            r is Ok <==> accepts_location(old(self)@[id.0], update@),
            r is Ok ==> final(self)@ == old(self)@.insert(id.0, with_location(old(self)@[id.0], update@)),
            r is Err ==> final(self)@ == old(self)@,
            r matches Err((current, reason)) ==> current@ == crate::item::location_of(old(self)@[id.0])
                && crate::item::is_location_mismatch(reason, id, old(self)@[id.0], update@),
    {
        let mut item = items_remove(&mut self.items, id.0).unwrap();
        let r = item.apply_location_update(id, update);
        items_upsert(&mut self.items, id.0, item);
        if r.is_ok() {
            self.bump_edits();
        }
        proof {
            assert(item_table(self.items).dom() =~= item_table(old(self).items).dom());
        }
        assert(r is Err ==> self@ =~= old(self)@);
        assert(r is Ok ==> self@ =~= old(self)@.insert(id.0, with_location(old(self)@[id.0], update@)));
        r
    }

    /// Removes the item with the given ID; a missing ID is ignored.
    pub fn delete_item(&mut self, id: ItemID)
        requires
            old(self).wf(),
        ensures
            final(self).wf(),
            final(self)@ == old(self)@.remove(id.0),
            final(self).next_id() == old(self).next_id(),
            final(self).edits() == if old(self)@.contains_key(id.0) { bumped(old(self).edits()) } else { old(self).edits() },
    {
        let ghost s0 = self.item_ids@;
        let mut pos: usize = 0;
        while pos < self.item_ids.len() && self.item_ids[pos].0 != id.0
            invariant
                pos <= self.item_ids.len(),
                self.item_ids@ == s0,
                forall|j: int| 0 <= j < pos ==> s0[j].0 != id.0,
            decreases self.item_ids.len() - pos,
        {
            pos = pos + 1;
        }
        let removed = items_remove(&mut self.items, id.0);
        if pos < self.item_ids.len() {
            self.item_ids.remove(pos);
        }
        if removed.is_some() {
            self.bump_edits();
        }
        proof {
            let s1 = self.item_ids@;
            assert(ascending_ids(s1));
            assert forall|k: u32| item_table(self.items).contains_key(k) <==> lists_id(s1, k) by {
                if lists_id(s1, k) {
                    let j = choose|j: int| 0 <= j < s1.len() && s1[j].0 == k;
                    if j < pos || s1.len() == s0.len() {
                        assert(s0[j] == s1[j]);
                    } else {
                        assert(s0[j + 1] == s1[j]);
                        assert(s0[pos as int].0 < s0[j + 1].0);
                    }
                    assert(lists_id(s0, k));
                }
                if lists_id(s0, k) && k != id.0 {
                    let j = choose|j: int| 0 <= j < s0.len() && s0[j].0 == k;
                    if j < pos || s1.len() == s0.len() {
                        assert(s1[j] == s0[j]);
                    } else {
                        assert(s1[j - 1] == s0[j]);
                    }
                    assert(lists_id(s1, k));
                }
            }
            assert forall|i: int| 0 <= i < s1.len() implies s1[i].0 < self.next_id@ by {
                if i < pos || s1.len() == s0.len() {
                    assert(s1[i] == s0[i]);
                } else {
                    assert(s1[i] == s0[i + 1]);
                }
            }
            assert(self@ =~= old(self)@.remove(id.0));
        }
    }

    /// The item IDs in ascending order.
    pub fn get_item_ids(&self) -> (r: Vec<ItemID>)
        ensures
            r@ == self.ids(),
            self.wf() ==> ascending_ids(r@),
            self.wf() ==> forall|k: u32| self@.contains_key(k) <==> lists_id(r@, k),
    {
        proof {
            if self.wf() {
                self.lemma_keys();
            }
        }
        crate::geometry::copy_vec(&self.item_ids)
    }

    /// The number of edits made so far.
    pub fn edit_count(&self) -> (r: u64)
        ensures
            r == self.edits(),
    {
        self.edit_count.get()
    }

    /// A copy of every item with its ID, in ascending ID order.
    pub fn scan_items(&self) -> (r: Vec<(ItemID, Item)>)
        requires
            self.wf(),
        ensures
            r@.len() == self.ids().len(),
            forall|i: int| 0 <= i < r@.len() ==> r@[i].0 == self.ids()[i] && r@[i].1@ == self@[self.ids()[i].0],
    {
        let mut r: Vec<(ItemID, Item)> = Vec::new();
        let mut i: usize = 0;
        while i < self.item_ids.len()
            invariant
                self.wf(),
                i <= self.item_ids.len(),
                r@.len() == i,
                forall|j: int| 0 <= j < i ==> r@[j].0 == self.ids()[j] && r@[j].1@ == self@[self.ids()[j].0],
            decreases self.item_ids.len() - i,
        {
            let id = self.item_ids[i];
            proof {
                assert(lists_id(self.item_ids@, id.0));
            }
            let item = items_read(&self.items, id.0).unwrap();
            r.push((id, item));
            i = i + 1;
        }
        r
    }
}

} // verus!
