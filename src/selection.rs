//! A client's selection: an ordered map from item to the transform the
//! client gave it, kept as a vector sorted by item ID.

use vstd::prelude::*;

use crate::geometry::Transform;
use crate::ids::ItemID;

verus! {

/// The selection held by one client.
#[derive(Debug)]
pub struct SelectionState {
    /// Selected items in ascending ID order, each with its transform.
    pub items: Vec<(ItemID, Transform)>,
    /// The transform of the selection as a whole.
    pub own_transform: Transform,
}

/// Whether the IDs of `s` are strictly ascending.
pub open spec fn strictly_ascending(s: Seq<(ItemID, Transform)>) -> bool {
    forall|i: int, j: int| 0 <= i < j < s.len() ==> s[i].0.0 < s[j].0.0
}

/// Whether `id` is one of the IDs in `s`.
pub open spec fn holds_id(s: Seq<(ItemID, Transform)>, id: u32) -> bool {
    exists|i: int| 0 <= i < s.len() && s[i].0.0 == id
}

/// The map from item ID to transform that `s` lists.
pub open spec fn pairs_map(s: Seq<(ItemID, Transform)>) -> Map<u32, Transform> {
    Map::new(
        |k: u32| holds_id(s, k),
        |k: u32| s[choose|i: int| 0 <= i < s.len() && s[i].0.0 == k].1,
    )
}

proof fn lemma_pairs_map_at(s: Seq<(ItemID, Transform)>, i: int)
    requires
        strictly_ascending(s),
        0 <= i < s.len(),
    ensures
        pairs_map(s).contains_key(s[i].0.0),
        pairs_map(s)[s[i].0.0] == s[i].1,
{
    let k = s[i].0.0;
    assert(holds_id(s, k));
    let j = choose|j: int| 0 <= j < s.len() && s[j].0.0 == k;
    if j < i {
        assert(s[j].0.0 < s[i].0.0);
    } else if i < j {
        assert(s[i].0.0 < s[j].0.0);
    }
}

/// The map `m` after selecting each entry of `sits` in order: a later
/// entry for the same item wins.
pub open spec fn merged(m: Map<u32, Transform>, sits: Seq<(ItemID, Transform)>) -> Map<u32, Transform>
    decreases sits.len(),
{
    if sits.len() == 0 {
        m
    } else {
        merged(m, sits.drop_last()).insert(sits.last().0.0, sits.last().1)
    }
}

/// The keys of a merge are those of `m` and those listed in `sits`.
pub proof fn lemma_merged_keys(m: Map<u32, Transform>, sits: Seq<(ItemID, Transform)>, k: u32)
    ensures
        merged(m, sits).contains_key(k) <==> m.contains_key(k) || holds_id(sits, k),
    decreases sits.len(),
{
    if sits.len() > 0 {
        let prev = sits.drop_last();
        lemma_merged_keys(m, prev, k);
        if holds_id(prev, k) {
            let j = choose|j: int| 0 <= j < prev.len() && prev[j].0.0 == k;
            assert(sits[j] == prev[j]);
        }
        if holds_id(sits, k) && k != sits.last().0.0 {
            let j = choose|j: int| 0 <= j < sits.len() && sits[j].0.0 == k;
            assert(prev[j] == sits[j]);
        }
        if k == sits.last().0.0 {
            assert(sits[sits.len() - 1].0.0 == k);
        }
    }
}

impl SelectionState {
    /// The selected items as a map.
    pub open spec fn view(&self) -> Map<u32, Transform> {
        pairs_map(self.items@)
    }

    /// The internal ordering holds.
    pub open spec fn wf(&self) -> bool {
        strictly_ascending(self.items@)
    }

    /// An empty selection with the identity transform.
    pub fn new() -> (r: Self)
        ensures
            r.wf(),
            r@ == Map::<u32, Transform>::empty(),
            r.own_transform == crate::geometry::identity_transform(),
    {
        let r = SelectionState { items: Vec::new(), own_transform: Transform::identity() };
        assert(r@ =~= Map::<u32, Transform>::empty());
        r
    }

    /// Whether `id` is selected.
    pub fn contains(&self, id: ItemID) -> (r: bool)
        requires
            self.wf(),
        ensures
            r == self@.contains_key(id.0),
    {
        let mut i: usize = 0;
        while i < self.items.len()
            invariant
                i <= self.items.len(),
                forall|j: int| 0 <= j < i ==> self.items@[j].0.0 != id.0,
            decreases self.items.len() - i,
        {
            if self.items[i].0.0 == id.0 {
                return true;
            }
            i = i + 1;
        }
        false
    }

    /// Selects `id` with transform `t`, replacing an earlier transform.
    pub fn insert(&mut self, id: ItemID, t: Transform)
        requires
            old(self).wf(),
        ensures
            final(self).wf(),
            final(self)@ == old(self)@.insert(id.0, t),
            final(self).own_transform == old(self).own_transform,
    {
        let ghost s0 = self.items@;
        let mut pos: usize = 0;
        while pos < self.items.len() && self.items[pos].0.0 < id.0
            invariant
                pos <= self.items.len(),
                self.items@ == s0,
                strictly_ascending(s0),
                forall|j: int| 0 <= j < pos ==> s0[j].0.0 < id.0,
            decreases self.items.len() - pos,
        {
            pos = pos + 1;
        }
        if pos < self.items.len() && self.items[pos].0.0 == id.0 {
            self.items.set(pos, (id, t));
        } else {
            self.items.insert(pos, (id, t));
        }
        let ghost s1 = self.items@;
        assert(strictly_ascending(s1));
        assert forall|k: u32| #[trigger] holds_id(s1, k) == old(self)@.insert(id.0, t).contains_key(k) by {
            if holds_id(s1, k) {
                let j = choose|j: int| 0 <= j < s1.len() && s1[j].0.0 == k;
                if k != id.0 {
                    if j < pos {
                        assert(s0[j] == s1[j]);
                    } else if s1.len() == s0.len() {
                        assert(s0[j] == s1[j]);
                    } else {
                        assert(s0[j - 1] == s1[j]);
                    }
                    assert(holds_id(s0, k));
                }
            }
            if old(self)@.contains_key(k) && k != id.0 {
                let j = choose|j: int| 0 <= j < s0.len() && s0[j].0.0 == k;
                if j < pos {
                    assert(s1[j] == s0[j]);
                } else if s1.len() == s0.len() {
                    assert(s1[j] == s0[j]);
                } else {
                    assert(s1[j + 1] == s0[j]);
                }
                assert(holds_id(s1, k));
            }
            if k == id.0 {
                assert(s1[pos as int].0.0 == k);
            }
        }
        assert forall|k: u32| #[trigger] pairs_map(s1).contains_key(k) implies pairs_map(s1)[k]
            == old(self)@.insert(id.0, t)[k] by {
            let j = choose|j: int| 0 <= j < s1.len() && s1[j].0.0 == k;
            lemma_pairs_map_at(s1, j);
            if k != id.0 {
                if j < pos {
                    assert(s0[j] == s1[j]);
                    lemma_pairs_map_at(s0, j);
                } else if s1.len() == s0.len() {
                    assert(s0[j] == s1[j]);
                    lemma_pairs_map_at(s0, j);
                } else {
                    assert(s0[j - 1] == s1[j]);
                    lemma_pairs_map_at(s0, j - 1);
                }
            } else {
                lemma_pairs_map_at(s1, pos as int);
            }
        }
        assert(self@ =~= old(self)@.insert(id.0, t));
    }

    /// Removes `id` from the selection, if it is there.
    pub fn remove(&mut self, id: ItemID)
        requires
            old(self).wf(),
        ensures
            final(self).wf(),
            final(self)@ == old(self)@.remove(id.0),
            final(self).own_transform == old(self).own_transform,
    {
        let ghost s0 = self.items@;
        let mut pos: usize = 0;
        while pos < self.items.len() && self.items[pos].0.0 != id.0
            invariant
                pos <= self.items.len(),
                self.items@ == s0,
                forall|j: int| 0 <= j < pos ==> s0[j].0.0 != id.0,
            decreases self.items.len() - pos,
        {
            pos = pos + 1;
        }
        if pos < self.items.len() {
            self.items.remove(pos);
        }
        let ghost s1 = self.items@;
        assert(strictly_ascending(s1));
        assert forall|k: u32| #[trigger] holds_id(s1, k) == old(self)@.remove(id.0).contains_key(k) by {
            if holds_id(s1, k) {
                let j = choose|j: int| 0 <= j < s1.len() && s1[j].0.0 == k;
                if j < pos || s1.len() == s0.len() {
                    assert(s0[j] == s1[j]);
                } else {
                    assert(s0[j + 1] == s1[j]);
                    assert(s0[pos as int].0.0 < s0[j + 1].0.0);
                }
                assert(holds_id(s0, k));
            }
            if old(self)@.contains_key(k) && k != id.0 {
                let j = choose|j: int| 0 <= j < s0.len() && s0[j].0.0 == k;
                if j < pos || s1.len() == s0.len() {
                    assert(s1[j] == s0[j]);
                } else {
                    assert(j != pos);
                    assert(s1[j - 1] == s0[j]);
                }
                assert(holds_id(s1, k));
            }
        }
        assert forall|k: u32| #[trigger] pairs_map(s1).contains_key(k) implies pairs_map(s1)[k]
            == old(self)@.remove(id.0)[k] by {
            let j = choose|j: int| 0 <= j < s1.len() && s1[j].0.0 == k;
            lemma_pairs_map_at(s1, j);
            if j < pos || s1.len() == s0.len() {
                assert(s0[j] == s1[j]);
                lemma_pairs_map_at(s0, j);
            } else {
                assert(s0[j + 1] == s1[j]);
                lemma_pairs_map_at(s0, j + 1);
            }
        }
        assert(self@ =~= old(self)@.remove(id.0));
    }

    /// Selects each listed item with its transform, in order; a later entry
    /// for the same item wins.
    pub fn insert_all(&mut self, sits: &Vec<(ItemID, Transform)>)
        requires
            old(self).wf(),
        ensures
            final(self).wf(),
            final(self)@ == merged(old(self)@, sits@),
            final(self).own_transform == old(self).own_transform,
    {
        let mut i: usize = 0;
        while i < sits.len()
            invariant
                self.wf(),
                i <= sits.len(),
                self@ == merged(old(self)@, sits@.subrange(0, i as int)),
                self.own_transform == old(self).own_transform,
            decreases sits.len() - i,
        {
            let (item_id, t) = sits[i];
            self.insert(item_id, t);
            i = i + 1;
            assert(sits@.subrange(0, i as int).drop_last() =~= sits@.subrange(0, i - 1));
        }
        assert(sits@.subrange(0, i as int) =~= sits@);
    }
}

} // verus!
