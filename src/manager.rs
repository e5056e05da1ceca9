//! The decisions of the board registry: what loading a board by name does in
//! each state, and how a stored item list becomes a canvas.

use vstd::prelude::*;

use crate::canvas::ActiveCanvas;
use crate::ids::ItemID;
use crate::item::{Item, ItemView};

verus! {

/// What the registry holds for one board name.
#[derive(PartialEq, Eq, Structural, Debug, Clone, Copy)]
pub enum BoardSlot {
    /// Known on disk, not in memory.
    Unloaded,
    /// In memory; `running` tells whether its workers are still alive.
    Loaded { running: bool },
}

/// What loading a board must do.
#[derive(PartialEq, Eq, Structural, Debug, Clone, Copy)]
pub enum LoadAction {
    /// Create a new, empty store entry, then read it as for `ReadStore`.
    CreateEntry,
    /// Hand out the running board.
    Reuse,
    /// Start the board again from the canvas kept in memory.
    Rebuild,
    /// Read the canvas from the store and start the board.
    ReadStore,
}

/// The action for loading a board whose registry entry is `slot`.
pub open spec fn spec_load_action(slot: Option<BoardSlot>) -> LoadAction {
    match slot {
        None => LoadAction::CreateEntry,
        Some(BoardSlot::Unloaded) => LoadAction::ReadStore,
        Some(BoardSlot::Loaded { running }) => if running { LoadAction::Reuse } else { LoadAction::Rebuild },
    }
}

/// Decides what loading a board whose registry entry is `slot` does.
pub fn load_action(slot: Option<BoardSlot>) -> (r: LoadAction)
    ensures
        r == spec_load_action(slot),
{
    match slot {
        None => LoadAction::CreateEntry,
        Some(BoardSlot::Unloaded) => LoadAction::ReadStore,
        Some(BoardSlot::Loaded { running }) => if running {
            LoadAction::Reuse
        } else {
            LoadAction::Rebuild
        },
    }
}

/// A canvas holding the stored items in order, with IDs 1, 2, ...
pub fn canvas_from_items(items: Vec<Item>) -> (r: ActiveCanvas)
    requires
        items@.len() < u32::MAX,
    ensures
        r.wf(),
        r.ids().len() == items@.len(),
        forall|i: int| 0 <= i < items@.len() ==> #[trigger] r.ids()[i] == ItemID((i + 1) as u32),
        forall|k: u32| 1 <= k <= items@.len() ==> #[trigger] r@.contains_key(k) && r@[k] == items@[k - 1]@,
        r@.dom().len() == items@.len(),
        r.next_id() == items@.len() + 1,
{
    let ghost all = items@;
    let mut canvas = ActiveCanvas::new_empty();
    let mut pending = items;
    let mut n: usize = 0;
    assert(pending@.len() == pending.len());
    while pending.len() > 0
        invariant
            canvas.wf(),
            n + pending@.len() == all.len(),
            all.len() < u32::MAX,
            pending@ == all.subrange(n as int, all.len() as int),
            canvas.next_id() == n + 1,
            canvas.ids().len() == n,
            forall|i: int| 0 <= i < n ==> #[trigger] canvas.ids()[i] == ItemID((i + 1) as u32),
            forall|k: u32| 1 <= k <= n ==> #[trigger] canvas@.contains_key(k) && canvas@[k] == all[k - 1]@,
            canvas@.dom().len() == n,
            canvas@.dom().finite(),
        decreases pending@.len(),
    {
        let item = pending.remove(0);
        let ghost before = canvas@;
        let ghost item_view = item@;
        assert(item_view == all[n as int]@);
        canvas.add_item(item);
        n = n + 1;
        proof {
            assert forall|k: u32| 1 <= k <= n implies #[trigger] canvas@.contains_key(k)
                && canvas@[k] == all[k - 1]@ by {
                if k < n {
                    assert(before.contains_key(k));
                    assert(before[k] == all[k - 1]@);
                }
            }
            assert(pending@ =~= all.subrange(n as int, all.len() as int));
            assert(canvas@.dom() =~= before.dom().insert(n as u32));
        }
    }
    assert(all == items@);
    canvas
}

} // verus!
