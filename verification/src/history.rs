//! Runs of store operations and their net effect.
//!
//! The store keeps a sequence; what a caller cares about is the map from id
//! to recording. This module states the operations once more on that map and
//! proves that the store, after any run of operations, stands for exactly the
//! map the run leaves behind.

use vstd::prelude::*;
use crate::listing::{applied, applied_all};
use crate::recording::{EventView, RecordingView};
use crate::store::StoreView;
use crate::table::{
    ascending, has_id, lemma_key_has_slot, lemma_map_push, lemma_map_remove, lemma_map_update,
    slot_of,
};

verus! {

/// One operation on the store, together with what the world outside reported
/// about the work that belongs to it.
pub enum Op {
    /// `create`, and whether the persistence layer took the row.
    Create { file: Seq<char>, title: Seq<char>, stored: bool },
    /// `rename`.
    Rename { id: u32, title: Seq<char> },
    /// `delete`, and whether the backing file was removed.
    Delete { id: u32, file_removed: bool },
}

/// What a caller can observe of a store: the recordings by id, and the last
/// id handed out.
pub struct Ledger {
    pub table: Map<u32, RecordingView>,
    pub issued: u32,
}

impl Ledger {
    /// The ledger after one operation. An operation that fails leaves it as
    /// it was.
    pub open spec fn step(self, op: Op) -> Ledger {
        match op {
            Op::Create { file, title, stored } => {
                if stored && self.issued < u32::MAX {
                    let id = (self.issued + 1) as u32;
                    Ledger {
                        table: self.table.insert(
                            id,
                            RecordingView { id, file, name: title, uploaded: false },
                        ),
                        issued: id,
                    }
                } else {
                    self
                }
            },
            Op::Rename { id, title } => {
                if self.table.contains_key(id) {
                    Ledger { table: self.table.insert(id, self.table[id].titled(title)), ..self }
                } else {
                    self
                }
            },
            Op::Delete { id, file_removed } => {
                if self.table.contains_key(id) && file_removed {
                    Ledger { table: self.table.remove(id), ..self }
                } else {
                    self
                }
            },
        }
    }

    /// The ledger after a run of operations, front to back.
    pub open spec fn run(self, ops: Seq<Op>) -> Ledger
        decreases ops.len(),
    {
        if ops.len() == 0 {
            self
        } else {
            self.run(ops.drop_last()).step(ops.last())
        }
    }
}

impl StoreView {
    /// The ledger a store shows.
    pub open spec fn ledger(self) -> Ledger {
        Ledger { table: self.table(), issued: self.issued }
    }

    /// The store after one operation. An operation that fails leaves it as it
    /// was.
    pub open spec fn step(self, op: Op) -> StoreView {
        match op {
            Op::Create { file, title, stored } => {
                if stored && self.issued < u32::MAX {
                    self.created(file, title)
                } else {
                    self
                }
            },
            Op::Rename { id, title } => {
                if has_id(self.rows, id) {
                    self.renamed(id, title)
                } else {
                    self
                }
            },
            Op::Delete { id, file_removed } => {
                if has_id(self.rows, id) && file_removed {
                    self.deleted(id)
                } else {
                    self
                }
            },
        }
    }

    /// The store after a run of operations, front to back.
    pub open spec fn run(self, ops: Seq<Op>) -> StoreView
        decreases ops.len(),
    {
        if ops.len() == 0 {
            self
        } else {
            self.run(ops.drop_last()).step(ops.last())
        }
    }
}

/// One operation keeps the store well formed and does to its ledger what the
/// operation says.
pub proof fn lemma_step(store: StoreView, op: Op)
    requires
        store.wf(),
    ensures
        store.step(op).wf(),
        store.step(op).ledger() == store.ledger().step(op),
{
    let rows = store.rows;
    match op {
        Op::Create { file, title, stored } => {
            if stored && store.issued < u32::MAX {
                let row = store.fresh(file, title);
                assert forall|i: int| 0 <= i < rows.len() implies rows[i].id < row.id by {
                    assert(1 <= rows[i].id <= store.issued);
                }
                lemma_map_push(rows, row);
                let after = store.created(file, title);
                assert forall|i: int| 0 <= i < after.rows.len() implies 1 <= #[trigger] after.rows[i].id
                    <= after.issued by {
                    if i < rows.len() {
                        assert(1 <= rows[i].id <= store.issued);
                    }
                }
            }
        },
        Op::Rename { id, title } => {
            if has_id(rows, id) {
                lemma_key_has_slot(rows, id);
                let at = slot_of(rows, id);
                let row = rows[at].titled(title);
                lemma_map_update(rows, at, row);
                let after = store.renamed(id, title);
                assert forall|i: int| 0 <= i < after.rows.len() implies 1 <= #[trigger] after.rows[i].id
                    <= after.issued by {
                    assert(1 <= rows[i].id <= store.issued);
                }
            }
        },
        Op::Delete { id, file_removed } => {
            if has_id(rows, id) && file_removed {
                lemma_key_has_slot(rows, id);
                let at = slot_of(rows, id);
                lemma_map_remove(rows, at);
                let after = store.deleted(id);
                assert forall|i: int| 0 <= i < after.rows.len() implies 1 <= #[trigger] after.rows[i].id
                    <= after.issued by {
                    let k = if i < at { i } else { i + 1 };
                    assert(1 <= rows[k].id <= store.issued);
                }
            }
        },
    }
}

/// After any run of `create`, `rename` and `delete`, the store holds no id
/// twice and stands for exactly the net effect of the run: what was created
/// and not deleted is there, under its latest title, and nothing else.
pub proof fn lemma_run_net_effect(store: StoreView, ops: Seq<Op>)
    requires
        store.wf(),
    ensures
        store.run(ops).wf(),
        ascending(store.run(ops).rows),
        store.run(ops).ledger() == store.ledger().run(ops),
    decreases ops.len(),
{
    if ops.len() > 0 {
        lemma_run_net_effect(store, ops.drop_last());
        lemma_step(store.run(ops.drop_last()), ops.last());
    }
}

/// An id that was handed out and is no longer in the store never comes back,
/// whatever is done afterwards: ids are not used twice.
pub proof fn lemma_gone_for_good(store: StoreView, id: u32, ops: Seq<Op>)
    requires
        store.wf(),
        id <= store.issued,
        !has_id(store.rows, id),
    ensures
        !has_id(store.run(ops).rows, id),
        id <= store.run(ops).issued,
    decreases ops.len(),
{
    if ops.len() > 0 {
        let before = store.run(ops.drop_last());
        lemma_gone_for_good(store, id, ops.drop_last());
        lemma_run_net_effect(store, ops.drop_last());
        lemma_step(before, ops.last());
        let after = before.step(ops.last());
        assert(!before.ledger().table.contains_key(id));
        assert(!after.ledger().table.contains_key(id));
    }
}

/// Right after a successful `rename` the store shows the new title, and
/// right after a successful `delete` the id is gone.
pub proof fn lemma_latest_wins(store: StoreView, id: u32, title: Seq<char>)
    requires
        store.wf(),
        has_id(store.rows, id),
    ensures
        store.renamed(id, title).table().contains_key(id),
        store.renamed(id, title).table()[id].name == title,
        !store.deleted(id).table().contains_key(id),
{
    lemma_step(store, Op::Rename { id, title });
    lemma_step(store, Op::Delete { id, file_removed: true });
}

impl StoreView {
    /// The event that goes out with an operation: a `File` event with the
    /// full recording after `create` and `rename`, a `Delete` event with the
    /// id after `delete`, and none where the operation fails.
    pub open spec fn notice(self, op: Op) -> Option<EventView> {
        match op {
            Op::Create { file, title, stored } => {
                if stored && self.issued < u32::MAX {
                    Some(EventView::File(self.fresh(file, title)))
                } else {
                    None
                }
            },
            Op::Rename { id, title } => {
                if has_id(self.rows, id) {
                    Some(EventView::File(self.table()[id].titled(title)))
                } else {
                    None
                }
            },
            Op::Delete { id, file_removed } => {
                if has_id(self.rows, id) && file_removed {
                    Some(EventView::Delete(id))
                } else {
                    None
                }
            },
        }
    }

    /// The events that go out during a run of operations, in order.
    pub open spec fn notices(self, ops: Seq<Op>) -> Seq<EventView>
        decreases ops.len(),
    {
        if ops.len() == 0 {
            Seq::empty()
        } else {
            let earlier = self.notices(ops.drop_last());
            match self.run(ops.drop_last()).notice(ops.last()) {
                Some(event) => earlier.push(event),
                None => earlier,
            }
        }
    }
}

/// Applying two runs of events one after the other is applying them joined.
pub proof fn lemma_applied_all_concat(
    held: Map<u32, RecordingView>,
    first: Seq<EventView>,
    second: Seq<EventView>,
)
    ensures
        applied_all(held, first + second) == applied_all(applied_all(held, first), second),
    decreases second.len(),
{
    if second.len() == 0 {
        assert(first + second =~= first);
    } else {
        lemma_applied_all_concat(held, first, second.drop_last());
        assert((first + second).drop_last() =~= first + second.drop_last());
        assert((first + second).last() == second.last());
    }
}

/// A listener that holds what the store holds and applies the events of a
/// run of operations holds what the store holds after the run.
pub proof fn lemma_notices_keep_pace(store: StoreView, ops: Seq<Op>)
    requires
        store.wf(),
    ensures
        applied_all(store.table(), store.notices(ops)) == store.run(ops).table(),
    decreases ops.len(),
{
    if ops.len() > 0 {
        let earlier = ops.drop_last();
        let op = ops.last();
        let before = store.run(earlier);
        lemma_notices_keep_pace(store, earlier);
        lemma_run_net_effect(store, earlier);
        lemma_step(before, op);
        match before.notice(op) {
            Some(event) => {
                assert(store.notices(ops).drop_last() =~= store.notices(earlier));
                assert(applied(before.table(), event) =~= before.step(op).table());
            },
            None => {},
        }
    }
}

/// End to end: a listener that starts empty, is replayed the backlog of a
/// store and then applies every event the store sends out, holds exactly
/// what the store holds, however the store was changed in between.
pub proof fn lemma_listener_converges(store: StoreView, ops: Seq<Op>)
    requires
        store.wf(),
    ensures
        applied_all(Map::empty(), store.backlog() + store.notices(ops)) == store.run(ops).table(),
{
    crate::listing::lemma_replay_rebuilds(store.rows);
    lemma_applied_all_concat(Map::empty(), store.backlog(), store.notices(ops));
    lemma_notices_keep_pace(store, ops);
}

} // verus!
