//! The device's table of recordings.

use vstd::prelude::*;
use crate::error::Error;
use crate::history::Op;
use crate::recording::{Event, EventView, Recording, RecordingView, views, event_views};
use crate::table::{
    as_map, ascending, find, has_id, lemma_map_push, lemma_map_remove, lemma_map_update,
    lemma_slot, slot_of,
};

verus! {

/// The mathematical value of a [`RecordingStore`].
pub struct StoreView {
    /// The rows in order of creation, which is the order of their ids.
    pub rows: Seq<RecordingView>,
    /// The last id handed out; 0 before the first.
    pub issued: u32,
}

impl StoreView {
    /// Ids are unique, in order, and among those handed out so far.
    pub open spec fn wf(self) -> bool {
        &&& ascending(self.rows)
        &&& forall|i: int| 0 <= i < self.rows.len() ==> 1 <= #[trigger] self.rows[i].id <= self.issued
    }

    /// The rows as a map from id to recording.
    pub open spec fn table(self) -> Map<u32, RecordingView> {
        as_map(self.rows)
    }

    /// The recording that the next successful `create` stores.
    pub open spec fn fresh(self, file: Seq<char>, title: Seq<char>) -> RecordingView {
        RecordingView { id: (self.issued + 1) as u32, file, name: title, uploaded: false }
    }

    /// The store after a successful `create`.
    pub open spec fn created(self, file: Seq<char>, title: Seq<char>) -> StoreView {
        StoreView { rows: self.rows.push(self.fresh(file, title)), issued: (self.issued + 1) as u32 }
    }

    /// The store after a successful `rename`.
    pub open spec fn renamed(self, id: u32, title: Seq<char>) -> StoreView {
        let at = slot_of(self.rows, id);
        StoreView { rows: self.rows.update(at, self.rows[at].titled(title)), ..self }
    }

    /// The store after a successful `delete`.
    pub open spec fn deleted(self, id: u32) -> StoreView {
        StoreView { rows: self.rows.remove(slot_of(self.rows, id)), ..self }
    }

    /// The store after the recordings named in `ids` were acknowledged.
    pub open spec fn acknowledged(self, ids: Seq<u32>) -> StoreView {
        StoreView {
            rows: Seq::new(
                self.rows.len(),
                |i: int|
                    if ids.contains(self.rows[i].id) {
                        self.rows[i].acknowledged()
                    } else {
                        self.rows[i]
                    },
            ),
            ..self
        }
    }

    /// One `File` event per row, oldest first.
    pub open spec fn backlog(self) -> Seq<EventView> {
        Seq::new(self.rows.len(), |i: int| EventView::File(self.rows[i]))
    }
}

/// The table of recordings on the device.
pub struct RecordingStore {
    rows: Vec<Recording>,
    issued: u32,
}

impl View for RecordingStore {
    type V = StoreView;

    closed spec fn view(&self) -> StoreView {
        StoreView { rows: views(self.rows@), issued: self.issued }
    }
}

/// Whether `id` is one of `ids`.
pub fn listed(ids: &Vec<u32>, id: u32) -> (yes: bool)
    ensures
        yes == ids@.contains(id),
{
    let mut i: usize = 0;
    while i < ids.len()
        invariant
            i <= ids.len(),
            forall|k: int| 0 <= k < i ==> ids[k] != id,
        decreases ids.len() - i,
    {
        if ids[i] == id {
            return true;
        }
        i = i + 1;
    }
    false
}

impl RecordingStore {
    /// The invariant every store keeps.
    pub open spec fn wf(&self) -> bool {
        self@.wf()
    }

    /// An empty store that has handed out no id yet.
    pub fn new() -> (store: RecordingStore)
        ensures
            store.wf(),
            store@.rows == Seq::<RecordingView>::empty(),
            store@.issued == 0,
    {
        let store = RecordingStore { rows: Vec::new(), issued: 0 };
        proof {
            assert(store@.rows =~= Seq::<RecordingView>::empty());
        }
        store
    }

    /// Takes up rows that were persisted earlier, with the last id handed out.
    ///
    /// Fails with `Storage`, which then stands for a damaged table, unless the
    /// rows are in strict order of their ids and every id lies in `1..=issued`.
    pub fn restore(rows: Vec<Recording>, issued: u32) -> (restored: Result<RecordingStore, Error>)
        ensures
            match restored {
                Ok(store) => store.wf() && store@.rows == views(rows@) && store@.issued == issued,
                Err(e) => e == Error::Storage && !(StoreView { rows: views(rows@), issued }).wf(),
            },
    {
        let ghost seen = views(rows@);
        let mut i: usize = 0;
        while i < rows.len()
            invariant
                i <= rows.len(),
                seen == views(rows@),
                forall|k: int| 0 <= k < i ==> 1 <= #[trigger] seen[k].id <= issued,
                forall|k: int| 0 < k < i ==> seen[k - 1].id < #[trigger] seen[k].id,
            decreases rows.len() - i,
        {
            let id = rows[i].id;
            if id < 1 || id > issued {
                proof {
                    assert(!(1 <= seen[i as int].id <= issued));
                }
                return Err(Error::Storage);
            }
            if i > 0 && rows[i - 1].id >= id {
                proof {
                    assert(!(seen[i - 1].id < seen[i as int].id));
                }
                return Err(Error::Storage);
            }
            i = i + 1;
        }
        proof {
            lemma_steps_ascend(seen);
        }
        Ok(RecordingStore { rows, issued })
    }

    /// Stores a new recording under a fresh id, not yet uploaded.
    ///
    /// `stored` says whether the persistence layer took the row. Where it did
    /// not, or where no id is left to hand out, nothing changes and the result
    /// is `Storage`.
    pub fn create(&mut self, file: String, title: String, stored: bool) -> (made: Result<
        Recording,
        Error,
    >)
        requires
            old(self).wf(),
        ensures
            final(self).wf(),
            final(self)@ == old(self)@.step(Op::Create { file: file@, title: title@, stored }),
            match made {
                Ok(recording) => {
                    &&& stored
                    &&& old(self)@.issued < u32::MAX
                    &&& recording@ == old(self)@.fresh(file@, title@)
                    &&& final(self)@ == old(self)@.created(file@, title@)
                },
                Err(e) => {
                    &&& e == Error::Storage
                    &&& !(stored && old(self)@.issued < u32::MAX)
                    &&& final(self)@ == old(self)@
                },
            },
    {
        if !stored || self.issued == u32::MAX {
            return Err(Error::Storage);
        }
        let id: u32 = self.issued + 1;
        let recording = Recording { id, file, name: title, uploaded: false };
        let copy = recording.clone();
        let ghost before = views(self.rows@);
        proof {
            lemma_map_push(before, recording@);
        }
        self.rows.push(recording);
        self.issued = id;
        proof {
            assert(views(self.rows@) =~= before.push(copy@));
        }
        Ok(copy)
    }

    /// Gives the recording under `id` a new title.
    pub fn rename(&mut self, id: u32, title: String) -> (changed: Result<Recording, Error>)
        requires
            old(self).wf(),
        ensures
            final(self).wf(),
            final(self)@ == old(self)@.step(Op::Rename { id, title: title@ }),
            match changed {
                Ok(recording) => {
                    &&& has_id(old(self)@.rows, id)
                    &&& final(self)@ == old(self)@.renamed(id, title@)
                    &&& recording@ == old(self)@.table()[id].titled(title@)
                },
                Err(e) => {
                    &&& e == Error::NotFound
                    &&& !has_id(old(self)@.rows, id)
                    &&& final(self)@ == old(self)@
                },
            },
    {
        let ghost before = views(self.rows@);
        match find(&self.rows, id) {
            Some(at) => {
                let current = &self.rows[at];
                let recording = Recording {
                    id: current.id,
                    file: current.file.clone(),
                    name: title,
                    uploaded: current.uploaded,
                };
                let copy = recording.clone();
                proof {
                    lemma_slot(before, at as int);
                    lemma_map_update(before, at as int, recording@);
                }
                self.rows.set(at, recording);
                proof {
                    assert(views(self.rows@) =~= before.update(at as int, copy@));
                }
                Ok(copy)
            },
            None => Err(Error::NotFound),
        }
    }

    /// Takes the recording under `id` out of the table.
    ///
    /// `file_removed` says whether its backing file was removed. Where it was
    /// not, the row stays and the result is `Storage`: no row goes while its
    /// file is still there.
    pub fn delete(&mut self, id: u32, file_removed: bool) -> (done: Result<(), Error>)
        requires
            old(self).wf(),
        ensures
            final(self).wf(),
            final(self)@ == old(self)@.step(Op::Delete { id, file_removed }),
            match done {
                Ok(()) => {
                    &&& has_id(old(self)@.rows, id)
                    &&& file_removed
                    &&& final(self)@ == old(self)@.deleted(id)
                },
                Err(e) => {
                    &&& final(self)@ == old(self)@
                    &&& !has_id(old(self)@.rows, id) ==> e == Error::NotFound
                    &&& has_id(old(self)@.rows, id) ==> e == Error::Storage && !file_removed
                },
            },
    {
        let ghost before = views(self.rows@);
        match find(&self.rows, id) {
            Some(at) => {
                if !file_removed {
                    return Err(Error::Storage);
                }
                proof {
                    lemma_map_remove(before, at as int);
                }
                let _ = self.rows.remove(at);
                proof {
                    assert(views(self.rows@) =~= before.remove(at as int));
                }
                Ok(())
            },
            None => Err(Error::NotFound),
        }
    }

    /// The recording under `id`.
    pub fn get(&self, id: u32) -> (found: Option<&Recording>)
        requires
            self.wf(),
        ensures
            match found {
                Some(recording) => has_id(self@.rows, id) && recording@ == self@.table()[id],
                None => !has_id(self@.rows, id),
            },
    {
        match find(&self.rows, id) {
            Some(at) => {
                proof {
                    lemma_slot(views(self.rows@), at as int);
                }
                Some(&self.rows[at])
            },
            None => None,
        }
    }

    /// The id that the next successful `create` assigns, if one is left.
    pub fn next_id(&self) -> (next: Option<u32>)
        ensures
            next == if self@.issued < u32::MAX {
                Some((self@.issued + 1) as u32)
            } else {
                None
            },
    {
        if self.issued < u32::MAX {
            Some(self.issued + 1)
        } else {
            None
        }
    }

    /// The last id handed out; 0 before the first.
    pub fn issued(&self) -> (last: u32)
        ensures
            last == self@.issued,
    {
        self.issued
    }

    /// How many recordings the table holds.
    pub fn len(&self) -> (n: usize)
        ensures
            n == self@.rows.len(),
    {
        self.rows.len()
    }

    /// The rows as they are kept: oldest first.
    pub fn rows(&self) -> (rows: &Vec<Recording>)
        ensures
            views(rows@) == self@.rows,
    {
        &self.rows
    }

    /// All recordings, newest first.
    pub fn list(&self) -> (all: Vec<Recording>)
        ensures
            views(all@) == self@.rows.reverse(),
    {
        let mut all: Vec<Recording> = Vec::new();
        let mut left: usize = self.rows.len();
        while left > 0
            invariant
                left <= self.rows.len(),
                all.len() == self.rows.len() - left,
                forall|k: int| 0 <= k < all.len() ==> all[k]@ == self.rows[self.rows.len() - 1 - k]@,
            decreases left,
        {
            left = left - 1;
            all.push(self.rows[left].clone());
        }
        proof {
            assert(views(all@) =~= self@.rows.reverse());
        }
        all
    }

    /// The backlog for a listener that has just become ready: one `File`
    /// event per recording, in order of creation.
    pub fn replay(&self) -> (events: Vec<Event>)
        ensures
            event_views(events@) == self@.backlog(),
    {
        let mut events: Vec<Event> = Vec::new();
        let mut i: usize = 0;
        while i < self.rows.len()
            invariant
                i <= self.rows.len(),
                events.len() == i,
                forall|k: int| 0 <= k < i ==> events[k]@ == EventView::File(self.rows[k]@),
            decreases self.rows.len() - i,
        {
            events.push(Event::File(self.rows[i].clone()));
            i = i + 1;
        }
        proof {
            assert(event_views(events@) =~= self@.backlog());
        }
        events
    }

    /// Marks every recording whose id is in `ids` as uploaded, in one step.
    /// Ids that the table does not hold are passed over.
    pub fn acknowledge(&mut self, ids: &Vec<u32>)
        requires
            old(self).wf(),
        ensures
            final(self).wf(),
            final(self)@ == old(self)@.acknowledged(ids@),
    {
        let ghost before = views(self.rows@);
        let mut i: usize = 0;
        while i < self.rows.len()
            invariant
                i <= self.rows.len(),
                self.rows.len() == before.len(),
                self.issued == old(self).issued,
                forall|k: int|
                    0 <= k < i ==> views(self.rows@)[k] == if ids@.contains(before[k].id) {
                        before[k].acknowledged()
                    } else {
                        before[k]
                    },
                forall|k: int| i <= k < before.len() ==> views(self.rows@)[k] == before[k],
            decreases self.rows.len() - i,
        {
            let ghost reached = views(self.rows@);
            assert(reached[i as int] == before[i as int]);
            if listed(ids, self.rows[i].id) {
                let current = &self.rows[i];
                let marked = Recording {
                    id: current.id,
                    file: current.file.clone(),
                    name: current.name.clone(),
                    uploaded: true,
                };
                assert(marked@ == before[i as int].acknowledged());
                self.rows.set(i, marked);
                assert(views(self.rows@) =~= reached.update(i as int, before[i as int].acknowledged()));
            }
            i = i + 1;
        }
        proof {
            let after = views(self.rows@);
            assert(after =~= old(self)@.acknowledged(ids@).rows);
            assert forall|a: int, b: int| 0 <= a < b < after.len() implies after[a].id < after[b].id by {
                assert(before[a].id < before[b].id);
            }
            assert forall|k: int| 0 <= k < after.len() implies 1 <= #[trigger] after[k].id
                <= self.issued by {
                assert(1 <= before[k].id <= self.issued);
            }
        }
    }
}

/// Rows whose ids grow from each row to the next grow from front to back.
proof fn lemma_steps_ascend(rows: Seq<RecordingView>)
    requires
        forall|k: int| 0 < k < rows.len() ==> rows[k - 1].id < #[trigger] rows[k].id,
    ensures
        ascending(rows),
{
    assert forall|i: int, j: int| 0 <= i < j < rows.len() implies rows[i].id < rows[j].id by {
        lemma_step_chain(rows, i, j);
    }
}

proof fn lemma_step_chain(rows: Seq<RecordingView>, i: int, j: int)
    requires
        forall|k: int| 0 < k < rows.len() ==> rows[k - 1].id < #[trigger] rows[k].id,
        0 <= i < j < rows.len(),
    ensures
        rows[i].id < rows[j].id,
    decreases j - i,
{
    if i + 1 < j {
        lemma_step_chain(rows, i, j - 1);
    }
    assert(rows[j - 1].id < rows[j].id);
}

} // verus!
