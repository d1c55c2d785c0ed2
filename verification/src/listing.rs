//! What a listener holds: the recordings it has been told about, kept current
//! by the events it receives.

use vstd::prelude::*;
use crate::recording::{Event, EventView, Recording, RecordingView, views};
use crate::table::{
    as_map, ascending, find, lemma_map_insert, lemma_map_remove, lemma_map_update, lemma_slot,
    lower_bound,
};

verus! {

/// The effect of one event on what a listener holds: a `File` event puts its
/// recording under its id, replacing what was there; a `Delete` event takes
/// the id out.
pub open spec fn applied(held: Map<u32, RecordingView>, event: EventView) -> Map<
    u32,
    RecordingView,
> {
    match event {
        EventView::File(recording) => held.insert(recording.id, recording),
        EventView::Delete(id) => held.remove(id),
    }
}

/// The effect of a run of events, applied front to back.
pub open spec fn applied_all(held: Map<u32, RecordingView>, events: Seq<EventView>) -> Map<
    u32,
    RecordingView,
>
    decreases events.len(),
{
    if events.len() == 0 {
        held
    } else {
        applied(applied_all(held, events.drop_last()), events.last())
    }
}

/// A listener's copy of the recordings, keyed by id.
pub struct Listing {
    rows: Vec<Recording>,
}

impl View for Listing {
    type V = Map<u32, RecordingView>;

    open spec fn view(&self) -> Map<u32, RecordingView> {
        as_map(self.ordered())
    }
}

impl Listing {
    /// The recordings held, oldest first.
    pub closed spec fn ordered(&self) -> Seq<RecordingView> {
        views(self.rows@)
    }

    /// No id is held twice, and the rows are in order of their ids.
    pub open spec fn wf(&self) -> bool {
        ascending(self.ordered())
    }

    /// A listing that holds nothing.
    pub fn new() -> (listing: Listing)
        ensures
            listing.wf(),
            listing.ordered() == Seq::<RecordingView>::empty(),
            listing@ == Map::<u32, RecordingView>::empty(),
    {
        let listing = Listing { rows: Vec::new() };
        proof {
            assert(listing.ordered() =~= Seq::<RecordingView>::empty());
            assert(listing@ =~= Map::<u32, RecordingView>::empty());
        }
        listing
    }

    /// Puts `recording` under its id, replacing what was held there.
    pub fn upsert(&mut self, recording: Recording)
        requires
            old(self).wf(),
        ensures
            final(self).wf(),
            final(self)@ == old(self)@.insert(recording.id, recording@),
    {
        let at = lower_bound(&self.rows, recording.id);
        let ghost before = views(self.rows@);
        if at < self.rows.len() && self.rows[at].id == recording.id {
            self.rows.set(at, recording);
            proof {
                lemma_map_update(before, at as int, recording@);
                assert(views(self.rows@) =~= before.update(at as int, recording@));
            }
        } else {
            proof {
                assert forall|i: int| at <= i < before.len() implies recording.id < before[i].id by {
                    if i > at {
                        assert(before[at as int].id < before[i].id);
                    }
                }
                lemma_map_insert(before, at as int, recording@);
            }
            self.rows.insert(at, recording);
            proof {
                assert(views(self.rows@) =~= before.insert(at as int, recording@));
            }
        }
    }

    /// Takes `id` out; a listing that does not hold it stays as it is.
    pub fn remove(&mut self, id: u32)
        requires
            old(self).wf(),
        ensures
            final(self).wf(),
            final(self)@ == old(self)@.remove(id),
    {
        let ghost before = views(self.rows@);
        match find(&self.rows, id) {
            Some(at) => {
                let _ = self.rows.remove(at);
                proof {
                    lemma_map_remove(before, at as int);
                    assert(views(self.rows@) =~= before.remove(at as int));
                }
            },
            None => {
                proof {
                    assert(as_map(before).remove(id) =~= as_map(before));
                }
            },
        }
    }

    /// Applies one event.
    pub fn apply(&mut self, event: Event)
        requires
            old(self).wf(),
        ensures
            final(self).wf(),
            final(self)@ == applied(old(self)@, event@),
    {
        match event {
            Event::File(recording) => self.upsert(recording),
            Event::Delete(id) => self.remove(id),
        }
    }

    /// The recording held under `id`.
    pub fn get(&self, id: u32) -> (found: Option<&Recording>)
        requires
            self.wf(),
        ensures
            match found {
                Some(recording) => self@.contains_key(id) && recording@ == self@[id],
                None => !self@.contains_key(id),
            },
    {
        match find(&self.rows, id) {
            Some(at) => {
                proof {
                    lemma_slot(views(self.rows@), at as int);
                }
                Some(&self.rows[at])
            },
            None => None,
        }
    }

    /// How many recordings are held.
    pub fn len(&self) -> (n: usize)
        ensures
            n == self.ordered().len(),
    {
        self.rows.len()
    }

    /// The recordings in the order a listener shows them: newest first.
    pub fn newest_first(&self) -> (shown: Vec<Recording>)
        ensures
            views(shown@) == self.ordered().reverse(),
    {
        let mut shown: Vec<Recording> = Vec::new();
        let mut left: usize = self.rows.len();
        while left > 0
            invariant
                left <= self.rows.len(),
                shown.len() == self.rows.len() - left,
                forall|k: int|
                    0 <= k < shown.len() ==> shown[k]@ == self.rows[self.rows.len() - 1 - k]@,
            decreases left,
        {
            left = left - 1;
            shown.push(self.rows[left].clone());
        }
        proof {
            assert(views(shown@) =~= self.ordered().reverse());
        }
        shown
    }
}

/// A listener that starts empty and is told of every row of an ascending
/// sequence, one `File` event per row, holds exactly the map the sequence
/// stands for.
pub proof fn lemma_replay_rebuilds(rows: Seq<RecordingView>)
    requires
        ascending(rows),
    ensures
        applied_all(Map::empty(), Seq::new(rows.len(), |i: int| EventView::File(rows[i])))
            == as_map(rows),
    decreases rows.len(),
{
    let events = Seq::new(rows.len(), |i: int| EventView::File(rows[i]));
    if rows.len() == 0 {
        assert(as_map(rows) =~= Map::<u32, RecordingView>::empty());
    } else {
        let shorter = rows.drop_last();
        let last = rows.last();
        assert(ascending(shorter));
        lemma_replay_rebuilds(shorter);
        let fewer = Seq::new(shorter.len(), |i: int| EventView::File(shorter[i]));
        assert(events.drop_last() =~= fewer);
        assert(events.last() == EventView::File(last));
        assert forall|i: int| 0 <= i < shorter.len() implies shorter[i].id < last.id by {
            assert(rows[i].id < rows[rows.len() - 1].id);
        }
        crate::table::lemma_map_push(shorter, last);
        assert(shorter.push(last) =~= rows);
    }
}

} // verus!
