//! The remote service's table of entries, and the notes a reader sees.

use vstd::prelude::*;
use crate::error::Error;

verus! {

/// What the remote service keeps of one uploaded recording. The transcript
/// and the summary are absent until its job has run: their absence is the
/// only sign that the entry is still being processed.
#[derive(Debug, PartialEq, Eq)]
pub struct Entry {
    pub id: u32,
    /// Handle of the audio file on the service's side.
    pub file: String,
    pub name: String,
    pub transcript: Option<String>,
    pub summary: Option<String>,
}

/// The mathematical value of an [`Entry`].
pub struct EntryView {
    pub id: u32,
    pub file: Seq<char>,
    pub name: Seq<char>,
    pub transcript: Option<Seq<char>>,
    pub summary: Option<Seq<char>>,
}

/// The value of a text that may be absent.
pub open spec fn text_view(text: Option<String>) -> Option<Seq<char>> {
    match text {
        Some(s) => Some(s@),
        None => None,
    }
}

/// A copy of a text that may be absent.
pub fn copy_text(text: &Option<String>) -> (copy: Option<String>)
    ensures
        copy == *text,
{
    match text {
        Some(s) => Some(s.clone()),
        None => None,
    }
}

impl View for Entry {
    type V = EntryView;

    open spec fn view(&self) -> EntryView {
        EntryView {
            id: self.id,
            file: self.file@,
            name: self.name@,
            transcript: text_view(self.transcript),
            summary: text_view(self.summary),
        }
    }
}

impl Clone for Entry {
    fn clone(&self) -> (copy: Self)
        ensures
            copy == *self,
    {
        Entry {
            id: self.id,
            file: self.file.clone(),
            name: self.name.clone(),
            transcript: copy_text(&self.transcript),
            summary: copy_text(&self.summary),
        }
    }
}

impl EntryView {
    /// The entry as `insert` stores it: nothing processed yet.
    pub open spec fn fresh(id: u32, name: Seq<char>, file: Seq<char>) -> EntryView {
        EntryView { id, file, name, transcript: None, summary: None }
    }

    /// The entry with the results of its job.
    pub open spec fn completed(self, transcript: Seq<char>, summary: Seq<char>) -> EntryView {
        EntryView { transcript: Some(transcript), summary: Some(summary), ..self }
    }

    /// What a reader is shown of the entry.
    pub open spec fn note(self) -> NoteView {
        NoteView { name: self.name, transcript: self.transcript, summary: self.summary }
    }
}

/// What a reader is shown of an entry.
#[derive(Debug, PartialEq, Eq)]
pub struct Note {
    pub name: String,
    pub transcript: Option<String>,
    pub summary: Option<String>,
}

/// The mathematical value of a [`Note`].
pub struct NoteView {
    pub name: Seq<char>,
    pub transcript: Option<Seq<char>>,
    pub summary: Option<Seq<char>>,
}

impl View for Note {
    type V = NoteView;

    open spec fn view(&self) -> NoteView {
        NoteView {
            name: self.name@,
            transcript: text_view(self.transcript),
            summary: text_view(self.summary),
        }
    }
}

impl Clone for Note {
    fn clone(&self) -> (copy: Self)
        ensures
            copy == *self,
    {
        Note {
            name: self.name.clone(),
            transcript: copy_text(&self.transcript),
            summary: copy_text(&self.summary),
        }
    }
}

impl NoteView {
    /// A note is in processing as long as its transcript or its summary is
    /// absent.
    pub open spec fn processing(self) -> bool {
        self.transcript is None || self.summary is None
    }
}

impl Note {
    /// Whether the note is to be shown as still in processing.
    pub fn is_processing(&self) -> (yes: bool)
        ensures
            yes == self@.processing(),
    {
        self.transcript.is_none() || self.summary.is_none()
    }

    /// The transcript and the summary of a finished note; `None` while it is
    /// in processing, whichever of the two is absent.
    pub fn results(&self) -> (both: Option<(&String, &String)>)
        ensures
            match both {
                Some((transcript, summary)) => {
                    &&& !self@.processing()
                    &&& self@.transcript == Some(transcript@)
                    &&& self@.summary == Some(summary@)
                },
                None => self@.processing(),
            },
    {
        match (&self.transcript, &self.summary) {
            (Some(transcript), Some(summary)) => Some((transcript, summary)),
            _ => None,
        }
    }
}

/// The values of a sequence of entries, element by element.
pub open spec fn entry_views(rows: Seq<Entry>) -> Seq<EntryView> {
    Seq::new(rows.len(), |i: int| rows[i]@)
}

/// The values of a sequence of notes, element by element.
pub open spec fn note_views(notes: Seq<Note>) -> Seq<NoteView> {
    Seq::new(notes.len(), |i: int| notes[i]@)
}

/// Some entry carries `id`.
pub open spec fn holds(rows: Seq<EntryView>, id: u32) -> bool {
    exists|i: int| 0 <= i < rows.len() && #[trigger] rows[i].id == id
}

/// The place of the entry that carries `id`, where there is one.
pub open spec fn place_of(rows: Seq<EntryView>, id: u32) -> int {
    choose|i: int| 0 <= i < rows.len() && #[trigger] rows[i].id == id
}

/// The mathematical value of an [`EntryStore`].
pub struct EntryStoreView {
    /// The entries in order of their ids.
    pub rows: Seq<EntryView>,
    /// The last id handed out; 0 before the first.
    pub issued: u32,
}

impl EntryStoreView {
    /// Ids are unique, in order, and among those handed out so far.
    pub open spec fn wf(self) -> bool {
        &&& forall|i: int, j: int| 0 <= i < j < self.rows.len() ==> self.rows[i].id < self.rows[j].id
        &&& forall|i: int| 0 <= i < self.rows.len() ==> 1 <= #[trigger] self.rows[i].id <= self.issued
    }

    /// The store after a successful `insert`.
    pub open spec fn inserted(self, name: Seq<char>, file: Seq<char>) -> EntryStoreView {
        EntryStoreView {
            rows: self.rows.push(EntryView::fresh((self.issued + 1) as u32, name, file)),
            issued: (self.issued + 1) as u32,
        }
    }

    /// The store after a successful `update_result`.
    pub open spec fn updated(self, id: u32, transcript: Seq<char>, summary: Seq<char>) -> EntryStoreView {
        let at = place_of(self.rows, id);
        EntryStoreView { rows: self.rows.update(at, self.rows[at].completed(transcript, summary)), ..self }
    }

    /// The notes a reader is shown: one per entry, in order of the ids.
    pub open spec fn notes(self) -> Seq<NoteView> {
        Seq::new(self.rows.len(), |i: int| self.rows[i].note())
    }
}

/// In a well-formed store an entry is found at its own place.
pub proof fn lemma_place(store: EntryStoreView, i: int)
    requires
        store.wf(),
        0 <= i < store.rows.len(),
    ensures
        holds(store.rows, store.rows[i].id),
        place_of(store.rows, store.rows[i].id) == i,
{
    let id = store.rows[i].id;
    assert(store.rows[i].id == id);
    let k = place_of(store.rows, id);
    if k < i {
        assert(store.rows[k].id < store.rows[i].id);
    } else if i < k {
        assert(store.rows[i].id < store.rows[k].id);
    }
}

/// The remote service's table of entries.
pub struct EntryStore {
    rows: Vec<Entry>,
    issued: u32,
}

impl View for EntryStore {
    type V = EntryStoreView;

    closed spec fn view(&self) -> EntryStoreView {
        EntryStoreView { rows: entry_views(self.rows@), issued: self.issued }
    }
}

impl EntryStore {
    /// The invariant every store keeps.
    pub open spec fn wf(&self) -> bool {
        self@.wf()
    }

    /// An empty store that has handed out no id yet.
    pub fn new() -> (store: EntryStore)
        ensures
            store.wf(),
            store@.rows == Seq::<EntryView>::empty(),
            store@.issued == 0,
    {
        let store = EntryStore { rows: Vec::new(), issued: 0 };
        proof {
            assert(store@.rows =~= Seq::<EntryView>::empty());
        }
        store
    }

    /// Takes up entries that were persisted earlier, with the last id handed
    /// out.
    ///
    /// Fails with `Storage`, which then stands for a damaged table, unless
    /// the entries are in strict order of their ids and every id lies in
    /// `1..=issued`.
    pub fn restore(rows: Vec<Entry>, issued: u32) -> (restored: Result<EntryStore, Error>)
        ensures
            match restored {
                Ok(store) => store.wf() && store@.rows == entry_views(rows@) && store@.issued
                    == issued,
                Err(e) => e == Error::Storage && !(EntryStoreView {
                    rows: entry_views(rows@),
                    issued,
                }).wf(),
            },
    {
        let ghost seen = entry_views(rows@);
        let mut i: usize = 0;
        while i < rows.len()
            invariant
                i <= rows.len(),
                seen == entry_views(rows@),
                forall|k: int| 0 <= k < i ==> 1 <= #[trigger] seen[k].id <= issued,
                forall|a: int, b: int| 0 <= a < b < i ==> seen[a].id < seen[b].id,
            decreases rows.len() - i,
        {
            let id = rows[i].id;
            if id < 1 || id > issued {
                proof {
                    assert(!(1 <= seen[i as int].id <= issued));
                }
                return Err(Error::Storage);
            }
            if i > 0 && rows[i - 1].id >= id {
                proof {
                    assert(!(seen[i - 1].id < seen[i as int].id));
                }
                return Err(Error::Storage);
            }
            proof {
                assert forall|a: int, b: int| 0 <= a < b < i + 1 implies seen[a].id < seen[b].id by {
                    if b == i && a < i - 1 {
                        assert(seen[a].id < seen[i - 1].id);
                    }
                }
            }
            i = i + 1;
        }
        Ok(EntryStore { rows, issued })
    }

    /// The id that the next successful `insert` assigns, if one is left.
    pub fn next_id(&self) -> (next: Option<u32>)
        ensures
            next == if self@.issued < u32::MAX {
                Some((self@.issued + 1) as u32)
            } else {
                None
            },
    {
        if self.issued < u32::MAX {
            Some(self.issued + 1)
        } else {
            None
        }
    }

    fn position(&self, id: u32) -> (found: Option<usize>)
        requires
            self.wf(),
        ensures
            match found {
                Some(at) => at < self@.rows.len() && self@.rows[at as int].id == id
                    && place_of(self@.rows, id) == at,
                None => !holds(self@.rows, id),
            },
    {
        let mut i: usize = 0;
        while i < self.rows.len()
            invariant
                self.wf(),
                i <= self.rows.len(),
                forall|k: int| 0 <= k < i ==> self@.rows[k].id != id,
            decreases self.rows.len() - i,
        {
            if self.rows[i].id == id {
                proof {
                    assert(self@.rows[i as int].id == id);
                    lemma_place(self@, i as int);
                }
                return Some(i);
            }
            i = i + 1;
        }
        None
    }

    /// Stores a new entry under a fresh id, with no transcript and no
    /// summary, and returns the id.
    ///
    /// `stored` says whether the persistence layer took the row. Where it did
    /// not, or where no id is left to hand out, nothing changes and the result
    /// is `Storage`.
    pub fn insert(&mut self, name: String, file: String, stored: bool) -> (made: Result<u32, Error>)
        requires
            old(self).wf(),
        ensures
            final(self).wf(),
            match made {
                Ok(id) => {
                    &&& stored
                    &&& old(self)@.issued < u32::MAX
                    &&& id == old(self)@.issued + 1
                    &&& final(self)@ == old(self)@.inserted(name@, file@)
                },
                Err(e) => {
                    &&& e == Error::Storage
                    &&& !(stored && old(self)@.issued < u32::MAX)
                    &&& final(self)@ == old(self)@
                },
            },
    {
        if !stored || self.issued == u32::MAX {
            return Err(Error::Storage);
        }
        let id: u32 = self.issued + 1;
        let ghost before = self@.rows;
        let entry = Entry { id, file, name, transcript: None, summary: None };
        let ghost added = entry@;
        self.rows.push(entry);
        self.issued = id;
        proof {
            assert(self@.rows =~= before.push(added));
            assert forall|i: int, j: int| 0 <= i < j < self@.rows.len() implies self@.rows[i].id
                < self@.rows[j].id by {
                if j < before.len() {
                    assert(before[i].id < before[j].id);
                } else {
                    assert(1 <= before[i].id <= old(self)@.issued);
                }
            }
            assert forall|i: int| 0 <= i < self@.rows.len() implies 1 <= #[trigger] self@.rows[i].id
                <= self@.issued by {
                if i < before.len() {
                    assert(1 <= before[i].id <= old(self)@.issued);
                }
            }
        }
        Ok(id)
    }

    /// Writes the transcript and the summary of entry `id`, both in one
    /// step. No other entry changes.
    pub fn update_result(&mut self, id: u32, transcript: String, summary: String) -> (done: Result<
        (),
        Error,
    >)
        requires
            old(self).wf(),
        ensures
            final(self).wf(),
            match done {
                Ok(()) => {
                    &&& holds(old(self)@.rows, id)
                    &&& final(self)@ == old(self)@.updated(id, transcript@, summary@)
                },
                Err(e) => {
                    &&& e == Error::NotFound
                    &&& !holds(old(self)@.rows, id)
                    &&& final(self)@ == old(self)@
                },
            },
    {
        let ghost before = self@.rows;
        match self.position(id) {
            Some(at) => {
                let current = &self.rows[at];
                let entry = Entry {
                    id: current.id,
                    file: current.file.clone(),
                    name: current.name.clone(),
                    transcript: Some(transcript),
                    summary: Some(summary),
                };
                let ghost changed = entry@;
                self.rows.set(at, entry);
                proof {
                    assert(changed == before[at as int].completed(transcript@, summary@));
                    assert(self@.rows =~= before.update(at as int, changed));
                    assert forall|i: int, j: int|
                        0 <= i < j < self@.rows.len() implies self@.rows[i].id < self@.rows[j].id by {
                        assert(before[i].id < before[j].id);
                    }
                    assert forall|i: int| 0 <= i < self@.rows.len() implies 1
                        <= #[trigger] self@.rows[i].id <= self@.issued by {
                        assert(1 <= before[i].id <= old(self)@.issued);
                    }
                }
                Ok(())
            },
            None => Err(Error::NotFound),
        }
    }

    /// The entry under `id`.
    pub fn get(&self, id: u32) -> (found: Option<&Entry>)
        requires
            self.wf(),
        ensures
            match found {
                Some(entry) => holds(self@.rows, id) && entry@ == self@.rows[place_of(self@.rows, id)],
                None => !holds(self@.rows, id),
            },
    {
        match self.position(id) {
            Some(at) => Some(&self.rows[at]),
            None => None,
        }
    }

    /// How many entries the table holds.
    pub fn len(&self) -> (n: usize)
        ensures
            n == self@.rows.len(),
    {
        self.rows.len()
    }

    /// All entries, in order of their ids.
    pub fn list_all(&self) -> (all: Vec<Entry>)
        ensures
            entry_views(all@) == self@.rows,
    {
        let mut all: Vec<Entry> = Vec::new();
        let mut i: usize = 0;
        while i < self.rows.len()
            invariant
                i <= self.rows.len(),
                all.len() == i,
                forall|k: int| 0 <= k < i ==> all[k]@ == self.rows[k]@,
            decreases self.rows.len() - i,
        {
            all.push(self.rows[i].clone());
            i = i + 1;
        }
        proof {
            assert(entry_views(all@) =~= self@.rows);
        }
        all
    }
}

/// What a reader is shown: the name, the transcript and the summary of every
/// entry, in order of the ids. An entry whose job has not finished shows as a
/// note in processing.
pub fn query(store: &EntryStore) -> (notes: Vec<Note>)
    ensures
        note_views(notes@) == store@.notes(),
{
    let all = store.list_all();
    let mut notes: Vec<Note> = Vec::new();
    let mut i: usize = 0;
    while i < all.len()
        invariant
            i <= all.len(),
            notes.len() == i,
            entry_views(all@) == store@.rows,
            forall|k: int| 0 <= k < i ==> notes[k]@ == all[k]@.note(),
        decreases all.len() - i,
    {
        let entry = &all[i];
        notes.push(
            Note {
                name: entry.name.clone(),
                transcript: copy_text(&entry.transcript),
                summary: copy_text(&entry.summary),
            },
        );
        i = i + 1;
    }
    proof {
        assert forall|k: int| 0 <= k < notes.len() implies note_views(notes@)[k]
            == store@.notes()[k] by {
            assert(entry_views(all@)[k] == all[k]@);
        }
        assert(note_views(notes@) =~= store@.notes());
    }
    notes
}

} // verus!
