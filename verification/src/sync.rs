//! Batch upload: which recordings travel, what the request holds, and what
//! the answer of the remote service does to the store.
//!
//! Sending is not done here. `plan_upload` fixes the request, whoever owns
//! the network sends it, and `settle_upload` takes the answer.

use vstd::prelude::*;
use vstd::string::StringExecFns;
use crate::error::{Error, SyncCause};
use crate::recording::{Recording, RecordingView, views};
use crate::store::{RecordingStore, listed};
use crate::table::has_id;

verus! {

/// One file of a batch: a part of the multipart request.
#[derive(Debug, PartialEq, Eq)]
pub struct Part {
    /// The part's field name: the title of the recording.
    pub name: String,
    /// The audio file whose bytes the part carries.
    pub file: String,
}

/// The mathematical value of a [`Part`].
pub struct PartView {
    pub name: Seq<char>,
    pub file: Seq<char>,
}

impl View for Part {
    type V = PartView;

    open spec fn view(&self) -> PartView {
        PartView { name: self.name@, file: self.file@ }
    }
}

/// The values of a sequence of parts, element by element.
pub open spec fn part_views(parts: Seq<Part>) -> Seq<PartView> {
    Seq::new(parts.len(), |i: int| parts[i]@)
}

/// One request that carries a whole batch.
#[derive(Debug, PartialEq, Eq)]
pub struct UploadRequest {
    /// Where the request is posted.
    pub target: String,
    /// One part per recording of the batch, in order of the ids.
    pub parts: Vec<Part>,
}

/// What came back from sending a batch.
#[derive(Clone, Copy, Debug, PartialEq, Eq, Structural)]
pub enum Reply {
    /// The service answered with this status.
    Status(u16),
    /// The request did not get through, or no answer came.
    Unreachable,
    /// An audio file of the batch could not be read, so nothing was sent.
    MissingFile,
}

/// The path of the upload endpoint below a service's address.
pub open spec fn target_of(url: Seq<char>) -> Seq<char> {
    url + "/upload"@
}

/// A status counts as success if and only if it is one of 200 to 299.
pub open spec fn accepted(status: u16) -> bool {
    200 <= status <= 299
}

/// The part that carries one recording.
pub open spec fn part_of(recording: RecordingView) -> PartView {
    PartView { name: recording.name, file: recording.file }
}

/// The parts of a batch: one for every row whose id is among `ids`, in the
/// order of the rows. An id named twice gives one part.
pub open spec fn parts_of(rows: Seq<RecordingView>, ids: Seq<u32>) -> Seq<PartView>
    decreases rows.len(),
{
    if rows.len() == 0 {
        Seq::empty()
    } else {
        let earlier = parts_of(rows.drop_last(), ids);
        if ids.contains(rows.last().id) {
            earlier.push(part_of(rows.last()))
        } else {
            earlier
        }
    }
}

/// Every id of `ids` is the id of some row.
pub open spec fn all_known(rows: Seq<RecordingView>, ids: Seq<u32>) -> bool {
    forall|k: int| 0 <= k < ids.len() ==> has_id(rows, #[trigger] ids[k])
}

/// What settling a batch does to the store and what it returns.
pub open spec fn verdict(reply: Reply) -> Result<(), Error> {
    match reply {
        Reply::Status(status) => if accepted(status) {
            Ok(())
        } else {
            Err(Error::Sync(SyncCause::Status(status)))
        },
        Reply::Unreachable => Err(Error::Sync(SyncCause::Network)),
        Reply::MissingFile => Err(Error::Sync(SyncCause::MissingFile)),
    }
}

/// Whether `status` counts as success.
pub fn is_success(status: u16) -> (yes: bool)
    ensures
        yes == accepted(status),
{
    200 <= status && status <= 299
}

/// The address a batch for the service at `url` is posted to.
pub fn upload_target(url: &str) -> (target: String)
    ensures
        target@ == target_of(url@),
{
    let mut target = String::from_str(url);
    target.append("/upload");
    target
}

/// Fixes the request for the batch `ids`.
///
/// Every id is looked up in the store as it is now. If one of them is gone
/// the batch is refused with `NotFound` and there is no request. Otherwise
/// the request holds one part per recording of the batch, named by its
/// current title.
pub fn plan_upload(store: &RecordingStore, url: &str, ids: &Vec<u32>) -> (plan: Result<
    UploadRequest,
    Error,
>)
    requires
        store.wf(),
    ensures
        match plan {
            Ok(request) => {
                &&& all_known(store@.rows, ids@)
                &&& request.target@ == target_of(url@)
                &&& part_views(request.parts@) == parts_of(store@.rows, ids@)
            },
            Err(e) => e == Error::NotFound && !all_known(store@.rows, ids@),
        },
{
    let mut k: usize = 0;
    while k < ids.len()
        invariant
            k <= ids.len(),
            store.wf(),
            forall|j: int| 0 <= j < k ==> has_id(store@.rows, #[trigger] ids[j]),
        decreases ids.len() - k,
    {
        if store.get(ids[k]).is_none() {
            proof {
                assert(!has_id(store@.rows, ids[k as int]));
            }
            return Err(Error::NotFound);
        }
        k = k + 1;
    }
    let rows = store.rows();
    let mut parts: Vec<Part> = Vec::new();
    let mut i: usize = 0;
    proof {
        assert(views(rows@).subrange(0, 0) =~= Seq::<RecordingView>::empty());
        assert(part_views(parts@) =~= Seq::<PartView>::empty());
    }
    while i < rows.len()
        invariant
            i <= rows.len(),
            part_views(parts@) == parts_of(views(rows@).subrange(0, i as int), ids@),
        decreases rows.len() - i,
    {
        let ghost so_far = part_views(parts@);
        proof {
            let next = views(rows@).subrange(0, i + 1);
            assert(next.drop_last() =~= views(rows@).subrange(0, i as int));
            assert(next.last() == rows[i as int]@);
        }
        if listed(ids, rows[i].id) {
            let part = Part { name: rows[i].name.clone(), file: rows[i].file.clone() };
            proof {
                assert(part@ == part_of(rows[i as int]@));
            }
            parts.push(part);
            proof {
                assert(part_views(parts@) =~= so_far.push(part_of(rows[i as int]@)));
            }
        }
        i = i + 1;
    }
    proof {
        assert(views(rows@).subrange(0, rows.len() as int) =~= views(rows@));
    }
    Ok(UploadRequest { target: upload_target(url), parts })
}

/// Takes the answer to a batch.
///
/// On a status from 200 to 299 every recording of the batch is marked as
/// uploaded, all in this one step. On anything else no recording is marked
/// and the error names the cause.
pub fn settle_upload(store: &mut RecordingStore, ids: &Vec<u32>, reply: Reply) -> (done: Result<
    (),
    Error,
>)
    requires
        old(store).wf(),
    ensures
        final(store).wf(),
        done == verdict(reply),
        done is Ok ==> final(store)@ == old(store)@.acknowledged(ids@),
        done is Err ==> final(store)@ == old(store)@,
{
    match reply {
        Reply::Status(status) => {
            if is_success(status) {
                store.acknowledge(ids);
                Ok(())
            } else {
                Err(Error::Sync(SyncCause::Status(status)))
            }
        },
        Reply::Unreachable => Err(Error::Sync(SyncCause::Network)),
        Reply::MissingFile => Err(Error::Sync(SyncCause::MissingFile)),
    }
}

/// All or nothing: after a batch was acknowledged, a recording is marked as
/// uploaded if and only if it was marked before or belongs to the batch, and
/// nothing else about any recording has changed. A mark is never taken back.
pub proof fn lemma_acknowledged_exactly(store: crate::store::StoreView, ids: Seq<u32>, i: int)
    requires
        0 <= i < store.rows.len(),
    ensures
        store.acknowledged(ids).rows.len() == store.rows.len(),
        store.acknowledged(ids).issued == store.issued,
        store.acknowledged(ids).rows[i].uploaded == (store.rows[i].uploaded || ids.contains(
            store.rows[i].id,
        )),
        store.acknowledged(ids).rows[i].id == store.rows[i].id,
        store.acknowledged(ids).rows[i].file == store.rows[i].file,
        store.acknowledged(ids).rows[i].name == store.rows[i].name,
{
}

/// A batch holds one part for each of its recordings: as many parts as rows
/// are named, and none where no row is named.
pub proof fn lemma_parts_bounded(rows: Seq<RecordingView>, ids: Seq<u32>)
    ensures
        parts_of(rows, ids).len() <= rows.len(),
        ids.len() == 0 ==> parts_of(rows, ids).len() == 0,
    decreases rows.len(),
{
    if rows.len() > 0 {
        lemma_parts_bounded(rows.drop_last(), ids);
    }
}

/// The ids a user has picked for the next batch.
pub struct Selection {
    ids: Vec<u32>,
}

/// `ids` without every occurrence of `id`.
pub open spec fn dropped(ids: Seq<u32>, id: u32) -> Seq<u32>
    decreases ids.len(),
{
    if ids.len() == 0 {
        ids
    } else if ids.last() == id {
        dropped(ids.drop_last(), id)
    } else {
        dropped(ids.drop_last(), id).push(ids.last())
    }
}

impl View for Selection {
    type V = Seq<u32>;

    closed spec fn view(&self) -> Seq<u32> {
        self.ids@
    }
}

impl Selection {
    /// Nothing picked.
    pub fn new() -> (selection: Selection)
        ensures
            selection@ == Seq::<u32>::empty(),
    {
        Selection { ids: Vec::new() }
    }

    /// Whether `id` is picked.
    pub fn contains(&self, id: u32) -> (yes: bool)
        ensures
            yes == self@.contains(id),
    {
        listed(&self.ids, id)
    }

    /// Picks `id`. An id that is picked already is not picked twice.
    pub fn select(&mut self, id: u32)
        ensures
            final(self)@ == if old(self)@.contains(id) {
                old(self)@
            } else {
                old(self)@.push(id)
            },
    {
        if !listed(&self.ids, id) {
            self.ids.push(id);
        }
    }

    /// Takes `id` out of the selection.
    pub fn deselect(&mut self, id: u32)
        ensures
            final(self)@ == dropped(old(self)@, id),
    {
        let mut kept: Vec<u32> = Vec::new();
        let mut i: usize = 0;
        proof {
            assert(self.ids@.subrange(0, 0) =~= Seq::<u32>::empty());
        }
        while i < self.ids.len()
            invariant
                i <= self.ids.len(),
                self.ids@ == old(self).ids@,
                kept@ == dropped(self.ids@.subrange(0, i as int), id),
            decreases self.ids.len() - i,
        {
            proof {
                let next = self.ids@.subrange(0, i + 1);
                assert(next.drop_last() =~= self.ids@.subrange(0, i as int));
                assert(next.last() == self.ids[i as int]);
            }
            if self.ids[i] != id {
                kept.push(self.ids[i]);
            }
            i = i + 1;
        }
        proof {
            assert(self.ids@.subrange(0, self.ids.len() as int) =~= self.ids@);
        }
        self.ids = kept;
    }

    /// Follows a check box: picked when `checked`, not picked otherwise.
    pub fn set(&mut self, id: u32, checked: bool)
        ensures
            final(self)@ == if !checked {
                dropped(old(self)@, id)
            } else if old(self)@.contains(id) {
                old(self)@
            } else {
                old(self)@.push(id)
            },
    {
        if checked {
            self.select(id);
        } else {
            self.deselect(id);
        }
    }

    /// Takes note of a recording that is shown: one that is not uploaded yet
    /// is picked, one that is uploaded is left as it is.
    pub fn offer(&mut self, recording: &Recording)
        ensures
            final(self)@ == if recording.uploaded || old(self)@.contains(recording.id) {
                old(self)@
            } else {
                old(self)@.push(recording.id)
            },
    {
        if !recording.uploaded {
            self.select(recording.id);
        }
    }

    /// The picked ids, in the order they were picked.
    pub fn ids(&self) -> (ids: &Vec<u32>)
        ensures
            ids@ == self@,
    {
        &self.ids
    }
}

/// After `deselect` the id is out, and every other id is in exactly if it was
/// in before.
pub proof fn lemma_dropped(ids: Seq<u32>, id: u32, other: u32)
    ensures
        !dropped(ids, id).contains(id),
        other != id ==> dropped(ids, id).contains(other) == ids.contains(other),
    decreases ids.len(),
{
    if ids.len() > 0 {
        let earlier = ids.drop_last();
        let last = ids.last();
        lemma_dropped(earlier, id, other);
        let kept = dropped(earlier, id);
        assert(ids =~= earlier.push(last));
        if last != id {
            let out = kept.push(last);
            if out.contains(id) {
                let k = choose|k: int| 0 <= k < out.len() && out[k] == id;
                assert(kept[k] == id);
            }
        }
        if other != id {
            if dropped(ids, id).contains(other) {
                let out = dropped(ids, id);
                let k = choose|k: int| 0 <= k < out.len() && out[k] == other;
                if last != id && k == kept.len() {
                    assert(ids[ids.len() - 1] == other);
                } else {
                    assert(kept[k] == other);
                    assert(earlier.contains(other));
                    let j = choose|j: int| 0 <= j < earlier.len() && earlier[j] == other;
                    assert(ids[j] == other);
                }
            }
            if ids.contains(other) {
                let j = choose|j: int| 0 <= j < ids.len() && ids[j] == other;
                if j == ids.len() - 1 {
                    assert(last == other);
                    assert(kept.push(last)[kept.len() as int] == other);
                } else {
                    assert(earlier[j] == other);
                    assert(kept.contains(other));
                    let k = choose|k: int| 0 <= k < kept.len() && kept[k] == other;
                    if last != id {
                        assert(kept.push(last)[k] == other);
                    }
                }
            }
        }
    }
}

} // verus!
