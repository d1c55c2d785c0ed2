//! The device's side as one piece: the store, the bus that tells listeners
//! of its changes, the address of the remote service, and the books of the
//! uploads that are under way.

use vstd::prelude::*;
use crate::bus::{EventBus, ListenerView};
use crate::error::Error;
use crate::history::Op;
use crate::recording::{Event, EventView, Recording, Topic};
use crate::store::{RecordingStore, StoreView, listed};
use crate::sync::{Reply, UploadRequest, all_known, part_views, parts_of, plan_upload,
    settle_upload, target_of, verdict};
use crate::table::has_id;

verus! {

/// The listeners after a notice went out to all of them, or after none did.
pub open spec fn told(bus: Seq<ListenerView>, notice: Option<EventView>) -> Seq<ListenerView> {
    match notice {
        Some(event) => Seq::new(bus.len(), |i: int| bus[i].sent(event)),
        None => bus,
    }
}

/// `held` without the first occurrence of `id`.
pub open spec fn without_one(held: Seq<u32>, id: u32) -> Seq<u32>
    decreases held.len(),
{
    if held.len() == 0 {
        held
    } else if held[0] == id {
        held.drop_first()
    } else {
        seq![held[0]] + without_one(held.drop_first(), id)
    }
}

/// `held` without one occurrence of each of `ids`.
pub open spec fn without_each(held: Seq<u32>, ids: Seq<u32>) -> Seq<u32>
    decreases ids.len(),
{
    if ids.len() == 0 {
        held
    } else {
        without_one(without_each(held, ids.drop_last()), ids.last())
    }
}

/// Taking out the first occurrence is taking out the element at the first
/// place that holds the id.
pub proof fn lemma_without_one(held: Seq<u32>, id: u32, at: int)
    requires
        0 <= at <= held.len(),
        forall|k: int| 0 <= k < at ==> held[k] != id,
        at < held.len() ==> held[at] == id,
    ensures
        without_one(held, id) == if at < held.len() {
            held.remove(at)
        } else {
            held
        },
    decreases held.len(),
{
    if held.len() == 0 {
    } else if at == 0 {
        assert(held.remove(0) =~= held.drop_first());
    } else {
        let rest = held.drop_first();
        assert(held[0] != id);
        assert forall|k: int| 0 <= k < at - 1 implies rest[k] != id by {
            assert(rest[k] == held[k + 1]);
        }
        lemma_without_one(rest, id, at - 1);
        if at < held.len() {
            assert(seq![held[0]] + rest.remove(at - 1) =~= held.remove(at));
        } else {
            assert(seq![held[0]] + rest =~= held);
        }
    }
}

/// The mathematical value of a [`Device`].
pub struct DeviceView {
    pub store: StoreView,
    pub bus: Seq<ListenerView>,
    /// The address of the remote service that was used last; empty before
    /// the first upload.
    pub url: Seq<char>,
    /// The ids named by the uploads that are under way, each as often as
    /// uploads name it.
    pub uploading: Seq<u32>,
}

impl DeviceView {
    /// What `delete` does to the store: the row goes only if its file was
    /// removed and no upload that names it is under way.
    pub open spec fn delete_op(self, id: u32, file_removed: bool) -> Op {
        Op::Delete { id, file_removed: file_removed && !self.uploading.contains(id) }
    }
}

/// The device's side.
pub struct Device {
    store: RecordingStore,
    bus: EventBus,
    url: String,
    uploading: Vec<u32>,
}

impl View for Device {
    type V = DeviceView;

    closed spec fn view(&self) -> DeviceView {
        DeviceView {
            store: self.store@,
            bus: self.bus@,
            url: self.url@,
            uploading: self.uploading@,
        }
    }
}

impl Device {
    /// The invariant every device keeps.
    pub open spec fn wf(&self) -> bool {
        self@.store.wf()
    }

    /// A device with an empty store, no listeners and no address.
    pub fn new() -> (device: Device)
        ensures
            device.wf(),
            device@.store.rows.len() == 0,
            device@.store.issued == 0,
            device@.bus.len() == 0,
            device@.url.len() == 0,
            device@.uploading.len() == 0,
    {
        Device {
            store: RecordingStore::new(),
            bus: EventBus::new(),
            url: String::new(),
            uploading: Vec::new(),
        }
    }

    /// A device that takes up a store and the address used last, as they
    /// were persisted.
    pub fn resume(store: RecordingStore, url: String) -> (device: Device)
        requires
            store.wf(),
        ensures
            device.wf(),
            device@.store == store@,
            device@.bus.len() == 0,
            device@.url == url@,
            device@.uploading.len() == 0,
    {
        Device { store, bus: EventBus::new(), url, uploading: Vec::new() }
    }

    /// The store.
    pub fn store(&self) -> (store: &RecordingStore)
        ensures
            store@ == self@.store,
    {
        &self.store
    }

    /// The bus.
    pub fn bus(&self) -> (bus: &EventBus)
        ensures
            bus@ == self@.bus,
    {
        &self.bus
    }

    /// Adds a listener and returns its handle.
    pub fn subscribe(&mut self) -> (handle: usize)
        requires
            old(self).wf(),
        ensures
            final(self).wf(),
            handle == old(self)@.bus.len(),
            final(self)@ == (DeviceView {
                bus: old(self)@.bus.push(ListenerView::fresh()),
                ..old(self)@
            }),
    {
        self.bus.subscribe()
    }

    /// Registers a callback of listener `handle` for `topic`.
    pub fn listen(&mut self, handle: usize, topic: Topic) -> (known: bool)
        requires
            old(self).wf(),
        ensures
            final(self).wf(),
            known == (handle < old(self)@.bus.len()),
            final(self)@ == (DeviceView {
                bus: if known {
                    old(self)@.bus.update(
                        handle as int,
                        old(self)@.bus[handle as int].registered(topic),
                    )
                } else {
                    old(self)@.bus
                },
                ..old(self)@
            }),
    {
        self.bus.listen(handle, topic)
    }

    /// Listener `handle` signals that it is ready, and is replayed the
    /// backlog: one `File` event for every recording the store holds now, in
    /// order of creation.
    pub fn ready(&mut self, handle: usize) -> (known: bool)
        requires
            old(self).wf(),
        ensures
            final(self).wf(),
            known == (handle < old(self)@.bus.len()),
            final(self)@ == (DeviceView {
                bus: if known {
                    old(self)@.bus.update(
                        handle as int,
                        old(self)@.bus[handle as int].sent_all(old(self)@.store.backlog()),
                    )
                } else {
                    old(self)@.bus
                },
                ..old(self)@
            }),
    {
        self.bus.ready(handle, &self.store)
    }

    /// Hands listener `handle` its oldest event, if it has one.
    pub fn deliver(&mut self, handle: usize) -> (event: Option<Event>)
        requires
            old(self).wf(),
        ensures
            final(self).wf(),
            final(self)@.store == old(self)@.store,
            final(self)@.url == old(self)@.url,
            final(self)@.uploading == old(self)@.uploading,
            match event {
                Some(e) => {
                    &&& handle < old(self)@.bus.len()
                    &&& old(self)@.bus[handle as int].inbox.len() > 0
                    &&& e@ == old(self)@.bus[handle as int].inbox[0]
                    &&& final(self)@.bus == old(self)@.bus.update(
                        handle as int,
                        ListenerView {
                            inbox: old(self)@.bus[handle as int].inbox.drop_first(),
                            ..old(self)@.bus[handle as int]
                        },
                    )
                },
                None => {
                    &&& handle < old(self)@.bus.len() ==> old(self)@.bus[handle as int].inbox.len()
                        == 0
                    &&& final(self)@.bus == old(self)@.bus
                },
            },
    {
        self.bus.deliver(handle)
    }

    /// Stores a new recording and tells every listener of it.
    ///
    /// The event goes out only if the recording was stored: where the result
    /// is `Storage`, neither the store nor any inbox has changed.
    pub fn create(&mut self, file: String, title: String, stored: bool) -> (made: Result<
        Recording,
        Error,
    >)
        requires
            old(self).wf(),
        ensures
            final(self).wf(),
            ({
                let op = Op::Create { file: file@, title: title@, stored };
                final(self)@ == (DeviceView {
                    store: old(self)@.store.step(op),
                    bus: told(old(self)@.bus, old(self)@.store.notice(op)),
                    ..old(self)@
                })
            }),
            match made {
                Ok(recording) => {
                    &&& stored
                    &&& old(self)@.store.issued < u32::MAX
                    &&& recording@ == old(self)@.store.fresh(file@, title@)
                },
                Err(e) => e == Error::Storage && !(stored && old(self)@.store.issued < u32::MAX),
            },
    {
        match self.store.create(file, title, stored) {
            Ok(recording) => {
                let event = Event::File(recording.clone());
                self.bus.publish(&event);
                proof {
                    assert(self@.bus =~= told(old(self)@.bus, Some(event@)));
                }
                Ok(recording)
            },
            Err(e) => Err(e),
        }
    }

    /// Gives a recording a new title and tells every listener of the full
    /// recording as it is now.
    pub fn rename(&mut self, id: u32, title: String) -> (changed: Result<Recording, Error>)
        requires
            old(self).wf(),
        ensures
            final(self).wf(),
            ({
                let op = Op::Rename { id, title: title@ };
                final(self)@ == (DeviceView {
                    store: old(self)@.store.step(op),
                    bus: told(old(self)@.bus, old(self)@.store.notice(op)),
                    ..old(self)@
                })
            }),
            match changed {
                Ok(recording) => {
                    &&& has_id(old(self)@.store.rows, id)
                    &&& recording@ == old(self)@.store.table()[id].titled(title@)
                },
                Err(e) => e == Error::NotFound && !has_id(old(self)@.store.rows, id),
            },
    {
        match self.store.rename(id, title) {
            Ok(recording) => {
                let event = Event::File(recording.clone());
                self.bus.publish(&event);
                proof {
                    assert(self@.bus =~= told(old(self)@.bus, Some(event@)));
                }
                Ok(recording)
            },
            Err(e) => Err(e),
        }
    }

    /// The file that has to be removed before recording `id` can be deleted.
    ///
    /// The result is `NotFound` where the store does not hold the id, and
    /// `Storage` where an upload that names it is under way: its file must
    /// not be removed now.
    pub fn removable(&self, id: u32) -> (file: Result<String, Error>)
        requires
            self.wf(),
        ensures
            match file {
                Ok(name) => {
                    &&& has_id(self@.store.rows, id)
                    &&& !self@.uploading.contains(id)
                    &&& name@ == self@.store.table()[id].file
                },
                Err(e) => if has_id(self@.store.rows, id) {
                    e == Error::Storage && self@.uploading.contains(id)
                } else {
                    e == Error::NotFound
                },
            },
    {
        match self.store.get(id) {
            Some(recording) => {
                if listed(&self.uploading, id) {
                    Err(Error::Storage)
                } else {
                    Ok(recording.file.clone())
                }
            },
            None => Err(Error::NotFound),
        }
    }

    /// Deletes a recording and tells every listener of it.
    ///
    /// `file_removed` says whether the backing file was removed. The row
    /// goes only after its file: where the file was not removed, or may not
    /// be removed because an upload that names the recording is under way,
    /// the result is `Storage`, the row stays and no event goes out.
    pub fn delete(&mut self, id: u32, file_removed: bool) -> (done: Result<(), Error>)
        requires
            old(self).wf(),
        ensures
            final(self).wf(),
            ({
                let op = old(self)@.delete_op(id, file_removed);
                final(self)@ == (DeviceView {
                    store: old(self)@.store.step(op),
                    bus: told(old(self)@.bus, old(self)@.store.notice(op)),
                    ..old(self)@
                })
            }),
            match done {
                Ok(()) => {
                    &&& has_id(old(self)@.store.rows, id)
                    &&& file_removed
                    &&& !old(self)@.uploading.contains(id)
                    &&& final(self)@.store == old(self)@.store.deleted(id)
                },
                Err(e) => {
                    &&& final(self)@ == old(self)@
                    &&& if has_id(old(self)@.store.rows, id) {
                        e == Error::Storage && (!file_removed || old(self)@.uploading.contains(id))
                    } else {
                        e == Error::NotFound
                    }
                },
            },
    {
        let free = !listed(&self.uploading, id);
        match self.store.delete(id, file_removed && free) {
            Ok(()) => {
                let event = Event::Delete(id);
                self.bus.publish(&event);
                proof {
                    assert(self@.bus =~= told(old(self)@.bus, Some(event@)));
                }
                Ok(())
            },
            Err(e) => Err(e),
        }
    }

    /// The address of the remote service that was used last.
    pub fn get_url(&self) -> (url: String)
        ensures
            url@ == self@.url,
    {
        self.url.clone()
    }

    /// Starts the upload of the batch `ids` to the service at `url`.
    ///
    /// The address is kept as the one used last, whatever comes of the
    /// upload. Where the store holds every id, the result is the request to
    /// send, and the ids count as being uploaded until `finish_upload` is
    /// told the answer. Where it does not, the result is `NotFound` and no
    /// upload is under way.
    pub fn begin_upload(&mut self, url: String, ids: &Vec<u32>) -> (plan: Result<
        UploadRequest,
        Error,
    >)
        requires
            old(self).wf(),
        ensures
            final(self).wf(),
            final(self)@.store == old(self)@.store,
            final(self)@.bus == old(self)@.bus,
            final(self)@.url == url@,
            match plan {
                Ok(request) => {
                    &&& all_known(old(self)@.store.rows, ids@)
                    &&& request.target@ == target_of(url@)
                    &&& part_views(request.parts@) == parts_of(old(self)@.store.rows, ids@)
                    &&& final(self)@.uploading == old(self)@.uploading + ids@
                },
                Err(e) => {
                    &&& e == Error::NotFound
                    &&& !all_known(old(self)@.store.rows, ids@)
                    &&& final(self)@.uploading == old(self)@.uploading
                },
            },
    {
        let plan = plan_upload(&self.store, url.as_str(), ids);
        self.url = url;
        if plan.is_ok() {
            let mut k: usize = 0;
            proof {
                assert(self.uploading@ =~= old(self).uploading@ + ids@.subrange(0, 0));
            }
            while k < ids.len()
                invariant
                    k <= ids.len(),
                    self.store == old(self).store,
                    self.bus == old(self).bus,
                    self.url@ == url@,
                    self.uploading@ == old(self).uploading@ + ids@.subrange(0, k as int),
                decreases ids.len() - k,
            {
                self.uploading.push(ids[k]);
                proof {
                    assert(ids@.subrange(0, k + 1) =~= ids@.subrange(0, k as int).push(
                        ids[k as int],
                    ));
                    assert(self.uploading@ =~= old(self).uploading@ + ids@.subrange(0, k + 1));
                }
                k = k + 1;
            }
            proof {
                assert(ids@.subrange(0, ids.len() as int) =~= ids@);
            }
        }
        plan
    }

    fn release(&mut self, id: u32)
        ensures
            final(self).uploading@ == without_one(old(self).uploading@, id),
            final(self).store == old(self).store,
            final(self).bus == old(self).bus,
            final(self).url == old(self).url,
    {
        let mut at: usize = 0;
        while at < self.uploading.len() && self.uploading[at] != id
            invariant
                at <= self.uploading.len(),
                self.uploading == old(self).uploading,
                forall|k: int| 0 <= k < at ==> self.uploading[k] != id,
            decreases self.uploading.len() - at,
        {
            at = at + 1;
        }
        proof {
            lemma_without_one(self.uploading@, id, at as int);
        }
        if at < self.uploading.len() {
            let _ = self.uploading.remove(at);
        }
    }

    /// Takes the answer to the upload of the batch `ids`.
    ///
    /// The upload is over either way: each id counts once less as being
    /// uploaded. On a status from 200 to 299 every recording of the batch is
    /// marked as uploaded, all in this one step; on anything else none is,
    /// and the error names the cause. No event goes out for the marks: a
    /// listener learns of them with its next replay.
    pub fn finish_upload(&mut self, ids: &Vec<u32>, reply: Reply) -> (done: Result<(), Error>)
        requires
            old(self).wf(),
        ensures
            final(self).wf(),
            done == verdict(reply),
            final(self)@ == (DeviceView {
                store: if done is Ok {
                    old(self)@.store.acknowledged(ids@)
                } else {
                    old(self)@.store
                },
                uploading: without_each(old(self)@.uploading, ids@),
                ..old(self)@
            }),
    {
        let mut k: usize = 0;
        proof {
            assert(ids@.subrange(0, 0) =~= Seq::<u32>::empty());
        }
        while k < ids.len()
            invariant
                k <= ids.len(),
                self.store == old(self).store,
                self.bus == old(self).bus,
                self.url == old(self).url,
                self.uploading@ == without_each(old(self).uploading@, ids@.subrange(0, k as int)),
            decreases ids.len() - k,
        {
            proof {
                let next = ids@.subrange(0, k + 1);
                assert(next.drop_last() =~= ids@.subrange(0, k as int));
                assert(next.last() == ids[k as int]);
            }
            self.release(ids[k]);
            k = k + 1;
        }
        proof {
            assert(ids@.subrange(0, ids.len() as int) =~= ids@);
        }
        settle_upload(&mut self.store, ids, reply)
    }

    /// Whether an upload that names `id` is under way.
    pub fn is_uploading(&self, id: u32) -> (yes: bool)
        ensures
            yes == self@.uploading.contains(id),
    {
        listed(&self.uploading, id)
    }
}

} // verus!
