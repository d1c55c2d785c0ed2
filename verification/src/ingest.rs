//! The upload endpoint: what is done with each file of a request, and what
//! the request is answered with.
//!
//! Reading the request and writing the files is not done here. For each part
//! the caller writes the bytes under a fresh file name and reports how that
//! went; the endpoint keeps the books.

use vstd::prelude::*;
use vstd::string::StringExecFns;
use crate::entry::{EntryStore, EntryStoreView};
use crate::pipeline::{Admission, JobPipeline};

verus! {

/// `uuid::Uuid::new_v4`, rendered by the `Display` of `Uuid`: a random
/// version 4 UUID in its hyphenated form, which is 36 characters long.
/// Nothing else is claimed of it: two calls may give any two such texts.
#[verifier::external_body]
fn random_token() -> (token: String)
    ensures
        token@.len() == 36,
{
    uuid::Uuid::new_v4().to_string()
}

/// The ending of every audio file the endpoint writes.
pub const AUDIO_SUFFIX: &'static str = ".wav";

/// The file name made from a token.
pub open spec fn file_name_of(token: Seq<char>) -> Seq<char> {
    token + AUDIO_SUFFIX@
}

/// The file name for the audio stored under `token`.
pub fn audio_file_name(token: &str) -> (name: String)
    ensures
        name@ == file_name_of(token@),
{
    let mut name = String::from_str(token);
    name.append(AUDIO_SUFFIX);
    name
}

/// A file name that, by the randomness of its token, no earlier file has:
/// 36 characters of token and the audio suffix.
pub fn fresh_file_name() -> (name: String)
    ensures
        name@.len() == 36 + AUDIO_SUFFIX@.len(),
        name@.subrange(36, name@.len() as int) == AUDIO_SUFFIX@,
{
    let token = random_token();
    let name = audio_file_name(token.as_str());
    proof {
        assert(name@.subrange(36, name@.len() as int) =~= AUDIO_SUFFIX@);
    }
    name
}

/// The status that says every part was stored and queued.
pub const STATUS_OK: u16 = 200;

/// The status that says a part could not be stored.
pub const STATUS_FAILED: u16 = 500;

/// What became of one part.
#[derive(Clone, Copy, Debug, PartialEq, Eq, Structural)]
pub enum PartOutcome {
    /// The part is stored as entry `id` and its job is submitted.
    Accepted { id: u32, admission: Admission },
    /// The part is not stored: writing it failed, or an earlier part of the
    /// request had failed already.
    Rejected,
}

/// The mathematical value of an [`Ingestion`].
pub struct IngestionView {
    /// The ids of the entries made from this request, in order.
    pub accepted: Seq<u32>,
    /// Whether a part has failed.
    pub failed: bool,
}

/// The books of one upload request.
pub struct Ingestion {
    accepted: Vec<u32>,
    failed: bool,
}

impl View for Ingestion {
    type V = IngestionView;

    closed spec fn view(&self) -> IngestionView {
        IngestionView { accepted: self.accepted@, failed: self.failed }
    }
}

impl IngestionView {
    /// Whether a part is taken: no part has failed before, its bytes are
    /// written, its row is stored, and an id is left for it.
    pub open spec fn takes(self, entries: EntryStoreView, written: bool, stored: bool) -> bool {
        !self.failed && written && stored && entries.issued < u32::MAX
    }

    /// The status the request is answered with so far.
    pub open spec fn status(self) -> u16 {
        if self.failed {
            STATUS_FAILED
        } else {
            STATUS_OK
        }
    }
}

impl Ingestion {
    /// The books of a request of which no part has been seen.
    pub fn new() -> (ingestion: Ingestion)
        ensures
            ingestion@.accepted == Seq::<u32>::empty(),
            !ingestion@.failed,
    {
        Ingestion { accepted: Vec::new(), failed: false }
    }

    /// Takes one part: `name` is the part's field name, `file` the name its
    /// bytes were written under, `written` whether writing them succeeded
    /// and `stored` whether the persistence layer took the row.
    ///
    /// A part that is taken becomes an entry without transcript and summary,
    /// and a job for it is submitted; nothing waits for the job. The first
    /// part that fails ends the request: it and every later part are
    /// rejected, while the parts taken before stay as they are.
    pub fn receive(
        &mut self,
        entries: &mut EntryStore,
        jobs: &mut JobPipeline,
        name: String,
        file: String,
        written: bool,
        stored: bool,
    ) -> (outcome: PartOutcome)
        requires
            old(entries).wf(),
            old(jobs).wf(),
        ensures
            final(entries).wf(),
            final(jobs).wf(),
            old(self)@.takes(old(entries)@, written, stored) ==> {
                let id = (old(entries)@.issued + 1) as u32;
                &&& outcome == PartOutcome::Accepted { id, admission: old(jobs)@.admission(id) }
                &&& final(entries)@ == old(entries)@.inserted(name@, file@)
                &&& final(jobs)@ == old(jobs)@.submitted(id, file@)
                &&& final(self)@ == (IngestionView {
                    accepted: old(self)@.accepted.push(id),
                    failed: false,
                })
            },
            !old(self)@.takes(old(entries)@, written, stored) ==> {
                &&& outcome == PartOutcome::Rejected
                &&& final(entries)@ == old(entries)@
                &&& final(jobs)@ == old(jobs)@
                &&& final(self)@ == (IngestionView { failed: true, ..old(self)@ })
            },
    {
        if self.failed || !written {
            self.failed = true;
            return PartOutcome::Rejected;
        }
        let handle = file.clone();
        match entries.insert(name, file, stored) {
            Ok(id) => {
                let admission = jobs.submit(id, handle);
                self.accepted.push(id);
                PartOutcome::Accepted { id, admission }
            },
            Err(_) => {
                self.failed = true;
                PartOutcome::Rejected
            },
        }
    }

    /// The ids of the entries made from this request so far.
    pub fn accepted(&self) -> (ids: &Vec<u32>)
        ensures
            ids@ == self@.accepted,
    {
        &self.accepted
    }

    /// The status to answer with: success once every part seen was stored
    /// and queued, failure as soon as one was not. Success says nothing of
    /// transcripts or summaries: no job is waited for.
    pub fn status(&self) -> (status: u16)
        ensures
            status == self@.status(),
            status == STATUS_OK <==> !self@.failed,
    {
        if self.failed {
            STATUS_FAILED
        } else {
            STATUS_OK
        }
    }
}

} // verus!
