//! The remote service's jobs: one per uploaded file, each a small state
//! machine that goes from the audio to a transcript and a summary.
//!
//! The pipeline decides; it does no work itself. Whoever drives it does the
//! work a step asks for (decode and resample, run the speech-to-text engine,
//! ask for a summary) and reports how it went with the next event.

use vstd::prelude::*;
use crate::entry::{EntryStore, EntryStoreView, holds, lemma_place, place_of};
use crate::error::PipelineCause;
use crate::transcript::{Segment, SegmentView, render, segment_views, transcript_of};

verus! {

/// Where a job stands.
#[derive(Clone, Copy, Debug, PartialEq, Eq, Structural)]
pub enum Stage {
    /// Accepted, waiting for a free place.
    Submitted,
    /// The audio is being decoded, mixed down and resampled.
    Resampling,
    /// The speech-to-text engine is running.
    Transcribing,
    /// The summarization engine is running.
    Summarizing,
    /// Transcript and summary are written to the entry.
    Persisted,
}

/// The mathematical value of a job.
pub struct JobView {
    /// The id of the entry the job works for.
    pub id: u32,
    pub file: Seq<char>,
    pub stage: Stage,
    /// The transcript once the job has one; empty before.
    pub transcript: Seq<char>,
}

impl JobView {
    /// A job that has just been accepted.
    pub open spec fn accepted(id: u32, file: Seq<char>) -> JobView {
        JobView { id, file, stage: Stage::Submitted, transcript: Seq::empty() }
    }

    /// The job once it has a place and its audio is being prepared.
    pub open spec fn started(self) -> JobView {
        JobView { stage: Stage::Resampling, ..self }
    }

    /// Whether the job has a place and is at one of the working stages.
    pub open spec fn at_work(self) -> bool {
        self.stage == Stage::Resampling || self.stage == Stage::Transcribing || self.stage
            == Stage::Summarizing
    }

    /// The cause reported when the work of the current stage fails.
    pub open spec fn cause(self) -> PipelineCause {
        match self.stage {
            Stage::Transcribing => PipelineCause::Transcription,
            Stage::Summarizing => PipelineCause::Summary,
            _ => PipelineCause::Audio,
        }
    }
}

struct Job {
    id: u32,
    file: String,
    stage: Stage,
    transcript: String,
}

impl View for Job {
    type V = JobView;

    closed spec fn view(&self) -> JobView {
        JobView { id: self.id, file: self.file@, stage: self.stage, transcript: self.transcript@ }
    }
}

/// What the driver reports of the work it did for a job.
#[derive(Debug, PartialEq, Eq)]
pub enum JobEvent {
    /// The audio is decoded, mono and at the engine's rate.
    Resampled,
    /// The speech-to-text engine returned these segments.
    Transcribed(Vec<Segment>),
    /// The summarization engine returned this text.
    Summarized(String),
    /// The work of the current stage failed.
    Failed,
}

/// The mathematical value of a [`JobEvent`].
pub enum JobEventView {
    Resampled,
    Transcribed(Seq<SegmentView>),
    Summarized(Seq<char>),
    Failed,
}

impl View for JobEvent {
    type V = JobEventView;

    open spec fn view(&self) -> JobEventView {
        match *self {
            JobEvent::Resampled => JobEventView::Resampled,
            JobEvent::Transcribed(segments) => JobEventView::Transcribed(segment_views(segments@)),
            JobEvent::Summarized(summary) => JobEventView::Summarized(summary@),
            JobEvent::Failed => JobEventView::Failed,
        }
    }
}

/// What became of a job in one step, and with it what the driver does next.
#[derive(Debug, PartialEq, Eq)]
pub enum Progress {
    /// The job is now transcribing: run the speech-to-text engine.
    Transcribe,
    /// The job is now summarizing: ask for a summary of this transcript.
    Summarize(String),
    /// The job has ended and its results were handed to the entry store.
    /// `kept` is false where the entry was no longer there; the job ends all
    /// the same.
    Persisted { kept: bool },
    /// The job has ended without results; its entry is as it was.
    Stopped(PipelineCause),
    /// Nothing changed: no job with this id is at work, or the event is not
    /// the one its stage waits for.
    Ignored,
}

/// The mathematical value of a [`Progress`].
pub enum ProgressView {
    Transcribe,
    Summarize(Seq<char>),
    Persisted { kept: bool },
    Stopped(PipelineCause),
    Ignored,
}

impl View for Progress {
    type V = ProgressView;

    open spec fn view(&self) -> ProgressView {
        match *self {
            Progress::Transcribe => ProgressView::Transcribe,
            Progress::Summarize(transcript) => ProgressView::Summarize(transcript@),
            Progress::Persisted { kept } => ProgressView::Persisted { kept },
            Progress::Stopped(cause) => ProgressView::Stopped(cause),
            Progress::Ignored => ProgressView::Ignored,
        }
    }
}

/// A job that has just been given a place: the driver starts on its audio.
#[derive(Debug, PartialEq, Eq)]
pub struct Start {
    pub id: u32,
    pub file: String,
}

/// The mathematical value of a [`Start`].
pub struct StartView {
    pub id: u32,
    pub file: Seq<char>,
}

impl View for Start {
    type V = StartView;

    open spec fn view(&self) -> StartView {
        StartView { id: self.id, file: self.file@ }
    }
}

/// The value of a start that may be absent.
pub open spec fn start_view(start: Option<Start>) -> Option<StartView> {
    match start {
        Some(s) => Some(s@),
        None => None,
    }
}

/// What `submit` did with a job.
#[derive(Clone, Copy, Debug, PartialEq, Eq, Structural)]
pub enum Admission {
    /// The job has a place: the driver starts on its audio.
    Started,
    /// All places are taken: the job waits its turn.
    Deferred,
    /// A job for this entry is already at work or waiting; nothing changed.
    Duplicate,
}

/// The result of one step.
#[derive(Debug, PartialEq, Eq)]
pub struct Step {
    pub progress: Progress,
    /// The waiting job that took the place a finished job left, if any.
    pub next: Option<Start>,
}

/// Some job of `jobs` works for entry `id`.
pub open spec fn has_job(jobs: Seq<JobView>, id: u32) -> bool {
    exists|i: int| 0 <= i < jobs.len() && #[trigger] jobs[i].id == id
}

/// The place of the job for entry `id`, where there is one.
pub open spec fn job_at(jobs: Seq<JobView>, id: u32) -> int {
    choose|i: int| 0 <= i < jobs.len() && #[trigger] jobs[i].id == id
}

/// No two jobs of `jobs` work for the same entry.
pub open spec fn one_each(jobs: Seq<JobView>) -> bool {
    forall|i: int, j: int| 0 <= i < j < jobs.len() ==> jobs[i].id != jobs[j].id
}

/// The mathematical value of a [`JobPipeline`].
pub struct PipelineView {
    /// How many jobs may be at work at once.
    pub limit: nat,
    /// The jobs at work.
    pub active: Seq<JobView>,
    /// The jobs that wait for a place, first come first.
    pub waiting: Seq<JobView>,
}

/// A pipeline, an entry store, and what a step reports.
pub struct StepView {
    pub pipeline: PipelineView,
    pub entries: EntryStoreView,
    pub progress: ProgressView,
    pub next: Option<StartView>,
}

impl PipelineView {
    /// No entry has two jobs, no more jobs are at work than the limit allows,
    /// and no job waits while a place is free.
    pub open spec fn wf(self) -> bool {
        &&& self.active.len() <= self.limit
        &&& one_each(self.active + self.waiting)
        &&& forall|i: int| 0 <= i < self.active.len() ==> (#[trigger] self.active[i]).at_work()
        &&& forall|i: int|
            0 <= i < self.waiting.len() ==> (#[trigger] self.waiting[i]).stage == Stage::Submitted
        &&& self.waiting.len() > 0 ==> self.active.len() == self.limit
    }

    /// Whether a job for entry `id` is at work or waiting.
    pub open spec fn knows(self, id: u32) -> bool {
        has_job(self.active, id) || has_job(self.waiting, id)
    }

    /// What `submit` answers.
    pub open spec fn admission(self, id: u32) -> Admission {
        if self.knows(id) {
            Admission::Duplicate
        } else if self.active.len() < self.limit {
            Admission::Started
        } else {
            Admission::Deferred
        }
    }

    /// The pipeline after `submit`.
    pub open spec fn submitted(self, id: u32, file: Seq<char>) -> PipelineView {
        match self.admission(id) {
            Admission::Duplicate => self,
            Admission::Started => PipelineView {
                active: self.active.push(JobView::accepted(id, file).started()),
                ..self
            },
            Admission::Deferred => PipelineView {
                waiting: self.waiting.push(JobView::accepted(id, file)),
                ..self
            },
        }
    }

    /// The waiting job that takes the next free place.
    pub open spec fn successor(self) -> Option<StartView> {
        if self.waiting.len() > 0 {
            Some(StartView { id: self.waiting[0].id, file: self.waiting[0].file })
        } else {
            None
        }
    }

    /// The pipeline after the job at place `at` has left and the first
    /// waiting job, if any, has taken the free place.
    pub open spec fn released(self, at: int) -> PipelineView {
        let rest = self.active.remove(at);
        if self.waiting.len() > 0 {
            PipelineView {
                active: rest.push(self.waiting[0].started()),
                waiting: self.waiting.drop_first(),
                ..self
            }
        } else {
            PipelineView { active: rest, ..self }
        }
    }

    /// The pipeline with the job at place `at` replaced.
    pub open spec fn moved(self, at: int, job: JobView) -> PipelineView {
        PipelineView { active: self.active.update(at, job), ..self }
    }

    /// One step of the job for entry `id`.
    ///
    /// A job moves on only by the event its stage waits for. `Failed` ends it
    /// at any stage and leaves its entry alone. The last step writes the
    /// transcript and the summary to the entry in one write, and ends the
    /// job whether or not the entry was still there. Whenever a job ends,
    /// the first waiting job takes its place.
    pub open spec fn stepped(self, entries: EntryStoreView, id: u32, event: JobEventView) -> StepView {
        let idle = StepView { pipeline: self, entries, progress: ProgressView::Ignored, next: None };
        if !has_job(self.active, id) {
            idle
        } else {
            let at = job_at(self.active, id);
            let job = self.active[at];
            match event {
                JobEventView::Failed => StepView {
                    pipeline: self.released(at),
                    entries,
                    progress: ProgressView::Stopped(job.cause()),
                    next: self.successor(),
                },
                JobEventView::Resampled => {
                    if job.stage == Stage::Resampling {
                        StepView {
                            pipeline: self.moved(at, JobView { stage: Stage::Transcribing, ..job }),
                            entries,
                            progress: ProgressView::Transcribe,
                            next: None,
                        }
                    } else {
                        idle
                    }
                },
                JobEventView::Transcribed(segments) => {
                    if job.stage == Stage::Transcribing {
                        let transcript = transcript_of(segments);
                        StepView {
                            pipeline: self.moved(
                                at,
                                JobView { stage: Stage::Summarizing, transcript, ..job },
                            ),
                            entries,
                            progress: ProgressView::Summarize(transcript),
                            next: None,
                        }
                    } else {
                        idle
                    }
                },
                JobEventView::Summarized(summary) => {
                    if job.stage == Stage::Summarizing {
                        let kept = holds(entries.rows, id);
                        StepView {
                            pipeline: self.released(at),
                            entries: if kept {
                                entries.updated(id, job.transcript, summary)
                            } else {
                                entries
                            },
                            progress: ProgressView::Persisted { kept },
                            next: self.successor(),
                        }
                    } else {
                        idle
                    }
                },
            }
        }
    }
}

/// Where no entry has two jobs, a job is found at its own place.
pub proof fn lemma_job_at(jobs: Seq<JobView>, i: int)
    requires
        one_each(jobs),
        0 <= i < jobs.len(),
    ensures
        has_job(jobs, jobs[i].id),
        job_at(jobs, jobs[i].id) == i,
{
    let id = jobs[i].id;
    assert(jobs[i].id == id);
    let k = job_at(jobs, id);
    if k < i {
        assert(jobs[k].id != jobs[i].id);
    } else if i < k {
        assert(jobs[i].id != jobs[k].id);
    }
}

/// What holds of the two parts of a well-formed pipeline.
pub proof fn lemma_parts(pipeline: PipelineView)
    requires
        pipeline.wf(),
    ensures
        one_each(pipeline.active),
        one_each(pipeline.waiting),
        forall|i: int, j: int|
            0 <= i < pipeline.active.len() && 0 <= j < pipeline.waiting.len()
                ==> pipeline.active[i].id != pipeline.waiting[j].id,
{
    let all = pipeline.active + pipeline.waiting;
    let n = pipeline.active.len() as int;
    assert forall|i: int, j: int| 0 <= i < j < pipeline.active.len() implies pipeline.active[i].id
        != pipeline.active[j].id by {
        assert(all[i].id != all[j].id);
    }
    assert forall|i: int, j: int| 0 <= i < j < pipeline.waiting.len() implies pipeline.waiting[i].id
        != pipeline.waiting[j].id by {
        assert(all[n + i].id != all[n + j].id);
        assert(all[n + i] == pipeline.waiting[i]);
        assert(all[n + j] == pipeline.waiting[j]);
    }
    assert forall|i: int, j: int|
        0 <= i < pipeline.active.len() && 0 <= j < pipeline.waiting.len() implies pipeline.active[i].id
        != pipeline.waiting[j].id by {
        assert(all[i].id != all[n + j].id);
        assert(all[n + j] == pipeline.waiting[j]);
    }
}

/// Putting a pipeline together from parts that share no entry.
pub proof fn lemma_whole(active: Seq<JobView>, waiting: Seq<JobView>)
    requires
        one_each(active),
        one_each(waiting),
        forall|i: int, j: int|
            0 <= i < active.len() && 0 <= j < waiting.len() ==> active[i].id != waiting[j].id,
    ensures
        one_each(active + waiting),
{
    let all = active + waiting;
    let n = active.len() as int;
    assert forall|i: int, j: int| 0 <= i < j < all.len() implies all[i].id != all[j].id by {
        if j < n {
            assert(active[i].id != active[j].id);
        } else if i < n {
            assert(active[i].id != waiting[j - n].id);
        } else {
            assert(waiting[i - n].id != waiting[j - n].id);
        }
    }
}

/// A job's leaving keeps the pipeline well formed.
pub proof fn lemma_released(pipeline: PipelineView, at: int)
    requires
        pipeline.wf(),
        0 <= at < pipeline.active.len(),
    ensures
        pipeline.released(at).wf(),
{
    lemma_parts(pipeline);
    let after = pipeline.released(at);
    let rest = pipeline.active.remove(at);
    assert(one_each(rest)) by {
        assert forall|i: int, j: int| 0 <= i < j < rest.len() implies rest[i].id != rest[j].id by {
            let a = if i < at { i } else { i + 1 };
            let b = if j < at { j } else { j + 1 };
            assert(pipeline.active[a].id != pipeline.active[b].id);
        }
    }
    assert forall|i: int| 0 <= i < rest.len() implies (#[trigger] rest[i]).at_work() by {
        let a = if i < at { i } else { i + 1 };
        assert(pipeline.active[a].at_work());
    }
    if pipeline.waiting.len() > 0 {
        let head = pipeline.waiting[0];
        assert(one_each(after.active)) by {
            assert forall|i: int, j: int| 0 <= i < j < after.active.len() implies after.active[i].id
                != after.active[j].id by {
                if j < rest.len() {
                    assert(rest[i].id != rest[j].id);
                } else {
                    let a = if i < at { i } else { i + 1 };
                    assert(pipeline.active[a].id != pipeline.waiting[0].id);
                }
            }
        }
        assert(one_each(after.waiting)) by {
            assert forall|i: int, j: int| 0 <= i < j < after.waiting.len() implies after.waiting[i].id
                != after.waiting[j].id by {
                assert(pipeline.waiting[i + 1].id != pipeline.waiting[j + 1].id);
            }
        }
        assert forall|i: int, j: int|
            0 <= i < after.active.len() && 0 <= j < after.waiting.len() implies after.active[i].id
            != after.waiting[j].id by {
            if i < rest.len() {
                let a = if i < at { i } else { i + 1 };
                assert(pipeline.active[a].id != pipeline.waiting[j + 1].id);
            } else {
                assert(pipeline.waiting[0].id != pipeline.waiting[j + 1].id);
            }
        }
        lemma_whole(after.active, after.waiting);
        assert forall|i: int| 0 <= i < after.active.len() implies (#[trigger] after.active[i]).at_work() by {
            if i < rest.len() {
                assert(rest[i].at_work());
            }
        }
        assert forall|i: int| 0 <= i < after.waiting.len() implies (#[trigger] after.waiting[i]).stage
            == Stage::Submitted by {
            assert(pipeline.waiting[i + 1].stage == Stage::Submitted);
        }
    } else {
        assert(after.active + after.waiting =~= rest);
    }
}

/// A job's moving to another working stage keeps the pipeline well formed.
pub proof fn lemma_moved(pipeline: PipelineView, at: int, job: JobView)
    requires
        pipeline.wf(),
        0 <= at < pipeline.active.len(),
        job.id == pipeline.active[at].id,
        job.at_work(),
    ensures
        pipeline.moved(at, job).wf(),
{
    lemma_parts(pipeline);
    let after = pipeline.moved(at, job);
    assert forall|i: int, j: int| 0 <= i < j < after.active.len() implies after.active[i].id
        != after.active[j].id by {
        assert(pipeline.active[i].id != pipeline.active[j].id);
    }
    assert forall|i: int, j: int|
        0 <= i < after.active.len() && 0 <= j < after.waiting.len() implies after.active[i].id
        != after.waiting[j].id by {
        assert(pipeline.active[i].id != pipeline.waiting[j].id);
    }
    lemma_whole(after.active, after.waiting);
    assert forall|i: int| 0 <= i < after.active.len() implies (#[trigger] after.active[i]).at_work() by {
        if i != at {
            assert(pipeline.active[i].at_work());
        }
    }
}

/// A submission keeps the pipeline well formed.
pub proof fn lemma_submitted(pipeline: PipelineView, id: u32, file: Seq<char>)
    requires
        pipeline.wf(),
    ensures
        pipeline.submitted(id, file).wf(),
{
    lemma_parts(pipeline);
    let after = pipeline.submitted(id, file);
    match pipeline.admission(id) {
        Admission::Duplicate => {},
        Admission::Started => {
            assert forall|i: int, j: int| 0 <= i < j < after.active.len() implies after.active[i].id
                != after.active[j].id by {
                if j < pipeline.active.len() {
                    assert(pipeline.active[i].id != pipeline.active[j].id);
                } else {
                    assert(pipeline.active[i].id != id);
                }
            }
            assert forall|i: int, j: int|
                0 <= i < after.active.len() && 0 <= j < after.waiting.len() implies after.active[i].id
                != after.waiting[j].id by {
                if i < pipeline.active.len() {
                    assert(pipeline.active[i].id != pipeline.waiting[j].id);
                } else {
                    assert(pipeline.waiting[j].id != id);
                }
            }
            lemma_whole(after.active, after.waiting);
            assert forall|i: int| 0 <= i < after.active.len() implies (
            #[trigger] after.active[i]).at_work() by {
                if i < pipeline.active.len() {
                    assert(pipeline.active[i].at_work());
                }
            }
        },
        Admission::Deferred => {
            assert forall|i: int, j: int| 0 <= i < j < after.waiting.len() implies after.waiting[i].id
                != after.waiting[j].id by {
                if j < pipeline.waiting.len() {
                    assert(pipeline.waiting[i].id != pipeline.waiting[j].id);
                } else {
                    assert(pipeline.waiting[i].id != id);
                }
            }
            assert forall|i: int, j: int|
                0 <= i < after.active.len() && 0 <= j < after.waiting.len() implies after.active[i].id
                != after.waiting[j].id by {
                if j < pipeline.waiting.len() {
                    assert(pipeline.active[i].id != pipeline.waiting[j].id);
                } else {
                    assert(pipeline.active[i].id != id);
                }
            }
            lemma_whole(after.active, after.waiting);
            assert forall|i: int| 0 <= i < after.waiting.len() implies (
            #[trigger] after.waiting[i]).stage == Stage::Submitted by {
                if i < pipeline.waiting.len() {
                    assert(pipeline.waiting[i].stage == Stage::Submitted);
                }
            }
        },
    }
}

/// The values of a sequence of jobs, element by element.
spec fn job_views(jobs: Seq<Job>) -> Seq<JobView> {
    Seq::new(jobs.len(), |i: int| jobs[i]@)
}

fn locate(jobs: &Vec<Job>, id: u32) -> (found: Option<usize>)
    ensures
        match found {
            Some(at) => at < jobs.len() && job_views(jobs@)[at as int].id == id,
            None => !has_job(job_views(jobs@), id),
        },
{
    let mut i: usize = 0;
    while i < jobs.len()
        invariant
            i <= jobs.len(),
            forall|k: int| 0 <= k < i ==> job_views(jobs@)[k].id != id,
        decreases jobs.len() - i,
    {
        if jobs[i].id == id {
            return Some(i);
        }
        i = i + 1;
    }
    None
}

/// The jobs of the remote service, with a bound on how many are at work at
/// once.
pub struct JobPipeline {
    limit: usize,
    active: Vec<Job>,
    waiting: Vec<Job>,
}

impl View for JobPipeline {
    type V = PipelineView;

    closed spec fn view(&self) -> PipelineView {
        PipelineView {
            limit: self.limit as nat,
            active: job_views(self.active@),
            waiting: job_views(self.waiting@),
        }
    }
}

impl JobPipeline {
    /// The invariant every pipeline keeps.
    pub open spec fn wf(&self) -> bool {
        self@.wf()
    }

    /// A pipeline without jobs in which at most `limit` jobs are at work at
    /// once. With a limit of 0 every job waits.
    pub fn new(limit: usize) -> (pipeline: JobPipeline)
        ensures
            pipeline.wf(),
            pipeline@.limit == limit,
            pipeline@.active == Seq::<JobView>::empty(),
            pipeline@.waiting == Seq::<JobView>::empty(),
    {
        let pipeline = JobPipeline { limit, active: Vec::new(), waiting: Vec::new() };
        proof {
            assert(pipeline@.active =~= Seq::<JobView>::empty());
            assert(pipeline@.waiting =~= Seq::<JobView>::empty());
        }
        pipeline
    }

    /// How many jobs are at work.
    pub fn active(&self) -> (n: usize)
        ensures
            n == self@.active.len(),
    {
        self.active.len()
    }

    /// How many jobs wait for a place.
    pub fn waiting(&self) -> (n: usize)
        ensures
            n == self@.waiting.len(),
    {
        self.waiting.len()
    }

    /// The stage of the job for entry `id`; `None` where the entry has no job.
    pub fn stage(&self, id: u32) -> (stage: Option<Stage>)
        requires
            self.wf(),
        ensures
            stage == if has_job(self@.active, id) {
                Some(self@.active[job_at(self@.active, id)].stage)
            } else if has_job(self@.waiting, id) {
                Some(Stage::Submitted)
            } else {
                None
            },
    {
        proof {
            lemma_parts(self@);
        }
        match locate(&self.active, id) {
            Some(at) => {
                proof {
                    lemma_job_at(self@.active, at as int);
                }
                Some(self.active[at].stage)
            },
            None => match locate(&self.waiting, id) {
                Some(at) => {
                    proof {
                        assert(self@.waiting[at as int].id == id);
                    }
                    Some(Stage::Submitted)
                },
                None => None,
            },
        }
    }

    /// Takes up a job for entry `id` and its audio file, without waiting for
    /// any work to be done.
    ///
    /// An entry has at most one job: a second submission for it changes
    /// nothing. A job gets a place at once where one is free, and waits its
    /// turn otherwise. A job that has ended, with or without results, is
    /// forgotten, so an entry whose job stopped can be submitted again.
    pub fn submit(&mut self, id: u32, file: String) -> (admission: Admission)
        requires
            old(self).wf(),
        ensures
            final(self).wf(),
            admission == old(self)@.admission(id),
            final(self)@ == old(self)@.submitted(id, file@),
    {
        proof {
            lemma_submitted(self@, id, file@);
        }
        let at_work = locate(&self.active, id);
        let in_line = locate(&self.waiting, id);
        if at_work.is_some() || in_line.is_some() {
            proof {
                if at_work is Some {
                    assert(self@.active[at_work->0 as int].id == id);
                } else {
                    assert(self@.waiting[in_line->0 as int].id == id);
                }
            }
            return Admission::Duplicate;
        }
        if self.active.len() < self.limit {
            let ghost before = self@.active;
            let job = Job { id, file, stage: Stage::Resampling, transcript: String::new() };
            self.active.push(job);
            proof {
                assert(self@.active =~= before.push(JobView::accepted(id, file@).started()));
            }
            Admission::Started
        } else {
            let ghost before = self@.waiting;
            let job = Job { id, file, stage: Stage::Submitted, transcript: String::new() };
            self.waiting.push(job);
            proof {
                assert(self@.waiting =~= before.push(JobView::accepted(id, file@)));
            }
            Admission::Deferred
        }
    }

    /// Takes the job at place `at` out and gives its place to the first
    /// waiting job, if there is one.
    fn release(&mut self, at: usize) -> (out: (Job, Option<Start>))
        requires
            old(self).wf(),
            at < old(self)@.active.len(),
        ensures
            final(self).wf(),
            final(self)@ == old(self)@.released(at as int),
            out.0@ == old(self)@.active[at as int],
            start_view(out.1) == old(self)@.successor(),
    {
        proof {
            lemma_released(self@, at as int);
        }
        let ghost before = self@;
        let job = self.active.remove(at);
        proof {
            assert(self@.active =~= before.active.remove(at as int));
        }
        if self.waiting.len() > 0 {
            let head = self.waiting.remove(0);
            let start = Start { id: head.id, file: head.file.clone() };
            let started = Job {
                id: head.id,
                file: head.file,
                stage: Stage::Resampling,
                transcript: head.transcript,
            };
            proof {
                assert(head@ == before.waiting[0]);
                assert(started@ == before.waiting[0].started());
            }
            self.active.push(started);
            proof {
                assert(self@.waiting =~= before.waiting.drop_first());
                assert(self@.active =~= before.active.remove(at as int).push(
                    before.waiting[0].started(),
                ));
            }
            (job, Some(start))
        } else {
            (job, None)
        }
    }

    /// Moves the job for entry `id` one step on, as `event` reports.
    ///
    /// The result says what the driver does next for this job, and names the
    /// waiting job, if any, that took the place of a job that ended. The
    /// entry store changes in one case only: when the summary arrives, the
    /// entry gets its transcript and its summary in one write. No other job
    /// and no other entry is touched.
    pub fn step(&mut self, entries: &mut EntryStore, id: u32, event: JobEvent) -> (out: Step)
        requires
            old(self).wf(),
            old(entries).wf(),
        ensures
            final(self).wf(),
            final(entries).wf(),
            final(self)@ == old(self)@.stepped(old(entries)@, id, event@).pipeline,
            final(entries)@ == old(self)@.stepped(old(entries)@, id, event@).entries,
            out.progress@ == old(self)@.stepped(old(entries)@, id, event@).progress,
            start_view(out.next) == old(self)@.stepped(old(entries)@, id, event@).next,
    {
        proof {
            lemma_parts(self@);
        }
        let at = match locate(&self.active, id) {
            Some(at) => at,
            None => {
                return Step { progress: Progress::Ignored, next: None };
            },
        };
        proof {
            lemma_job_at(self@.active, at as int);
        }
        let ghost before = self@;
        let ghost job = before.active[at as int];
        let stage = self.active[at].stage;
        match event {
            JobEvent::Failed => {
                let cause = match stage {
                    Stage::Transcribing => PipelineCause::Transcription,
                    Stage::Summarizing => PipelineCause::Summary,
                    _ => PipelineCause::Audio,
                };
                let (_, next) = self.release(at);
                Step { progress: Progress::Stopped(cause), next }
            },
            JobEvent::Resampled => {
                if stage == Stage::Resampling {
                    proof {
                        lemma_moved(before, at as int, JobView { stage: Stage::Transcribing, ..job });
                    }
                    self.active[at].stage = Stage::Transcribing;
                    proof {
                        assert(self@.active =~= before.active.update(
                            at as int,
                            JobView { stage: Stage::Transcribing, ..job },
                        ));
                    }
                    Step { progress: Progress::Transcribe, next: None }
                } else {
                    Step { progress: Progress::Ignored, next: None }
                }
            },
            JobEvent::Transcribed(segments) => {
                if stage == Stage::Transcribing {
                    let transcript = render(&segments);
                    proof {
                        lemma_moved(
                            before,
                            at as int,
                            JobView { stage: Stage::Summarizing, transcript: transcript@, ..job },
                        );
                    }
                    self.active[at].transcript = transcript.clone();
                    self.active[at].stage = Stage::Summarizing;
                    proof {
                        assert(self@.active =~= before.active.update(
                            at as int,
                            JobView { stage: Stage::Summarizing, transcript: transcript@, ..job },
                        ));
                    }
                    Step { progress: Progress::Summarize(transcript), next: None }
                } else {
                    Step { progress: Progress::Ignored, next: None }
                }
            },
            JobEvent::Summarized(summary) => {
                if stage == Stage::Summarizing {
                    let (done, next) = self.release(at);
                    let kept = entries.update_result(id, done.transcript, summary).is_ok();
                    Step { progress: Progress::Persisted { kept }, next }
                } else {
                    Step { progress: Progress::Ignored, next: None }
                }
            },
        }
    }
}

/// Jobs do not stand in each other's way: a step of the job for one entry
/// leaves every other job at work exactly as it was, and leaves every other
/// entry exactly as it was.
pub proof fn lemma_jobs_independent(
    pipeline: PipelineView,
    entries: EntryStoreView,
    id: u32,
    event: JobEventView,
    other: u32,
)
    requires
        pipeline.wf(),
        entries.wf(),
        other != id,
    ensures
        ({
            let after = pipeline.stepped(entries, id, event);
            &&& has_job(pipeline.active, other) ==> {
                &&& has_job(after.pipeline.active, other)
                &&& after.pipeline.active[job_at(after.pipeline.active, other)]
                    == pipeline.active[job_at(pipeline.active, other)]
            }
            &&& holds(entries.rows, other) ==> {
                &&& holds(after.entries.rows, other)
                &&& after.entries.rows[place_of(after.entries.rows, other)]
                    == entries.rows[place_of(entries.rows, other)]
            }
            &&& after.entries.rows.len() == entries.rows.len()
        }),
{
    let after = pipeline.stepped(entries, id, event);
    lemma_parts(pipeline);
    if has_job(pipeline.active, id) {
        let at = job_at(pipeline.active, id);
        lemma_released(pipeline, at);
        lemma_parts(pipeline.released(at));
        if has_job(pipeline.active, other) {
            let k = job_at(pipeline.active, other);
            let job = pipeline.active[k];
            if after.pipeline == pipeline.released(at) {
                let moved = if k < at { k } else { k - 1 };
                assert(after.pipeline.active[moved] == job);
                lemma_job_at(after.pipeline.active, moved);
            } else if after.pipeline != pipeline {
                assert(after.pipeline.active[k] == job);
                assert(after.pipeline.active.len() == pipeline.active.len());
                assert forall|i: int, j: int| 0 <= i < j < after.pipeline.active.len() implies
                    after.pipeline.active[i].id != after.pipeline.active[j].id by {
                    assert(pipeline.active[i].id != pipeline.active[j].id);
                }
                lemma_job_at(after.pipeline.active, k);
            }
        }
        if holds(entries.rows, other) && after.entries != entries {
            let here = place_of(entries.rows, id);
            let there = place_of(entries.rows, other);
            assert(after.entries.rows[there] == entries.rows[there]);
            assert forall|i: int, j: int| 0 <= i < j < after.entries.rows.len() implies
                after.entries.rows[i].id < after.entries.rows[j].id by {
                assert(entries.rows[i].id < entries.rows[j].id);
            }
            assert forall|i: int| 0 <= i < after.entries.rows.len() implies 1
                <= #[trigger] after.entries.rows[i].id <= after.entries.issued by {
                assert(1 <= entries.rows[i].id <= entries.issued);
            }
            lemma_place(after.entries, there);
        }
    }
}

/// Results show as soon as they are there: when the summary of one job
/// arrives, its entry holds transcript and summary from that step on, while
/// any other job that was at work is still at work.
pub proof fn lemma_first_done_shows(
    pipeline: PipelineView,
    entries: EntryStoreView,
    id: u32,
    summary: Seq<char>,
    other: u32,
)
    requires
        pipeline.wf(),
        entries.wf(),
        other != id,
        has_job(pipeline.active, id),
        pipeline.active[job_at(pipeline.active, id)].stage == Stage::Summarizing,
        holds(entries.rows, id),
        has_job(pipeline.active, other),
    ensures
        ({
            let job = pipeline.active[job_at(pipeline.active, id)];
            let after = pipeline.stepped(entries, id, JobEventView::Summarized(summary));
            let shown = after.entries.notes()[place_of(entries.rows, id)];
            &&& after.progress == ProgressView::Persisted { kept: true }
            &&& !has_job(after.pipeline.active, id)
            &&& shown.transcript == Some(job.transcript)
            &&& shown.summary == Some(summary)
            &&& has_job(after.pipeline.active, other)
        }),
{
    let event = JobEventView::Summarized(summary);
    let after = pipeline.stepped(entries, id, event);
    let at = job_at(pipeline.active, id);
    lemma_jobs_independent(pipeline, entries, id, event, other);
    lemma_parts(pipeline);
    lemma_released(pipeline, at);
    if has_job(after.pipeline.active, id) {
        let k = job_at(after.pipeline.active, id);
        let rest = pipeline.active.remove(at);
        if k < rest.len() {
            let from = if k < at { k } else { k + 1 };
            assert(pipeline.active[from].id == id);
            lemma_job_at(pipeline.active, from);
        } else {
            assert(pipeline.waiting[0].id == id);
            assert(pipeline.active[at].id != pipeline.waiting[0].id);
        }
    }
}

} // verus!
