//! Voice notes: the recording lifecycle on the device, the batch hand-over to
//! the remote service, and the remote pipeline that turns audio into a
//! transcript and a summary.
//!
//! The library decides and keeps the books; it does no input or output. Where
//! work has to be done outside (writing a row, removing a file, sending a
//! request, running an engine) a function either fixes what is to be done or
//! takes the report of how it went.
//!
//! On the device: [`store`] is the table of recordings, [`bus`] carries its
//! changes to listeners, [`listing`] is what a listener holds, [`sync`] plans
//! and settles batch uploads, and [`device`] ties them together. [`history`]
//! proves that the table, and every listener that follows it, reflects the
//! net effect of any run of operations.
//!
//! On the remote service: [`ingest`] takes the parts of an upload, [`entry`]
//! is the table of entries, [`pipeline`] moves each job from audio to results
//! under a bound on the jobs at work, [`resample`] places output samples in
//! the input, [`transcript`] joins segments into a transcript, and
//! [`summary`] frames the exchange with the summarization engine.

pub mod bus;
pub mod device;
pub mod entry;
pub mod error;
pub mod history;
pub mod ingest;
pub mod listing;
pub mod pipeline;
pub mod prompt;
pub mod recording;
pub mod resample;
pub mod store;
pub mod summary;
pub mod sync;
pub mod table;
pub mod transcript;
