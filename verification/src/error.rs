//! Why an operation failed.

use vstd::prelude::*;
use vstd::string::StringExecFns;
use crate::transcript::{decimal, push_decimal};

verus! {

/// What went wrong while a batch travelled to the remote service.
#[derive(Clone, Copy, Debug, PartialEq, Eq, Structural)]
pub enum SyncCause {
    /// The request did not reach the service, or no answer came back.
    Network,
    /// The service answered with this status, which is outside 200..=299.
    Status(u16),
    /// The audio file of a recording in the batch could not be read.
    MissingFile,
}

/// Which step of a job failed.
#[derive(Clone, Copy, Debug, PartialEq, Eq, Structural)]
pub enum PipelineCause {
    /// The audio could not be decoded or resampled.
    Audio,
    /// The speech-to-text engine failed.
    Transcription,
    /// The summarization engine failed, or its answer held no message text.
    Summary,
}

/// The errors of this library.
#[derive(Clone, Copy, Debug, PartialEq, Eq, Structural)]
pub enum Error {
    /// The id that was named is not in the store.
    NotFound,
    /// The persistence layer failed.
    Storage,
    /// A batch upload failed; nothing was marked as uploaded.
    Sync(SyncCause),
    /// A step of a job failed; the entry keeps the state it had.
    Pipeline(PipelineCause),
}

impl SyncCause {
    /// What a user is told of the cause.
    pub open spec fn text(self) -> Seq<char> {
        match self {
            SyncCause::Network => "the remote service could not be reached"@,
            SyncCause::Status(status) => "the remote service answered with status "@ + decimal(
                status as int,
            ),
            SyncCause::MissingFile => "an audio file of the batch could not be read"@,
        }
    }
}

impl PipelineCause {
    /// What a user is told of the cause.
    pub open spec fn text(self) -> Seq<char> {
        match self {
            PipelineCause::Audio => "the audio could not be prepared"@,
            PipelineCause::Transcription => "the speech-to-text engine failed"@,
            PipelineCause::Summary => "the summarization engine failed"@,
        }
    }
}

impl Error {
    /// What a user is told of the error.
    pub open spec fn text(self) -> Seq<char> {
        match self {
            Error::NotFound => "not found: nothing is stored under this id"@,
            Error::Storage => "storage failed: nothing was changed"@,
            Error::Sync(cause) => "upload failed, nothing was marked as uploaded: "@ + cause.text(),
            Error::Pipeline(cause) => "job stopped: "@ + cause.text(),
        }
    }

    /// The error in words, for whoever has to show it.
    pub fn message(&self) -> (words: String)
        ensures
            words@ == self.text(),
    {
        match self {
            Error::NotFound => String::from_str("not found: nothing is stored under this id"),
            Error::Storage => String::from_str("storage failed: nothing was changed"),
            Error::Sync(cause) => {
                let mut words = String::from_str("upload failed, nothing was marked as uploaded: ");
                match cause {
                    SyncCause::Network => words.append("the remote service could not be reached"),
                    SyncCause::Status(status) => {
                        words.append("the remote service answered with status ");
                        push_decimal(&mut words, *status as i64);
                    },
                    SyncCause::MissingFile => words.append(
                        "an audio file of the batch could not be read",
                    ),
                }
                words
            },
            Error::Pipeline(cause) => {
                let mut words = String::from_str("job stopped: ");
                match cause {
                    PipelineCause::Audio => words.append("the audio could not be prepared"),
                    PipelineCause::Transcription => words.append("the speech-to-text engine failed"),
                    PipelineCause::Summary => words.append("the summarization engine failed"),
                }
                words
            },
        }
    }
}

} // verus!
