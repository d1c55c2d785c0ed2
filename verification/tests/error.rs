use notes::error::{Error, PipelineCause, SyncCause};

#[test]
fn every_error_has_its_words() {
    assert_eq!(Error::NotFound.message(), "not found: nothing is stored under this id");
    assert_eq!(Error::Storage.message(), "storage failed: nothing was changed");
    assert_eq!(
        Error::Sync(SyncCause::Network).message(),
        "upload failed, nothing was marked as uploaded: the remote service could not be reached"
    );
    assert_eq!(
        Error::Sync(SyncCause::Status(503)).message(),
        "upload failed, nothing was marked as uploaded: the remote service answered with status 503"
    );
    assert_eq!(
        Error::Sync(SyncCause::Status(0)).message(),
        "upload failed, nothing was marked as uploaded: the remote service answered with status 0"
    );
    assert_eq!(
        Error::Sync(SyncCause::MissingFile).message(),
        "upload failed, nothing was marked as uploaded: an audio file of the batch could not be read"
    );
    assert_eq!(
        Error::Pipeline(PipelineCause::Audio).message(),
        "job stopped: the audio could not be prepared"
    );
    assert_eq!(
        Error::Pipeline(PipelineCause::Transcription).message(),
        "job stopped: the speech-to-text engine failed"
    );
    assert_eq!(
        Error::Pipeline(PipelineCause::Summary).message(),
        "job stopped: the summarization engine failed"
    );
}
