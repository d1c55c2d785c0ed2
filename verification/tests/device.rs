use notes::device::Device;
use notes::error::{Error, SyncCause};
use notes::listing::Listing;
use notes::recording::{Event, Recording, Topic};
use notes::store::RecordingStore;
use notes::sync::{Part, Reply};

fn rec(id: u32, file: &str, name: &str, uploaded: bool) -> Recording {
    Recording { id, file: file.to_string(), name: name.to_string(), uploaded }
}

fn drain(device: &mut Device, handle: usize) -> Vec<Event> {
    let mut out = Vec::new();
    while let Some(event) = device.deliver(handle) {
        out.push(event);
    }
    out
}

fn listener(device: &mut Device) -> usize {
    let handle = device.subscribe();
    assert!(device.listen(handle, Topic::File));
    assert!(device.listen(handle, Topic::Delete));
    assert!(device.ready(handle));
    handle
}

#[test]
fn new_device_is_empty() {
    let device = Device::new();
    assert_eq!(device.store().len(), 0);
    assert_eq!(device.bus().len(), 0);
    assert_eq!(device.get_url(), "");
    assert!(!device.is_uploading(1));
}

#[test]
fn meeting_becomes_standup_and_is_uploaded() {
    let mut device = Device::new();
    let made = device.create("a.wav".to_string(), "Meeting".to_string(), true).unwrap();
    assert_eq!(made.id, 1);
    assert!(!made.uploaded);
    device.rename(1, "Standup".to_string()).unwrap();
    assert_eq!(device.store().get(1).unwrap().name, "Standup");
    let request = device.begin_upload("http://remote:8080".to_string(), &vec![1]).unwrap();
    assert_eq!(request.target, "http://remote:8080/upload");
    assert_eq!(request.parts, vec![Part { name: "Standup".to_string(), file: "a.wav".to_string() }]);
    assert_eq!(device.finish_upload(&vec![1], Reply::Status(200)), Ok(()));
    assert_eq!(device.store().get(1), Some(&rec(1, "a.wav", "Standup", true)));
    assert_eq!(device.get_url(), "http://remote:8080");
}

#[test]
fn every_change_is_told_to_the_listeners() {
    let mut device = Device::new();
    let ui = listener(&mut device);
    device.create("a.wav".to_string(), "A".to_string(), true).unwrap();
    device.rename(1, "A2".to_string()).unwrap();
    device.delete(1, true).unwrap();
    assert_eq!(
        drain(&mut device, ui),
        vec![
            Event::File(rec(1, "a.wav", "A", false)),
            Event::File(rec(1, "a.wav", "A2", false)),
            Event::Delete(1),
        ]
    );
}

#[test]
fn nothing_is_told_of_what_failed() {
    let mut device = Device::new();
    let ui = listener(&mut device);
    assert_eq!(device.create("a.wav".to_string(), "A".to_string(), false), Err(Error::Storage));
    assert_eq!(device.rename(1, "X".to_string()), Err(Error::NotFound));
    assert_eq!(device.delete(1, true), Err(Error::NotFound));
    device.create("a.wav".to_string(), "A".to_string(), true).unwrap();
    assert_eq!(device.delete(1, false), Err(Error::Storage));
    assert_eq!(drain(&mut device, ui), vec![Event::File(rec(1, "a.wav", "A", false))]);
    assert_eq!(device.store().len(), 1);
}

#[test]
fn delete_with_failed_file_removal_leaves_the_store_unchanged() {
    let mut device = Device::new();
    device.create("a.wav".to_string(), "A".to_string(), true).unwrap();
    device.create("b.wav".to_string(), "B".to_string(), true).unwrap();
    let before = device.store().list();
    assert_eq!(device.delete(1, false), Err(Error::Storage));
    assert_eq!(device.store().list(), before);
}

#[test]
fn a_recording_is_not_deleted_while_its_upload_is_under_way() {
    let mut device = Device::new();
    device.create("a.wav".to_string(), "A".to_string(), true).unwrap();
    device.create("b.wav".to_string(), "B".to_string(), true).unwrap();
    assert_eq!(device.removable(1), Ok("a.wav".to_string()));
    device.begin_upload("http://remote".to_string(), &vec![1]).unwrap();
    assert!(device.is_uploading(1));
    assert!(!device.is_uploading(2));
    assert_eq!(device.removable(1), Err(Error::Storage));
    assert_eq!(device.removable(2), Ok("b.wav".to_string()));
    assert_eq!(device.removable(3), Err(Error::NotFound));
    assert_eq!(device.delete(1, true), Err(Error::Storage));
    assert_eq!(device.store().len(), 2);
    assert_eq!(device.delete(2, true), Ok(()));
    device.finish_upload(&vec![1], Reply::Status(204)).unwrap();
    assert!(!device.is_uploading(1));
    assert_eq!(device.removable(1), Ok("a.wav".to_string()));
    assert_eq!(device.delete(1, true), Ok(()));
    assert_eq!(device.store().len(), 0);
}

#[test]
fn two_uploads_of_one_recording_hold_it_until_both_are_over() {
    let mut device = Device::new();
    device.create("a.wav".to_string(), "A".to_string(), true).unwrap();
    device.begin_upload("http://remote".to_string(), &vec![1]).unwrap();
    device.begin_upload("http://remote".to_string(), &vec![1]).unwrap();
    device.finish_upload(&vec![1], Reply::Unreachable).unwrap_err();
    assert!(device.is_uploading(1));
    assert!(!device.store().get(1).unwrap().uploaded);
    device.finish_upload(&vec![1], Reply::Status(200)).unwrap();
    assert!(!device.is_uploading(1));
    assert!(device.store().get(1).unwrap().uploaded);
}

#[test]
fn a_batch_with_an_unknown_id_starts_no_upload_but_keeps_the_address() {
    let mut device = Device::new();
    device.create("a.wav".to_string(), "A".to_string(), true).unwrap();
    assert_eq!(device.begin_upload("http://x".to_string(), &vec![1, 2]), Err(Error::NotFound));
    assert!(!device.is_uploading(1));
    assert_eq!(device.get_url(), "http://x");
}

#[test]
fn a_refused_batch_marks_nothing() {
    let mut device = Device::new();
    for n in ["a", "b", "c"] {
        device.create(format!("{n}.wav"), n.to_string(), true).unwrap();
    }
    let ids = vec![1, 2, 3];
    device.begin_upload("http://remote".to_string(), &ids).unwrap();
    assert_eq!(
        device.finish_upload(&ids, Reply::Status(502)),
        Err(Error::Sync(SyncCause::Status(502)))
    );
    assert!(device.store().rows().iter().all(|r| !r.uploaded));
    assert!(!device.is_uploading(2));
}

#[test]
fn a_listener_that_joins_late_catches_up() {
    let mut device = Device::new();
    device.create("a.wav".to_string(), "A".to_string(), true).unwrap();
    device.create("b.wav".to_string(), "B".to_string(), true).unwrap();
    device.delete(1, true).unwrap();
    let ui = listener(&mut device);
    device.create("c.wav".to_string(), "C".to_string(), true).unwrap();
    device.rename(2, "B2".to_string()).unwrap();
    let mut listing = Listing::new();
    for event in drain(&mut device, ui) {
        listing.apply(event);
    }
    assert_eq!(listing.newest_first(), device.store().list());
    assert_eq!(listing.len(), 2);
}

#[test]
fn resume_takes_up_store_and_address() {
    let store = RecordingStore::restore(vec![rec(3, "c.wav", "C", true)], 3).unwrap();
    let mut device = Device::resume(store, "http://kept".to_string());
    assert_eq!(device.get_url(), "http://kept");
    assert_eq!(device.create("d.wav".to_string(), "D".to_string(), true).unwrap().id, 4);
    let ui = listener(&mut device);
    assert_eq!(drain(&mut device, ui).len(), 2);
    assert!(!device.ready(ui + 1));
    assert!(!device.listen(ui + 1, Topic::File));
}
