use notes::bus::EventBus;
use notes::recording::{Event, Recording, Topic};
use notes::store::RecordingStore;

fn rec(id: u32, file: &str, name: &str, uploaded: bool) -> Recording {
    Recording { id, file: file.to_string(), name: name.to_string(), uploaded }
}

fn drain(bus: &mut EventBus, handle: usize) -> Vec<Event> {
    let mut out = Vec::new();
    while let Some(event) = bus.deliver(handle) {
        out.push(event);
    }
    out
}

#[test]
fn subscribe_hands_out_handles_in_order() {
    let mut bus = EventBus::new();
    assert_eq!(bus.len(), 0);
    assert_eq!(bus.subscribe(), 0);
    assert_eq!(bus.subscribe(), 1);
    assert_eq!(bus.len(), 2);
    assert_eq!(bus.pending(0), 0);
    assert_eq!(bus.pending(5), 0);
}

#[test]
fn listen_knows_its_handles() {
    let mut bus = EventBus::new();
    let a = bus.subscribe();
    assert!(bus.listen(a, Topic::File));
    assert!(!bus.listen(a + 1, Topic::File));
}

#[test]
fn publish_reaches_only_registered_callbacks() {
    let mut bus = EventBus::new();
    let files = bus.subscribe();
    let deletes = bus.subscribe();
    let nobody = bus.subscribe();
    bus.listen(files, Topic::File);
    bus.listen(deletes, Topic::Delete);
    bus.listen(nobody, Topic::Ready);
    bus.publish(&Event::File(rec(1, "a.wav", "A", false)));
    bus.publish(&Event::Delete(1));
    assert_eq!(drain(&mut bus, files), vec![Event::File(rec(1, "a.wav", "A", false))]);
    assert_eq!(drain(&mut bus, deletes), vec![Event::Delete(1)]);
    assert_eq!(drain(&mut bus, nobody), vec![]);
}

#[test]
fn delivery_is_first_in_first_out() {
    let mut bus = EventBus::new();
    let a = bus.subscribe();
    bus.listen(a, Topic::File);
    bus.listen(a, Topic::Delete);
    bus.publish(&Event::Delete(3));
    bus.publish(&Event::File(rec(4, "d.wav", "D", false)));
    bus.publish(&Event::Delete(4));
    assert_eq!(bus.pending(a), 3);
    assert_eq!(bus.deliver(a), Some(Event::Delete(3)));
    assert_eq!(bus.pending(a), 2);
    assert_eq!(bus.deliver(a), Some(Event::File(rec(4, "d.wav", "D", false))));
    assert_eq!(bus.deliver(a), Some(Event::Delete(4)));
    assert_eq!(bus.deliver(a), None);
    assert_eq!(bus.deliver(17), None);
}

#[test]
fn ready_replays_five_recordings_before_any_live_event() {
    let mut store = RecordingStore::new();
    for n in 1..=5u32 {
        store.create(format!("{n}.wav"), format!("n{n}"), true).unwrap();
    }
    let mut bus = EventBus::new();
    let ui = bus.subscribe();
    bus.listen(ui, Topic::File);
    bus.listen(ui, Topic::Delete);
    assert!(bus.ready(ui, &store));
    let made = store.create("6.wav".to_string(), "n6".to_string(), true).unwrap();
    bus.publish(&Event::File(made));
    let got = drain(&mut bus, ui);
    assert_eq!(got.len(), 6);
    let ids: Vec<u32> = got
        .iter()
        .map(|e| match e {
            Event::File(r) => r.id,
            Event::Delete(_) => panic!("no delete was published"),
        })
        .collect();
    assert_eq!(ids, vec![1, 2, 3, 4, 5, 6]);
    assert_eq!(got[0], Event::File(rec(1, "1.wav", "n1", false)));
}

#[test]
fn ready_before_registration_loses_the_replay() {
    let mut store = RecordingStore::new();
    store.create("a.wav".to_string(), "A".to_string(), true).unwrap();
    let mut bus = EventBus::new();
    let ui = bus.subscribe();
    assert!(bus.ready(ui, &store));
    bus.listen(ui, Topic::File);
    assert_eq!(bus.pending(ui), 0);
}

#[test]
fn ready_replays_to_the_one_that_signalled_only() {
    let mut store = RecordingStore::new();
    store.create("a.wav".to_string(), "A".to_string(), true).unwrap();
    let mut bus = EventBus::new();
    let first = bus.subscribe();
    let second = bus.subscribe();
    bus.listen(first, Topic::File);
    bus.listen(second, Topic::File);
    assert!(bus.ready(second, &store));
    assert!(!bus.ready(9, &store));
    assert_eq!(bus.pending(first), 0);
    assert_eq!(bus.pending(second), 1);
}

#[test]
fn replay_comes_behind_what_was_queued_already() {
    let mut store = RecordingStore::new();
    store.create("a.wav".to_string(), "A".to_string(), true).unwrap();
    let mut bus = EventBus::new();
    let ui = bus.subscribe();
    bus.listen(ui, Topic::File);
    bus.listen(ui, Topic::Delete);
    bus.publish(&Event::Delete(8));
    bus.ready(ui, &store);
    assert_eq!(
        drain(&mut bus, ui),
        vec![Event::Delete(8), Event::File(rec(1, "a.wav", "A", false))]
    );
}
