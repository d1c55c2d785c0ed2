use notes::listing::Listing;
use notes::recording::{Event, Recording, Topic};
use notes::store::RecordingStore;
use notes::table::{find, lower_bound};

fn rec(id: u32, file: &str, name: &str, uploaded: bool) -> Recording {
    Recording { id, file: file.to_string(), name: name.to_string(), uploaded }
}

#[test]
fn new_listing_holds_nothing() {
    let listing = Listing::new();
    assert_eq!(listing.len(), 0);
    assert!(listing.newest_first().is_empty());
    assert_eq!(listing.get(1), None);
}

#[test]
fn upsert_inserts_in_any_order_and_shows_newest_first() {
    let mut listing = Listing::new();
    listing.upsert(rec(2, "b.wav", "B", false));
    listing.upsert(rec(5, "e.wav", "E", false));
    listing.upsert(rec(1, "a.wav", "A", true));
    listing.upsert(rec(3, "c.wav", "C", false));
    let ids: Vec<u32> = listing.newest_first().iter().map(|r| r.id).collect();
    assert_eq!(ids, vec![5, 3, 2, 1]);
    assert_eq!(listing.len(), 4);
}

#[test]
fn upsert_replaces_the_whole_recording() {
    let mut listing = Listing::new();
    listing.upsert(rec(2, "b.wav", "B", false));
    listing.upsert(rec(2, "b2.wav", "B2", true));
    assert_eq!(listing.len(), 1);
    assert_eq!(listing.get(2), Some(&rec(2, "b2.wav", "B2", true)));
}

#[test]
fn remove_takes_the_id_out() {
    let mut listing = Listing::new();
    listing.upsert(rec(1, "a.wav", "A", false));
    listing.upsert(rec(2, "b.wav", "B", false));
    listing.remove(1);
    assert_eq!(listing.get(1), None);
    assert_eq!(listing.newest_first(), vec![rec(2, "b.wav", "B", false)]);
    listing.remove(9);
    assert_eq!(listing.len(), 1);
}

#[test]
fn apply_follows_the_event() {
    let mut listing = Listing::new();
    listing.apply(Event::File(rec(4, "d.wav", "D", false)));
    listing.apply(Event::File(rec(4, "d.wav", "D again", false)));
    listing.apply(Event::Delete(7));
    assert_eq!(listing.newest_first(), vec![rec(4, "d.wav", "D again", false)]);
    listing.apply(Event::Delete(4));
    assert_eq!(listing.len(), 0);
}

#[test]
fn listener_that_replays_and_follows_holds_what_the_store_holds() {
    let mut store = RecordingStore::new();
    store.create("a.wav".to_string(), "A".to_string(), true).unwrap();
    store.create("b.wav".to_string(), "B".to_string(), true).unwrap();
    let mut listing = Listing::new();
    for event in store.replay() {
        listing.apply(event);
    }
    let made = store.create("c.wav".to_string(), "C".to_string(), true).unwrap();
    listing.apply(Event::File(made));
    let renamed = store.rename(1, "A2".to_string()).unwrap();
    listing.apply(Event::File(renamed));
    store.delete(2, true).unwrap();
    listing.apply(Event::Delete(2));
    assert_eq!(listing.newest_first(), store.list());
}

#[test]
fn lower_bound_and_find_on_ordered_rows() {
    let rows = vec![rec(2, "b", "B", false), rec(4, "d", "D", false), rec(9, "i", "I", false)];
    assert_eq!(lower_bound(&rows, 0), 0);
    assert_eq!(lower_bound(&rows, 2), 0);
    assert_eq!(lower_bound(&rows, 3), 1);
    assert_eq!(lower_bound(&rows, 4), 1);
    assert_eq!(lower_bound(&rows, 9), 2);
    assert_eq!(lower_bound(&rows, 10), 3);
    assert_eq!(find(&rows, 4), Some(1));
    assert_eq!(find(&rows, 9), Some(2));
    assert_eq!(find(&rows, 5), None);
    assert_eq!(find(&Vec::new(), 5), None);
}

#[test]
fn topics_have_their_names() {
    assert_eq!(Topic::File.name(), "file");
    assert_eq!(Topic::Delete.name(), "delete");
    assert_eq!(Topic::Ready.name(), "ready");
    assert_eq!(Event::Delete(1).topic(), Topic::Delete);
    assert_eq!(Event::File(rec(1, "a", "A", false)).topic(), Topic::File);
}
