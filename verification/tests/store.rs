use notes::error::Error;
use notes::recording::{Event, Recording};
use notes::store::{listed, RecordingStore};

fn rec(id: u32, file: &str, name: &str, uploaded: bool) -> Recording {
    Recording { id, file: file.to_string(), name: name.to_string(), uploaded }
}

fn titles(store: &RecordingStore) -> Vec<(u32, String)> {
    let mut out = Vec::new();
    for r in store.list() {
        out.push((r.id, r.name));
    }
    out
}

#[test]
fn new_store_is_empty() {
    let store = RecordingStore::new();
    assert_eq!(store.len(), 0);
    assert_eq!(store.issued(), 0);
    assert_eq!(store.next_id(), Some(1));
    assert!(store.list().is_empty());
    assert!(store.replay().is_empty());
}

#[test]
fn create_assigns_first_id() {
    let mut store = RecordingStore::new();
    let made = store.create("a.wav".to_string(), "Meeting".to_string(), true).unwrap();
    assert_eq!(made, rec(1, "a.wav", "Meeting", false));
    assert_eq!(store.len(), 1);
    assert_eq!(store.get(1), Some(&rec(1, "a.wav", "Meeting", false)));
}

#[test]
fn ids_grow_with_creation() {
    let mut store = RecordingStore::new();
    for expected in 1..=4u32 {
        let made = store.create(format!("{expected}.wav"), format!("n{expected}"), true).unwrap();
        assert_eq!(made.id, expected);
    }
    assert_eq!(store.issued(), 4);
    assert_eq!(store.next_id(), Some(5));
}

#[test]
fn create_fails_when_not_stored() {
    let mut store = RecordingStore::new();
    assert_eq!(store.create("a.wav".to_string(), "A".to_string(), false), Err(Error::Storage));
    assert_eq!(store.len(), 0);
    assert_eq!(store.issued(), 0);
    let made = store.create("b.wav".to_string(), "B".to_string(), true).unwrap();
    assert_eq!(made.id, 1);
}

#[test]
fn create_fails_when_ids_are_used_up() {
    let mut store = RecordingStore::restore(vec![rec(7, "g.wav", "G", false)], u32::MAX).unwrap();
    assert_eq!(store.next_id(), None);
    assert_eq!(store.create("a.wav".to_string(), "A".to_string(), true), Err(Error::Storage));
    assert_eq!(store.len(), 1);
}

#[test]
fn rename_changes_only_the_title() {
    let mut store = RecordingStore::new();
    store.create("a.wav".to_string(), "Meeting".to_string(), true).unwrap();
    store.create("b.wav".to_string(), "Other".to_string(), true).unwrap();
    let changed = store.rename(1, "Standup".to_string()).unwrap();
    assert_eq!(changed, rec(1, "a.wav", "Standup", false));
    assert_eq!(store.get(1), Some(&rec(1, "a.wav", "Standup", false)));
    assert_eq!(store.get(2), Some(&rec(2, "b.wav", "Other", false)));
}

#[test]
fn rename_of_unknown_id_is_not_found() {
    let mut store = RecordingStore::new();
    store.create("a.wav".to_string(), "Meeting".to_string(), true).unwrap();
    assert_eq!(store.rename(2, "X".to_string()), Err(Error::NotFound));
    assert_eq!(titles(&store), vec![(1, "Meeting".to_string())]);
}

#[test]
fn delete_removes_the_row() {
    let mut store = RecordingStore::new();
    store.create("a.wav".to_string(), "A".to_string(), true).unwrap();
    store.create("b.wav".to_string(), "B".to_string(), true).unwrap();
    assert_eq!(store.delete(1, true), Ok(()));
    assert_eq!(store.get(1), None);
    assert_eq!(titles(&store), vec![(2, "B".to_string())]);
}

#[test]
fn delete_of_unknown_id_is_not_found() {
    let mut store = RecordingStore::new();
    assert_eq!(store.delete(1, true), Err(Error::NotFound));
    assert_eq!(store.delete(1, false), Err(Error::NotFound));
}

#[test]
fn delete_keeps_the_row_when_the_file_stays() {
    let mut store = RecordingStore::new();
    store.create("a.wav".to_string(), "A".to_string(), true).unwrap();
    store.create("b.wav".to_string(), "B".to_string(), true).unwrap();
    let before = store.list();
    assert_eq!(store.delete(2, false), Err(Error::Storage));
    assert_eq!(store.list(), before);
    assert_eq!(store.issued(), 2);
}

#[test]
fn deleted_ids_are_not_used_again() {
    let mut store = RecordingStore::new();
    store.create("a.wav".to_string(), "A".to_string(), true).unwrap();
    store.delete(1, true).unwrap();
    let made = store.create("b.wav".to_string(), "B".to_string(), true).unwrap();
    assert_eq!(made.id, 2);
    assert_eq!(store.get(1), None);
}

#[test]
fn list_is_newest_first() {
    let mut store = RecordingStore::new();
    store.create("a.wav".to_string(), "A".to_string(), true).unwrap();
    store.create("b.wav".to_string(), "B".to_string(), true).unwrap();
    store.create("c.wav".to_string(), "C".to_string(), true).unwrap();
    let ids: Vec<u32> = store.list().iter().map(|r| r.id).collect();
    assert_eq!(ids, vec![3, 2, 1]);
    let kept: Vec<u32> = store.rows().iter().map(|r| r.id).collect();
    assert_eq!(kept, vec![1, 2, 3]);
}

#[test]
fn replay_is_one_file_event_per_row_oldest_first() {
    let mut store = RecordingStore::new();
    store.create("a.wav".to_string(), "A".to_string(), true).unwrap();
    store.create("b.wav".to_string(), "B".to_string(), true).unwrap();
    assert_eq!(
        store.replay(),
        vec![Event::File(rec(1, "a.wav", "A", false)), Event::File(rec(2, "b.wav", "B", false))]
    );
}

#[test]
fn list_reflects_the_net_effect_of_a_run() {
    let mut store = RecordingStore::new();
    store.create("a.wav".to_string(), "A".to_string(), true).unwrap();
    store.create("b.wav".to_string(), "B".to_string(), true).unwrap();
    store.rename(1, "A2".to_string()).unwrap();
    store.create("c.wav".to_string(), "C".to_string(), true).unwrap();
    store.delete(2, true).unwrap();
    store.rename(2, "gone".to_string()).unwrap_err();
    store.rename(1, "A3".to_string()).unwrap();
    store.create("d.wav".to_string(), "D".to_string(), false).unwrap_err();
    store.delete(3, false).unwrap_err();
    store.create("e.wav".to_string(), "E".to_string(), true).unwrap();
    assert_eq!(
        store.list(),
        vec![rec(4, "e.wav", "E", false), rec(3, "c.wav", "C", false), rec(1, "a.wav", "A3", false)]
    );
}

#[test]
fn acknowledge_marks_the_named_rows_only() {
    let mut store = RecordingStore::new();
    for n in ["a", "b", "c"] {
        store.create(format!("{n}.wav"), n.to_string(), true).unwrap();
    }
    store.acknowledge(&vec![3, 1, 9]);
    assert_eq!(
        store.rows(),
        &vec![rec(1, "a.wav", "a", true), rec(2, "b.wav", "b", false), rec(3, "c.wav", "c", true)]
    );
    store.acknowledge(&vec![]);
    assert!(store.get(1).unwrap().uploaded);
}

#[test]
fn restore_takes_rows_in_order() {
    let rows = vec![rec(2, "b.wav", "B", true), rec(5, "e.wav", "E", false)];
    let mut store = RecordingStore::restore(rows.clone(), 6).unwrap();
    assert_eq!(store.rows(), &rows);
    assert_eq!(store.issued(), 6);
    assert_eq!(store.create("g.wav".to_string(), "G".to_string(), true).unwrap().id, 7);
}

#[test]
fn restore_refuses_a_damaged_table() {
    let twice = vec![rec(2, "b.wav", "B", true), rec(2, "e.wav", "E", false)];
    assert!(matches!(RecordingStore::restore(twice, 6), Err(Error::Storage)));
    let unordered = vec![rec(3, "b.wav", "B", true), rec(2, "e.wav", "E", false)];
    assert!(matches!(RecordingStore::restore(unordered, 6), Err(Error::Storage)));
    let beyond = vec![rec(3, "b.wav", "B", true)];
    assert!(matches!(RecordingStore::restore(beyond, 2), Err(Error::Storage)));
    let zero = vec![rec(0, "b.wav", "B", true)];
    assert!(matches!(RecordingStore::restore(zero, 2), Err(Error::Storage)));
    assert!(RecordingStore::restore(Vec::new(), 0).is_ok());
}

#[test]
fn listed_tells_membership() {
    assert!(listed(&vec![4, 7, 9], 7));
    assert!(!listed(&vec![4, 7, 9], 8));
    assert!(!listed(&vec![], 0));
}

#[test]
fn clone_keeps_every_field() {
    let r = rec(3, "c.wav", "C", true);
    assert_eq!(r.clone(), r);
    let e = Event::Delete(4);
    assert_eq!(e.clone(), e);
    let f = Event::File(rec(1, "a.wav", "A", false));
    assert_eq!(f.clone(), f);
}
