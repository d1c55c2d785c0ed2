use notes::entry::{copy_text, query, Entry, EntryStore, Note};
use notes::error::Error;

fn entry(id: u32, file: &str, name: &str, t: Option<&str>, s: Option<&str>) -> Entry {
    Entry {
        id,
        file: file.to_string(),
        name: name.to_string(),
        transcript: t.map(|x| x.to_string()),
        summary: s.map(|x| x.to_string()),
    }
}

fn note(name: &str, t: Option<&str>, s: Option<&str>) -> Note {
    Note { name: name.to_string(), transcript: t.map(|x| x.to_string()), summary: s.map(|x| x.to_string()) }
}

#[test]
fn insert_makes_an_entry_without_results() {
    let mut store = EntryStore::new();
    assert_eq!(store.next_id(), Some(1));
    assert_eq!(store.insert("Meeting".to_string(), "x.wav".to_string(), true), Ok(1));
    assert_eq!(store.insert("Standup".to_string(), "y.wav".to_string(), true), Ok(2));
    assert_eq!(store.len(), 2);
    assert_eq!(store.get(1), Some(&entry(1, "x.wav", "Meeting", None, None)));
    assert_eq!(store.get(3), None);
    assert_eq!(store.next_id(), Some(3));
}

#[test]
fn insert_fails_when_not_stored() {
    let mut store = EntryStore::new();
    assert_eq!(store.insert("Meeting".to_string(), "x.wav".to_string(), false), Err(Error::Storage));
    assert_eq!(store.len(), 0);
    assert_eq!(store.insert("Meeting".to_string(), "x.wav".to_string(), true), Ok(1));
}

#[test]
fn insert_fails_when_ids_are_used_up() {
    let mut store = EntryStore::restore(Vec::new(), u32::MAX).unwrap();
    assert_eq!(store.next_id(), None);
    assert_eq!(store.insert("Meeting".to_string(), "x.wav".to_string(), true), Err(Error::Storage));
}

#[test]
fn update_result_writes_both_fields_of_one_entry() {
    let mut store = EntryStore::new();
    store.insert("Meeting".to_string(), "x.wav".to_string(), true).unwrap();
    store.insert("Standup".to_string(), "y.wav".to_string(), true).unwrap();
    assert_eq!(store.update_result(2, "words".to_string(), "short".to_string()), Ok(()));
    assert_eq!(
        store.list_all(),
        vec![
            entry(1, "x.wav", "Meeting", None, None),
            entry(2, "y.wav", "Standup", Some("words"), Some("short")),
        ]
    );
}

#[test]
fn update_result_of_unknown_id_is_not_found() {
    let mut store = EntryStore::new();
    store.insert("Meeting".to_string(), "x.wav".to_string(), true).unwrap();
    assert_eq!(store.update_result(2, "t".to_string(), "s".to_string()), Err(Error::NotFound));
    assert_eq!(store.list_all(), vec![entry(1, "x.wav", "Meeting", None, None)]);
}

#[test]
fn query_shows_every_entry_in_order_of_ids() {
    let mut store = EntryStore::new();
    store.insert("Meeting".to_string(), "x.wav".to_string(), true).unwrap();
    store.insert("Standup".to_string(), "y.wav".to_string(), true).unwrap();
    store.update_result(1, "words".to_string(), "short".to_string()).unwrap();
    assert_eq!(
        query(&store),
        vec![note("Meeting", Some("words"), Some("short")), note("Standup", None, None)]
    );
    assert!(query(&EntryStore::new()).is_empty());
}

#[test]
fn note_without_transcript_is_in_processing() {
    assert!(note("a", None, None).is_processing());
    assert!(note("a", None, Some("s")).is_processing());
    assert!(note("a", Some("t"), None).is_processing());
    assert!(!note("a", Some("t"), Some("s")).is_processing());
    assert!(!note("a", Some(""), Some("")).is_processing());
}

#[test]
fn note_gives_results_only_when_both_are_there() {
    assert_eq!(note("a", None, None).results(), None);
    assert_eq!(note("a", Some("t"), None).results(), None);
    assert_eq!(note("a", None, Some("s")).results(), None);
    let done = note("a", Some("t"), Some("s"));
    assert_eq!(done.results(), Some((&"t".to_string(), &"s".to_string())));
}

#[test]
fn restore_takes_entries_in_order() {
    let rows = vec![entry(1, "x", "X", Some("t"), Some("s")), entry(4, "y", "Y", None, None)];
    let mut store = EntryStore::restore(rows.clone(), 4).unwrap();
    assert_eq!(store.list_all(), rows);
    assert_eq!(store.insert("Z".to_string(), "z".to_string(), true), Ok(5));
}

#[test]
fn restore_refuses_damaged_entries() {
    let twice = vec![entry(1, "x", "X", None, None), entry(1, "y", "Y", None, None)];
    assert!(matches!(EntryStore::restore(twice, 4), Err(Error::Storage)));
    let beyond = vec![entry(5, "x", "X", None, None)];
    assert!(matches!(EntryStore::restore(beyond, 4), Err(Error::Storage)));
    let zero = vec![entry(0, "x", "X", None, None)];
    assert!(matches!(EntryStore::restore(zero, 4), Err(Error::Storage)));
}

#[test]
fn copies_keep_what_they_copy() {
    assert_eq!(copy_text(&Some("abc".to_string())), Some("abc".to_string()));
    assert_eq!(copy_text(&None), None);
    let e = entry(1, "x", "X", Some("t"), None);
    assert_eq!(e.clone(), e);
    let n = note("n", None, Some("s"));
    assert_eq!(n.clone(), n);
}
