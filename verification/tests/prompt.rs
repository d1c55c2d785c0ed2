use notes::prompt::{Answer, Prompt};

#[test]
fn a_new_prompt_is_closed() {
    let mut prompt = Prompt::new();
    assert!(!prompt.is_open());
    assert_eq!(prompt.confirm(), None);
    assert_eq!(prompt.cancel(), None);
    assert_eq!(prompt.key("Enter"), None);
}

#[test]
fn enter_confirms_with_the_text() {
    let mut prompt = Prompt::new();
    prompt.open(7, "Meeting".to_string());
    assert!(prompt.is_open());
    prompt.edit("Standup".to_string());
    assert_eq!(prompt.key("Enter"), Some(Answer { subject: 7, text: Some("Standup".to_string()) }));
    assert!(!prompt.is_open());
}

#[test]
fn escape_cancels() {
    let mut prompt = Prompt::new();
    prompt.open(7, "Meeting".to_string());
    assert_eq!(prompt.key("Escape"), Some(Answer { subject: 7, text: None }));
    assert!(!prompt.is_open());
}

#[test]
fn other_keys_do_nothing() {
    let mut prompt = Prompt::new();
    prompt.open(0, "".to_string());
    assert_eq!(prompt.key("a"), None);
    assert_eq!(prompt.key("enter"), None);
    assert_eq!(prompt.key(""), None);
    assert!(prompt.is_open());
    assert_eq!(prompt.confirm(), Some(Answer { subject: 0, text: Some(String::new()) }));
}

#[test]
fn buttons_close_the_dialog() {
    let mut prompt = Prompt::new();
    prompt.open(3, "x".to_string());
    assert_eq!(prompt.cancel(), Some(Answer { subject: 3, text: None }));
    assert_eq!(prompt.cancel(), None);
    prompt.open(4, "y".to_string());
    assert_eq!(prompt.confirm(), Some(Answer { subject: 4, text: Some("y".to_string()) }));
    assert_eq!(prompt.confirm(), None);
}
