use notes::pipeline::JobEvent;
use notes::summary::{
    read_reply, reply_event, summarized, summary_request, Message, Sampling, CONTENT_POINTER,
    INSTRUCTION, MODEL,
};

#[test]
fn request_holds_the_instruction_and_then_the_transcript() {
    let request = summary_request("[0 - 10]: hello".to_string());
    assert_eq!(request.model, "qwen2.5:14b");
    assert_eq!(request.model, MODEL);
    assert_eq!(
        request.messages,
        vec![
            Message { role: "system".to_string(), content: INSTRUCTION.to_string() },
            Message { role: "user".to_string(), content: "[0 - 10]: hello".to_string() },
        ]
    );
    assert!(!request.stream);
    assert_eq!(request.options, Sampling { temperature: 20, top_p: 90, repeat_penalty: 110 });
    assert!(!INSTRUCTION.is_empty());
}

#[test]
fn reply_text_is_the_message_content() {
    let body = r#"{"model":"qwen2.5:14b","message":{"role":"assistant","content":"A short talk."},"done":true}"#;
    assert_eq!(read_reply(body), Some("A short talk.".to_string()));
    assert_eq!(CONTENT_POINTER, "/message/content");
}

#[test]
fn reply_text_is_unescaped() {
    let body = r#"{"message":{"content":"He said \"hi\".\nThen left."}}"#;
    assert_eq!(read_reply(body), Some("He said \"hi\".\nThen left.".to_string()));
}

#[test]
fn reply_without_message_text_gives_none() {
    assert_eq!(read_reply(r#"{"message":{"role":"assistant"}}"#), None);
    assert_eq!(read_reply(r#"{"message":{"content":17}}"#), None);
    assert_eq!(read_reply(r#"{"message":{"content":null}}"#), None);
    assert_eq!(read_reply(r#"{"message":"content"}"#), None);
    assert_eq!(read_reply(r#"{"error":"model not found"}"#), None);
    assert_eq!(read_reply(r#"["message","content"]"#), None);
}

#[test]
fn reply_that_is_no_json_gives_none() {
    assert_eq!(read_reply(""), None);
    assert_eq!(read_reply("A short talk."), None);
    assert_eq!(read_reply(r#"{"message":{"content":"cut"#), None);
}

#[test]
fn reply_with_empty_text_is_a_text() {
    assert_eq!(read_reply(r#"{"message":{"content":""}}"#), Some(String::new()));
}

#[test]
fn a_text_is_the_summary_and_none_is_a_failure() {
    assert_eq!(reply_event(Some("s".to_string())), JobEvent::Summarized("s".to_string()));
    assert_eq!(reply_event(None), JobEvent::Failed);
}

#[test]
fn summarized_reads_and_decides() {
    assert_eq!(
        summarized(r#"{"message":{"content":"Done."}}"#),
        JobEvent::Summarized("Done.".to_string())
    );
    assert_eq!(summarized("Done."), JobEvent::Failed);
    assert_eq!(summarized(r#"{"message":{}}"#), JobEvent::Failed);
}
