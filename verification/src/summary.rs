//! The exchange with the summarization engine: what is asked, and what is
//! read from the answer.

use vstd::prelude::*;
use vstd::string::StringExecFns;
use crate::pipeline::{JobEvent, JobEventView};

verus! {

/// A parsed JSON document of `serde_json`.
#[verifier::external_type_specification]
#[verifier::external_body]
pub struct ExJsonValue(serde_json::Value);

/// The strings a JSON document holds, each under the JSON Pointer that
/// addresses it. What is addressed but is no string, and what is not
/// addressed, is no key.
pub uninterp spec fn json_strings(document: serde_json::Value) -> Map<Seq<char>, Seq<char>>;

/// The strings of the document that a text parses to as JSON; `None` where
/// the text is no JSON document.
pub uninterp spec fn json_text_strings(text: Seq<char>) -> Option<Map<Seq<char>, Seq<char>>>;

/// `serde_json::from_str` for a `serde_json::Value`, with its error dropped.
/// The contract only names the outcome: the text parses or it does not, as a
/// function of the text alone, and a parsed document holds the strings that
/// the text spells out.
#[verifier::external_body]
fn parse_document(text: &str) -> (parsed: Option<serde_json::Value>)
    ensures
        match parsed {
            Some(document) => json_text_strings(text@) == Some(json_strings(document)),
            None => json_text_strings(text@) is None,
        },
{
    serde_json::from_str::<serde_json::Value>(text).ok()
}

/// `serde_json::Value::pointer`, narrowed to strings: the string that the
/// document holds at `pointer`, and `None` where the pointer addresses
/// nothing or addresses a value that is no string.
#[verifier::external_body]
fn string_at(document: &serde_json::Value, pointer: &str) -> (text: Option<String>)
    ensures
        match text {
            Some(s) => json_strings(*document).contains_key(pointer@) && json_strings(
                *document,
            )[pointer@] == s@,
            None => !json_strings(*document).contains_key(pointer@),
        },
{
    match document.pointer(pointer) {
        Some(serde_json::Value::String(s)) => Some(s.clone()),
        _ => None,
    }
}

/// The model that is asked for summaries.
pub const MODEL: &'static str = "qwen2.5:14b";

/// What the engine is told to do, ahead of every transcript.
pub const INSTRUCTION: &'static str =
    "You are given the transcript of a voice recording. Summarize it in a few short sentences. Keep names, numbers and decisions. Answer with the summary only.";

/// Where the text of the answer stands in the engine's reply.
pub const CONTENT_POINTER: &'static str = "/message/content";

/// One message of a chat request.
#[derive(Debug, PartialEq, Eq)]
pub struct Message {
    pub role: String,
    pub content: String,
}

/// The mathematical value of a [`Message`].
pub struct MessageView {
    pub role: Seq<char>,
    pub content: Seq<char>,
}

impl View for Message {
    type V = MessageView;

    open spec fn view(&self) -> MessageView {
        MessageView { role: self.role@, content: self.content@ }
    }
}

/// Sampling settings, each in hundredths.
#[derive(Clone, Copy, Debug, PartialEq, Eq, Structural)]
pub struct Sampling {
    pub temperature: u32,
    pub top_p: u32,
    pub repeat_penalty: u32,
}

/// The settings every summary is asked with: a low temperature, so that the
/// same transcript gives much the same summary.
pub open spec fn steady() -> Sampling {
    Sampling { temperature: 20, top_p: 90, repeat_penalty: 110 }
}

/// What is sent to the summarization engine.
#[derive(Debug, PartialEq, Eq)]
pub struct SummaryRequest {
    pub model: String,
    /// The instruction, as the system's message, and then the transcript, as
    /// the user's.
    pub messages: Vec<Message>,
    /// Whether the answer is to come in pieces. It never is.
    pub stream: bool,
    pub options: Sampling,
}

/// The request for the summary of `transcript`.
pub fn summary_request(transcript: String) -> (request: SummaryRequest)
    ensures
        request.model@ == MODEL@,
        request.messages@.len() == 2,
        request.messages@[0]@ == (MessageView { role: "system"@, content: INSTRUCTION@ }),
        request.messages@[1]@ == (MessageView { role: "user"@, content: transcript@ }),
        !request.stream,
        request.options == steady(),
{
    let system = Message { role: String::from_str("system"), content: String::from_str(INSTRUCTION) };
    let user = Message { role: String::from_str("user"), content: transcript };
    let mut messages: Vec<Message> = Vec::new();
    messages.push(system);
    messages.push(user);
    SummaryRequest {
        model: String::from_str(MODEL),
        messages,
        stream: false,
        options: Sampling { temperature: 20, top_p: 90, repeat_penalty: 110 },
    }
}

/// The text of the answer in a reply: the string under `message`, `content`
/// of the reply read as JSON. `None` where the reply is no JSON or holds no
/// string there.
pub open spec fn reply_text(body: Seq<char>) -> Option<Seq<char>> {
    match json_text_strings(body) {
        Some(strings) => if strings.contains_key(CONTENT_POINTER@) {
            Some(strings[CONTENT_POINTER@])
        } else {
            None
        },
        None => None,
    }
}

/// The value of a text that may be absent.
pub open spec fn content_view(content: Option<String>) -> Option<Seq<char>> {
    match content {
        Some(s) => Some(s@),
        None => None,
    }
}

/// Reads the text of the answer out of the engine's reply.
pub fn read_reply(body: &str) -> (content: Option<String>)
    ensures
        content_view(content) == reply_text(body@),
{
    match parse_document(body) {
        Some(document) => string_at(&document, CONTENT_POINTER),
        None => None,
    }
}

/// What a reply means for the job that waits for it: the text of the answer
/// is the summary, and a reply without one is a failure of the step.
pub fn reply_event(content: Option<String>) -> (event: JobEvent)
    ensures
        event@ == match content_view(content) {
            Some(summary) => JobEventView::Summarized(summary),
            None => JobEventView::Failed,
        },
{
    match content {
        Some(summary) => JobEvent::Summarized(summary),
        None => JobEvent::Failed,
    }
}

/// Reads a reply and turns it into the event for the job.
pub fn summarized(body: &str) -> (event: JobEvent)
    ensures
        event@ == match reply_text(body@) {
            Some(summary) => JobEventView::Summarized(summary),
            None => JobEventView::Failed,
        },
{
    reply_event(read_reply(body))
}

} // verus!
