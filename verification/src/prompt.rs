//! The dialog that asks for a title: what its keys and buttons decide.

use vstd::prelude::*;
use vstd::string::StringExecFns;

verus! {

/// How a dialog was closed.
#[derive(Debug, PartialEq, Eq)]
pub struct Answer {
    /// What the dialog was opened for: the id of the recording to rename, or
    /// 0 for a recording that is about to be made.
    pub subject: u32,
    /// The text that was confirmed; `None` where the dialog was cancelled.
    pub text: Option<String>,
}

/// The mathematical value of an [`Answer`].
pub struct AnswerView {
    pub subject: u32,
    pub text: Option<Seq<char>>,
}

impl View for Answer {
    type V = AnswerView;

    open spec fn view(&self) -> AnswerView {
        AnswerView {
            subject: self.subject,
            text: match self.text {
                Some(s) => Some(s@),
                None => None,
            },
        }
    }
}

/// The value of an answer that may be absent.
pub open spec fn answer_view(answer: Option<Answer>) -> Option<AnswerView> {
    match answer {
        Some(a) => Some(a@),
        None => None,
    }
}

/// The mathematical value of a [`Prompt`].
pub struct PromptView {
    /// The text in the input field.
    pub text: Seq<char>,
    /// What the dialog is open for; `None` while it is closed.
    pub subject: Option<u32>,
}

impl PromptView {
    /// The answer a confirmation gives.
    pub open spec fn confirmed(self) -> Option<AnswerView> {
        match self.subject {
            Some(subject) => Some(AnswerView { subject, text: Some(self.text) }),
            None => None,
        }
    }

    /// The answer a cancellation gives.
    pub open spec fn cancelled(self) -> Option<AnswerView> {
        match self.subject {
            Some(subject) => Some(AnswerView { subject, text: None }),
            None => None,
        }
    }

    /// The dialog closed, with its text as it is.
    pub open spec fn closed(self) -> PromptView {
        PromptView { subject: None, ..self }
    }
}

/// A dialog with one input field.
pub struct Prompt {
    text: String,
    subject: Option<u32>,
}

impl View for Prompt {
    type V = PromptView;

    closed spec fn view(&self) -> PromptView {
        PromptView { text: self.text@, subject: self.subject }
    }
}

impl Prompt {
    /// A closed dialog with an empty field.
    pub fn new() -> (prompt: Prompt)
        ensures
            prompt@.text.len() == 0,
            prompt@.subject is None,
    {
        Prompt { text: String::new(), subject: None }
    }

    /// Opens the dialog for `subject` with `text` in the field.
    pub fn open(&mut self, subject: u32, text: String)
        ensures
            final(self)@ == (PromptView { text: text@, subject: Some(subject) }),
    {
        self.text = text;
        self.subject = Some(subject);
    }

    /// Whether the dialog is open.
    pub fn is_open(&self) -> (yes: bool)
        ensures
            yes == self@.subject is Some,
    {
        self.subject.is_some()
    }

    /// Follows the input field.
    pub fn edit(&mut self, text: String)
        ensures
            final(self)@ == (PromptView { text: text@, ..old(self)@ }),
    {
        self.text = text;
    }

    /// The Ok button: closes the dialog and answers with the text. A dialog
    /// that is closed answers nothing.
    pub fn confirm(&mut self) -> (answer: Option<Answer>)
        ensures
            answer_view(answer) == old(self)@.confirmed(),
            final(self)@ == old(self)@.closed(),
    {
        match self.subject {
            Some(subject) => {
                self.subject = None;
                Some(Answer { subject, text: Some(self.text.clone()) })
            },
            None => None,
        }
    }

    /// The Cancel button: closes the dialog and answers without a text. A
    /// dialog that is closed answers nothing.
    pub fn cancel(&mut self) -> (answer: Option<Answer>)
        ensures
            answer_view(answer) == old(self)@.cancelled(),
            final(self)@ == old(self)@.closed(),
    {
        match self.subject {
            Some(subject) => {
                self.subject = None;
                Some(Answer { subject, text: None })
            },
            None => None,
        }
    }

    /// A key pressed in the field: `Enter` confirms, `Escape` cancels, and
    /// any other key changes nothing and answers nothing.
    pub fn key(&mut self, key: &str) -> (answer: Option<Answer>)
        ensures
            key@ == "Enter"@ ==> answer_view(answer) == old(self)@.confirmed() && final(self)@
                == old(self)@.closed(),
            key@ != "Enter"@ && key@ == "Escape"@ ==> answer_view(answer) == old(self)@.cancelled()
                && final(self)@ == old(self)@.closed(),
            key@ != "Enter"@ && key@ != "Escape"@ ==> answer is None && final(self)@ == old(self)@,
    {
        let pressed = String::from_str(key);
        if pressed == String::from_str("Enter") {
            self.confirm()
        } else if pressed == String::from_str("Escape") {
            self.cancel()
        } else {
            None
        }
    }
}

} // verus!
