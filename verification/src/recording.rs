//! Recordings and the events that report changes to them.

use vstd::prelude::*;

verus! {

/// A captured recording as the device keeps it.
#[derive(Debug, PartialEq, Eq)]
pub struct Recording {
    /// Assigned by the store; unique and increasing with creation.
    pub id: u32,
    /// Handle of the backing audio file.
    pub file: String,
    /// The title the user gave it.
    pub name: String,
    /// Whether the remote service has acknowledged it.
    pub uploaded: bool,
}

/// The mathematical value of a [`Recording`].
pub struct RecordingView {
    pub id: u32,
    pub file: Seq<char>,
    pub name: Seq<char>,
    pub uploaded: bool,
}

impl View for Recording {
    type V = RecordingView;

    open spec fn view(&self) -> RecordingView {
        RecordingView { id: self.id, file: self.file@, name: self.name@, uploaded: self.uploaded }
    }
}

impl Clone for Recording {
    fn clone(&self) -> (copy: Self)
        ensures
            copy == *self,
    {
        Recording {
            id: self.id,
            file: self.file.clone(),
            name: self.name.clone(),
            uploaded: self.uploaded,
        }
    }
}

impl RecordingView {
    /// The same recording under another title.
    pub open spec fn titled(self, title: Seq<char>) -> RecordingView {
        RecordingView { name: title, ..self }
    }

    /// The same recording, acknowledged by the remote service.
    pub open spec fn acknowledged(self) -> RecordingView {
        RecordingView { uploaded: true, ..self }
    }
}

/// The values of a sequence of recordings, element by element.
pub open spec fn views(rows: Seq<Recording>) -> Seq<RecordingView> {
    Seq::new(rows.len(), |i: int| rows[i]@)
}

/// The topics of the event bus.
#[derive(Clone, Copy, Debug, PartialEq, Eq, Structural)]
pub enum Topic {
    /// One recording was created or changed; the payload replaces what a
    /// listener holds under the same id.
    File,
    /// One recording was deleted; the payload is its id.
    Delete,
    /// A listener has registered its callbacks and asks for the backlog.
    Ready,
}

impl Topic {
    /// The name under which the topic travels.
    pub fn name(&self) -> (text: &'static str)
        ensures
            text@ == match *self {
                Topic::File => "file"@,
                Topic::Delete => "delete"@,
                Topic::Ready => "ready"@,
            },
    {
        match self {
            Topic::File => "file",
            Topic::Delete => "delete",
            Topic::Ready => "ready",
        }
    }
}

/// A change notice that the store sends to its listeners.
#[derive(Debug, PartialEq, Eq)]
pub enum Event {
    /// The full, current state of one recording.
    File(Recording),
    /// The id of a recording that no longer exists.
    Delete(u32),
}

/// The mathematical value of an [`Event`].
pub enum EventView {
    File(RecordingView),
    Delete(u32),
}

impl View for Event {
    type V = EventView;

    open spec fn view(&self) -> EventView {
        match *self {
            Event::File(r) => EventView::File(r@),
            Event::Delete(id) => EventView::Delete(id),
        }
    }
}

impl Clone for Event {
    fn clone(&self) -> (copy: Self)
        ensures
            copy == *self,
    {
        match self {
            Event::File(r) => Event::File(r.clone()),
            Event::Delete(id) => Event::Delete(*id),
        }
    }
}

impl Event {
    /// The topic an event is published under.
    pub fn topic(&self) -> (t: Topic)
        ensures
            t == self@.topic(),
    {
        match self {
            Event::File(_) => Topic::File,
            Event::Delete(_) => Topic::Delete,
        }
    }
}

impl EventView {
    pub open spec fn topic(self) -> Topic {
        match self {
            EventView::File(_) => Topic::File,
            EventView::Delete(_) => Topic::Delete,
        }
    }
}

/// The values of a sequence of events, element by element.
pub open spec fn event_views(events: Seq<Event>) -> Seq<EventView> {
    Seq::new(events.len(), |i: int| events[i]@)
}

} // verus!
