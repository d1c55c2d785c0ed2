//! The event bus of one process: listeners register for topics, the store's
//! side publishes, and each listener takes its events in the order they were
//! published.

use vstd::prelude::*;
use crate::recording::{Event, EventView, Topic, event_views};
use crate::store::RecordingStore;

verus! {

/// The mathematical value of one listener.
pub struct ListenerView {
    /// Whether a callback for `File` events is registered.
    pub file: bool,
    /// Whether a callback for `Delete` events is registered.
    pub delete: bool,
    /// The events published to it and not yet taken, oldest first.
    pub inbox: Seq<EventView>,
}

impl ListenerView {
    /// A listener that has registered nothing and was sent nothing.
    pub open spec fn fresh() -> ListenerView {
        ListenerView { file: false, delete: false, inbox: Seq::empty() }
    }

    /// Whether a callback for `topic` is registered. Nobody registers for
    /// `Ready`: it is the listener that signals it.
    pub open spec fn hears(self, topic: Topic) -> bool {
        match topic {
            Topic::File => self.file,
            Topic::Delete => self.delete,
            Topic::Ready => false,
        }
    }

    /// The listener after it registered a callback for `topic`.
    pub open spec fn registered(self, topic: Topic) -> ListenerView {
        match topic {
            Topic::File => ListenerView { file: true, ..self },
            Topic::Delete => ListenerView { delete: true, ..self },
            Topic::Ready => self,
        }
    }

    /// The listener after `event` was published: it joins the end of the
    /// inbox where a callback for its topic is registered, and is lost to
    /// this listener otherwise.
    pub open spec fn sent(self, event: EventView) -> ListenerView {
        if self.hears(event.topic()) {
            ListenerView { inbox: self.inbox.push(event), ..self }
        } else {
            self
        }
    }

    /// The listener after a run of events was published, front to back.
    pub open spec fn sent_all(self, events: Seq<EventView>) -> ListenerView
        decreases events.len(),
    {
        if events.len() == 0 {
            self
        } else {
            self.sent_all(events.drop_last()).sent(events.last())
        }
    }
}

struct Listener {
    file: bool,
    delete: bool,
    inbox: Vec<Event>,
}

impl View for Listener {
    type V = ListenerView;

    closed spec fn view(&self) -> ListenerView {
        ListenerView { file: self.file, delete: self.delete, inbox: event_views(self.inbox@) }
    }
}

/// The bus: its listeners, each known by the handle `subscribe` gave it.
pub struct EventBus {
    listeners: Vec<Listener>,
}

impl View for EventBus {
    type V = Seq<ListenerView>;

    closed spec fn view(&self) -> Seq<ListenerView> {
        Seq::new(self.listeners@.len(), |i: int| self.listeners@[i]@)
    }
}

impl EventBus {
    /// A bus without listeners.
    pub fn new() -> (bus: EventBus)
        ensures
            bus@ == Seq::<ListenerView>::empty(),
    {
        let bus = EventBus { listeners: Vec::new() };
        proof {
            assert(bus@ =~= Seq::<ListenerView>::empty());
        }
        bus
    }

    /// Number of listeners.
    pub fn len(&self) -> (n: usize)
        ensures
            n == self@.len(),
    {
        self.listeners.len()
    }

    /// Adds a listener that has registered nothing yet, and returns its
    /// handle.
    pub fn subscribe(&mut self) -> (handle: usize)
        ensures
            handle == old(self)@.len(),
            final(self)@ == old(self)@.push(ListenerView::fresh()),
    {
        let handle = self.listeners.len();
        let listener = Listener { file: false, delete: false, inbox: Vec::new() };
        proof {
            assert(listener@.inbox =~= Seq::<EventView>::empty());
        }
        self.listeners.push(listener);
        proof {
            assert(self@ =~= old(self)@.push(ListenerView::fresh()));
        }
        handle
    }

    /// Registers a callback of listener `handle` for `topic`. The
    /// registration is complete when the call returns. An unknown handle
    /// changes nothing and gives `false`.
    pub fn listen(&mut self, handle: usize, topic: Topic) -> (known: bool)
        ensures
            known == (handle < old(self)@.len()),
            known ==> final(self)@ == old(self)@.update(
                handle as int,
                old(self)@[handle as int].registered(topic),
            ),
            !known ==> final(self)@ == old(self)@,
    {
        if handle >= self.listeners.len() {
            return false;
        }
        match topic {
            Topic::File => {
                self.listeners[handle].file = true;
            },
            Topic::Delete => {
                self.listeners[handle].delete = true;
            },
            Topic::Ready => {},
        }
        proof {
            assert(self@ =~= old(self)@.update(
                handle as int,
                old(self)@[handle as int].registered(topic),
            ));
        }
        true
    }

    /// Publishes `event` to every listener that has a callback for its topic.
    /// The call only queues: it does not wait for any listener.
    pub fn publish(&mut self, event: &Event)
        ensures
            final(self)@.len() == old(self)@.len(),
            forall|i: int|
                0 <= i < old(self)@.len() ==> #[trigger] final(self)@[i] == old(self)@[i].sent(
                    event@,
                ),
    {
        let topic = event.topic();
        let mut i: usize = 0;
        while i < self.listeners.len()
            invariant
                i <= self.listeners.len(),
                self.listeners.len() == old(self).listeners.len(),
                topic == event@.topic(),
                forall|k: int| 0 <= k < i ==> #[trigger] self@[k] == old(self)@[k].sent(event@),
                forall|k: int| i <= k < self.listeners.len() ==> #[trigger] self@[k] == old(self)@[k],
            decreases self.listeners.len() - i,
        {
            let ghost reached = self@;
            let hears = match topic {
                Topic::File => self.listeners[i].file,
                Topic::Delete => self.listeners[i].delete,
                Topic::Ready => false,
            };
            if hears {
                let ghost inbox = event_views(self.listeners[i as int].inbox@);
                self.listeners[i].inbox.push(event.clone());
                proof {
                    assert(event_views(self.listeners[i as int].inbox@) =~= inbox.push(event@));
                    assert(self@ =~= reached.update(i as int, reached[i as int].sent(event@)));
                }
            }
            i = i + 1;
        }
    }

    /// Listener `handle` signals that its callbacks are registered, and the
    /// store's backlog is replayed to it: one `File` event per recording, in
    /// order of creation, behind what its inbox already holds. Other
    /// listeners get nothing.
    ///
    /// A listener that signals before it registered for `File` gets no
    /// replay: the events find no callback and are lost. An unknown handle
    /// changes nothing and gives `false`.
    pub fn ready(&mut self, handle: usize, store: &RecordingStore) -> (known: bool)
        ensures
            known == (handle < old(self)@.len()),
            known ==> final(self)@ == old(self)@.update(
                handle as int,
                old(self)@[handle as int].sent_all(store@.backlog()),
            ),
            !known ==> final(self)@ == old(self)@,
    {
        if handle >= self.listeners.len() {
            return false;
        }
        let backlog = store.replay();
        let ghost start = self@[handle as int];
        let mut i: usize = 0;
        proof {
            assert(event_views(backlog@).subrange(0, 0) =~= Seq::<EventView>::empty());
            assert(self@ =~= old(self)@.update(handle as int, start.sent_all(Seq::empty())));
        }
        while i < backlog.len()
            invariant
                i <= backlog.len(),
                handle < self.listeners.len(),
                self.listeners.len() == old(self).listeners.len(),
                start == old(self)@[handle as int],
                event_views(backlog@) == store@.backlog(),
                self@ == old(self)@.update(
                    handle as int,
                    start.sent_all(event_views(backlog@).subrange(0, i as int)),
                ),
            decreases backlog.len() - i,
        {
            let ghost reached = self@;
            let ghost done = event_views(backlog@).subrange(0, i as int);
            let ghost next = event_views(backlog@).subrange(0, i + 1);
            proof {
                assert(next.drop_last() =~= done);
                assert(next.last() == backlog[i as int]@);
                assert(event_views(backlog@)[i as int] == backlog[i as int]@);
                assert(event_views(backlog@).len() == backlog@.len());
                assert(store@.backlog().len() == store@.rows.len());
                assert(store@.backlog()[i as int] == EventView::File(store@.rows[i as int]));
            }
            if self.listeners[handle].file {
                let ghost inbox = event_views(self.listeners[handle as int].inbox@);
                self.listeners[handle].inbox.push(backlog[i].clone());
                proof {
                    assert(event_views(self.listeners[handle as int].inbox@) =~= inbox.push(
                        backlog[i as int]@,
                    ));
                    assert(self@ =~= reached.update(
                        handle as int,
                        reached[handle as int].sent(backlog[i as int]@),
                    ));
                }
            }
            i = i + 1;
        }
        proof {
            assert(event_views(backlog@).subrange(0, backlog.len() as int) =~= event_views(
                backlog@,
            ));
        }
        true
    }

    /// Hands listener `handle` its oldest event, if it has one.
    pub fn deliver(&mut self, handle: usize) -> (event: Option<Event>)
        ensures
            final(self)@.len() == old(self)@.len(),
            match event {
                Some(e) => {
                    &&& handle < old(self)@.len()
                    &&& old(self)@[handle as int].inbox.len() > 0
                    &&& e@ == old(self)@[handle as int].inbox[0]
                    &&& final(self)@ == old(self)@.update(
                        handle as int,
                        ListenerView {
                            inbox: old(self)@[handle as int].inbox.drop_first(),
                            ..old(self)@[handle as int]
                        },
                    )
                },
                None => {
                    &&& handle < old(self)@.len() ==> old(self)@[handle as int].inbox.len() == 0
                    &&& final(self)@ == old(self)@
                },
            },
    {
        if handle >= self.listeners.len() || self.listeners[handle].inbox.len() == 0 {
            return None;
        }
        let ghost inbox = event_views(self.listeners[handle as int].inbox@);
        let event = self.listeners[handle].inbox.remove(0);
        proof {
            assert(event_views(self.listeners[handle as int].inbox@) =~= inbox.drop_first());
            assert(self@ =~= old(self)@.update(
                handle as int,
                ListenerView {
                    inbox: old(self)@[handle as int].inbox.drop_first(),
                    ..old(self)@[handle as int]
                },
            ));
        }
        Some(event)
    }

    /// How many events wait for listener `handle`; 0 for an unknown handle.
    pub fn pending(&self, handle: usize) -> (n: usize)
        ensures
            n == if handle < self@.len() {
                self@[handle as int].inbox.len()
            } else {
                0
            },
    {
        if handle < self.listeners.len() {
            self.listeners[handle].inbox.len()
        } else {
            0
        }
    }
}

/// A listener with callbacks for both payload topics misses nothing: every
/// event published joins its inbox, in the order of publication and behind
/// what was there.
pub proof fn lemma_hears_all(listener: ListenerView, events: Seq<EventView>)
    requires
        listener.file,
        listener.delete,
    ensures
        listener.sent_all(events) == (ListenerView {
            inbox: listener.inbox + events,
            ..listener
        }),
    decreases events.len(),
{
    if events.len() == 0 {
        assert(listener.inbox + events =~= listener.inbox);
    } else {
        lemma_hears_all(listener, events.drop_last());
        let last = events.last();
        assert(listener.hears(last.topic()));
        assert((listener.inbox + events.drop_last()).push(last) =~= listener.inbox + events);
    }
}

/// A run of events published in two parts is the two parts published one
/// after the other.
pub proof fn lemma_sent_all_concat(
    listener: ListenerView,
    first: Seq<EventView>,
    second: Seq<EventView>,
)
    ensures
        listener.sent_all(first + second) == listener.sent_all(first).sent_all(second),
    decreases second.len(),
{
    if second.len() == 0 {
        assert(first + second =~= first);
    } else {
        lemma_sent_all_concat(listener, first, second.drop_last());
        assert((first + second).drop_last() =~= first + second.drop_last());
        assert((first + second).last() == second.last());
    }
}

/// The handshake: a new listener that registers both callbacks and then
/// signals readiness finds in its inbox exactly the backlog, one `File`
/// event per stored recording in order of creation, and behind it every
/// event published afterwards, in order, none missing and none twice.
pub proof fn lemma_ready_after_registration(backlog: Seq<EventView>, live: Seq<EventView>)
    ensures
        ListenerView::fresh().registered(Topic::File).registered(Topic::Delete).sent_all(
            backlog,
        ).sent_all(live).inbox == backlog + live,
{
    let listener = ListenerView::fresh().registered(Topic::File).registered(Topic::Delete);
    lemma_hears_all(listener, backlog);
    lemma_hears_all(listener.sent_all(backlog), live);
    assert(listener.inbox + backlog =~= backlog);
}

/// The hazard that registration before readiness closes: a listener that
/// signals readiness with no `File` callback gets none of the replay.
pub proof fn lemma_ready_before_registration(listener: ListenerView, backlog: Seq<EventView>)
    requires
        !listener.file,
        forall|i: int| 0 <= i < backlog.len() ==> (#[trigger] backlog[i]).topic() == Topic::File,
    ensures
        listener.sent_all(backlog) == listener,
    decreases backlog.len(),
{
    if backlog.len() > 0 {
        assert forall|i: int| 0 <= i < backlog.drop_last().len() implies (
        #[trigger] backlog.drop_last()[i]).topic() == Topic::File by {
            assert(backlog.drop_last()[i] == backlog[i]);
        }
        lemma_ready_before_registration(listener, backlog.drop_last());
        assert(backlog.last() == backlog[backlog.len() - 1]);
    }
}

} // verus!
