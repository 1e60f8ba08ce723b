//! The manager of one connection, without the socket.
//!
//! The manager owns the routing table and the state of the reader. Whoever
//! owns the socket feeds it every inbound event through [`Manager::listen`],
//! writes the frame that [`Manager::send`] hands back, and reports the write
//! through [`Manager::complete_send`].

use vstd::prelude::*;
use crate::codec::{decode, decoded, encode, frame_text};
use crate::message::{Error, Message};
use crate::table::{
    bounded, next_for, outcome_of, registered, routed, routed_all, taken, waiting, ConsumerEndpoint,
    RouteOutcome, RoutingTable, SlotModel, QUEUE_DEPTH,
};

verus! {

/// The state of the reader.
#[derive(Debug, Clone, Copy, PartialEq, Eq, Structural)]
pub enum ReaderState {
    /// Waiting for the next inbound frame.
    Listening,
    /// The transport failed or closed; the reader has stopped for good.
    Terminated,
}

/// What the inbound half of the transport produced.
#[derive(Debug, Clone, PartialEq, Eq)]
pub enum TransportEvent {
    /// One inbound message, as text.
    Frame(String),
    /// One inbound message that is no text.
    Unreadable,
    /// Reading failed.
    Failed,
    /// The peer closed the connection, or the stream ended.
    Closed,
}

/// The mathematical value of a [`TransportEvent`].
pub enum EventModel {
    Frame(Seq<char>),
    Unreadable,
    Failed,
    Closed,
}

impl View for TransportEvent {
    type V = EventModel;

    open spec fn view(&self) -> EventModel {
        match self {
            TransportEvent::Frame(text) => EventModel::Frame(text@),
            TransportEvent::Unreadable => EventModel::Unreadable,
            TransportEvent::Failed => EventModel::Failed,
            TransportEvent::Closed => EventModel::Closed,
        }
    }
}

/// What the reader did with an event.
#[derive(Debug, Clone, Copy, PartialEq, Eq, Structural)]
pub enum Disposition {
    /// The frame was a well-formed envelope and went to the table.
    Routed(RouteOutcome),
    /// The frame was malformed and was dropped.
    Malformed,
    /// The transport failed or closed: the reader stopped.
    Stopped,
    /// The reader had stopped before; the event was ignored.
    Ignored,
}

/// The mathematical value of a [`Manager`].
pub struct ManagerModel {
    pub table: Seq<SlotModel>,
    pub state: ReaderState,
}

/// The table after the reader saw a frame with this text: a well-formed
/// envelope is routed, anything else leaves the table as it was.
pub open spec fn after_frame(table: Seq<SlotModel>, text: Seq<char>) -> Seq<SlotModel> {
    match decoded(text) {
        Some(m) => routed(table, m.channel, m.data),
        None => table,
    }
}

/// The manager after the reader saw `event`.
pub open spec fn stepped(model: ManagerModel, event: EventModel) -> ManagerModel {
    match model.state {
        ReaderState::Terminated => model,
        ReaderState::Listening => match event {
            EventModel::Frame(text) => ManagerModel {
                table: after_frame(model.table, text),
                state: ReaderState::Listening,
            },
            EventModel::Unreadable => model,
            EventModel::Failed => ManagerModel {
                table: model.table,
                state: ReaderState::Terminated,
            },
            EventModel::Closed => ManagerModel {
                table: model.table,
                state: ReaderState::Terminated,
            },
        },
    }
}

/// What the reader reports of `event`.
pub open spec fn disposition_of(model: ManagerModel, event: EventModel) -> Disposition {
    match model.state {
        ReaderState::Terminated => Disposition::Ignored,
        ReaderState::Listening => match event {
            EventModel::Frame(text) => match decoded(text) {
                Some(m) => Disposition::Routed(outcome_of(model.table, m.channel)),
                None => Disposition::Malformed,
            },
            EventModel::Unreadable => Disposition::Malformed,
            EventModel::Failed => Disposition::Stopped,
            EventModel::Closed => Disposition::Stopped,
        },
    }
}

/// The manager of one connection.
pub struct Manager {
    channels: RoutingTable,
    state: ReaderState,
}

impl View for Manager {
    type V = ManagerModel;

    closed spec fn view(&self) -> ManagerModel {
        ManagerModel { table: self.channels@, state: self.state }
    }
}

impl Manager {
    /// The manager of a fresh connection: nobody is registered and the reader
    /// listens.
    pub fn new() -> (manager: Manager)
        ensures
            manager@ == (ManagerModel {
                table: Seq::<SlotModel>::empty(),
                state: ReaderState::Listening,
            }),
            bounded(manager@.table),
    {
        Manager { channels: RoutingTable::new(), state: ReaderState::Listening }
    }

    /// The state of the reader.
    pub fn state(&self) -> (state: ReaderState)
        ensures
            state == self@.state,
    {
        self.state
    }

    /// One step of the reader. A frame is decoded and, if it is a well-formed
    /// envelope, routed; a malformed frame is dropped and the reader goes on
    /// listening. A failed read or a closed transport stops the reader, and
    /// once stopped it ignores every event. A listening reader routes a frame
    /// that [`Manager::send`] wrote as the envelope it was written from.
    pub fn listen(&mut self, event: TransportEvent) -> (done: Disposition)
        ensures
            final(self)@ == stepped(old(self)@, event@),
            done == disposition_of(old(self)@, event@),
            bounded(old(self)@.table) ==> bounded(final(self)@.table),
            old(self)@.state == ReaderState::Listening ==> (forall|c: Seq<char>, d: Seq<char>|
                event@ == EventModel::Frame(#[trigger] frame_text(c, d)) ==> done
                    == Disposition::Routed(outcome_of(old(self)@.table, c)) && final(self)@.table
                    == routed(old(self)@.table, c, d)),
    {
        match self.state {
            ReaderState::Terminated => Disposition::Ignored,
            ReaderState::Listening => match event {
                TransportEvent::Frame(text) => match decode(text.as_str()) {
                    Ok(msg) => {
                        let (channel, data) = msg.into_parts();
                        Disposition::Routed(self.channels.route(&channel, data))
                    },
                    Err(_) => Disposition::Malformed,
                },
                TransportEvent::Unreadable => Disposition::Malformed,
                TransportEvent::Failed => {
                    self.state = ReaderState::Terminated;
                    Disposition::Stopped
                },
                TransportEvent::Closed => {
                    self.state = ReaderState::Terminated;
                    Disposition::Stopped
                },
            },
        }
    }

    /// Writes the envelope of `data` on `channel` as the frame to put on the
    /// outbound half of the transport. Every envelope can be written.
    pub fn send(&self, channel: String, data: String) -> (r: Result<String, Error>)
        ensures
            r matches Ok(frame) && frame@ == frame_text(channel@, data@),
    {
        let msg = Message::new(channel, data);
        encode(&msg)
    }

    /// What `send` reports once the transport has written the frame or has
    /// refused it with `reason`.
    pub fn complete_send(written: Result<(), String>) -> (r: Result<(), Error>)
        ensures
            written is Ok ==> r is Ok,
            written matches Err(reason) ==> r == Err::<(), Error>(Error::Send(reason)),
    {
        match written {
            Ok(_) => Ok(()),
            Err(reason) => Err(Error::Send(reason)),
        }
    }

    /// Registers a consumer for `channel` and hands out its endpoint. The
    /// queue holds at most [`QUEUE_DEPTH`] payloads. A consumer registered
    /// earlier for the same channel receives nothing more.
    pub fn recv(&mut self, channel: String) -> (endpoint: ConsumerEndpoint)
        ensures
            final(self)@ == (ManagerModel {
                table: registered(old(self)@.table, channel@, QUEUE_DEPTH as nat),
                state: old(self)@.state,
            }),
            endpoint@ == old(self)@.table.len(),
            bounded(old(self)@.table) ==> bounded(final(self)@.table),
    {
        self.channels.register(channel, QUEUE_DEPTH)
    }

    /// Takes the oldest payload that waits for `endpoint`, if one does.
    pub fn take(&mut self, endpoint: &ConsumerEndpoint) -> (payload: Option<String>)
        ensures
            final(self)@ == (ManagerModel {
                table: taken(old(self)@.table, endpoint@),
                state: old(self)@.state,
            }),
            payload matches Some(p) ==> next_for(old(self)@.table, endpoint@) == Some(p@),
            payload is None ==> next_for(old(self)@.table, endpoint@) is None,
            bounded(old(self)@.table) ==> bounded(final(self)@.table),
    {
        self.channels.take(endpoint)
    }

    /// The number of payloads that wait for `endpoint`.
    pub fn pending(&self, endpoint: &ConsumerEndpoint) -> (n: usize)
        ensures
            n == waiting(self@.table, endpoint@).len(),
    {
        self.channels.pending(endpoint)
    }
}

/// Whether the event is an inbound message that holds no well-formed
/// envelope.
pub open spec fn is_malformed(event: EventModel) -> bool {
    match event {
        EventModel::Frame(text) => decoded(text) is None,
        EventModel::Unreadable => true,
        _ => false,
    }
}

/// Malformed input resilience. A listening reader that is fed a message
/// which holds no well-formed envelope stays exactly as it was, still
/// listening; whatever event follows is handled as if the malformed message
/// had never come, so a well-formed frame that follows is routed to its
/// channel.
pub proof fn lemma_malformed_frame_is_harmless(
    model: ManagerModel,
    garbage: EventModel,
    next: EventModel,
)
    requires
        model.state == ReaderState::Listening,
        is_malformed(garbage),
    ensures
        disposition_of(model, garbage) == Disposition::Malformed,
        stepped(model, garbage) == model,
        stepped(stepped(model, garbage), next) == stepped(model, next),
        disposition_of(stepped(model, garbage), next) == disposition_of(model, next),
        next matches EventModel::Frame(text) ==> (decoded(text) matches Some(m) ==> stepped(
            stepped(model, garbage),
            next,
        ) == (ManagerModel {
            table: routed(model.table, m.channel, m.data),
            state: ReaderState::Listening,
        })),
{
}

/// The manager after the reader saw a run of events, one after the other.
pub open spec fn stepped_all(model: ManagerModel, events: Seq<EventModel>) -> ManagerModel
    decreases events.len(),
{
    if events.len() == 0 {
        model
    } else {
        stepped(stepped_all(model, events.drop_last()), events.last())
    }
}

/// The well-formed envelopes among a run of events, in their order of
/// arrival, each as its channel key and its payload.
pub open spec fn envelopes_in(events: Seq<EventModel>) -> Seq<(Seq<char>, Seq<char>)>
    decreases events.len(),
{
    if events.len() == 0 {
        Seq::empty()
    } else {
        let earlier = envelopes_in(events.drop_last());
        match events.last() {
            EventModel::Frame(text) => match decoded(text) {
                Some(m) => earlier.push((m.channel, m.data)),
                None => earlier,
            },
            _ => earlier,
        }
    }
}

/// A listening reader that is fed any run of inbound messages, well-formed
/// and malformed in any mixture, is still listening afterwards, and its table
/// is the one that the well-formed envelopes alone, in their order of
/// arrival, lead to: malformed messages leave no trace.
pub proof fn lemma_run_of_messages(model: ManagerModel, events: Seq<EventModel>)
    requires
        model.state == ReaderState::Listening,
        forall|k: int|
            0 <= k < events.len() ==> (#[trigger] events[k]) is Frame || events[k] is Unreadable,
    ensures
        stepped_all(model, events) == (ManagerModel {
            table: routed_all(model.table, envelopes_in(events)),
            state: ReaderState::Listening,
        }),
    decreases events.len(),
{
    if events.len() > 0 {
        let earlier = events.drop_last();
        assert forall|k: int| 0 <= k < earlier.len() implies (#[trigger] earlier[k]) is Frame
            || earlier[k] is Unreadable by {
            assert(earlier[k] == events[k]);
        }
        lemma_run_of_messages(model, earlier);
        assert(events.last() == events[events.len() - 1]);
        match events.last() {
            EventModel::Frame(text) => {
                if let Some(m) = decoded(text) {
                    let run = envelopes_in(events);
                    assert(run.drop_last() =~= envelopes_in(earlier));
                    assert(run.last() == (m.channel, m.data));
                }
            },
            _ => {},
        }
    }
}

/// Only a failed read or a closed transport stops the reader, and a stopped
/// reader never listens again.
pub proof fn lemma_reader_stops_for_good(model: ManagerModel, event: EventModel)
    ensures
        model.state == ReaderState::Terminated ==> stepped(model, event) == model,
        model.state == ReaderState::Listening && (event is Frame || event is Unreadable)
            ==> stepped(model, event).state == ReaderState::Listening,
        model.state == ReaderState::Listening && (event is Failed || event is Closed) ==> stepped(
            model,
            event,
        ) == (ManagerModel { table: model.table, state: ReaderState::Terminated }),
{
}

} // verus!
