//! The envelope exchanged over the connection, and the errors of the manager.

use vstd::prelude::*;

verus! {

/// The mathematical value of a [`Message`]: its channel key and its payload.
pub struct MessageView {
    pub channel: Seq<char>,
    pub data: Seq<char>,
}

/// One envelope: a channel key and an opaque text payload.
#[derive(Debug, Clone, PartialEq, Eq)]
pub struct Message {
    channel: String,
    data: String,
}

impl View for Message {
    type V = MessageView;

    closed spec fn view(&self) -> MessageView {
        MessageView { channel: self.channel@, data: self.data@ }
    }
}

impl Message {
    /// Builds the envelope that carries `data` on `channel`.
    pub fn new(channel: String, data: String) -> (m: Message)
        ensures
            m@ == (MessageView { channel: channel@, data: data@ }),
    {
        Message { channel, data }
    }

    /// The channel key.
    pub fn channel(&self) -> (key: &String)
        ensures
            key@ == self@.channel,
    {
        &self.channel
    }

    /// The payload.
    pub fn data(&self) -> (payload: &String)
        ensures
            payload@ == self@.data,
    {
        &self.data
    }

    /// Splits the envelope into its channel key and its payload.
    pub fn into_parts(self) -> (parts: (String, String))
        ensures
            parts.0@ == self@.channel,
            parts.1@ == self@.data,
    {
        (self.channel, self.data)
    }
}

/// What can go wrong in the manager.
#[derive(Debug, Clone, PartialEq, Eq)]
pub enum Error {
    /// An envelope could not be written as text.
    Serde(String),
    /// The transport refused an outbound frame.
    Send(String),
    /// An inbound frame was not a well-formed envelope.
    Receive(String),
}

impl Error {
    /// The text carried by the error.
    pub fn message(&self) -> (text: &String)
        ensures
            text@ == self.detail(),
    {
        match self {
            Error::Serde(s) => s,
            Error::Send(s) => s,
            Error::Receive(s) => s,
        }
    }

    /// The text carried by the error, as a sequence of characters.
    pub open spec fn detail(&self) -> Seq<char> {
        match self {
            Error::Serde(s) => s@,
            Error::Send(s) => s@,
            Error::Receive(s) => s@,
        }
    }
}

} // verus!
