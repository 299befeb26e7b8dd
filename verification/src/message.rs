//! What the shared log holds: chat messages and the identities of the peers
//! that write them.

use crate::identity::PeerIdentity;
use vstd::prelude::*;

verus! {

/// A chat message as a mathematical value: its text and its author's key.
#[verifier::ext_equal]
pub struct MessageView {
    pub text: Seq<char>,
    pub author: Seq<u8>,
}

/// An immutable chat message: the text and the identity of its author.
#[derive(Debug, Clone, PartialEq)]
pub struct Message(pub String, pub PeerIdentity);

impl View for Message {
    type V = MessageView;

    open spec fn view(&self) -> MessageView {
        MessageView { text: self.0@, author: self.1@ }
    }
}

impl Message {
    /// A message with the given text, written by `author`.
    pub fn new(text: String, author: PeerIdentity) -> (message: Message)
        ensures
            message@ == (MessageView { text: text@, author: author@ }),
    {
        Message(text, author)
    }

    /// Whether both messages have the same text and the same author.
    pub fn same_as(&self, other: &Message) -> (same: bool)
        ensures
            same == (self@ == other@),
    {
        let same: bool = self.0 == other.0 && self.1.same_as(&other.1);
        assert(same == (self@ =~= other@));
        same
    }

    /// A fresh copy of this message.
    pub fn duplicate(&self) -> (copy: Message)
        ensures
            copy@ == self@,
    {
        Message(self.0.clone(), self.1.duplicate())
    }
}

/// The views of a sequence of messages, in order.
pub open spec fn message_views(messages: Seq<Message>) -> Seq<MessageView> {
    messages.map_values(|m: Message| m@)
}

/// The registry's record of one peer: its identity, stored as an entry of
/// its own.
#[derive(Debug, Clone, PartialEq)]
pub struct Agent(PeerIdentity);

impl View for Agent {
    type V = Seq<u8>;

    closed spec fn view(&self) -> Seq<u8> {
        self.0@
    }
}

impl Agent {
    /// The record of the peer `identity`.
    pub fn new(identity: PeerIdentity) -> (agent: Agent)
        ensures
            agent@ == identity@,
    {
        Agent(identity)
    }

    /// The identity that this record holds.
    pub fn identity(&self) -> (identity: &PeerIdentity)
        ensures
            identity@ == self@,
    {
        &self.0
    }

    /// Gives up the record for the identity in it.
    pub fn into_identity(self) -> (identity: PeerIdentity)
        ensures
            identity@ == self@,
    {
        self.0
    }
}

/// The content of an entry as a mathematical value.
#[verifier::ext_equal]
pub enum EntryView {
    Agent(Seq<u8>),
    Message(MessageView),
}

/// The payload of a stored entry: a peer's identity or a chat message.
#[derive(Debug, Clone, PartialEq)]
pub enum Entry {
    Agent(Agent),
    Message(Message),
}

impl View for Entry {
    type V = EntryView;

    open spec fn view(&self) -> EntryView {
        match self {
            Entry::Agent(agent) => EntryView::Agent(agent@),
            Entry::Message(message) => EntryView::Message(message@),
        }
    }
}

impl Entry {
    /// Whether both entries hold the same content.
    pub fn same_as(&self, other: &Entry) -> (same: bool)
        ensures
            same == (self@ == other@),
    {
        match self {
            Entry::Agent(agent) => match other {
                Entry::Agent(other_agent) => agent.identity().same_as(other_agent.identity()),
                Entry::Message(_) => false,
            },
            Entry::Message(message) => match other {
                Entry::Agent(_) => false,
                Entry::Message(other_message) => message.same_as(other_message),
            },
        }
    }

    /// A fresh copy of this entry.
    pub fn duplicate(&self) -> (copy: Entry)
        ensures
            copy@ == self@,
    {
        match self {
            Entry::Agent(agent) => Entry::Agent(Agent::new(agent.identity().duplicate())),
            Entry::Message(message) => Entry::Message(message.duplicate()),
        }
    }
}

/// What following one link gave: the entry behind it, or nothing where the
/// target did not resolve or could not be read.
pub open spec fn lookup_view(lookup: Option<Entry>) -> Option<EntryView> {
    match lookup {
        Some(entry) => Some(entry@),
        None => None,
    }
}

/// The views of a sequence of lookups, in order.
pub open spec fn lookup_views(lookups: Seq<Option<Entry>>) -> Seq<Option<EntryView>> {
    lookups.map_values(|l: Option<Entry>| lookup_view(l))
}

/// What a history request answers with: the messages of the log, in the
/// order of their links.
#[derive(Debug, Clone, PartialEq)]
pub struct FetchMessagesResponse(Vec<Message>);

impl View for FetchMessagesResponse {
    type V = Seq<MessageView>;

    closed spec fn view(&self) -> Seq<MessageView> {
        message_views(self.0@)
    }
}

impl FetchMessagesResponse {
    /// Wraps the messages of a history.
    pub fn new(messages: Vec<Message>) -> (response: FetchMessagesResponse)
        ensures
            response@ == message_views(messages@),
    {
        FetchMessagesResponse(messages)
    }

    /// The messages, in order.
    pub fn messages(&self) -> (messages: &Vec<Message>)
        ensures
            message_views(messages@) == self@,
    {
        &self.0
    }

    /// Gives up the response for the messages in it.
    pub fn into_inner(self) -> (messages: Vec<Message>)
        ensures
            message_views(messages@) == self@,
    {
        self.0
    }
}

} // verus!
