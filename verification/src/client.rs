//! The client of one peer: it registers, shows the history, then listens to
//! the live stream while it sends what the user types. The client decides;
//! whoever runs it performs each action and reports what came of it.

use crate::bootstrap::{setup_plan, Setup};
use crate::identity::{key_text, short_name, short_name_of, PeerIdentity};
use crate::message::{message_views, Message, MessageView};
use vstd::prelude::*;
use vstd::string::*;

verus! {

/// Where the client stands in its life.
#[derive(Debug, Clone, Copy, PartialEq, Eq, Structural)]
pub enum Phase {
    /// Waiting to learn what the host has installed.
    Starting,
    /// Waiting for the local identity to be established.
    Registering,
    /// The history was asked for.
    LoadingHistory,
    /// The live listener is being attached.
    Attaching,
    /// Listening to the live stream and sending.
    Live,
    /// The input ended; the client is done.
    Stopped,
    /// Something fatal happened; only a restart helps.
    Failed,
}

/// What the client is told.
#[derive(Debug, Clone, PartialEq)]
pub enum Event {
    /// The host was asked for its cells: it holds so many, or could not say.
    Cells(Option<usize>),
    /// Registration ended: with the local identity, or without one.
    Identity(Option<PeerIdentity>),
    /// The read of the history ended: with the messages, or in a failure.
    History(Option<Vec<Message>>),
    /// The attempt to attach the live listener ended.
    Attached(bool),
    /// The live listener was handed a message.
    Signal(Message),
    /// The live stream closed.
    SignalsClosed,
    /// The user typed a line.
    Line(String),
    /// An append that the client had asked for failed.
    SendFailed,
    /// The input ended: by an interrupt, its end, or an error.
    InputEnded,
}

/// What the client asks for.
#[derive(Debug, Clone, PartialEq)]
pub enum Action {
    /// Make an identity, install the chat and activate it, which registers
    /// the identity.
    Install,
    /// Go on as the identity of the first cell that the host holds.
    UseExisting,
    /// Read the history.
    FetchHistory,
    /// Attach the live listener.
    AttachListener,
    /// Show a message to the user.
    Display(Message),
    /// Append a message.
    Send(Message),
    /// Tell the user that a message was not sent.
    ReportSendFailure,
    /// Wind down.
    Shutdown,
    /// Give up at once.
    Abort,
}

/// An event as a mathematical value.
pub enum EventView {
    Cells(Option<usize>),
    Identity(Option<Seq<u8>>),
    History(Option<Seq<MessageView>>),
    Attached(bool),
    Signal(MessageView),
    SignalsClosed,
    Line(Seq<char>),
    SendFailed,
    InputEnded,
}

/// An action as a mathematical value.
pub enum ActionView {
    Install,
    UseExisting,
    FetchHistory,
    AttachListener,
    Display(MessageView),
    Send(MessageView),
    ReportSendFailure,
    Shutdown,
    Abort,
}

impl View for Event {
    type V = EventView;

    open spec fn view(&self) -> EventView {
        match self {
            Event::Cells(cells) => EventView::Cells(*cells),
            Event::Identity(Some(identity)) => EventView::Identity(Some(identity@)),
            Event::Identity(None) => EventView::Identity(None),
            Event::History(Some(messages)) => EventView::History(Some(message_views(messages@))),
            Event::History(None) => EventView::History(None),
            Event::Attached(attached) => EventView::Attached(*attached),
            Event::Signal(message) => EventView::Signal(message@),
            Event::SignalsClosed => EventView::SignalsClosed,
            Event::Line(text) => EventView::Line(text@),
            Event::SendFailed => EventView::SendFailed,
            Event::InputEnded => EventView::InputEnded,
        }
    }
}

impl View for Action {
    type V = ActionView;

    open spec fn view(&self) -> ActionView {
        match self {
            Action::Install => ActionView::Install,
            Action::UseExisting => ActionView::UseExisting,
            Action::FetchHistory => ActionView::FetchHistory,
            Action::AttachListener => ActionView::AttachListener,
            Action::Display(message) => ActionView::Display(message@),
            Action::Send(message) => ActionView::Send(message@),
            Action::ReportSendFailure => ActionView::ReportSendFailure,
            Action::Shutdown => ActionView::Shutdown,
            Action::Abort => ActionView::Abort,
        }
    }
}

/// The views of a sequence of actions, in order.
pub open spec fn action_views(actions: Seq<Action>) -> Seq<ActionView> {
    actions.map_values(|a: Action| a@)
}

/// The client as a mathematical value.
pub struct ClientView {
    pub phase: Phase,
    /// The local identity, once it is established.
    pub me: Option<Seq<u8>>,
}

impl ClientView {
    /// Whether the client has come to rest: no event moves it any more.
    pub open spec fn at_rest(self) -> bool {
        self.phase == Phase::Stopped || self.phase == Phase::Failed
    }

    /// Whether the client knows who it is wherever it has to: a client that
    /// went past registration has an identity.
    pub open spec fn valid(self) -> bool {
        (self.phase == Phase::LoadingHistory || self.phase == Phase::Attaching || self.phase
            == Phase::Live || self.phase == Phase::Stopped) ==> self.me is Some
    }
}

/// One request to show each of `messages`, in their order.
pub open spec fn displays(messages: Seq<MessageView>) -> Seq<ActionView> {
    messages.map_values(|m: MessageView| ActionView::Display(m))
}

/// What the client becomes when it is told `event`, and what it asks for,
/// in the order in which it is to be done. An event that the present phase
/// does not wait for changes nothing and asks for nothing.
pub open spec fn step_of(client: ClientView, event: EventView) -> (ClientView, Seq<ActionView>) {
    match (client.phase, event) {
        (Phase::Starting, EventView::Cells(Some(cells))) => (
            ClientView { phase: Phase::Registering, ..client },
            seq![
                if cells == 0 {
                    ActionView::Install
                } else {
                    ActionView::UseExisting
                },
            ],
        ),
        (Phase::Starting, EventView::Cells(None)) => (
            ClientView { phase: Phase::Failed, ..client },
            seq![ActionView::Abort],
        ),
        (Phase::Registering, EventView::Identity(Some(identity))) => (
            ClientView { phase: Phase::LoadingHistory, me: Some(identity) },
            seq![ActionView::FetchHistory],
        ),
        (Phase::Registering, EventView::Identity(None)) => (
            ClientView { phase: Phase::Failed, ..client },
            seq![ActionView::Abort],
        ),
        (Phase::LoadingHistory, EventView::History(Some(messages))) => (
            ClientView { phase: Phase::Attaching, ..client },
            displays(messages).push(ActionView::AttachListener),
        ),
        (Phase::LoadingHistory, EventView::History(None)) => (
            ClientView { phase: Phase::Attaching, ..client },
            seq![ActionView::AttachListener],
        ),
        (Phase::Attaching, EventView::Attached(true)) => (
            ClientView { phase: Phase::Live, ..client },
            Seq::empty(),
        ),
        (Phase::Attaching, EventView::Attached(false)) => (
            ClientView { phase: Phase::Failed, ..client },
            seq![ActionView::Abort],
        ),
        (Phase::Live, EventView::Signal(message)) => (client, seq![ActionView::Display(message)]),
        (Phase::Live, EventView::SignalsClosed) => (
            ClientView { phase: Phase::Failed, ..client },
            seq![ActionView::Abort],
        ),
        (Phase::Live, EventView::Line(text)) => match client.me {
            Some(me) => (client, seq![ActionView::Send(MessageView { text, author: me })]),
            None => (client, Seq::empty()),
        },
        (Phase::Live, EventView::SendFailed) => (client, seq![ActionView::ReportSendFailure]),
        (Phase::Live, EventView::InputEnded) => (
            ClientView { phase: Phase::Stopped, ..client },
            seq![ActionView::Shutdown],
        ),
        _ => (client, Seq::empty()),
    }
}

/// The client of one peer.
pub struct Client {
    phase: Phase,
    me: Option<PeerIdentity>,
}

impl View for Client {
    type V = ClientView;

    closed spec fn view(&self) -> ClientView {
        ClientView {
            phase: self.phase,
            me: match self.me {
                Some(me) => Some(me@),
                None => None,
            },
        }
    }
}

impl Client {
    /// A client that has yet to start.
    pub fn new() -> (client: Client)
        ensures
            client@ == (ClientView { phase: Phase::Starting, me: None }),
    {
        Client { phase: Phase::Starting, me: None }
    }

    /// Where the client stands.
    pub fn phase(&self) -> (phase: Phase)
        ensures
            phase == self@.phase,
    {
        self.phase
    }

    /// The local identity, once it is established.
    pub fn identity(&self) -> (me: Option<&PeerIdentity>)
        ensures
            me is Some <==> self@.me is Some,
            me matches Some(identity) ==> Some(identity@) == self@.me,
    {
        self.me.as_ref()
    }

    /// Tells the client what happened. It moves on, and answers with what is
    /// to be done next, in order.
    pub fn step(&mut self, event: Event) -> (actions: Vec<Action>)
        ensures
            (final(self)@, action_views(actions@)) == step_of(old(self)@, event@),
    {
        let mut actions: Vec<Action> = Vec::new();
        assert(action_views(actions@) =~= Seq::<ActionView>::empty());
        match self.phase {
            Phase::Starting => match event {
                Event::Cells(Some(cells)) => {
                    self.phase = Phase::Registering;
                    match setup_plan(cells) {
                        Setup::Fresh => {
                            actions.push(Action::Install);
                            assert(action_views(actions@) =~= seq![ActionView::Install]);
                        },
                        Setup::Existing => {
                            actions.push(Action::UseExisting);
                            assert(action_views(actions@) =~= seq![ActionView::UseExisting]);
                        },
                    }
                },
                Event::Cells(None) => {
                    self.phase = Phase::Failed;
                    actions.push(Action::Abort);
                    assert(action_views(actions@) =~= seq![ActionView::Abort]);
                },
                _ => {},
            },
            Phase::Registering => match event {
                Event::Identity(Some(identity)) => {
                    self.me = Some(identity);
                    self.phase = Phase::LoadingHistory;
                    actions.push(Action::FetchHistory);
                    assert(action_views(actions@) =~= seq![ActionView::FetchHistory]);
                },
                Event::Identity(None) => {
                    self.phase = Phase::Failed;
                    actions.push(Action::Abort);
                    assert(action_views(actions@) =~= seq![ActionView::Abort]);
                },
                _ => {},
            },
            Phase::LoadingHistory => match event {
                Event::History(Some(messages)) => {
                    self.phase = Phase::Attaching;
                    let mut i: usize = 0;
                    assert(displays(message_views(messages@.take(0))) =~= action_views(actions@));
                    while i < messages.len()
                        invariant
                            i <= messages.len(),
                            action_views(actions@) == displays(
                                message_views(messages@.take(i as int)),
                            ),
                        decreases messages.len() - i,
                    {
                        let ghost before = actions@;
                        actions.push(Action::Display(messages[i].duplicate()));
                        proof {
                            assert(messages@.take(i + 1) =~= messages@.take(i as int).push(
                                messages@[i as int],
                            ));
                            assert(action_views(actions@) =~= action_views(before).push(
                                ActionView::Display(messages@[i as int]@),
                            ));
                            assert(displays(message_views(messages@.take(i + 1))) =~= displays(
                                message_views(messages@.take(i as int)),
                            ).push(ActionView::Display(messages@[i as int]@)));
                        }
                        i += 1;
                    }
                    assert(messages@.take(messages@.len() as int) =~= messages@);
                    let ghost shown = actions@;
                    actions.push(Action::AttachListener);
                    assert(action_views(actions@) =~= action_views(shown).push(
                        ActionView::AttachListener,
                    ));
                },
                Event::History(None) => {
                    self.phase = Phase::Attaching;
                    actions.push(Action::AttachListener);
                    assert(action_views(actions@) =~= seq![ActionView::AttachListener]);
                },
                _ => {},
            },
            Phase::Attaching => match event {
                Event::Attached(true) => {
                    self.phase = Phase::Live;
                },
                Event::Attached(false) => {
                    self.phase = Phase::Failed;
                    actions.push(Action::Abort);
                    assert(action_views(actions@) =~= seq![ActionView::Abort]);
                },
                _ => {},
            },
            Phase::Live => match event {
                Event::Signal(message) => {
                    actions.push(Action::Display(message));
                    assert(action_views(actions@) =~= seq![ActionView::Display(message@)]);
                },
                Event::SignalsClosed => {
                    self.phase = Phase::Failed;
                    actions.push(Action::Abort);
                    assert(action_views(actions@) =~= seq![ActionView::Abort]);
                },
                Event::Line(text) => {
                    match &self.me {
                        Some(me) => {
                            let message = Message::new(text, me.duplicate());
                            actions.push(Action::Send(message));
                            assert(action_views(actions@) =~= seq![ActionView::Send(message@)]);
                        },
                        None => {},
                    }
                },
                Event::SendFailed => {
                    actions.push(Action::ReportSendFailure);
                    assert(action_views(actions@) =~= seq![ActionView::ReportSendFailure]);
                },
                Event::InputEnded => {
                    self.phase = Phase::Stopped;
                    actions.push(Action::Shutdown);
                    assert(action_views(actions@) =~= seq![ActionView::Shutdown]);
                },
                _ => {},
            },
            Phase::Stopped => {},
            Phase::Failed => {},
        }
        actions
    }
}

/// The line that shows a message whose author's short name is `name`.
pub open spec fn line_of(name: Seq<char>, text: Seq<char>) -> Seq<char> {
    name + seq![':', ' '] + text
}

/// The line that shows a message with the text `text`, written by the peer
/// whose key reads `author`; `None` where the key's text has no short name.
pub open spec fn display_of(author: Seq<char>, text: Seq<char>) -> Option<Seq<char>> {
    match short_name_of(author) {
        Some(name) => Some(line_of(name, text)),
        None => None,
    }
}

/// The line that shows a message: the author's short name, a colon and a
/// space, and the text. It takes the author's key as text.
pub fn display_line(author: &str, text: &str) -> (line: Option<String>)
    ensures
        line is Some <==> display_of(author@, text@) is Some,
        line matches Some(l) ==> Some(l@) == display_of(author@, text@),
{
    match short_name(author) {
        Some(name) => {
            proof {
                reveal_strlit(": ");
                assert(": "@ =~= seq![':', ' ']);
            }
            let line = name.concat(": ").concat(text);
            Some(line)
        },
        None => None,
    }
}

/// The line that shows a message to the user; `None` where the text of the
/// author's key has no short name.
pub fn display_message(message: &Message) -> (line: Option<String>)
    ensures
        line is Some <==> display_of(key_text(message@.author), message@.text) is Some,
        line matches Some(l) ==> Some(l@) == display_of(key_text(message@.author), message@.text),
{
    let author = message.1.text();
    display_line(author.as_str(), message.0.as_str())
}

/// The prompt at which the peer `me` types: its short name, a colon and a
/// space; `None` where the text of its key has no short name.
pub fn prompt(me: &PeerIdentity) -> (line: Option<String>)
    ensures
        line is Some <==> display_of(key_text(me@), Seq::empty()) is Some,
        line matches Some(l) ==> Some(l@) == display_of(key_text(me@), Seq::empty()),
{
    let author = me.text();
    let empty = String::new();
    display_line(author.as_str(), empty.as_str())
}

/// A client stays valid whatever it is told.
pub proof fn law_client_stays_valid(client: ClientView, event: EventView)
    requires
        client.valid(),
    ensures
        step_of(client, event).0.valid(),
{
}

/// A client that stopped or failed stays as it is and asks for nothing
/// more, whatever it is told.
pub proof fn law_rest_is_final(client: ClientView, event: EventView)
    requires
        client.at_rest(),
    ensures
        step_of(client, event) == (client, Seq::<ActionView>::empty()),
{
}

/// Nothing is shown before the history is in, and nothing is sent before
/// the client is live: a request to show a message comes only for a message
/// of the history just read or for the live message just heard, a request
/// to send only for the line just typed, under the client's own identity.
pub proof fn law_shows_what_it_was_told(client: ClientView, event: EventView, i: int)
    requires
        0 <= i < step_of(client, event).1.len(),
    ensures
        match step_of(client, event).1[i] {
            ActionView::Display(message) => match event {
                EventView::History(Some(messages)) => client.phase == Phase::LoadingHistory && i
                    < messages.len() && messages[i] == message,
                EventView::Signal(heard) => client.phase == Phase::Live && heard == message,
                _ => false,
            },
            ActionView::Send(message) => client.phase == Phase::Live && event == EventView::Line(
                message.text,
            ) && client.me == Some(message.author),
            _ => true,
        },
{
}

} // verus!
