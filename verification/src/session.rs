//! One connection of the stream transport, as the relay sees it: a name, a
//! subscription to the hub, and what the relay does with each line that the
//! client sends and with each text that the hub delivers.
//!
//! The functions here decide; reading from and writing to the connection is
//! left to the caller, which may wait on the connection and on the hub at
//! once and hand over whichever is ready first.

use crate::hub::{Hub, HubView, SubscriberId};
use crate::names::{is_assigned_name, random_name};
use crate::text::{starts_with, texts};
use vstd::prelude::*;
use vstd::string::*;

verus! {

/// The help text that a client gets on connecting and on `/help`.
pub const HELP_MSG: &'static str =
    "Welcome to the chat relay.\nEvery line you send goes to everyone else who is connected.\nCommands:\n  /help  show this text again\n  /quit  leave the chat";

/// What a line from a client asks for.
#[derive(Clone, Copy, Debug, PartialEq, Eq, Structural)]
pub enum Command {
    /// Send the help text again.
    Help,
    /// End the session.
    Quit,
    /// Pass the line on to the others.
    Say,
}

/// A line is a command where it starts with the command's word; every
/// other line, an unknown `/`-word included, is chat.
pub open spec fn command_of(line: Seq<char>) -> Command {
    if "/help"@.is_prefix_of(line) {
        Command::Help
    } else if "/quit"@.is_prefix_of(line) {
        Command::Quit
    } else {
        Command::Say
    }
}

/// The text under which a line reaches the other clients.
pub open spec fn chat_line(name: Seq<char>, line: Seq<char>) -> Seq<char> {
    name + ": "@ + line
}

/// The text that tells a client its name.
pub open spec fn identity_line(name: Seq<char>) -> Seq<char> {
    "You are "@ + name
}

/// What a client is sent on connecting: the help text, then its name.
pub open spec fn greeting(name: Seq<char>) -> Seq<Seq<char>> {
    seq![HELP_MSG@, identity_line(name)]
}

/// What the relay does after a line from the client.
#[derive(Debug, PartialEq, Eq)]
pub enum Reply {
    /// Write the text to the client; nothing was published.
    Send(String),
    /// The line was published to the others; nothing goes to the client.
    Published,
    /// End the session.
    Close,
}

/// What a line from a client asks for.
pub fn parse_command(line: &str) -> (command: Command)
    ensures
        command == command_of(line@),
{
    if starts_with(line, "/help") {
        Command::Help
    } else if starts_with(line, "/quit") {
        Command::Quit
    } else {
        Command::Say
    }
}

/// One connected client of the stream transport.
pub struct Session {
    id: SubscriberId,
    name: String,
}

impl Session {
    /// The session's subscription to the hub.
    pub closed spec fn id(&self) -> SubscriberId {
        self.id
    }

    /// The session's display name, fixed for its lifetime.
    pub closed spec fn name(&self) -> Seq<char> {
        self.name@
    }

    /// Starts a session under the given name: subscribes it to the hub and
    /// returns it with the texts to send to the client first. Returns
    /// nothing, and leaves the hub as it is, only where the hub has no
    /// identifier left.
    pub fn open(hub: &mut Hub, name: String) -> (opened: Option<(Session, Vec<String>)>)
        requires
            old(hub).wf(),
        ensures
            final(hub).wf(),
            opened is Some == (old(hub)@.issued < u64::MAX),
            opened is None ==> final(hub)@ == old(hub)@,
            opened matches Some((session, first)) ==> {
                &&& final(hub)@ == old(hub)@.subscribe()
                &&& session.id() == old(hub)@.issued
                &&& session.name() == name@
                &&& texts(first@) == greeting(name@)
            },
    {
        match hub.subscribe() {
            None => None,
            Some(id) => {
                let mut first: Vec<String> = Vec::new();
                first.push(String::from_str(HELP_MSG));
                first.push(String::from_str("You are ").concat(name.as_str()));
                assert(texts(first@) =~= greeting(name@));
                Some((Session { id, name }, first))
            },
        }
    }

    /// Starts a session under a fresh random name. Which name it gets is
    /// left open; the rest is as in [`Session::open`].
    pub fn accept(hub: &mut Hub) -> (opened: Option<(Session, Vec<String>)>)
        requires
            old(hub).wf(),
        ensures
            final(hub).wf(),
            opened is Some == (old(hub)@.issued < u64::MAX),
            opened is None ==> final(hub)@ == old(hub)@,
            opened matches Some((session, first)) ==> {
                &&& final(hub)@ == old(hub)@.subscribe()
                &&& session.id() == old(hub)@.issued
                &&& is_assigned_name(session.name())
                &&& texts(first@) == greeting(session.name())
            },
    {
        Session::open(hub, random_name())
    }

    /// Acts on a line from the client. `/help` sends the help text again
    /// and publishes nothing; `/quit` asks to end the session; any other
    /// line is published to all other subscribers under the session's name.
    pub fn on_line(&self, hub: &mut Hub, line: &str) -> (reply: Reply)
        requires
            old(hub).wf(),
        ensures
            final(hub).wf(),
            match command_of(line@) {
                Command::Help => final(hub)@ == old(hub)@ && (reply matches Reply::Send(text)
                    && text@ == HELP_MSG@),
                Command::Quit => final(hub)@ == old(hub)@ && reply is Close,
                Command::Say => final(hub)@ == old(hub)@.publish(
                    self.id(),
                    chat_line(self.name(), line@),
                ) && reply is Published,
            },
    {
        match parse_command(line) {
            Command::Help => Reply::Send(String::from_str(HELP_MSG)),
            Command::Quit => Reply::Close,
            Command::Say => {
                let text = self.name.clone().concat(": ").concat(line);
                hub.publish(self.id, text.as_str());
                Reply::Published
            },
        }
    }

    /// The next text that the hub holds for this session, to be written to
    /// the client as it is.
    pub fn next_delivery(&self, hub: &mut Hub) -> (text: Option<String>)
        requires
            old(hub).wf(),
        ensures
            final(hub).wf(),
            final(hub)@ == old(hub)@.advance(self.id()),
            match text {
                Some(t) => old(hub)@.oldest(self.id()) == Some(t@),
                None => old(hub)@.oldest(self.id()) is None,
            },
    {
        hub.receive(self.id)
    }

    /// Ends the session, whatever ended it: the subscription is released,
    /// and nothing is published about the departure.
    pub fn close(self, hub: &mut Hub)
        requires
            old(hub).wf(),
        ensures
            final(hub).wf(),
            final(hub)@ == old(hub)@.unsubscribe(self.id()),
    {
        let _ = hub.unsubscribe(self.id);
    }

    /// The session's subscription to the hub.
    pub fn subscriber_id(&self) -> (id: SubscriberId)
        ensures
            id == self.id(),
    {
        self.id
    }

    /// The session's display name.
    pub fn display_name(&self) -> (name: &str)
        ensures
            name@ == self.name(),
    {
        self.name.as_str()
    }
}

/// A client that sends a line does not get it back, and every other
/// connected client gets exactly the sender's name, a colon, and the line.
pub proof fn law_chat_reaches_others_only(
    hub: HubView,
    sender: SubscriberId,
    name: Seq<char>,
    line: Seq<char>,
    other: SubscriberId,
)
    requires
        hub.wf(),
        hub.subscribed(sender),
        hub.subscribed(other),
        other != sender,
    ensures
        hub.publish(sender, chat_line(name, line)).backlogs[sender] == hub.backlogs[sender],
        hub.publish(sender, chat_line(name, line)).backlogs[other].last() == chat_line(
            name,
            line,
        ),
{
}

} // verus!
