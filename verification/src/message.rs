//! The unit that peers exchange, and the line a client shows for it.

use vstd::prelude::*;
use vstd::string::*;

verus! {

/// One message of the datagram transport.
#[derive(Debug, PartialEq, Eq)]
pub enum NetMessage {
    /// A participant became visible to the others.
    Join { username: String },
    /// A participant departed.
    Leave { username: String },
    /// A line that a participant wrote.
    Chat { username: String, content: String },
}

/// What a [`NetMessage`] holds, as plain text.
pub ghost enum MessageView {
    Join { username: Seq<char> },
    Leave { username: Seq<char> },
    Chat { username: Seq<char>, content: Seq<char> },
}

impl View for NetMessage {
    type V = MessageView;

    open spec fn view(&self) -> MessageView {
        match self {
            NetMessage::Join { username } => MessageView::Join { username: username@ },
            NetMessage::Leave { username } => MessageView::Leave { username: username@ },
            NetMessage::Chat { username, content } => MessageView::Chat {
                username: username@,
                content: content@,
            },
        }
    }
}

/// What a sequence of messages holds.
pub open spec fn message_views(v: Seq<NetMessage>) -> Seq<MessageView> {
    v.map_values(|m: NetMessage| m@)
}

/// The line a client shows for a message.
pub open spec fn display_text(m: MessageView) -> Seq<char> {
    match m {
        MessageView::Join { username } => username + ": joined the chat"@,
        MessageView::Leave { username } => username + ": left the chat"@,
        MessageView::Chat { username, content } => username + ": "@ + content,
    }
}

/// The name of the participant a message is about.
pub open spec fn sender_name(m: MessageView) -> Seq<char> {
    match m {
        MessageView::Join { username } => username,
        MessageView::Leave { username } => username,
        MessageView::Chat { username, .. } => username,
    }
}

impl Clone for NetMessage {
    /// A copy of the message, field by field.
    fn clone(&self) -> (copy: NetMessage)
        ensures
            copy@ == self@,
    {
        match self {
            NetMessage::Join { username } => NetMessage::Join { username: username.clone() },
            NetMessage::Leave { username } => NetMessage::Leave { username: username.clone() },
            NetMessage::Chat { username, content } => NetMessage::Chat {
                username: username.clone(),
                content: content.clone(),
            },
        }
    }
}

impl NetMessage {
    /// The name of the participant the message is about.
    pub fn username(&self) -> (name: &str)
        ensures
            name@ == sender_name(self@),
    {
        match self {
            NetMessage::Join { username } => username.as_str(),
            NetMessage::Leave { username } => username.as_str(),
            NetMessage::Chat { username, .. } => username.as_str(),
        }
    }

    /// The line a client shows for the message: the name, a colon, and then
    /// either the content or the words for joining and leaving.
    pub fn display_line(&self) -> (line: String)
        ensures
            line@ == display_text(self@),
    {
        match self {
            NetMessage::Join { username } => username.clone().concat(": joined the chat"),
            NetMessage::Leave { username } => username.clone().concat(": left the chat"),
            NetMessage::Chat { username, content } => username.clone().concat(": ").concat(
                content.as_str(),
            ),
        }
    }
}

} // verus!
