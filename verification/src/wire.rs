//! The datagram codec: one message per packet, as a JSON object with one
//! member, named after the kind of message, whose value holds the fields:
//! `{"Join":{"username":"ann"}}`, `{"Leave":{"username":"ann"}}`,
//! `{"Chat":{"username":"ann","content":"hi"}}`.
//!
//! Reading JSON and quoting JSON strings is serde_json's work; what the
//! members mean is decided here.

use crate::message::{MessageView, NetMessage};
use std::collections::BTreeMap;
use vstd::prelude::*;
use vstd::string::*;
use vstd::utf8::*;

verus! {

/// The members of a JSON object whose values are strings.
pub type Fields = Vec<(String, String)>;

/// The members of a JSON object whose values are objects of strings.
pub type TaggedFields = Vec<(String, Fields)>;

/// What [`Fields`] hold, as plain text.
pub type FieldsView = Seq<(Seq<char>, Seq<char>)>;

/// What [`TaggedFields`] hold, as plain text.
pub type TaggedFieldsView = Seq<(Seq<char>, FieldsView)>;

/// The JSON string literal for a text, quotes included, as
/// `serde_json::to_string` writes it.
pub uninterp spec fn json_string(text: Seq<char>) -> Seq<char>;

/// The members of the JSON object that the bytes hold, in the order of
/// their names, where `serde_json::from_slice` reads the bytes as an object
/// of objects of strings; nothing where it does not.
pub uninterp spec fn json_tagged_fields(bytes: Seq<u8>) -> Option<TaggedFieldsView>;

pub open spec fn fields_view(fields: Seq<(String, String)>) -> FieldsView {
    fields.map_values(|f: (String, String)| (f.0@, f.1@))
}

pub open spec fn tagged_view(entries: Seq<(String, Fields)>) -> TaggedFieldsView {
    entries.map_values(|e: (String, Fields)| (e.0@, fields_view(e.1@)))
}

pub open spec fn parsed_view(parsed: Option<TaggedFields>) -> Option<TaggedFieldsView> {
    match parsed {
        Some(entries) => Some(tagged_view(entries@)),
        None => None,
    }
}

pub open spec fn message_view(msg: Option<NetMessage>) -> Option<MessageView> {
    match msg {
        Some(m) => Some(m@),
        None => None,
    }
}

/// The value of the first field with the given name.
pub open spec fn field_value(fields: FieldsView, name: Seq<char>) -> Option<Seq<char>>
    decreases fields.len(),
{
    if fields.len() == 0 {
        None
    } else if fields[0].0 == name {
        Some(fields[0].1)
    } else {
        field_value(fields.drop_first(), name)
    }
}

/// The message that the members of a packet stand for. There must be one
/// member, named `Join`, `Leave` or `Chat`, with a `username`, and for
/// `Chat` with a `content`; further fields are ignored.
pub open spec fn message_of(entries: TaggedFieldsView) -> Option<MessageView> {
    if entries.len() != 1 {
        None
    } else {
        let tag = entries[0].0;
        let username = field_value(entries[0].1, "username"@);
        let content = field_value(entries[0].1, "content"@);
        if username is None {
            None
        } else if tag == "Join"@ {
            Some(MessageView::Join { username: username->0 })
        } else if tag == "Leave"@ {
            Some(MessageView::Leave { username: username->0 })
        } else if tag == "Chat"@ && content is Some {
            Some(MessageView::Chat { username: username->0, content: content->0 })
        } else {
            None
        }
    }
}

/// The message that a packet holds, if it holds one.
pub open spec fn decoded_message(packet: Seq<u8>) -> Option<MessageView> {
    match json_tagged_fields(packet) {
        Some(entries) => message_of(entries),
        None => None,
    }
}

/// The text of a packet, given the name of its member and the fields as
/// JSON string literals.
pub open spec fn framed(tag: Seq<char>, username: Seq<char>, content: Option<Seq<char>>) -> Seq<
    char,
> {
    "{\""@ + tag + "\":{\"username\":"@ + username + (match content {
        Some(c) => ",\"content\":"@ + c,
        None => Seq::empty(),
    }) + "}}"@
}

/// The text of the packet for a message.
pub open spec fn wire_text(m: MessageView) -> Seq<char> {
    match m {
        MessageView::Join { username } => framed("Join"@, json_string(username), None),
        MessageView::Leave { username } => framed("Leave"@, json_string(username), None),
        MessageView::Chat { username, content } => framed(
            "Chat"@,
            json_string(username),
            Some(json_string(content)),
        ),
    }
}

/// `serde_json::to_string` on a string: the JSON string literal for the
/// text. Writing a string cannot fail.
#[verifier::external_body]
fn quote_json(text: &str) -> (quoted: String)
    ensures
        quoted@ == json_string(text@),
{
    serde_json::to_string(text).unwrap_or_default()
}

/// `serde_json::from_slice` into a map of maps of strings: the members of
/// the object that the bytes hold, or nothing where the bytes are not such
/// an object. The maps are handed out as lists, in the order of the maps.
#[verifier::external_body]
fn parse_tagged_fields(bytes: &[u8]) -> (parsed: Option<TaggedFields>)
    ensures
        parsed_view(parsed) == json_tagged_fields(bytes@),
{
    let parsed: Result<BTreeMap<String, BTreeMap<String, String>>, serde_json::Error> =
        serde_json::from_slice(bytes);
    match parsed {
        Ok(object) => Some(
            object.into_iter().map(|(tag, fields)| (tag, fields.into_iter().collect())).collect(),
        ),
        Err(_) => None,
    }
}

/// The value of the first field with the given name.
fn find_field<'a>(fields: &'a Fields, name: &str) -> (value: Option<&'a String>)
    ensures
        match value {
            Some(v) => field_value(fields_view(fields@), name@) == Some(v@),
            None => field_value(fields_view(fields@), name@) is None,
        },
{
    let wanted = String::from_str(name);
    let ghost all = fields_view(fields@);
    let mut i: usize = 0;
    assert(all.skip(0) =~= all);
    while i < fields.len()
        invariant
            i <= fields@.len(),
            all == fields_view(fields@),
            wanted@ == name@,
            field_value(all, name@) == field_value(all.skip(i as int), name@),
        decreases fields@.len() - i,
    {
        assert(all.skip(i as int)[0] == all[i as int]);
        assert(all.skip(i as int).drop_first() =~= all.skip(i + 1));
        if fields[i].0 == wanted {
            return Some(&fields[i].1);
        }
        i += 1;
    }
    None
}

/// The message that the members of a packet stand for; see
/// [`message_of`].
pub fn message_from_fields(entries: &TaggedFields) -> (msg: Option<NetMessage>)
    ensures
        message_view(msg) == message_of(tagged_view(entries@)),
{
    if entries.len() != 1 {
        return None;
    }
    let tag = &entries[0].0;
    let fields = &entries[0].1;
    assert(tagged_view(entries@)[0] == (tag@, fields_view(fields@)));
    let username = match find_field(fields, "username") {
        Some(u) => u.clone(),
        None => {
            return None;
        },
    };
    if *tag == String::from_str("Join") {
        Some(NetMessage::Join { username })
    } else if *tag == String::from_str("Leave") {
        Some(NetMessage::Leave { username })
    } else if *tag == String::from_str("Chat") {
        match find_field(fields, "content") {
            Some(c) => Some(NetMessage::Chat { username, content: c.clone() }),
            None => None,
        }
    } else {
        None
    }
}

/// The message that a packet holds, or nothing where the packet is
/// malformed. Each packet is read on its own.
pub fn decode_message(packet: &[u8]) -> (msg: Option<NetMessage>)
    ensures
        message_view(msg) == decoded_message(packet@),
{
    match parse_tagged_fields(packet) {
        Some(entries) => message_from_fields(&entries),
        None => None,
    }
}

/// The text of a packet, given the name of its member and the fields as
/// JSON string literals.
pub fn frame(tag: &str, quoted_username: &str, quoted_content: Option<&str>) -> (text: String)
    ensures
        text@ == framed(
            tag@,
            quoted_username@,
            match quoted_content {
                Some(c) => Some(c@),
                None => None,
            },
        ),
{
    let mut text = String::from_str("{\"");
    text.append(tag);
    text.append("\":{\"username\":");
    text.append(quoted_username);
    match quoted_content {
        Some(c) => {
            let ghost head = text@;
            text.append(",\"content\":");
            text.append(c);
            assert(text@ =~= head + (",\"content\":"@ + c@));
        },
        None => {
            assert(text@ =~= text@ + Seq::<char>::empty());
        },
    }
    text.append("}}");
    text
}

/// The one packet that carries a message.
pub fn encode_message(msg: &NetMessage) -> (packet: Vec<u8>)
    ensures
        packet@ == encode_utf8(wire_text(msg@)),
{
    let text = match msg {
        NetMessage::Join { username } => frame("Join", quote_json(username.as_str()).as_str(), None),
        NetMessage::Leave { username } => frame(
            "Leave",
            quote_json(username.as_str()).as_str(),
            None,
        ),
        NetMessage::Chat { username, content } => frame(
            "Chat",
            quote_json(username.as_str()).as_str(),
            Some(quote_json(content.as_str()).as_str()),
        ),
    };
    text.as_str().as_bytes_vec()
}

} // verus!
