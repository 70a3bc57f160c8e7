use chat_relay::bridge::{
    inbound_message, join_packet, outbound_lines, outbound_packets, ReadEvent, StreamBridge,
};
use chat_relay::message::NetMessage;
use chat_relay::registry::{PeerAddr, Registry};
use chat_relay::wire::{decode_message, encode_message, frame, message_from_fields};

fn join(name: &str) -> NetMessage {
    NetMessage::Join { username: name.to_string() }
}

fn leave(name: &str) -> NetMessage {
    NetMessage::Leave { username: name.to_string() }
}

fn chat(name: &str, content: &str) -> NetMessage {
    NetMessage::Chat { username: name.to_string(), content: content.to_string() }
}

fn peer(n: u16) -> PeerAddr {
    PeerAddr { host: 0xffff_7f00_0001, port: n }
}

fn sorted(mut list: Vec<PeerAddr>) -> Vec<u16> {
    list.sort_by_key(|p| p.port);
    list.iter().map(|p| p.port).collect()
}

#[test]
fn messages_have_their_wire_shape() {
    assert_eq!(encode_message(&join("bob")), br#"{"Join":{"username":"bob"}}"#.to_vec());
    assert_eq!(encode_message(&leave("bob")), br#"{"Leave":{"username":"bob"}}"#.to_vec());
    assert_eq!(
        encode_message(&chat("bob", "hi")),
        br#"{"Chat":{"username":"bob","content":"hi"}}"#.to_vec()
    );
}

#[test]
fn fields_are_quoted_as_json_strings() {
    assert_eq!(
        encode_message(&chat("a\"b", "line\nbreak \\ \u{e9}")),
        "{\"Chat\":{\"username\":\"a\\\"b\",\"content\":\"line\\nbreak \\\\ \u{e9}\"}}"
            .as_bytes()
            .to_vec()
    );
}

#[test]
fn frame_places_the_quoted_fields() {
    assert_eq!(frame("Join", "\"x\"", None), "{\"Join\":{\"username\":\"x\"}}");
    assert_eq!(
        frame("Chat", "\"x\"", Some("\"y\"")),
        "{\"Chat\":{\"username\":\"x\",\"content\":\"y\"}}"
    );
}

#[test]
fn encoded_packets_are_json_that_serde_reads() {
    let packet = encode_message(&chat("al\"ice", "tab\there"));
    let value: serde_json::Value = serde_json::from_slice(&packet).unwrap();
    let inner = value.get("Chat").unwrap();
    assert_eq!(inner.get("username").and_then(|v| v.as_str()), Some("al\"ice"));
    assert_eq!(inner.get("content").and_then(|v| v.as_str()), Some("tab\there"));
}

#[test]
fn message_round_trip() {
    for msg in [
        join("bob"),
        leave("bob"),
        chat("bob", "hello"),
        chat("", ""),
        chat("n\u{e9}\"\\", "multi\nline \u{1f600} {\"Join\":1}"),
    ] {
        assert_eq!(decode_message(&encode_message(&msg)), Some(msg));
    }
}

#[test]
fn decode_accepts_whitespace_and_further_fields() {
    assert_eq!(
        decode_message(b" { \"Join\" : { \"username\" : \"bob\" , \"color\" : \"red\" } } "),
        Some(join("bob"))
    );
    assert_eq!(
        decode_message(br#"{"Chat":{"content":"hi","username":"bob"}}"#),
        Some(chat("bob", "hi"))
    );
}

#[test]
fn malformed_packets_hold_no_message() {
    let bad: [&[u8]; 12] = [
        b"",
        b"{not json",
        b"null",
        b"\"Join\"",
        b"[]",
        b"{}",
        br#"{"Join":{}}"#,
        br#"{"Join":{"username":7}}"#,
        br#"{"Chat":{"username":"bob"}}"#,
        br#"{"Shout":{"username":"bob"}}"#,
        br#"{"Join":{"username":"a"},"Leave":{"username":"a"}}"#,
        br#"{"Join":{"username":"bob"}} trailing"#,
    ];
    for packet in bad {
        assert_eq!(decode_message(packet), None);
    }
    assert_eq!(decode_message(&[0xff, 0xfe]), None);
}

#[test]
fn message_from_fields_reads_one_member() {
    let username = ("username".to_string(), "bob".to_string());
    let content = ("content".to_string(), "hi".to_string());
    assert_eq!(
        message_from_fields(&vec![("Join".to_string(), vec![username.clone()])]),
        Some(join("bob"))
    );
    assert_eq!(
        message_from_fields(&vec![("Leave".to_string(), vec![content.clone(), username.clone()])]),
        Some(leave("bob"))
    );
    assert_eq!(
        message_from_fields(&vec![("Chat".to_string(), vec![content.clone(), username.clone()])]),
        Some(chat("bob", "hi"))
    );
    assert_eq!(message_from_fields(&vec![("Chat".to_string(), vec![username.clone()])]), None);
    assert_eq!(message_from_fields(&vec![("Join".to_string(), vec![content])]), None);
    assert_eq!(message_from_fields(&vec![("join".to_string(), vec![username.clone()])]), None);
    assert_eq!(message_from_fields(&Vec::new()), None);
    assert_eq!(
        message_from_fields(&vec![
            ("Join".to_string(), vec![username.clone()]),
            ("Leave".to_string(), vec![username])
        ]),
        None
    );
}

#[test]
fn join_registers_and_is_forwarded_to_the_others() {
    let mut registry = Registry::new();
    assert_eq!(registry.dispatch(peer(1), &join("ann")), Vec::new());
    assert_eq!(sorted(registry.dispatch(peer(2), &join("bob"))), vec![1]);
    assert_eq!(sorted(registry.dispatch(peer(3), &join("cat"))), vec![1, 2]);
    assert_eq!(registry.name_of(peer(1)), Some("ann"));
    assert_eq!(registry.name_of(peer(2)), Some("bob"));
    assert_eq!(registry.name_of(peer(3)), Some("cat"));
    assert_eq!(registry.name_of(peer(4)), None);
}

#[test]
fn chat_goes_to_everyone_but_the_sender() {
    let mut registry = Registry::new();
    for (n, name) in [(1, "ann"), (2, "bob"), (3, "cat")] {
        registry.insert(peer(n), name.to_string());
    }
    assert_eq!(sorted(registry.dispatch(peer(2), &chat("bob", "hi"))), vec![1, 3]);
    assert_eq!(sorted(registry.dispatch(peer(9), &chat("eve", "hi"))), vec![1, 2, 3]);
    assert_eq!(registry.name_of(peer(9)), None);
    assert_eq!(sorted(registry.recipients(peer(1))), vec![2, 3]);
}

#[test]
fn leave_removes_the_sender() {
    let mut registry = Registry::new();
    for (n, name) in [(1, "ann"), (2, "bob"), (3, "cat")] {
        registry.insert(peer(n), name.to_string());
    }
    assert_eq!(sorted(registry.dispatch(peer(2), &leave("bob"))), vec![1, 3]);
    assert_eq!(registry.name_of(peer(2)), None);
    assert_eq!(sorted(registry.dispatch(peer(1), &chat("ann", "still here"))), vec![3]);
    assert!(!registry.remove(peer(2)));
    assert!(registry.remove(peer(3)));
}

#[test]
fn rejoining_renames() {
    let mut registry = Registry::new();
    registry.insert(peer(1), "ann".to_string());
    registry.insert(peer(2), "bob".to_string());
    assert_eq!(sorted(registry.dispatch(peer(1), &join("anna"))), vec![2]);
    assert_eq!(registry.name_of(peer(1)), Some("anna"));
    assert_eq!(sorted(registry.recipients(peer(3))), vec![1, 2]);
}

#[test]
fn peer_that_vanishes_stays_registered() {
    let mut registry = Registry::new();
    let first = registry.handle_datagram(peer(1), &encode_message(&join("bob")));
    assert!(first.unwrap().recipients.is_empty());
    for round in 0..20u16 {
        let other = peer(100 + round);
        registry.handle_datagram(other, &encode_message(&join("guest"))).unwrap();
        let forward =
            registry.handle_datagram(other, &encode_message(&chat("guest", "hi"))).unwrap();
        assert!(forward.recipients.contains(&peer(1)));
        registry.handle_datagram(other, &encode_message(&leave("guest"))).unwrap();
    }
    assert_eq!(registry.name_of(peer(1)), Some("bob"));
}

#[test]
fn malformed_datagram_is_dropped() {
    let mut registry = Registry::new();
    registry.handle_datagram(peer(1), &encode_message(&join("ann"))).unwrap();
    registry.handle_datagram(peer(2), &encode_message(&join("bob"))).unwrap();
    assert!(registry.handle_datagram(peer(2), b"{\"Chat\":{\"username\":").is_none());
    assert!(registry.handle_datagram(peer(3), b"\xff\xfe\x00").is_none());
    assert_eq!(registry.name_of(peer(1)), Some("ann"));
    assert_eq!(registry.name_of(peer(2)), Some("bob"));
    assert_eq!(registry.name_of(peer(3)), None);
    let forward = registry.handle_datagram(peer(2), &encode_message(&chat("bob", "ok"))).unwrap();
    assert_eq!(forward.packet, encode_message(&chat("bob", "ok")));
    assert_eq!(sorted(forward.recipients), vec![1]);
}

#[test]
fn join_packet_is_the_encoded_join() {
    assert_eq!(join_packet("Alice"), br#"{"Join":{"username":"Alice"}}"#.to_vec());
}

#[test]
fn outbound_packets_keep_the_order() {
    let pending = vec![chat("ann", "one"), chat("ann", "two"), leave("ann")];
    assert_eq!(
        outbound_packets(&pending),
        vec![
            encode_message(&chat("ann", "one")),
            encode_message(&chat("ann", "two")),
            encode_message(&leave("ann"))
        ]
    );
    assert!(outbound_packets(&Vec::new()).is_empty());
}

#[test]
fn inbound_message_decodes_one_packet() {
    assert_eq!(
        inbound_message(&ReadEvent::Data(encode_message(&join("bob")))),
        Some(join("bob"))
    );
    assert_eq!(inbound_message(&ReadEvent::Data(b"garbage".to_vec())), None);
    assert_eq!(inbound_message(&ReadEvent::Data(Vec::new())), None);
    assert_eq!(inbound_message(&ReadEvent::Idle), None);
    assert_eq!(inbound_message(&ReadEvent::End), None);
}

#[test]
fn outbound_lines_are_framed_in_order() {
    let outbound = vec!["hi".to_string(), "there\n".to_string(), String::new()];
    assert_eq!(
        outbound_lines(&outbound),
        vec![b"hi\n".to_vec(), b"there\n".to_vec(), b"\n".to_vec()]
    );
}

#[test]
fn stream_bridge_reads_lines_across_rounds() {
    let mut bridge = StreamBridge::new();
    let step = bridge.on_read(&ReadEvent::Data(b"a\nb\r\n\xff\nc".to_vec()));
    assert_eq!(step.arrived, vec!["a".to_string(), "b".to_string()]);
    assert!(step.running);
    let step = bridge.on_read(&ReadEvent::Idle);
    assert!(step.arrived.is_empty());
    assert!(step.running);
    let step = bridge.on_read(&ReadEvent::Data(b"d\n".to_vec()));
    assert_eq!(step.arrived, vec!["cd".to_string()]);
}

#[test]
fn stream_bridge_stops_at_the_end() {
    let mut bridge = StreamBridge::new();
    bridge.on_read(&ReadEvent::Data(b"partial".to_vec()));
    let step = bridge.on_read(&ReadEvent::End);
    assert!(step.arrived.is_empty());
    assert!(!step.running);
    let step = bridge.on_read(&ReadEvent::Data(b"x\n".to_vec()));
    assert_eq!(step.arrived, vec!["x".to_string()]);
}
