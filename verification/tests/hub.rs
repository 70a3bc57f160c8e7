use chat_relay::hub::{Hub, HUB_CAPACITY};
use chat_relay::names::{name_from_suffix, random_name};
use chat_relay::session::{parse_command, Command, Reply, Session, HELP_MSG};

fn drain(hub: &mut Hub, id: u64) -> Vec<String> {
    let mut out = Vec::new();
    while let Some(text) = hub.receive(id) {
        out.push(text);
    }
    out
}

#[test]
fn publish_reaches_all_active_subscribers() {
    let mut hub = Hub::new(8);
    let publisher = hub.subscribe().unwrap();
    let a = hub.subscribe().unwrap();
    let b = hub.subscribe().unwrap();
    let c = hub.subscribe().unwrap();
    let gone = hub.subscribe().unwrap();
    assert!(hub.unsubscribe(gone));
    hub.publish(publisher, "news");
    for id in [a, b, c] {
        assert_eq!(drain(&mut hub, id), vec!["news".to_string()]);
    }
    assert_eq!(hub.receive(gone), None);
    assert!(!hub.is_subscribed(gone));
    assert_eq!(hub.pending(gone), 0);
}

#[test]
fn publisher_does_not_hear_itself() {
    let mut hub = Hub::new(8);
    let a = hub.subscribe().unwrap();
    let b = hub.subscribe().unwrap();
    hub.publish(a, "from a");
    assert_eq!(hub.pending(a), 0);
    assert_eq!(hub.receive(a), None);
    assert_eq!(hub.receive(b), Some("from a".to_string()));
}

#[test]
fn subscriber_sees_only_what_follows() {
    let mut hub = Hub::new(8);
    let a = hub.subscribe().unwrap();
    hub.publish(a, "early");
    let late = hub.subscribe().unwrap();
    assert_eq!(hub.receive(late), None);
    hub.publish(a, "later");
    assert_eq!(drain(&mut hub, late), vec!["later".to_string()]);
}

#[test]
fn overflow_drops_the_oldest() {
    let mut hub = Hub::new(2);
    let a = hub.subscribe().unwrap();
    let slow = hub.subscribe().unwrap();
    let quick = hub.subscribe().unwrap();
    hub.publish(a, "one");
    assert_eq!(hub.receive(quick), Some("one".to_string()));
    hub.publish(a, "two");
    assert_eq!(hub.receive(quick), Some("two".to_string()));
    hub.publish(a, "three");
    assert_eq!(hub.pending(slow), 2);
    assert_eq!(drain(&mut hub, slow), vec!["two".to_string(), "three".to_string()]);
    assert_eq!(drain(&mut hub, quick), vec!["three".to_string()]);
}

#[test]
fn publishing_never_depends_on_backlog() {
    let mut hub = Hub::new(HUB_CAPACITY);
    assert_eq!(hub.capacity(), 32);
    let a = hub.subscribe().unwrap();
    let slow = hub.subscribe().unwrap();
    for i in 0..1000 {
        hub.publish(a, &format!("m{}", i));
        assert!(hub.pending(slow) <= 32);
    }
    let kept = drain(&mut hub, slow);
    assert_eq!(kept.len(), 32);
    assert_eq!(kept[0], "m968");
    assert_eq!(kept[31], "m999");
}

#[test]
fn identifiers_are_not_reused() {
    let mut hub = Hub::new(1);
    let a = hub.subscribe().unwrap();
    assert!(hub.unsubscribe(a));
    assert!(!hub.unsubscribe(a));
    let b = hub.subscribe().unwrap();
    assert_ne!(a, b);
    assert!(hub.is_subscribed(b));
}

#[test]
fn commands_are_recognised_by_prefix() {
    assert_eq!(parse_command("/help"), Command::Help);
    assert_eq!(parse_command("/help me"), Command::Help);
    assert_eq!(parse_command("/quit"), Command::Quit);
    assert_eq!(parse_command("/quitting"), Command::Quit);
    assert_eq!(parse_command("/hel"), Command::Say);
    assert_eq!(parse_command(" /help"), Command::Say);
    assert_eq!(parse_command("/unknown"), Command::Say);
    assert_eq!(parse_command(""), Command::Say);
    assert_eq!(parse_command("/HELP"), Command::Say);
}

#[test]
fn session_opens_with_banner_and_name() {
    let mut hub = Hub::new(4);
    let (session, first) = Session::open(&mut hub, "user-abc123".to_string()).unwrap();
    assert_eq!(first, vec![HELP_MSG.to_string(), "You are user-abc123".to_string()]);
    assert_eq!(session.display_name(), "user-abc123");
    assert!(hub.is_subscribed(session.subscriber_id()));
}

#[test]
fn accepted_session_gets_an_assigned_name() {
    let mut hub = Hub::new(4);
    let (session, first) = Session::accept(&mut hub).unwrap();
    let name = session.display_name().to_string();
    assert!(name.starts_with("user-"));
    assert_eq!(name.len(), 11);
    assert_eq!(first[1], format!("You are {}", name));
}

#[test]
fn help_resends_the_banner_without_broadcast() {
    let mut hub = Hub::new(4);
    let (a, _) = Session::open(&mut hub, "user-aaaaaa".to_string()).unwrap();
    let (b, _) = Session::open(&mut hub, "user-bbbbbb".to_string()).unwrap();
    assert_eq!(a.on_line(&mut hub, "/help"), Reply::Send(HELP_MSG.to_string()));
    assert_eq!(a.next_delivery(&mut hub), None);
    assert_eq!(b.next_delivery(&mut hub), None);
}

#[test]
fn chat_reaches_the_other_client_only() {
    let mut hub = Hub::new(4);
    let (a, _) = Session::open(&mut hub, "user-aaaaaa".to_string()).unwrap();
    let (b, _) = Session::open(&mut hub, "user-bbbbbb".to_string()).unwrap();
    assert_eq!(a.on_line(&mut hub, "hello"), Reply::Published);
    assert_eq!(b.next_delivery(&mut hub), Some("user-aaaaaa: hello".to_string()));
    assert_eq!(b.next_delivery(&mut hub), None);
    assert_eq!(a.next_delivery(&mut hub), None);
}

#[test]
fn unknown_command_is_chat() {
    let mut hub = Hub::new(4);
    let (a, _) = Session::open(&mut hub, "user-aaaaaa".to_string()).unwrap();
    let (b, _) = Session::open(&mut hub, "user-bbbbbb".to_string()).unwrap();
    assert_eq!(a.on_line(&mut hub, "/dance"), Reply::Published);
    assert_eq!(b.next_delivery(&mut hub), Some("user-aaaaaa: /dance".to_string()));
}

#[test]
fn quit_ends_the_session_silently() {
    let mut hub = Hub::new(4);
    let (a, _) = Session::open(&mut hub, "user-aaaaaa".to_string()).unwrap();
    let (b, _) = Session::open(&mut hub, "user-bbbbbb".to_string()).unwrap();
    let a_id = a.subscriber_id();
    assert_eq!(a.on_line(&mut hub, "/quit"), Reply::Close);
    a.close(&mut hub);
    assert!(!hub.is_subscribed(a_id));
    assert_eq!(b.next_delivery(&mut hub), None);
    assert_eq!(b.on_line(&mut hub, "anyone?"), Reply::Published);
    assert_eq!(hub.receive(a_id), None);
}

#[test]
fn name_from_suffix_is_prefix_and_suffix() {
    assert_eq!(name_from_suffix(b"abc123"), "user-abc123");
    assert_eq!(name_from_suffix(b""), "user-");
    assert_eq!(name_from_suffix(&[0xe9]), "user-\u{e9}");
}

#[test]
fn random_name_has_the_assigned_form() {
    for _ in 0..50 {
        let name = random_name();
        assert_eq!(name.len(), 11);
        assert_eq!(&name[..5], "user-");
        assert!(name[5..].bytes().all(|b| b.is_ascii_alphanumeric()));
    }
}
