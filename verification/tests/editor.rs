use chat_relay::app::{App, Flow, InputMode, Key};
use chat_relay::message::NetMessage;

fn editing(name: &str) -> App {
    let mut app = App::new(name.to_string());
    assert_eq!(app.handle_key(Key::Char('e'), true), Flow::Continue);
    app
}

fn type_text(app: &mut App, text: &str) {
    for c in text.chars() {
        app.enter_char(c);
    }
}

#[test]
fn new_app_is_empty_and_in_normal_mode() {
    let app = App::new("alice".to_string());
    assert_eq!(app.username(), "alice");
    assert_eq!(app.input(), "");
    assert_eq!(app.cursor(), 0);
    assert_eq!(app.input_mode(), InputMode::Normal);
    assert!(app.messages().is_empty());
}

#[test]
fn cursor_stays_within_the_input() {
    let mut app = editing("alice");
    app.move_cursor_left();
    assert_eq!(app.cursor(), 0);
    app.move_cursor_right();
    assert_eq!(app.cursor(), 0);
    type_text(&mut app, "ab");
    assert_eq!(app.cursor(), 2);
    app.move_cursor_right();
    assert_eq!(app.cursor(), 2);
    app.move_cursor_left();
    app.move_cursor_left();
    app.move_cursor_left();
    assert_eq!(app.cursor(), 0);
}

#[test]
fn clamp_cursor_limits_to_character_count() {
    let mut app = editing("alice");
    type_text(&mut app, "h\u{e9}\u{65e5}");
    assert_eq!(app.clamp_cursor(0), 0);
    assert_eq!(app.clamp_cursor(2), 2);
    assert_eq!(app.clamp_cursor(3), 3);
    assert_eq!(app.clamp_cursor(4), 3);
    assert_eq!(app.clamp_cursor(usize::MAX), 3);
}

#[test]
fn multi_byte_characters_move_as_units() {
    let mut app = editing("alice");
    type_text(&mut app, "h\u{e9}\u{65e5}\u{1f600}");
    assert_eq!(app.input(), "h\u{e9}\u{65e5}\u{1f600}");
    assert_eq!(app.cursor(), 4);
    assert_eq!(app.byte_index(), 10);
    app.move_cursor_left();
    assert_eq!(app.cursor(), 3);
    assert_eq!(app.byte_index(), 6);
    app.move_cursor_left();
    assert_eq!(app.byte_index(), 3);
    app.move_cursor_left();
    assert_eq!(app.byte_index(), 1);
    app.move_cursor_left();
    assert_eq!(app.byte_index(), 0);
    for expected in [1usize, 3, 6, 10, 10] {
        app.move_cursor_right();
        assert_eq!(app.byte_index(), expected);
        assert!(app.input().is_char_boundary(app.byte_index()));
    }
}

#[test]
fn enter_char_inserts_at_the_cursor() {
    let mut app = editing("alice");
    type_text(&mut app, "h\u{65e5}");
    app.move_cursor_left();
    app.enter_char('\u{e9}');
    assert_eq!(app.input(), "h\u{e9}\u{65e5}");
    assert_eq!(app.cursor(), 2);
    app.reset_cursor();
    assert_eq!(app.cursor(), 0);
    app.enter_char('>');
    assert_eq!(app.input(), ">h\u{e9}\u{65e5}");
    assert_eq!(app.cursor(), 1);
}

#[test]
fn delete_char_removes_the_character_before_the_cursor() {
    let mut app = editing("alice");
    type_text(&mut app, "h\u{e9}\u{65e5}!");
    app.move_cursor_left();
    app.delete_char();
    assert_eq!(app.input(), "h\u{e9}!");
    assert_eq!(app.cursor(), 2);
    app.delete_char();
    assert_eq!(app.input(), "h!");
    assert_eq!(app.cursor(), 1);
    app.delete_char();
    assert_eq!(app.input(), "!");
    assert_eq!(app.cursor(), 0);
    app.delete_char();
    assert_eq!(app.input(), "!");
    assert_eq!(app.cursor(), 0);
}

#[test]
fn submit_queues_logs_and_clears() {
    let mut app = editing("alice");
    type_text(&mut app, "hello");
    app.submit_message();
    assert_eq!(app.input(), "");
    assert_eq!(app.cursor(), 0);
    assert_eq!(app.messages(), &vec!["hello".to_string()]);
    let pending = app.take_outbound();
    assert_eq!(
        pending,
        vec![NetMessage::Chat { username: "alice".to_string(), content: "hello".to_string() }]
    );
    assert!(app.take_outbound().is_empty());
}

#[test]
fn submitted_messages_keep_their_order() {
    let mut app = editing("alice");
    type_text(&mut app, "one");
    app.submit_message();
    type_text(&mut app, "two");
    app.submit_message();
    let pending = app.take_outbound();
    assert_eq!(pending.len(), 2);
    assert_eq!(
        pending[0],
        NetMessage::Chat { username: "alice".to_string(), content: "one".to_string() }
    );
    assert_eq!(
        pending[1],
        NetMessage::Chat { username: "alice".to_string(), content: "two".to_string() }
    );
}

#[test]
fn received_messages_become_display_lines() {
    let mut app = App::new("alice".to_string());
    app.receive(&NetMessage::Join { username: "bob".to_string() });
    app.receive(&NetMessage::Chat { username: "bob".to_string(), content: "hi".to_string() });
    app.receive(&NetMessage::Leave { username: "bob".to_string() });
    assert_eq!(
        app.messages(),
        &vec![
            "bob: joined the chat".to_string(),
            "bob: hi".to_string(),
            "bob: left the chat".to_string()
        ]
    );
}

#[test]
fn keys_in_normal_mode() {
    let mut app = App::new("alice".to_string());
    assert_eq!(app.handle_key(Key::Char('x'), true), Flow::Continue);
    assert_eq!(app.handle_key(Key::Enter, true), Flow::Continue);
    assert_eq!(app.input(), "");
    assert_eq!(app.input_mode(), InputMode::Normal);
    assert_eq!(app.handle_key(Key::Char('q'), true), Flow::Exit);
    assert_eq!(app.handle_key(Key::Char('e'), false), Flow::Continue);
    assert_eq!(app.input_mode(), InputMode::Editing);
}

#[test]
fn keys_in_editing_mode() {
    let mut app = editing("alice");
    assert_eq!(app.handle_key(Key::Char('q'), true), Flow::Continue);
    assert_eq!(app.handle_key(Key::Char('e'), true), Flow::Continue);
    assert_eq!(app.input(), "qe");
    assert_eq!(app.handle_key(Key::Char('z'), false), Flow::Continue);
    assert_eq!(app.input(), "qe");
    app.handle_key(Key::Left, true);
    app.handle_key(Key::Backspace, true);
    assert_eq!(app.input(), "e");
    assert_eq!(app.cursor(), 0);
    app.handle_key(Key::Right, true);
    assert_eq!(app.cursor(), 1);
    app.handle_key(Key::Other, true);
    assert_eq!(app.input(), "e");
    app.handle_key(Key::Enter, true);
    assert_eq!(app.input(), "");
    assert_eq!(app.messages(), &vec!["e".to_string()]);
    app.handle_key(Key::Esc, true);
    assert_eq!(app.input_mode(), InputMode::Normal);
}

#[test]
fn shown_lines_are_logged_as_they_are() {
    let mut app = App::new("alice".to_string());
    app.show("You are user-abc123".to_string());
    app.show(String::new());
    assert_eq!(app.messages(), &vec!["You are user-abc123".to_string(), String::new()]);
}
