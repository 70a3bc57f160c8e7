//! The state of the interactive client: the line being edited with its
//! cursor, the log of display lines, and the queue of messages that wait to
//! be sent. The cursor counts characters, never bytes.

use crate::message::{display_text, message_views, MessageView, NetMessage};
use crate::text::{lemma_encode_concat, lemma_encode_injective, lemma_prefix_is_char_boundary, string_insert, texts};
use vstd::prelude::*;
use vstd::string::*;
use vstd::utf8::*;

verus! {

/// Whether keys edit the input line or command the client.
#[derive(Clone, Copy, Debug, PartialEq, Eq, Structural)]
pub enum InputMode {
    Normal,
    Editing,
}

/// A key of the terminal, as far as the client tells keys apart.
#[derive(Clone, Copy, Debug, PartialEq, Eq)]
pub enum Key {
    Char(char),
    Enter,
    Backspace,
    Left,
    Right,
    Esc,
    Other,
}

/// Whether the client goes on after a key.
#[derive(Clone, Copy, Debug, PartialEq, Eq, Structural)]
pub enum Flow {
    Continue,
    Exit,
}

/// The interactive client.
pub struct App {
    username: String,
    input: String,
    outbound: Vec<NetMessage>,
    character_index: usize,
    input_mode: InputMode,
    messages: Vec<String>,
}

/// What an [`App`] holds, as plain values.
pub ghost struct AppView {
    /// The name under which the client writes.
    pub username: Seq<char>,
    /// The line being edited.
    pub input: Seq<char>,
    /// The number of characters of the input before the cursor.
    pub cursor: nat,
    pub mode: InputMode,
    /// The display lines, oldest first.
    pub messages: Seq<Seq<char>>,
    /// The messages submitted and not yet taken for sending, oldest first.
    pub outbound: Seq<MessageView>,
}

impl AppView {
    /// The cursor lies within the input or at its end.
    pub open spec fn wf(self) -> bool {
        self.cursor <= self.input.len()
    }

    /// The position brought back into the input.
    pub open spec fn clamp(self, pos: nat) -> nat {
        if pos <= self.input.len() {
            pos
        } else {
            self.input.len()
        }
    }

    /// The byte offset of the cursor in the UTF-8 encoding of the input.
    pub open spec fn byte_index(self) -> nat {
        encode_utf8(self.input.take(self.cursor as int)).len()
    }

    /// The cursor one character to the left, if there is one.
    pub open spec fn left(self) -> AppView {
        AppView {
            cursor: self.clamp(
                if self.cursor == 0 {
                    0
                } else {
                    (self.cursor - 1) as nat
                },
            ),
            ..self
        }
    }

    /// The cursor one character to the right, if there is one.
    pub open spec fn right(self) -> AppView {
        AppView { cursor: self.clamp(self.cursor + 1), ..self }
    }

    /// The character placed at the cursor, and the cursor behind it.
    pub open spec fn insert(self, c: char) -> AppView {
        AppView { input: self.input.insert(self.cursor as int, c), cursor: self.cursor + 1, ..self }
    }

    /// The character before the cursor taken out, if there is one.
    pub open spec fn delete(self) -> AppView {
        if self.cursor == 0 {
            self
        } else {
            AppView {
                input: self.input.remove(self.cursor - 1),
                cursor: (self.cursor - 1) as nat,
                ..self
            }
        }
    }

    /// The input queued as a chat message and logged, and the line cleared.
    pub open spec fn submit(self) -> AppView {
        AppView {
            input: Seq::empty(),
            cursor: 0,
            messages: self.messages.push(self.input),
            outbound: self.outbound.push(
                MessageView::Chat { username: self.username, content: self.input },
            ),
            ..self
        }
    }

    /// The line added to the log.
    pub open spec fn show(self, line: Seq<char>) -> AppView {
        AppView { messages: self.messages.push(line), ..self }
    }

    /// The display line of a message that arrived, added to the log.
    pub open spec fn receive(self, m: MessageView) -> AppView {
        self.show(display_text(m))
    }

    /// The state after a key. In normal mode `e` starts editing; while
    /// editing, only a key that was pressed counts.
    pub open spec fn key(self, key: Key, pressed: bool) -> AppView {
        match self.mode {
            InputMode::Normal => if key == Key::Char('e') {
                AppView { mode: InputMode::Editing, ..self }
            } else {
                self
            },
            InputMode::Editing => if !pressed {
                self
            } else {
                match key {
                    Key::Enter => self.submit(),
                    Key::Char(c) => self.insert(c),
                    Key::Backspace => self.delete(),
                    Key::Left => self.left(),
                    Key::Right => self.right(),
                    Key::Esc => AppView { mode: InputMode::Normal, ..self },
                    Key::Other => self,
                }
            },
        }
    }

    /// Whether the client ends at a key: only at `q` in normal mode.
    pub open spec fn flow(self, key: Key) -> Flow {
        if self.mode == InputMode::Normal && key == Key::Char('q') {
            Flow::Exit
        } else {
            Flow::Continue
        }
    }
}

/// No edit and no cursor movement takes the cursor out of the input.
pub proof fn law_cursor_stays_in_input(v: AppView, c: char, key: Key, pressed: bool)
    requires
        v.wf(),
    ensures
        v.left().wf(),
        v.right().wf(),
        v.insert(c).wf(),
        v.delete().wf(),
        v.submit().wf(),
        v.key(key, pressed).wf(),
{
}

/// The cursor never stands inside the encoding of a character: its byte
/// offset is a character boundary of the input's UTF-8 encoding.
pub proof fn law_cursor_on_char_boundary(v: AppView)
    requires
        v.wf(),
    ensures
        is_char_boundary(encode_utf8(v.input), v.byte_index() as int),
        v.byte_index() <= encode_utf8(v.input).len(),
{
    lemma_prefix_is_char_boundary(v.input, v.cursor as int);
}

/// Inserting and deleting change the input by exactly one whole character,
/// and moving the cursor changes no text.
pub proof fn law_edits_take_whole_characters(v: AppView, c: char)
    requires
        v.wf(),
    ensures
        v.insert(c).input.len() == v.input.len() + 1,
        v.insert(c).input[v.cursor as int] == c,
        v.insert(c).delete() == v,
        v.cursor > 0 ==> v.delete().input.len() == v.input.len() - 1,
        v.left().input == v.input,
        v.right().input == v.input,
{
    assert(v.input.insert(v.cursor as int, c).remove(v.cursor as int) =~= v.input);
}

impl View for App {
    type V = AppView;

    closed spec fn view(&self) -> AppView {
        AppView {
            username: self.username@,
            input: self.input@,
            cursor: self.character_index as nat,
            mode: self.input_mode,
            messages: texts(self.messages@),
            outbound: message_views(self.outbound@),
        }
    }
}

impl App {
    /// A client with an empty input line, in normal mode.
    pub fn new(username: String) -> (app: App)
        ensures
            app@ == (AppView {
                username: username@,
                input: Seq::empty(),
                cursor: 0,
                mode: InputMode::Normal,
                messages: Seq::empty(),
                outbound: Seq::empty(),
            }),
            app@.wf(),
    {
        let app = App {
            username: username,
            input: String::new(),
            outbound: Vec::new(),
            input_mode: InputMode::Normal,
            messages: Vec::new(),
            character_index: 0,
        };
        assert(texts(app.messages@) =~= Seq::<Seq<char>>::empty());
        assert(message_views(app.outbound@) =~= Seq::<MessageView>::empty());
        app
    }

    pub fn move_cursor_left(&mut self)
        ensures
            final(self)@ == old(self)@.left(),
            final(self)@.wf(),
    {
        let cursor_moved_left = self.character_index.saturating_sub(1);
        self.character_index = self.clamp_cursor(cursor_moved_left);
    }

    pub fn move_cursor_right(&mut self)
        ensures
            final(self)@ == old(self)@.right(),
            final(self)@.wf(),
    {
        let cursor_moved_right = self.character_index.saturating_add(1);
        self.character_index = self.clamp_cursor(cursor_moved_right);
    }

    /// Places the character at the cursor and moves the cursor behind it.
    pub fn enter_char(&mut self, new_char: char)
        requires
            old(self)@.wf(),
        ensures
            final(self)@ == old(self)@.insert(new_char),
            final(self)@.wf(),
    {
        let index = self.byte_index();
        let ghost before = self.input@;
        let ghost k = self.character_index as int;
        string_insert(&mut self.input, index, new_char);
        proof {
            let bytes = encode_utf8(before);
            let head = before.take(k);
            let tail = before.skip(k);
            assert(head + tail =~= before);
            lemma_encode_concat(head, tail);
            assert(bytes.subrange(0, index as int) =~= encode_utf8(head));
            assert(bytes.subrange(index as int, bytes.len() as int) =~= encode_utf8(tail));
            lemma_encode_concat(head, seq![new_char]);
            lemma_encode_concat(head + seq![new_char], tail);
            assert(before.insert(k, new_char) =~= head + seq![new_char] + tail);
            lemma_encode_injective(self.input@, before.insert(k, new_char));
        }
        self.move_cursor_right();
    }

    /// The byte offset of the cursor in the input.
    pub fn byte_index(&self) -> (index: usize)
        requires
            self@.wf(),
        ensures
            index == self@.byte_index(),
            is_char_boundary(encode_utf8(self@.input), index as int),
    {
        let prefix = self.input.as_str().substring_char(0, self.character_index);
        proof {
            lemma_prefix_is_char_boundary(self.input@, self.character_index as int);
        }
        prefix.as_bytes().len()
    }

    /// Takes out the character before the cursor and moves the cursor onto
    /// its place; does nothing at the start of the line.
    pub fn delete_char(&mut self)
        requires
            old(self)@.wf(),
        ensures
            final(self)@ == old(self)@.delete(),
            final(self)@.wf(),
    {
        if self.character_index != 0 {
            let current_index = self.character_index;
            let from_left_to_current_index = current_index - 1;
            let count = self.input.as_str().unicode_len();
            let before_char_to_delete = self.input.as_str().substring_char(
                0,
                from_left_to_current_index,
            );
            let after_char_to_delete = self.input.as_str().substring_char(current_index, count);
            let rebuilt = String::from_str(before_char_to_delete).concat(after_char_to_delete);
            assert(rebuilt@ =~= self.input@.remove(current_index - 1));
            self.input = rebuilt;
            self.move_cursor_left();
        }
    }

    /// The position, brought back to the end of the input where it lies
    /// beyond it.
    pub fn clamp_cursor(&self, new_cursor_pos: usize) -> (pos: usize)
        ensures
            pos == self@.clamp(new_cursor_pos as nat),
            self@.input.len() <= usize::MAX,
    {
        let count = self.input.as_str().unicode_len();
        if new_cursor_pos <= count {
            new_cursor_pos
        } else {
            count
        }
    }

    pub fn reset_cursor(&mut self)
        ensures
            final(self)@ == (AppView { cursor: 0, ..old(self)@ }),
            final(self)@.wf(),
    {
        self.character_index = 0;
    }

    /// Queues the input as a chat message under the client's name, logs it,
    /// and clears the input line.
    pub fn submit_message(&mut self)
        ensures
            final(self)@ == old(self)@.submit(),
            final(self)@.wf(),
    {
        let content = self.input.clone();
        let msg = NetMessage::Chat { username: self.username.clone(), content: content.clone() };
        let ghost before = *self;
        self.outbound.push(msg);
        self.messages.push(content);
        self.input = String::new();
        self.reset_cursor();
        assert(texts(self.messages@) =~= texts(before.messages@).push(before.input@));
        assert(message_views(self.outbound@) =~= message_views(before.outbound@).push(msg@));
    }

    /// Logs a line that is ready for display.
    pub fn show(&mut self, line: String)
        ensures
            final(self)@ == old(self)@.show(line@),
            old(self)@.wf() ==> final(self)@.wf(),
    {
        let ghost before = *self;
        self.messages.push(line);
        assert(texts(self.messages@) =~= texts(before.messages@).push(line@));
    }

    /// Logs the display line of a message that arrived.
    pub fn receive(&mut self, msg: &NetMessage)
        ensures
            final(self)@ == old(self)@.receive(msg@),
            old(self)@.wf() ==> final(self)@.wf(),
    {
        self.show(msg.display_line());
    }

    /// Acts on a key: see [`AppView::key`] and [`AppView::flow`].
    pub fn handle_key(&mut self, key: Key, pressed: bool) -> (flow: Flow)
        requires
            old(self)@.wf(),
        ensures
            final(self)@ == old(self)@.key(key, pressed),
            final(self)@.wf(),
            flow == old(self)@.flow(key),
    {
        match self.input_mode {
            InputMode::Normal => match key {
                Key::Char(c) => {
                    if c == 'e' {
                        self.input_mode = InputMode::Editing;
                        Flow::Continue
                    } else if c == 'q' {
                        Flow::Exit
                    } else {
                        Flow::Continue
                    }
                },
                _ => Flow::Continue,
            },
            InputMode::Editing => {
                if pressed {
                    match key {
                        Key::Enter => self.submit_message(),
                        Key::Char(to_insert) => self.enter_char(to_insert),
                        Key::Backspace => self.delete_char(),
                        Key::Left => self.move_cursor_left(),
                        Key::Right => self.move_cursor_right(),
                        Key::Esc => {
                            self.input_mode = InputMode::Normal;
                        },
                        Key::Other => {},
                    }
                }
                Flow::Continue
            },
        }
    }

    /// Hands out the messages that wait to be sent, oldest first, and
    /// leaves the queue empty.
    pub fn take_outbound(&mut self) -> (pending: Vec<NetMessage>)
        ensures
            message_views(pending@) == old(self)@.outbound,
            final(self)@ == (AppView { outbound: Seq::empty(), ..old(self)@ }),
    {
        let mut pending: Vec<NetMessage> = Vec::new();
        std::mem::swap(&mut self.outbound, &mut pending);
        assert(message_views(self.outbound@) =~= Seq::<MessageView>::empty());
        pending
    }

    pub fn username(&self) -> (name: &str)
        ensures
            name@ == self@.username,
    {
        self.username.as_str()
    }

    pub fn input(&self) -> (line: &str)
        ensures
            line@ == self@.input,
    {
        self.input.as_str()
    }

    pub fn cursor(&self) -> (index: usize)
        ensures
            index == self@.cursor,
    {
        self.character_index
    }

    pub fn input_mode(&self) -> (mode: InputMode)
        ensures
            mode == self@.mode,
    {
        self.input_mode
    }

    /// The display lines, oldest first.
    pub fn messages(&self) -> (lines: &Vec<String>)
        ensures
            texts(lines@) == self@.messages,
    {
        &self.messages
    }
}

} // verus!
