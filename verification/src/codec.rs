//! The line codec of the stream transport. On the wire a message is UTF-8
//! text that ends with a newline; a carriage return before the newline is
//! tolerated and dropped. Bytes without a newline wait for more bytes, and
//! are discarded when the connection ends. A line that is not UTF-8 fails
//! alone: the lines after it are read as usual.

use crate::text::{
    lemma_ascii_byte_in_encoding, lemma_last_ascii_byte, string_from_utf8, CARRIAGE_RETURN, NEWLINE,
};
use vstd::prelude::*;
use vstd::string::*;
use vstd::utf8::*;

verus! {

/// Why a line could not be read.
#[derive(Clone, Copy, Debug, PartialEq, Eq, Structural)]
pub enum LineError {
    /// The bytes of the line are not well-formed UTF-8.
    InvalidUtf8,
}

/// The bytes that carry a text: its UTF-8 encoding, and a newline unless
/// the text ends with one already.
pub open spec fn wire_line(text: Seq<char>) -> Seq<u8> {
    if text.len() > 0 && text.last() == '\n' {
        encode_utf8(text)
    } else {
        encode_utf8(text) + seq![NEWLINE]
    }
}

/// The position `i` holds the first newline of the buffer.
pub open spec fn is_line_end(buffer: Seq<u8>, i: int) -> bool {
    &&& 0 <= i < buffer.len()
    &&& buffer[i] == NEWLINE
    &&& forall|j: int| 0 <= j < i ==> buffer[j] != NEWLINE
}

/// The position of the first newline of the buffer, if it holds one.
pub open spec fn first_line_end(buffer: Seq<u8>) -> Option<int> {
    if exists|i: int| is_line_end(buffer, i) {
        Some(choose|i: int| is_line_end(buffer, i))
    } else {
        None
    }
}

/// The bytes of a line without the carriage return at their end, if there
/// is one.
pub open spec fn strip_cr(raw: Seq<u8>) -> Seq<u8> {
    if raw.len() > 0 && raw.last() == CARRIAGE_RETURN {
        raw.drop_last()
    } else {
        raw
    }
}

/// The text of a line, given the bytes before its newline.
pub open spec fn decode_line(raw: Seq<u8>) -> Result<Seq<char>, LineError> {
    let body = strip_cr(raw);
    if valid_utf8(body) {
        Ok(decode_utf8(body))
    } else {
        Err(LineError::InvalidUtf8)
    }
}

/// The complete lines of a buffer, in order.
pub open spec fn lines_of(buffer: Seq<u8>) -> Seq<Result<Seq<char>, LineError>>
    decreases buffer.len(),
{
    match first_line_end(buffer) {
        None => Seq::empty(),
        Some(i) => if 0 <= i < buffer.len() {
            seq![decode_line(buffer.take(i))] + lines_of(buffer.skip(i + 1))
        } else {
            Seq::empty()
        },
    }
}

/// What follows the last complete line of a buffer.
pub open spec fn fragment_of(buffer: Seq<u8>) -> Seq<u8>
    decreases buffer.len(),
{
    match first_line_end(buffer) {
        None => buffer,
        Some(i) => if 0 <= i < buffer.len() {
            fragment_of(buffer.skip(i + 1))
        } else {
            buffer
        },
    }
}

/// What a line that was read holds.
pub open spec fn line_view(line: Result<String, LineError>) -> Result<Seq<char>, LineError> {
    match line {
        Ok(text) => Ok(text@),
        Err(e) => Err(e),
    }
}

/// What a sequence of lines that were read holds.
pub open spec fn line_views(lines: Seq<Result<String, LineError>>) -> Seq<
    Result<Seq<char>, LineError>,
> {
    lines.map_values(|line: Result<String, LineError>| line_view(line))
}

/// A buffer has at most one first newline.
pub proof fn lemma_line_end_unique(buffer: Seq<u8>, i: int)
    requires
        is_line_end(buffer, i),
    ensures
        first_line_end(buffer) == Some(i),
{
    let k = choose|k: int| is_line_end(buffer, k);
    assert(is_line_end(buffer, k));
    if k < i {
        assert(buffer[k] != NEWLINE);
    }
    if i < k {
        assert(buffer[i] != NEWLINE);
    }
}

/// A buffer without a newline has no line end.
pub proof fn lemma_no_line_end(buffer: Seq<u8>)
    requires
        forall|j: int| 0 <= j < buffer.len() ==> buffer[j] != NEWLINE,
    ensures
        first_line_end(buffer) is None,
{
}

/// Whether bytes arrive at once or in two pieces, the same lines are read
/// and the same fragment is left: the lines of the whole are the lines of
/// the first piece, then the lines of what the first piece left together
/// with the second.
pub proof fn law_lines_across_chunks(a: Seq<u8>, b: Seq<u8>)
    ensures
        lines_of(a + b) == lines_of(a) + lines_of(fragment_of(a) + b),
        fragment_of(a + b) == fragment_of(fragment_of(a) + b),
    decreases a.len(),
{
    match first_line_end(a) {
        None => {
            assert(lines_of(a) + lines_of(a + b) =~= lines_of(a + b));
        },
        Some(i) => {
            assert(is_line_end(a, i));
            assert(is_line_end(a + b, i));
            lemma_line_end_unique(a + b, i);
            assert((a + b).take(i) =~= a.take(i));
            assert((a + b).skip(i + 1) =~= a.skip(i + 1) + b);
            law_lines_across_chunks(a.skip(i + 1), b);
            let first = seq![decode_line(a.take(i))];
            assert(first + (lines_of(a.skip(i + 1)) + lines_of(fragment_of(a.skip(i + 1)) + b))
                =~= (first + lines_of(a.skip(i + 1))) + lines_of(fragment_of(a.skip(i + 1)) + b));
        },
    }
}

/// The encoding of a text without a newline holds no newline byte.
pub proof fn lemma_body_has_no_newline(text: Seq<char>)
    requires
        !text.contains('\n'),
    ensures
        forall|j: int| 0 <= j < encode_utf8(text).len() ==> encode_utf8(text)[j] != NEWLINE,
{
    assert forall|j: int| 0 <= j < encode_utf8(text).len() implies encode_utf8(text)[j]
        != NEWLINE by {
        if encode_utf8(text)[j] == NEWLINE {
            lemma_ascii_byte_in_encoding(text, j, NEWLINE);
        }
    }
}

/// Bytes without a newline, followed by a newline, hold one line and
/// leave nothing behind.
pub proof fn lemma_one_line(body: Seq<u8>)
    requires
        forall|j: int| 0 <= j < body.len() ==> body[j] != NEWLINE,
    ensures
        first_line_end(body.push(NEWLINE)) == Some(body.len() as int),
        lines_of(body.push(NEWLINE)) == seq![decode_line(body)],
        fragment_of(body.push(NEWLINE)) == Seq::<u8>::empty(),
{
    let wire = body.push(NEWLINE);
    let n = body.len() as int;
    assert(is_line_end(wire, n));
    lemma_line_end_unique(wire, n);
    assert(wire.take(n) =~= body);
    assert(wire.skip(n + 1) =~= Seq::<u8>::empty());
    lemma_no_line_end(wire.skip(n + 1));
    assert(lines_of(wire.skip(n + 1)) =~= Seq::empty());
    assert(fragment_of(wire.skip(n + 1)) =~= Seq::<u8>::empty());
    assert(lines_of(wire) =~= seq![decode_line(body)]);
}

/// A text without a newline, and without a carriage return at its end,
/// comes back unchanged when it is encoded and the bytes are decoded: the
/// bytes hold exactly one line, which is the text, and nothing is left.
pub proof fn law_line_round_trip(text: Seq<char>)
    requires
        !text.contains('\n'),
        text.len() == 0 || text.last() != '\r',
    ensures
        lines_of(wire_line(text)) == seq![Ok::<Seq<char>, LineError>(text)],
        fragment_of(wire_line(text)) == Seq::<u8>::empty(),
{
    let body = encode_utf8(text);
    if text.len() > 0 {
        assert(text.contains(text.last()));
        lemma_last_ascii_byte(text, CARRIAGE_RETURN);
    }
    assert(wire_line(text) =~= body.push(NEWLINE));
    lemma_body_has_no_newline(text);
    lemma_one_line(body);
    assert(strip_cr(body) == body);
    encode_utf8_valid_utf8(text);
    encode_utf8_decode_utf8(text);
}

/// A carriage return before the newline does not belong to the line: a
/// text without a newline that is sent with a carriage return and a newline
/// after it is read as the text itself.
pub proof fn law_carriage_return_dropped(text: Seq<char>)
    requires
        !text.contains('\n'),
    ensures
        lines_of(encode_utf8(text).push(CARRIAGE_RETURN).push(NEWLINE)) == seq![
            Ok::<Seq<char>, LineError>(text),
        ],
        fragment_of(encode_utf8(text).push(CARRIAGE_RETURN).push(NEWLINE)) == Seq::<u8>::empty(),
{
    let body = encode_utf8(text).push(CARRIAGE_RETURN);
    lemma_body_has_no_newline(text);
    lemma_one_line(body);
    assert(strip_cr(body) =~= encode_utf8(text));
    encode_utf8_valid_utf8(text);
    encode_utf8_decode_utf8(text);
}

/// The bytes that carry a text on the wire.
pub fn encode_line(text: &str) -> (wire: Vec<u8>)
    ensures
        wire@ == wire_line(text@),
{
    let mut wire = text.as_bytes_vec();
    let n = wire.len();
    proof {
        if text@.len() > 0 {
            lemma_last_ascii_byte(text@, NEWLINE);
        }
    }
    if n == 0 || wire[n - 1] != NEWLINE {
        wire.push(NEWLINE);
    }
    assert(wire@ =~= wire_line(text@));
    wire
}

/// The position of the first newline of the bytes, if there is one.
fn find_line_end(buffer: &Vec<u8>) -> (found: Option<usize>)
    ensures
        match found {
            Some(i) => is_line_end(buffer@, i as int),
            None => forall|j: int| 0 <= j < buffer@.len() ==> buffer@[j] != NEWLINE,
        },
{
    let mut i: usize = 0;
    while i < buffer.len()
        invariant
            i <= buffer@.len(),
            forall|j: int| 0 <= j < i ==> buffer@[j] != NEWLINE,
        decreases buffer@.len() - i,
    {
        if buffer[i] == NEWLINE {
            return Some(i);
        }
        i += 1;
    }
    None
}

/// Reads lines out of the bytes of one connection, as they arrive.
pub struct LineDecoder {
    buffer: Vec<u8>,
}

impl LineDecoder {
    /// The bytes that arrived and belong to no line that was read yet.
    pub closed spec fn pending(&self) -> Seq<u8> {
        self.buffer@
    }

    /// A decoder that holds no bytes.
    pub fn new() -> (decoder: LineDecoder)
        ensures
            decoder.pending() == Seq::<u8>::empty(),
    {
        LineDecoder { buffer: Vec::new() }
    }

    /// Takes in bytes that arrived on the connection.
    pub fn feed(&mut self, bytes: &[u8])
        ensures
            final(self).pending() == old(self).pending() + bytes@,
    {
        let ghost before = self.buffer@;
        let mut i: usize = 0;
        while i < bytes.len()
            invariant
                i <= bytes@.len(),
                self.buffer@ == before + bytes@.take(i as int),
            decreases bytes@.len() - i,
        {
            self.buffer.push(bytes[i]);
            assert(bytes@.take(i + 1) =~= bytes@.take(i as int).push(bytes@[i as int]));
            i += 1;
        }
        assert(bytes@.take(i as int) =~= bytes@);
    }

    /// Reads the next complete line, if the bytes hold one: everything up
    /// to the first newline, without the newline and without a carriage
    /// return before it. The line and its newline leave the buffer also
    /// where the line is not UTF-8. Without a newline nothing changes.
    pub fn next_line(&mut self) -> (line: Option<Result<String, LineError>>)
        ensures
            match first_line_end(old(self).pending()) {
                None => line is None && final(self).pending() == old(self).pending(),
                Some(i) => {
                    &&& line matches Some(l) && line_view(l) == decode_line(
                        old(self).pending().take(i),
                    )
                    &&& final(self).pending() == old(self).pending().skip(i + 1)
                },
            },
    {
        let ghost before = self.buffer@;
        match find_line_end(&self.buffer) {
            None => {
                proof {
                    lemma_no_line_end(before);
                }
                None
            },
            Some(at) => {
                proof {
                    lemma_line_end_unique(before, at as int);
                }
                let mut raw = self.buffer.split_off(at);
                std::mem::swap(&mut self.buffer, &mut raw);
                let _ = self.buffer.remove(0);
                assert(raw@ =~= before.take(at as int));
                assert(self.buffer@ =~= before.skip(at + 1));
                let n = raw.len();
                if n > 0 && raw[n - 1] == CARRIAGE_RETURN {
                    let _ = raw.pop();
                }
                assert(raw@ =~= strip_cr(before.take(at as int)));
                match string_from_utf8(raw) {
                    Some(text) => Some(Ok(text)),
                    None => Some(Err(LineError::InvalidUtf8)),
                }
            },
        }
    }

    /// Reads every complete line that the bytes hold, in order, and keeps
    /// what follows the last of them.
    pub fn drain_lines(&mut self) -> (lines: Vec<Result<String, LineError>>)
        ensures
            line_views(lines@) == lines_of(old(self).pending()),
            final(self).pending() == fragment_of(old(self).pending()),
    {
        let ghost before = self.buffer@;
        let mut lines: Vec<Result<String, LineError>> = Vec::new();
        assert(line_views(lines@) =~= Seq::empty());
        loop
            invariant
                lines_of(before) == line_views(lines@) + lines_of(self.buffer@),
                fragment_of(before) == fragment_of(self.buffer@),
            ensures
                line_views(lines@) == lines_of(before),
                self.buffer@ == fragment_of(before),
            decreases self.buffer@.len(),
        {
            let ghost step = self.buffer@;
            let ghost so_far = lines@;
            match self.next_line() {
                None => {
                    assert(lines_of(step) =~= Seq::empty());
                    assert(line_views(lines@) + lines_of(step) =~= line_views(lines@));
                    break ;
                },
                Some(line) => {
                    lines.push(line);
                    proof {
                        let i = first_line_end(step)->0;
                        assert(is_line_end(step, i));
                        assert(line_views(lines@) =~= line_views(so_far).push(line_view(line)));
                        assert(line_views(lines@) + lines_of(self.buffer@) =~= line_views(so_far)
                            + lines_of(step));
                    }
                },
            }
        }
        lines
    }

    /// Ends the connection: bytes that wait for a newline are discarded.
    /// Returns how many there were.
    pub fn finish(&mut self) -> (discarded: usize)
        ensures
            discarded == old(self).pending().len(),
            final(self).pending() == Seq::<u8>::empty(),
    {
        let discarded = self.buffer.len();
        self.buffer.clear();
        discarded
    }

    /// The number of bytes that wait for a newline or for being read.
    pub fn buffered(&self) -> (count: usize)
        ensures
            count == self.pending().len(),
    {
        self.buffer.len()
    }
}

} // verus!
