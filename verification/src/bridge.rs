//! The client's network bridge. The bridge owns the connection and polls
//! it at a fixed interval; the user interface hands it what to send and
//! takes from it what arrived, through two ordered queues. Each round the
//! bridge writes everything that waits to be sent, then makes one read
//! that does not block, then sleeps.
//!
//! The functions here decide what one round writes and what it hands to
//! the interface; the reading, the writing and the sleeping are the
//! caller's. A write that fails is the caller's to swallow: nothing here
//! depends on it.

use crate::codec::{encode_line, fragment_of, line_views, lines_of, wire_line, LineDecoder, LineError};
use crate::message::{message_views, MessageView, NetMessage};
use crate::text::texts;
use crate::wire::{decode_message, decoded_message, encode_message, message_view, wire_text};
use vstd::prelude::*;
use vstd::string::*;
use vstd::utf8::*;

verus! {

/// The time between two rounds, in milliseconds.
pub const POLL_INTERVAL_MS: u64 = 10;

/// The most bytes that are read of one datagram.
pub const DATAGRAM_BUFFER_LEN: usize = 2048;

/// What the read of one round brought.
#[derive(Debug, PartialEq, Eq)]
pub enum ReadEvent {
    /// Nothing was there to read, or the read failed.
    Idle,
    /// These bytes arrived.
    Data(Vec<u8>),
    /// The stream has ended.
    End,
}

/// The byte sequences that a list of buffers holds.
pub open spec fn byte_views(buffers: Seq<Vec<u8>>) -> Seq<Seq<u8>> {
    buffers.map_values(|b: Vec<u8>| b@)
}

/// The packets for a list of messages, in the same order.
pub open spec fn packets_of(messages: Seq<MessageView>) -> Seq<Seq<u8>> {
    messages.map_values(|m: MessageView| encode_utf8(wire_text(m)))
}

/// The wire bytes for a list of texts, in the same order.
pub open spec fn wire_lines(lines: Seq<Seq<char>>) -> Seq<Seq<u8>> {
    lines.map_values(|t: Seq<char>| wire_line(t))
}

/// The lines that could be read, in order, without those that could not.
pub open spec fn good_lines(lines: Seq<Result<Seq<char>, LineError>>) -> Seq<Seq<char>>
    decreases lines.len(),
{
    if lines.len() == 0 {
        Seq::empty()
    } else {
        match lines.last() {
            Ok(text) => good_lines(lines.drop_last()).push(text),
            Err(_) => good_lines(lines.drop_last()),
        }
    }
}

/// What the stream bridge does with the read of one round.
pub struct StreamRead {
    /// The lines to hand to the interface, in this order.
    pub arrived: Vec<String>,
    /// Whether the bridge goes on after this round.
    pub running: bool,
}

/// The packet that a datagram client sends first, so that the relay
/// registers it.
pub fn join_packet(name: &str) -> (packet: Vec<u8>)
    ensures
        packet@ == encode_utf8(wire_text(MessageView::Join { username: name@ })),
{
    encode_message(&NetMessage::Join { username: String::from_str(name) })
}

/// The first step of a round of the datagram bridge: every message that
/// waits is encoded into one packet of its own, in order.
pub fn outbound_packets(pending: &Vec<NetMessage>) -> (packets: Vec<Vec<u8>>)
    ensures
        byte_views(packets@) == packets_of(message_views(pending@)),
{
    let mut packets: Vec<Vec<u8>> = Vec::new();
    let mut i: usize = 0;
    while i < pending.len()
        invariant
            i <= pending@.len(),
            byte_views(packets@) == packets_of(message_views(pending@.take(i as int))),
        decreases pending@.len() - i,
    {
        let ghost earlier = packets@;
        packets.push(encode_message(&pending[i]));
        assert(byte_views(packets@) =~= byte_views(earlier).push(
            encode_utf8(wire_text(pending@[i as int]@)),
        ));
        assert(pending@.take(i + 1) =~= pending@.take(i as int).push(pending@[i as int]));
        assert(packets_of(message_views(pending@.take(i + 1))) =~= packets_of(
            message_views(pending@.take(i as int)),
        ).push(encode_utf8(wire_text(pending@[i as int]@))));
        i += 1;
    }
    assert(pending@.take(i as int) =~= pending@);
    packets
}

/// The second step of a round of the datagram bridge: the packet that was
/// read, if any, is decoded on its own. A packet that holds no message is
/// dropped.
pub fn inbound_message(read: &ReadEvent) -> (arrived: Option<NetMessage>)
    ensures
        message_view(arrived) == match read {
            ReadEvent::Data(bytes) => decoded_message(bytes@),
            _ => None,
        },
{
    match read {
        ReadEvent::Data(bytes) => decode_message(bytes.as_slice()),
        _ => None,
    }
}

/// The first step of a round of the stream bridge: every text that waits
/// is framed as a line, in order.
pub fn outbound_lines(pending: &Vec<String>) -> (writes: Vec<Vec<u8>>)
    ensures
        byte_views(writes@) == wire_lines(texts(pending@)),
{
    let mut writes: Vec<Vec<u8>> = Vec::new();
    let mut i: usize = 0;
    while i < pending.len()
        invariant
            i <= pending@.len(),
            byte_views(writes@) == wire_lines(texts(pending@.take(i as int))),
        decreases pending@.len() - i,
    {
        let ghost earlier = writes@;
        writes.push(encode_line(pending[i].as_str()));
        assert(byte_views(writes@) =~= byte_views(earlier).push(wire_line(pending@[i as int]@)));
        assert(pending@.take(i + 1) =~= pending@.take(i as int).push(pending@[i as int]));
        assert(wire_lines(texts(pending@.take(i + 1))) =~= wire_lines(
            texts(pending@.take(i as int)),
        ).push(wire_line(pending@[i as int]@)));
        i += 1;
    }
    assert(pending@.take(i as int) =~= pending@);
    writes
}

/// The reading side of a stream client's bridge: the bytes that arrived
/// and belong to no complete line yet.
pub struct StreamBridge {
    decoder: LineDecoder,
}

impl StreamBridge {
    /// The bytes that wait for the rest of their line.
    pub closed spec fn pending(&self) -> Seq<u8> {
        self.decoder.pending()
    }

    /// A bridge that has read nothing yet.
    pub fn new() -> (bridge: StreamBridge)
        ensures
            bridge.pending() == Seq::<u8>::empty(),
    {
        StreamBridge { decoder: LineDecoder::new() }
    }

    /// The second step of a round of the stream bridge. Bytes that were
    /// read are added to those that wait, and every complete line among
    /// them is handed on, but for lines that are not UTF-8, which are
    /// dropped. When the stream has ended the bridge stops, and bytes that
    /// still wait for a newline are discarded.
    pub fn on_read(&mut self, read: &ReadEvent) -> (step: StreamRead)
        ensures
            match read {
                ReadEvent::Idle => {
                    &&& texts(step.arrived@) == Seq::<Seq<char>>::empty()
                    &&& step.running
                    &&& final(self).pending() == old(self).pending()
                },
                ReadEvent::Data(bytes) => {
                    &&& texts(step.arrived@) == good_lines(lines_of(old(self).pending() + bytes@))
                    &&& step.running
                    &&& final(self).pending() == fragment_of(old(self).pending() + bytes@)
                },
                ReadEvent::End => {
                    &&& texts(step.arrived@) == Seq::<Seq<char>>::empty()
                    &&& !step.running
                    &&& final(self).pending() == Seq::<u8>::empty()
                },
            },
    {
        let mut arrived: Vec<String> = Vec::new();
        assert(texts(arrived@) =~= Seq::<Seq<char>>::empty());
        let mut running = true;
        match read {
            ReadEvent::Idle => {},
            ReadEvent::Data(bytes) => {
                self.decoder.feed(bytes.as_slice());
                let lines = self.decoder.drain_lines();
                let mut k: usize = 0;
                while k < lines.len()
                    invariant
                        k <= lines@.len(),
                        texts(arrived@) == good_lines(line_views(lines@).take(k as int)),
                    decreases lines@.len() - k,
                {
                    let ghost earlier = arrived@;
                    let ghost seen = line_views(lines@).take(k + 1);
                    assert(seen.drop_last() =~= line_views(lines@).take(k as int));
                    assert(seen.last() == line_views(lines@)[k as int]);
                    match &lines[k] {
                        Ok(text) => {
                            arrived.push(text.clone());
                            assert(texts(arrived@) =~= texts(earlier).push(text@));
                        },
                        Err(_) => {},
                    }
                    k += 1;
                }
                assert(line_views(lines@).take(k as int) =~= line_views(lines@));
            },
            ReadEvent::End => {
                let _ = self.decoder.finish();
                running = false;
            },
        }
        StreamRead { arrived, running }
    }
}

/// Within one round nothing is reordered: the packets stand in the order
/// of the messages they carry, one packet for each message.
pub proof fn law_packets_keep_order(messages: Seq<MessageView>, i: int)
    requires
        0 <= i < messages.len(),
    ensures
        packets_of(messages).len() == messages.len(),
        packets_of(messages)[i] == encode_utf8(wire_text(messages[i])),
{
}

/// A line that cannot be read costs nothing but itself: the lines before
/// and after it are handed on in order.
pub proof fn law_bad_line_fails_alone(
    before: Seq<Result<Seq<char>, LineError>>,
    after: Seq<Result<Seq<char>, LineError>>,
    e: LineError,
)
    ensures
        good_lines(before + seq![Err::<Seq<char>, LineError>(e)] + after) == good_lines(before)
            + good_lines(after),
    decreases after.len(),
{
    let bad = seq![Err::<Seq<char>, LineError>(e)];
    let all = before + bad + after;
    if after.len() == 0 {
        assert(all.drop_last() =~= before);
        assert(good_lines(after) =~= Seq::<Seq<char>>::empty());
        assert(good_lines(before) + good_lines(after) =~= good_lines(before));
    } else {
        law_bad_line_fails_alone(before, after.drop_last(), e);
        assert(all.drop_last() =~= before + bad + after.drop_last());
        assert(all.last() == after.last());
        match after.last() {
            Ok(text) => {
                assert(good_lines(before) + good_lines(after.drop_last()).push(text) =~= (
                good_lines(before) + good_lines(after.drop_last())).push(text));
            },
            Err(_) => {},
        }
    }
}

} // verus!
