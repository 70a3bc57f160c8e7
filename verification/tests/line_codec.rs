use chat_relay::codec::{encode_line, LineDecoder, LineError};

fn decode_all(bytes: &[u8]) -> Vec<Result<String, LineError>> {
    let mut decoder = LineDecoder::new();
    decoder.feed(bytes);
    decoder.drain_lines()
}

#[test]
fn encode_appends_a_newline() {
    assert_eq!(encode_line("hello"), b"hello\n".to_vec());
    assert_eq!(encode_line(""), b"\n".to_vec());
}

#[test]
fn encode_keeps_a_newline_that_is_there() {
    assert_eq!(encode_line("hello\n"), b"hello\n".to_vec());
    assert_eq!(encode_line("two\nlines"), b"two\nlines\n".to_vec());
}

#[test]
fn line_round_trip() {
    for text in ["hello", "", "h\u{e9}llo w\u{f6}rld \u{2713}", "  spaced  ", "\u{1f600}", "a\rb"] {
        assert_eq!(decode_all(&encode_line(text)), vec![Ok(text.to_string())]);
    }
}

#[test]
fn trailing_carriage_return_is_stripped() {
    assert_eq!(decode_all(b"hello\r\n"), vec![Ok("hello".to_string())]);
    assert_eq!(decode_all(b"hello\r\r\n"), vec![Ok("hello\r".to_string())]);
    assert_eq!(decode_all(b"\r\n"), vec![Ok(String::new())]);
}

#[test]
fn bytes_without_newline_wait() {
    let mut decoder = LineDecoder::new();
    decoder.feed(b"he");
    assert_eq!(decoder.next_line(), None);
    assert_eq!(decoder.buffered(), 2);
    decoder.feed(b"llo\nwor");
    assert_eq!(decoder.next_line(), Some(Ok("hello".to_string())));
    assert_eq!(decoder.next_line(), None);
    assert_eq!(decoder.buffered(), 3);
    decoder.feed(b"ld\n");
    assert_eq!(decoder.next_line(), Some(Ok("world".to_string())));
    assert_eq!(decoder.buffered(), 0);
}

#[test]
fn fragment_is_discarded_at_the_end() {
    let mut decoder = LineDecoder::new();
    decoder.feed(b"done\npartial");
    assert_eq!(decoder.next_line(), Some(Ok("done".to_string())));
    assert_eq!(decoder.finish(), 7);
    assert_eq!(decoder.buffered(), 0);
    assert_eq!(decoder.next_line(), None);
}

#[test]
fn invalid_utf8_fails_that_line_only() {
    let mut decoder = LineDecoder::new();
    decoder.feed(&[b'a', b'\n', 0xff, 0xfe, b'\n', b'o', b'k', b'\n']);
    assert_eq!(decoder.next_line(), Some(Ok("a".to_string())));
    assert_eq!(decoder.next_line(), Some(Err(LineError::InvalidUtf8)));
    assert_eq!(decoder.next_line(), Some(Ok("ok".to_string())));
    assert_eq!(decoder.next_line(), None);
}

#[test]
fn split_multi_byte_character_is_reassembled() {
    let bytes = encode_line("\u{65e5}\u{672c}");
    let mut decoder = LineDecoder::new();
    decoder.feed(&bytes[..2]);
    assert_eq!(decoder.next_line(), None);
    decoder.feed(&bytes[2..]);
    assert_eq!(decoder.next_line(), Some(Ok("\u{65e5}\u{672c}".to_string())));
}

#[test]
fn drain_reads_every_complete_line() {
    let mut decoder = LineDecoder::new();
    decoder.feed(b"one\ntwo\r\n\nfour\nrest");
    assert_eq!(
        decoder.drain_lines(),
        vec![
            Ok("one".to_string()),
            Ok("two".to_string()),
            Ok(String::new()),
            Ok("four".to_string())
        ]
    );
    assert_eq!(decoder.buffered(), 4);
    assert_eq!(decoder.drain_lines(), Vec::new());
}
