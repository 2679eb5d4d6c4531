use printer_protocol::catalog::{lookup, PrinterCommand, ResponsePolicy};
use printer_protocol::reader::{
    bytes_end_with, decode_response, ReadError, ReaderStatus, ResponseReader,
};

fn terminator(max_length: usize) -> ResponsePolicy {
    ResponsePolicy::Terminator { sequence: b"\r\nok\r\n".to_vec(), max_length }
}

/// Feeds `stream` cut into pieces of the given sizes; a size that runs past
/// the end takes what is left. Returns how many bytes were taken in all.
fn feed_in_pieces(reader: &mut ResponseReader, stream: &[u8], sizes: &[usize]) -> usize {
    let mut at = 0;
    let mut taken = 0;
    let mut turn = 0;
    while at < stream.len() {
        let size = sizes[turn % sizes.len()].max(1);
        let end = (at + size).min(stream.len());
        let consumed = reader.feed(&stream[at..end]);
        taken += consumed;
        if consumed < end - at {
            break;
        }
        at = end;
        turn += 1;
    }
    taken
}

#[test]
fn terminator_reads_response_whatever_the_chunking() {
    let stream = b"abc\r\nok\r\n";
    let splits: [&[usize]; 8] =
        [&[1], &[2], &[3], &[4], &[5, 1], &[1, 7], &[8, 1], &[100]];
    for sizes in splits {
        let mut reader = ResponseReader::new(terminator(1024));
        let taken = feed_in_pieces(&mut reader, stream, sizes);
        assert_eq!(taken, stream.len());
        assert_eq!(reader.status(), ReaderStatus::Complete);
        assert!(!reader.is_pending());
        assert_eq!(reader.received(), &stream.to_vec());
        assert_eq!(reader.finish(), Some(Ok(String::from("abc\r\nok\r\n"))));
    }
}

#[test]
fn terminator_one_byte_at_a_time_completes_on_the_last_byte_only() {
    let stream = b"abc\r\nok\r\n";
    let mut reader = ResponseReader::new(terminator(1024));
    for (i, byte) in stream.iter().enumerate() {
        assert!(reader.is_pending());
        assert_eq!(reader.wanted(), 1);
        assert_eq!(reader.feed(&[*byte]), 1);
        assert_eq!(reader.is_pending(), i + 1 < stream.len());
    }
    assert_eq!(reader.wanted(), 0);
    assert_eq!(reader.finish(), Some(Ok(String::from("abc\r\nok\r\n"))));
}

#[test]
fn terminator_leaves_what_follows_the_response() {
    let mut reader = ResponseReader::new(terminator(1024));
    let stream = b"abc\r\nok\r\nnext\r\nok\r\n";
    assert_eq!(reader.feed(stream), 9);
    assert_eq!(reader.received(), &b"abc\r\nok\r\n".to_vec());
    assert_eq!(reader.feed(&stream[9..]), 0);
    assert_eq!(reader.received(), &b"abc\r\nok\r\n".to_vec());
    assert_eq!(reader.finish(), Some(Ok(String::from("abc\r\nok\r\n"))));

    let mut second = ResponseReader::new(terminator(1024));
    assert_eq!(second.feed(&stream[9..]), 10);
    assert_eq!(second.finish(), Some(Ok(String::from("next\r\nok\r\n"))));
}

#[test]
fn terminator_alone_is_a_complete_response() {
    let mut reader = ResponseReader::new(terminator(1024));
    assert_eq!(reader.feed(b"\r\nok\r\n"), 6);
    assert_eq!(reader.finish(), Some(Ok(String::from("\r\nok\r\n"))));
}

#[test]
fn terminator_needs_the_whole_sequence() {
    let mut reader = ResponseReader::new(terminator(1024));
    assert_eq!(reader.feed(b"data ok\r\n\r\nok\r"), 14);
    assert!(reader.is_pending());
    assert_eq!(reader.finish(), None);
}

#[test]
fn terminator_oversized_stops_at_the_bound() {
    let stream = vec![b'x'; 5000];
    let mut reader = ResponseReader::new(terminator(1024));
    assert_eq!(reader.feed(&stream), 1024);
    assert_eq!(reader.status(), ReaderStatus::Oversized);
    assert_eq!(reader.received().len(), 1024);
    assert_eq!(reader.feed(&stream), 0);
    assert_eq!(reader.received().len(), 1024);
    assert_eq!(reader.wanted(), 0);
    assert_eq!(reader.finish(), Some(Err(ReadError::OversizedResponse)));
}

#[test]
fn terminator_oversized_one_byte_at_a_time() {
    let mut reader = ResponseReader::new(terminator(8));
    let mut taken = 0;
    for _ in 0..20 {
        taken += reader.feed(b"z");
    }
    assert_eq!(taken, 8);
    assert_eq!(reader.finish(), Some(Err(ReadError::OversizedResponse)));
}

#[test]
fn terminator_match_on_the_bound_is_a_success() {
    let mut reader = ResponseReader::new(terminator(9));
    assert_eq!(reader.feed(b"abc\r\nok\r\n"), 9);
    assert_eq!(reader.finish(), Some(Ok(String::from("abc\r\nok\r\n"))));

    let mut tight = ResponseReader::new(terminator(8));
    assert_eq!(tight.feed(b"abc\r\nok\r\n"), 8);
    assert_eq!(tight.finish(), Some(Err(ReadError::OversizedResponse)));
}

#[test]
fn terminator_with_zero_bound_takes_nothing() {
    let mut reader = ResponseReader::new(terminator(0));
    assert_eq!(reader.status(), ReaderStatus::Oversized);
    assert_eq!(reader.wanted(), 0);
    assert_eq!(reader.feed(b"\r\nok\r\n"), 0);
    assert_eq!(reader.finish(), Some(Err(ReadError::OversizedResponse)));
}

#[test]
fn terminator_with_empty_sequence_ends_on_the_first_byte() {
    let policy = ResponsePolicy::Terminator { sequence: Vec::new(), max_length: 10 };
    let mut reader = ResponseReader::new(policy);
    assert!(reader.is_pending());
    assert_eq!(reader.feed(b"abc"), 1);
    assert_eq!(reader.finish(), Some(Ok(String::from("a"))));
}

#[test]
fn terminator_closed_before_match_is_truncated() {
    let mut reader = ResponseReader::new(terminator(1024));
    reader.feed(b"abc\r\no");
    reader.close();
    assert_eq!(reader.status(), ReaderStatus::Truncated);
    assert_eq!(reader.finish(), Some(Err(ReadError::TruncatedResponse)));
}

#[test]
fn transport_failure_aborts_the_read() {
    let mut reader = ResponseReader::new(terminator(1024));
    reader.feed(b"abc");
    reader.fail();
    assert_eq!(reader.status(), ReaderStatus::Failed);
    assert_eq!(reader.feed(b"\r\nok\r\n"), 0);
    assert_eq!(reader.finish(), Some(Err(ReadError::TransportError)));

    let mut fixed = ResponseReader::new(ResponsePolicy::FixedLength { n: 3 });
    fixed.fail();
    assert_eq!(fixed.finish(), Some(Err(ReadError::TransportError)));

    let mut open = ResponseReader::new(ResponsePolicy::ReadToClose);
    open.feed(b"abc");
    open.fail();
    assert_eq!(open.finish(), Some(Err(ReadError::TransportError)));
}

#[test]
fn events_after_the_end_change_nothing() {
    let mut reader = ResponseReader::new(terminator(1024));
    reader.feed(b"\r\nok\r\n");
    reader.close();
    reader.fail();
    assert_eq!(reader.status(), ReaderStatus::Complete);
    let mut failed = ResponseReader::new(terminator(1024));
    failed.fail();
    failed.close();
    assert_eq!(failed.status(), ReaderStatus::Failed);
    let mut closed = ResponseReader::new(terminator(1024));
    closed.close();
    closed.fail();
    assert_eq!(closed.status(), ReaderStatus::Truncated);
}

#[test]
fn fixed_length_returns_exactly_n_bytes() {
    let mut reader = ResponseReader::new(ResponsePolicy::FixedLength { n: 5 });
    assert_eq!(reader.wanted(), 5);
    assert_eq!(reader.feed(b"he"), 2);
    assert!(reader.is_pending());
    assert_eq!(reader.wanted(), 3);
    assert_eq!(reader.feed(b"llo"), 3);
    assert_eq!(reader.status(), ReaderStatus::Complete);
    assert_eq!(reader.wanted(), 0);
    assert_eq!(reader.finish(), Some(Ok(String::from("hello"))));
}

#[test]
fn fixed_length_takes_no_more_than_n() {
    let mut reader = ResponseReader::new(ResponsePolicy::FixedLength { n: 5 });
    assert_eq!(reader.feed(b"hello world"), 5);
    assert_eq!(reader.feed(b" world"), 0);
    assert_eq!(reader.finish(), Some(Ok(String::from("hello"))));
}

#[test]
fn fixed_length_short_before_close_is_truncated() {
    let mut reader = ResponseReader::new(ResponsePolicy::FixedLength { n: 5 });
    assert_eq!(reader.feed(b"hell"), 4);
    reader.close();
    assert_eq!(reader.status(), ReaderStatus::Truncated);
    assert_eq!(reader.finish(), Some(Err(ReadError::TruncatedResponse)));
}

#[test]
fn fixed_length_zero_is_complete_at_once() {
    let mut reader = ResponseReader::new(ResponsePolicy::FixedLength { n: 0 });
    assert_eq!(reader.status(), ReaderStatus::Complete);
    assert_eq!(reader.wanted(), 0);
    assert_eq!(reader.feed(b"abc"), 0);
    assert_eq!(reader.finish(), Some(Ok(String::new())));
}

#[test]
fn read_to_close_returns_everything() {
    let mut reader = ResponseReader::new(ResponsePolicy::ReadToClose);
    assert_eq!(reader.wanted(), usize::MAX);
    assert_eq!(reader.feed(b"line one\r\nok\r\n"), 14);
    assert_eq!(reader.feed(b"line two"), 8);
    assert!(reader.is_pending());
    reader.close();
    assert_eq!(reader.status(), ReaderStatus::Complete);
    assert_eq!(reader.finish(), Some(Ok(String::from("line one\r\nok\r\nline two"))));
}

#[test]
fn read_to_close_of_an_empty_stream() {
    let mut reader = ResponseReader::new(ResponsePolicy::ReadToClose);
    reader.close();
    assert_eq!(reader.finish(), Some(Ok(String::new())));
}

#[test]
fn pending_reader_has_no_outcome() {
    let reader = ResponseReader::new(terminator(1024));
    assert_eq!(reader.finish(), None);
    let fixed = ResponseReader::new(ResponsePolicy::FixedLength { n: 1 });
    assert_eq!(fixed.finish(), None);
}

#[test]
fn non_text_response_is_an_encoding_error_with_its_bytes() {
    let mut stream = vec![0xff, 0xfe, b'a'];
    stream.extend_from_slice(b"\r\nok\r\n");
    let mut reader = ResponseReader::new(terminator(1024));
    assert_eq!(reader.feed(&stream), stream.len());
    assert_eq!(reader.status(), ReaderStatus::Complete);
    assert_eq!(reader.finish(), Some(Err(ReadError::EncodingError { raw: stream.clone() })));

    let mut fixed = ResponseReader::new(ResponsePolicy::FixedLength { n: 2 });
    fixed.feed(&[0xc3, 0x28]);
    assert_eq!(fixed.finish(), Some(Err(ReadError::EncodingError { raw: vec![0xc3, 0x28] })));

    let mut open = ResponseReader::new(ResponsePolicy::ReadToClose);
    open.feed(&[0xe2, 0x82]);
    open.close();
    assert_eq!(open.finish(), Some(Err(ReadError::EncodingError { raw: vec![0xe2, 0x82] })));
}

#[test]
fn text_beyond_ascii_is_decoded() {
    let text = "temp 21\u{b0}C \u{2713}\r\nok\r\n";
    let mut reader = ResponseReader::new(terminator(1024));
    assert_eq!(reader.feed(text.as_bytes()), text.len());
    assert_eq!(reader.finish(), Some(Ok(String::from(text))));
}

#[test]
fn decode_response_checks_the_text() {
    assert_eq!(decode_response(b"ok\r\n".to_vec()), Ok(String::from("ok\r\n")));
    assert_eq!(decode_response(Vec::new()), Ok(String::new()));
    assert_eq!(
        decode_response("\u{e9}".as_bytes().to_vec()),
        Ok(String::from("\u{e9}"))
    );
    assert_eq!(
        decode_response(vec![0xed, 0xa0, 0x80]),
        Err(ReadError::EncodingError { raw: vec![0xed, 0xa0, 0x80] })
    );
    assert_eq!(
        decode_response(vec![0xc0, 0x80]),
        Err(ReadError::EncodingError { raw: vec![0xc0, 0x80] })
    );
    assert_eq!(
        decode_response(vec![b'a', 0x80]),
        Err(ReadError::EncodingError { raw: vec![b'a', 0x80] })
    );
}

#[test]
fn bytes_end_with_compares_the_tail() {
    assert!(bytes_end_with(b"abc\r\nok\r\n", b"\r\nok\r\n"));
    assert!(bytes_end_with(b"\r\nok\r\n", b"\r\nok\r\n"));
    assert!(bytes_end_with(b"abc", b""));
    assert!(bytes_end_with(b"", b""));
    assert!(!bytes_end_with(b"ok\r\n", b"\r\nok\r\n"));
    assert!(!bytes_end_with(b"abc\r\nok\r\nx", b"\r\nok\r\n"));
    assert!(!bytes_end_with(b"abc\r\nOk\r\n", b"\r\nok\r\n"));
    assert!(!bytes_end_with(b"", b"a"));
}

#[test]
fn catalog_policy_reads_a_status_response() {
    let entry = lookup(PrinterCommand::MachineStatus);
    let mut reader = ResponseReader::new(entry.response_policy);
    let response = b"CMD M119 Received.\r\nEndstop: X-max:1 Y-max:0 Z-max:0\r\nok\r\n";
    assert_eq!(reader.feed(response), response.len());
    assert_eq!(
        reader.finish(),
        Some(Ok(String::from("CMD M119 Received.\r\nEndstop: X-max:1 Y-max:0 Z-max:0\r\nok\r\n")))
    );
}
