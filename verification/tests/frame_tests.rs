use sendme::frame::{FrameError, FrameReader, ReadOutcome, MAX_MESSAGE_SIZE};
use sendme::write_message;

fn framed(payload: &[u8]) -> Vec<u8> {
    let mut out = Vec::new();
    write_message(&mut out, payload).unwrap();
    out
}

#[test]
fn round_trip_single_message() {
    let payload = b"hello gossip".to_vec();
    let wire = framed(&payload);
    assert_eq!(wire.len(), 4 + payload.len());

    let mut reader = FrameReader::new();
    reader.feed(&wire);
    match reader.read_lp(false).unwrap() {
        ReadOutcome::Message(m) => assert_eq!(m, payload),
        other => panic!("expected a message, got {:?}", other),
    }
    assert_eq!(reader.read_lp(true).unwrap(), ReadOutcome::ClosedClean);
}

#[test]
fn round_trip_empty_payload() {
    let wire = framed(b"");
    assert_eq!(wire, vec![0, 0, 0, 0]);
    let mut reader = FrameReader::new();
    reader.feed(&wire);
    match reader.read_lp(false).unwrap() {
        ReadOutcome::Message(m) => assert!(m.is_empty()),
        other => panic!("expected a message, got {:?}", other),
    }
}

#[test]
fn round_trip_largest_allowed() {
    let payload = vec![0xabu8; MAX_MESSAGE_SIZE - 1];
    let wire = framed(&payload);
    let mut reader = FrameReader::new();
    reader.feed(&wire);
    match reader.read_lp(true).unwrap() {
        ReadOutcome::Message(m) => assert_eq!(m, payload),
        other => panic!("expected a message, got {:?}", other),
    }
}

#[test]
fn oversized_write_rejected_before_any_byte() {
    let payload = vec![0u8; MAX_MESSAGE_SIZE];
    let mut out = vec![0xeeu8, 0xff];
    assert_eq!(write_message(&mut out, &payload), Err(FrameError::Oversized));
    // nothing was written: the scratch buffer is exactly as before
    assert_eq!(out, vec![0xeeu8, 0xff]);
}

#[test]
fn oversized_declared_length_rejected_on_read() {
    let mut wire = Vec::new();
    let size = MAX_MESSAGE_SIZE as u32;
    wire.extend_from_slice(&size.to_be_bytes());
    wire.extend_from_slice(&[0u8; 16]);
    let mut reader = FrameReader::new();
    reader.feed(&wire);
    assert_eq!(reader.read_lp(false), Err(FrameError::Oversized));
}

#[test]
fn partial_reads_one_byte_at_a_time() {
    let payload = b"chunked delivery".to_vec();
    let wire = framed(&payload);

    let mut reader = FrameReader::new();
    for (i, b) in wire.iter().enumerate() {
        let outcome = reader.read_lp(false).unwrap();
        if i < wire.len() {
            assert_eq!(outcome, ReadOutcome::NeedMoreData, "before byte {}", i);
        }
        reader.feed(&[*b]);
    }
    match reader.read_lp(false).unwrap() {
        ReadOutcome::Message(m) => assert_eq!(m, payload),
        other => panic!("expected a message, got {:?}", other),
    }

    // same bytes in one chunk give the same result
    let mut whole = FrameReader::new();
    whole.feed(&wire);
    match whole.read_lp(false).unwrap() {
        ReadOutcome::Message(m) => assert_eq!(m, payload),
        other => panic!("expected a message, got {:?}", other),
    }
}

#[test]
fn pipelined_messages_read_in_order() {
    let first = b"first message".to_vec();
    let second = b"second".to_vec();
    let mut wire = framed(&first);
    wire.extend_from_slice(&framed(&second));

    let mut reader = FrameReader::new();
    reader.feed(&wire);
    match reader.read_lp(false).unwrap() {
        ReadOutcome::Message(m) => assert_eq!(m, first),
        other => panic!("expected first message, got {:?}", other),
    }
    match reader.read_lp(false).unwrap() {
        ReadOutcome::Message(m) => assert_eq!(m, second),
        other => panic!("expected second message, got {:?}", other),
    }
    assert_eq!(reader.read_lp(true).unwrap(), ReadOutcome::ClosedClean);
}

#[test]
fn clean_eof_only_at_frame_boundary() {
    // nothing buffered at a boundary: clean close
    let mut empty = FrameReader::new();
    assert_eq!(empty.read_lp(true).unwrap(), ReadOutcome::ClosedClean);

    // eof in the middle of the prefix: an error
    let mut mid_prefix = FrameReader::new();
    mid_prefix.feed(&[0, 0]);
    assert_eq!(mid_prefix.read_lp(true), Err(FrameError::TruncatedPrefix));

    // eof in the middle of the payload: an error
    let wire = framed(b"truncated");
    let mut mid_payload = FrameReader::new();
    mid_payload.feed(&wire[..wire.len() - 2]);
    assert_eq!(mid_payload.read_lp(true), Err(FrameError::TruncatedPayload));

    // without eof the same states just wait for more data
    let mut waiting = FrameReader::new();
    waiting.feed(&wire[..wire.len() - 2]);
    assert_eq!(waiting.read_lp(false).unwrap(), ReadOutcome::NeedMoreData);
}
