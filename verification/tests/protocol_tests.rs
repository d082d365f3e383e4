use sendme::protocol::{
    decode_handshake, decode_request, decode_res, decode_response, write_handshake, write_lp,
    write_request, write_response, write_varint, Handshake, LpError, LpOutcome, LpReader, ReadLp,
    Request, Res, Response, MAX_MESSAGE_SIZE, VERSION,
};

#[test]
fn varint_matches_reference_encoder() {
    for value in [
        0u64,
        1,
        0x7f,
        0x80,
        300,
        16384,
        u32::MAX as u64,
        u64::MAX,
    ] {
        let mut ours = Vec::new();
        write_varint(&mut ours, value);
        let mut buf = [0u8; 10];
        let theirs = unsigned_varint::encode::u64(value, &mut buf);
        assert_eq!(ours, theirs, "value {}", value);
        // postcard uses the same varint form for integers
        let pc = postcard::to_allocvec(&value).unwrap();
        assert_eq!(ours, pc, "value {}", value);
    }
}

#[test]
fn lp_round_trip() {
    let data = b"a record payload".to_vec();
    let mut wire = Vec::new();
    write_lp(&mut wire, &data).unwrap();
    assert_eq!(wire.len(), 1 + data.len());

    let mut reader = LpReader::new();
    reader.feed(&wire);
    match reader.read_lp_data(false).unwrap() {
        LpOutcome::Data(d) => assert_eq!(d, data),
        other => panic!("expected data, got {:?}", other),
    }
}

#[test]
fn lp_oversized_write_rejected() {
    let data = vec![0u8; MAX_MESSAGE_SIZE];
    let mut wire = Vec::new();
    assert_eq!(write_lp(&mut wire, &data), Err(LpError::Oversized));
    assert!(wire.is_empty());
}

#[test]
fn lp_oversized_declared_length_rejected() {
    let mut wire = Vec::new();
    write_varint(&mut wire, MAX_MESSAGE_SIZE as u64);
    let mut reader = LpReader::new();
    reader.feed(&wire);
    assert_eq!(reader.read_lp_data(false), Err(LpError::Oversized));
}

#[test]
fn lp_eof_is_always_an_error() {
    // even with nothing buffered: a record was expected
    let mut reader = LpReader::new();
    assert_eq!(reader.read_lp_data(true), Err(LpError::UnexpectedEof));

    // mid-payload
    let mut wire = Vec::new();
    write_lp(&mut wire, b"cut short").unwrap();
    let mut partial = LpReader::new();
    partial.feed(&wire[..wire.len() - 3]);
    assert_eq!(partial.read_lp_data(false).unwrap(), LpOutcome::NeedMoreData);
    assert_eq!(partial.read_lp_data(true), Err(LpError::UnexpectedEof));
}

#[test]
fn lp_prefix_too_long_rejected() {
    let mut reader = LpReader::new();
    reader.feed(&[0x80u8; 10]);
    assert_eq!(reader.read_lp_data(false), Err(LpError::PrefixTooLong));
}

#[test]
fn lp_pipelining_keeps_following_record() {
    let mut wire = Vec::new();
    write_lp(&mut wire, b"one").unwrap();
    write_lp(&mut wire, b"two").unwrap();
    let mut reader = LpReader::new();
    reader.feed(&wire);
    match reader.read_lp_data(false).unwrap() {
        LpOutcome::Data(d) => assert_eq!(d, b"one".to_vec()),
        other => panic!("expected data, got {:?}", other),
    }
    match reader.read_lp_data(false).unwrap() {
        LpOutcome::Data(d) => assert_eq!(d, b"two".to_vec()),
        other => panic!("expected data, got {:?}", other),
    }
}

#[test]
fn lp_prefix_split_across_chunks() {
    // a payload long enough for a two-byte length prefix
    let data = vec![7u8; 300];
    let mut wire = Vec::new();
    write_lp(&mut wire, &data).unwrap();

    let mut reader = LpReader::new();
    reader.feed(&wire[..1]);
    assert_eq!(reader.read_lp_data(false).unwrap(), LpOutcome::NeedMoreData);
    reader.feed(&wire[1..]);
    match reader.read_lp_data(false).unwrap() {
        LpOutcome::Data(d) => assert_eq!(d, data),
        other => panic!("expected data, got {:?}", other),
    }
}

#[test]
fn decode_rejects_trailing_or_oversized_fields() {
    // a handshake with a trailing byte is not a handshake
    let mut wire = Vec::new();
    write_handshake(&mut wire, &Handshake::default());
    wire.push(0);
    assert_eq!(decode_handshake(&wire), None);

    // an id that cannot fit a u64 is rejected
    let mut huge = vec![0xffu8; 9];
    huge.push(0x7f);
    huge.extend_from_slice(&[0u8; 32]);
    assert_eq!(decode_request(&huge), None);
}

#[test]
fn handshake_default_speaks_current_version() {
    let h = Handshake::default();
    assert_eq!(h.version, VERSION);
    assert_eq!(VERSION, 1);
}

#[test]
fn handshake_round_trip() {
    let mut wire = Vec::new();
    write_handshake(&mut wire, &Handshake::default());
    assert_eq!(decode_handshake(&wire), Some(Handshake { version: 1 }));
}

#[test]
fn request_round_trip() {
    let mut name = [0u8; 32];
    for (i, b) in name.iter_mut().enumerate() {
        *b = i as u8;
    }
    let req = Request { id: 7, name };
    let mut wire = Vec::new();
    write_request(&mut wire, &req);
    assert_eq!(decode_request(&wire), Some(req));
}

#[test]
fn request_with_short_name_rejected() {
    let mut wire = Vec::new();
    write_varint(&mut wire, 7);
    wire.extend_from_slice(&[0u8; 31]);
    assert_eq!(decode_request(&wire), None);
}

#[test]
fn response_round_trip_not_found() {
    let resp = Response { id: 3, data: Res::NotFound };
    let mut wire = Vec::new();
    write_response(&mut wire, &resp);
    assert_eq!(decode_response(&wire), Some(resp));
}

#[test]
fn response_round_trip_found() {
    let resp = Response {
        id: 1000,
        data: Res::Found { size: 4096, outboard: vec![1, 2, 3, 4, 5] },
    };
    let mut wire = Vec::new();
    write_response(&mut wire, &resp);
    assert_eq!(decode_response(&wire), Some(resp));
}

#[test]
fn res_decode_rejects_unknown_variant() {
    assert_eq!(decode_res(&[2]), None);
    assert_eq!(decode_res(&[]), None);
    // NotFound with trailing garbage
    assert_eq!(decode_res(&[0, 0]), None);
}

#[test]
fn res_len_counts_outboard_bytes() {
    assert_eq!(Res::NotFound.len(), 0);
    let found = Res::Found { size: 10, outboard: vec![9, 9, 9] };
    assert_eq!(found.len(), 3);
}

#[test]
fn typed_read_lp_decodes_response() {
    let resp = Response { id: 42, data: Res::Found { size: 1, outboard: vec![7] } };
    let mut payload = Vec::new();
    write_response(&mut payload, &resp);
    let mut wire = Vec::new();
    write_lp(&mut wire, &payload).unwrap();

    let mut reader = LpReader::new();
    reader.feed(&wire);
    match reader.read_lp(false).unwrap() {
        ReadLp::Message(m) => assert_eq!(m, resp),
        ReadLp::NeedMoreData => panic!("expected a message"),
    }
}

#[test]
fn typed_read_lp_reports_decode_failure() {
    // a well-formed record whose payload is not a response
    let mut wire = Vec::new();
    write_lp(&mut wire, &[2, 2, 2]).unwrap();
    let mut reader = LpReader::new();
    reader.feed(&wire);
    assert_eq!(reader.read_lp(false), Err(LpError::Decode));
}
