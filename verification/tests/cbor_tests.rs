use sendme::cbor::{
    read_bytes, read_len, read_link, read_u16, read_u32, read_u64, read_u8, references, CborError,
};

fn bytes(s: &str) -> Vec<u8> {
    hex::decode(s.chars().filter(|c| !c.is_whitespace()).collect::<String>()).unwrap()
}

#[test]
fn references1() {
    let data = bytes(
        r"
        6ffbd8e415444b5940d6fefacf64b922ad80b95debce812931745ad9b59b
        2565ea08b46db6da5052d6878c074d4f3e705d1a8456d1ae934b38b62e43
        6e413fbefb2284a5d628e2cf951722c04ff19ff217fcf0360fb8d27b55c0
        abe378984e0d07beeb964f9f4016408fa0c66b9bf445b53343be521290b9
        985e30d65c2116b852ab3414d65d6400dc4112ed278f83efc35e59a37b3e
        b62736dee6a752c331d78f176da7f1ad9bb5ed",
    );
    let mut links = Vec::new();
    let mut pos = 0usize;
    references(&data, &mut pos, &mut links).unwrap();
    println!("{:?}", links);
}

#[test]
fn scalar_reads_are_big_endian() {
    let data = [0x01u8, 0x02, 0x03, 0x04, 0x05, 0x06, 0x07, 0x08];
    let mut pos = 0usize;
    assert_eq!(read_u8(&data, &mut pos).unwrap(), 0x01);
    assert_eq!(pos, 1);
    pos = 0;
    assert_eq!(read_u16(&data, &mut pos).unwrap(), 0x0102);
    assert_eq!(pos, 2);
    pos = 0;
    assert_eq!(read_u32(&data, &mut pos).unwrap(), 0x01020304);
    assert_eq!(pos, 4);
    pos = 0;
    assert_eq!(read_u64(&data, &mut pos).unwrap(), 0x0102030405060708);
    assert_eq!(pos, 8);
}

#[test]
fn scalar_reads_fail_cleanly_at_the_end() {
    let data = [0xffu8];
    let mut pos = 1usize;
    assert!(matches!(
        read_u8(&data, &mut pos),
        Err(CborError::UnexpectedEof(_))
    ));
    pos = 0;
    assert!(matches!(
        read_u16(&data, &mut pos),
        Err(CborError::UnexpectedEof(_))
    ));
}

#[test]
fn read_bytes_returns_exact_slice() {
    let data = [9u8, 8, 7, 6, 5];
    let mut pos = 1usize;
    let taken = read_bytes(&data, &mut pos, 3).unwrap();
    assert_eq!(taken, vec![8, 7, 6]);
    assert_eq!(pos, 4);
    assert!(matches!(
        read_bytes(&data, &mut pos, 1000),
        Err(CborError::UnexpectedEof(_))
    ));
}

#[test]
fn read_len_handles_every_base() {
    let mut pos = 0usize;
    assert_eq!(read_len(&[], &mut pos, 0x05).unwrap(), 5);

    pos = 0;
    assert_eq!(read_len(&[200], &mut pos, 0x18).unwrap(), 200);
    pos = 0;
    assert_eq!(read_len(&[0x12, 0x34], &mut pos, 0x19).unwrap(), 0x1234);
    pos = 0;
    assert_eq!(
        read_len(&[0x00, 0x01, 0x00, 0x00], &mut pos, 0x1a).unwrap(),
        0x10000
    );
    pos = 0;
    assert_eq!(
        read_len(&[0, 0, 0, 0, 0, 0, 0, 42], &mut pos, 0x1b).unwrap(),
        42
    );
    pos = 0;
    assert!(matches!(
        read_len(&[], &mut pos, 0x1c),
        Err(CborError::UnexpectedCode(c)) if c.code == 0x1c
    ));
    pos = 0;
    assert!(matches!(
        read_len(&[0x12], &mut pos, 0x19),
        Err(CborError::UnexpectedEof(_))
    ));
}

fn encoded_link(hash: &[u8; 32]) -> Vec<u8> {
    let mut v = vec![0x58u8, 33, 0x00];
    v.extend_from_slice(hash);
    v
}

#[test]
fn read_link_round_trip() {
    let mut hash = [0u8; 32];
    for (i, b) in hash.iter_mut().enumerate() {
        *b = (i * 3) as u8;
    }
    let data = encoded_link(&hash);
    let mut pos = 0usize;
    let link = read_link(&data, &mut pos).unwrap();
    assert_eq!(link, sendme::cbor::Hash(hash));
    assert_eq!(pos, data.len());
}

#[test]
fn read_link_rejects_malformed_links() {
    let mut pos = 0usize;
    // wrong marker byte
    assert!(matches!(
        read_link(&[0x59, 33], &mut pos),
        Err(CborError::UnknownTag(t)) if t.0 == 0x59
    ));
    // zero length
    pos = 0;
    assert!(matches!(
        read_link(&[0x58, 0], &mut pos),
        Err(CborError::LengthOutOfRange(_))
    ));
    // bad multibase prefix
    pos = 0;
    let mut bad = encoded_link(&[7u8; 32]);
    bad[2] = 1;
    assert!(matches!(
        read_link(&bad, &mut pos),
        Err(CborError::InvalidCidPrefix(p)) if p.0 == 1
    ));
    // truncated
    pos = 0;
    assert!(matches!(
        read_link(&[0x58, 33, 0x00, 1, 2, 3], &mut pos),
        Err(CborError::UnexpectedEof(_))
    ));
    // wrong length for a hash
    pos = 0;
    let mut short = vec![0x58u8, 20, 0x00];
    short.extend_from_slice(&[4u8; 19]);
    assert!(matches!(
        read_link(&short, &mut pos),
        Err(CborError::LengthOutOfRange(_))
    ));
}

#[test]
fn references_collects_links_from_nested_items() {
    let hash_a = [0xaau8; 32];
    let hash_b = [0xbbu8; 32];
    // an array of [tagged link, 7, {tagged link: "hi"}]
    let mut data = vec![0x83u8];
    data.push(0xd8);
    data.push(42);
    data.extend_from_slice(&encoded_link(&hash_a));
    data.push(0x07);
    data.push(0xa1);
    data.push(0xd8);
    data.push(42);
    data.extend_from_slice(&encoded_link(&hash_b));
    data.extend_from_slice(&[0x62, b'h', b'i']);

    let mut links = Vec::new();
    let mut pos = 0usize;
    references(&data, &mut pos, &mut links).unwrap();
    assert_eq!(links, vec![sendme::cbor::Hash(hash_a), sendme::cbor::Hash(hash_b)]);
    assert_eq!(pos, data.len());
}

#[test]
fn references_walks_indefinite_containers() {
    let hash = [0x11u8; 32];
    // indefinite array holding an indefinite map with one link value
    let mut data = vec![0x9fu8, 0xbf, 0x01];
    data.push(0xd8);
    data.push(42);
    data.extend_from_slice(&encoded_link(&hash));
    data.push(0xff);
    data.push(0xff);

    let mut links = Vec::new();
    let mut pos = 0usize;
    references(&data, &mut pos, &mut links).unwrap();
    assert_eq!(links, vec![sendme::cbor::Hash(hash)]);
    assert_eq!(pos, data.len());
}

#[test]
fn references_rejects_unknown_major_codes() {
    let mut links = Vec::new();
    let mut pos = 0usize;
    assert!(matches!(
        references(&[0xc0], &mut pos, &mut links),
        Err(CborError::UnexpectedCode(c)) if c.code == 0xc0
    ));
    assert!(links.is_empty());
}

#[test]
fn references_skips_scalars_and_strings() {
    // a definite map: {24-bit int: byte string, text: float}
    let data = [
        0xa2u8, 0x19, 0x12, 0x34, 0x42, 1, 2, 0x61, b'x', 0xfb, 0, 0, 0, 0, 0, 0, 0, 0,
    ];
    let mut links = Vec::new();
    let mut pos = 0usize;
    references(&data, &mut pos, &mut links).unwrap();
    assert!(links.is_empty());
    assert_eq!(pos, data.len());
}

#[test]
fn references_reports_eof_inside_an_array() {
    // array of two items with only one present
    let data = [0x82u8, 0x01];
    let mut links = Vec::new();
    let mut pos = 0usize;
    assert!(matches!(
        references(&data, &mut pos, &mut links),
        Err(CborError::UnexpectedEof(_))
    ));
}
