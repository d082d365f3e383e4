use sendme::natpmp::{
    Error, InvalidOpcode, InvalidResultCode, InvalidVersion, MapProtocol, Opcode, Response,
    ResultCode, Version, MAX_RESP_SIZE, MIN_RESP_SIZE,
};

fn public_address_packet() -> Vec<u8> {
    vec![
        0x00, // version
        0x80, // response indicator | DetermineExternalAddress
        0x00, 0x00, // result code: success
        0x00, 0x00, 0x12, 0x34, // epoch time
        192, 168, 1, 7, // public address
    ]
}

fn port_map_packet(op: u8) -> Vec<u8> {
    vec![
        0x00,
        0x80 | op,
        0x00,
        0x00, // success
        0x00,
        0x00,
        0x00,
        0x10, // epoch
        0x1f,
        0x90, // private port 8080
        0x23,
        0x28, // external port 9000
        0x00,
        0x00,
        0x0e,
        0x10, // lifetime 3600
    ]
}

#[test]
fn decode_public_address() {
    let r = Response::decode(&public_address_packet()).unwrap();
    assert_eq!(
        r,
        Response::PublicAddress {
            epoch_time: 0x1234,
            public_ip: u32::from_be_bytes([192, 168, 1, 7]),
        }
    );
}

#[test]
fn decode_port_mappings() {
    let udp = Response::decode(&port_map_packet(1)).unwrap();
    assert_eq!(
        udp,
        Response::PortMap {
            proto: MapProtocol::UDP,
            epoch_time: 0x10,
            private_port: 8080,
            external_port: 9000,
            lifetime_seconds: 3600,
        }
    );
    let tcp = Response::decode(&port_map_packet(2)).unwrap();
    assert!(matches!(
        tcp,
        Response::PortMap { proto: MapProtocol::TCP, .. }
    ));
}

#[test]
fn decode_rejects_bad_sizes() {
    assert_eq!(Response::decode(&[]), Err(Error::Malformed));
    assert_eq!(
        Response::decode(&vec![0u8; MIN_RESP_SIZE - 1]),
        Err(Error::Malformed)
    );
    assert_eq!(
        Response::decode(&vec![0u8; MAX_RESP_SIZE + 1]),
        Err(Error::Malformed)
    );
    // a port-map answer must be full size
    let mut short = port_map_packet(1);
    short.truncate(14);
    assert_eq!(Response::decode(&short), Err(Error::Malformed));
}

#[test]
fn decode_rejects_bad_header_fields() {
    let mut bad_version = public_address_packet();
    bad_version[0] = 1;
    assert_eq!(Response::decode(&bad_version), Err(Error::InvalidVersion));

    let mut not_a_response = public_address_packet();
    not_a_response[1] = 0x00;
    assert_eq!(Response::decode(&not_a_response), Err(Error::NotAResponse));

    let mut bad_opcode = public_address_packet();
    bad_opcode[1] = 0x80 | 3;
    assert_eq!(Response::decode(&bad_opcode), Err(Error::InvalidOpcode));

    let mut bad_result = public_address_packet();
    bad_result[2] = 0x01; // result code 256
    assert_eq!(Response::decode(&bad_result), Err(Error::InvalidResultCode));
}

#[test]
fn decode_maps_result_codes_to_errors() {
    let errors = [
        (1u8, Error::UnsupportedVersion),
        (2, Error::NotAuthorizedOrRefused),
        (3, Error::NetworkFailure),
        (4, Error::OutOfResources),
        (5, Error::UnsupportedOpcode),
    ];
    for (code, expected) in errors {
        let mut packet = public_address_packet();
        packet[3] = code;
        assert_eq!(Response::decode(&packet), Err(expected), "code {}", code);
    }
}

#[test]
fn try_from_conversions_match_the_wire_values() {
    assert_eq!(Opcode::try_from(0), Ok(Opcode::DetermineExternalAddress));
    assert_eq!(Opcode::try_from(1), Ok(Opcode::MapUdp));
    assert_eq!(Opcode::try_from(2), Ok(Opcode::MapTcp));
    assert!(Opcode::try_from(3).is_err());

    assert_eq!(Version::try_from(0), Ok(Version::NatPmp));
    assert!(Version::try_from(1).is_err());

    assert_eq!(ResultCode::try_from(0), Ok(ResultCode::Success));
    assert_eq!(ResultCode::try_from(5), Ok(ResultCode::UnsupportedOpcode));
    assert!(ResultCode::try_from(6).is_err());
}

#[test]
fn error_conversions_from_field_errors() {
    assert_eq!(Error::from(InvalidOpcode), Error::InvalidOpcode);
    assert_eq!(Error::from(InvalidVersion), Error::InvalidVersion);
    assert_eq!(Error::from(InvalidResultCode), Error::InvalidResultCode);
}
