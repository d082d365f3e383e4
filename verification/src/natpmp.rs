//! Decoding of NAT-PMP server responses.
//!
//! A response packet starts with a version byte and an opcode byte
//! whose high bit marks it as a response, followed by a 16-bit result
//! code; a successful response then carries either the gateway's
//! public address or the established port mapping, all fields in
//! big-endian byte order.  [`Response::decode`] checks every field in
//! that order and reports the first violation.

use vstd::prelude::*;

verus! {

/// Minimum size of an encoded response: version, opcode, result code,
/// epoch time and the public address.
pub const MIN_RESP_SIZE: usize = 1 + 1 + 2 + 4 + 4;

/// Maximum size of an encoded response: version, opcode, result code,
/// epoch time, the two ports and the mapping lifetime.
pub const MAX_RESP_SIZE: usize = 1 + 1 + 2 + 4 + 2 + 2 + 4;

/// Bit set in the opcode byte of every response packet.
pub const RESPONSE_INDICATOR: u8 = 0x80;

/// Protocol version understood by this decoder.
#[derive(Debug, Clone, Copy, PartialEq, Eq)]
pub enum Version {
    NatPmp,
}

/// The operation a response answers.
#[derive(Debug, Clone, Copy, PartialEq, Eq)]
pub enum Opcode {
    DetermineExternalAddress,
    MapUdp,
    MapTcp,
}

/// The transport protocol of a port mapping.
#[derive(Debug, Clone, Copy, PartialEq, Eq)]
pub enum MapProtocol {
    UDP,
    TCP,
}

/// Result codes a server may answer with.
#[derive(Debug, Clone, Copy, PartialEq, Eq)]
pub enum ResultCode {
    Success,
    UnsupportedVersion,
    /// Functionality is supported but not allowed: e.g. the box
    /// supports mapping, but the user has turned the feature off.
    NotAuthorizedOrRefused,
    /// Network failures, e.g. the NAT box itself has not obtained a
    /// DHCP lease.
    NetworkFailure,
    /// The NAT box cannot create any more mappings at this time.
    OutOfResources,
    UnsupportedOpcode,
}

/// Errors that can occur when decoding a [`Response`] from a server.
#[derive(Debug, Clone, Copy, PartialEq, Eq)]
pub enum Error {
    /// Response is too short or is otherwise malformed.
    Malformed,
    /// The [`RESPONSE_INDICATOR`] is not present.
    NotAResponse,
    /// See [`InvalidOpcode`].
    InvalidOpcode,
    /// See [`InvalidVersion`].
    InvalidVersion,
    /// See [`InvalidResultCode`].
    InvalidResultCode,
    UnsupportedVersion,
    NotAuthorizedOrRefused,
    NetworkFailure,
    OutOfResources,
    UnsupportedOpcode,
}

/// Error occurring when attempting to identify the [`Opcode`] in a
/// server response.
#[derive(Debug, Clone, Copy, PartialEq, Eq)]
pub struct InvalidOpcode;

/// Error occurring when attempting to identify the [`Version`] in a
/// server response.
#[derive(Debug, Clone, Copy, PartialEq, Eq)]
pub struct InvalidVersion;

/// Error occurring when attempting to decode the [`ResultCode`] in a
/// server response.
#[derive(Debug, Clone, Copy, PartialEq, Eq)]
pub struct InvalidResultCode;

impl Opcode {
    /// The opcode named by a byte with the response indicator removed.
    pub fn try_from(value: u8) -> (r: Result<Opcode, InvalidOpcode>)
        ensures
            r == (match value {
                0u8 => Ok::<Opcode, InvalidOpcode>(Opcode::DetermineExternalAddress),
                1u8 => Ok::<Opcode, InvalidOpcode>(Opcode::MapUdp),
                2u8 => Ok::<Opcode, InvalidOpcode>(Opcode::MapTcp),
                _ => Err::<Opcode, InvalidOpcode>(InvalidOpcode),
            }),
    {
        match value {
            0 => Ok(Opcode::DetermineExternalAddress),
            1 => Ok(Opcode::MapUdp),
            2 => Ok(Opcode::MapTcp),
            _ => Err(InvalidOpcode),
        }
    }
}

impl Version {
    /// The version named by the first byte of a packet.
    pub fn try_from(value: u8) -> (r: Result<Version, InvalidVersion>)
        ensures
            r == (if value == 0 {
                Ok::<Version, InvalidVersion>(Version::NatPmp)
            } else {
                Err::<Version, InvalidVersion>(InvalidVersion)
            }),
    {
        match value {
            0 => Ok(Version::NatPmp),
            _ => Err(InvalidVersion),
        }
    }
}

impl ResultCode {
    /// The result code named by a 16-bit field.
    pub fn try_from(value: u16) -> (r: Result<ResultCode, InvalidResultCode>)
        ensures
            r == (match value {
                0u16 => Ok::<ResultCode, InvalidResultCode>(ResultCode::Success),
                1u16 => Ok::<ResultCode, InvalidResultCode>(ResultCode::UnsupportedVersion),
                2u16 => Ok::<ResultCode, InvalidResultCode>(ResultCode::NotAuthorizedOrRefused),
                3u16 => Ok::<ResultCode, InvalidResultCode>(ResultCode::NetworkFailure),
                4u16 => Ok::<ResultCode, InvalidResultCode>(ResultCode::OutOfResources),
                5u16 => Ok::<ResultCode, InvalidResultCode>(ResultCode::UnsupportedOpcode),
                _ => Err::<ResultCode, InvalidResultCode>(InvalidResultCode),
            }),
    {
        match value {
            0 => Ok(ResultCode::Success),
            1 => Ok(ResultCode::UnsupportedVersion),
            2 => Ok(ResultCode::NotAuthorizedOrRefused),
            3 => Ok(ResultCode::NetworkFailure),
            4 => Ok(ResultCode::OutOfResources),
            5 => Ok(ResultCode::UnsupportedOpcode),
            _ => Err(InvalidResultCode),
        }
    }
}

impl From<InvalidOpcode> for Error {
    fn from(_v: InvalidOpcode) -> (r: Error) {
        Error::InvalidOpcode
    }
}

impl vstd::std_specs::convert::FromSpecImpl<InvalidOpcode> for Error {
    open spec fn obeys_from_spec() -> bool {
        true
    }

    open spec fn from_spec(_v: InvalidOpcode) -> Error {
        Error::InvalidOpcode
    }
}

impl From<InvalidVersion> for Error {
    fn from(_v: InvalidVersion) -> (r: Error) {
        Error::InvalidVersion
    }
}

impl vstd::std_specs::convert::FromSpecImpl<InvalidVersion> for Error {
    open spec fn obeys_from_spec() -> bool {
        true
    }

    open spec fn from_spec(_v: InvalidVersion) -> Error {
        Error::InvalidVersion
    }
}

impl From<InvalidResultCode> for Error {
    fn from(_v: InvalidResultCode) -> (r: Error) {
        Error::InvalidResultCode
    }
}

impl vstd::std_specs::convert::FromSpecImpl<InvalidResultCode> for Error {
    open spec fn obeys_from_spec() -> bool {
        true
    }

    open spec fn from_spec(_v: InvalidResultCode) -> Error {
        Error::InvalidResultCode
    }
}

/// Value of the 16-bit big-endian field at offset `i`.
pub open spec fn be16_at(s: Seq<u8>, i: int) -> nat
    recommends
        0 <= i,
        i + 2 <= s.len(),
{
    (s[i] as nat) * 0x100 + (s[i + 1] as nat)
}

/// Value of the 32-bit big-endian field at offset `i`.
pub open spec fn be32_at(s: Seq<u8>, i: int) -> nat
    recommends
        0 <= i,
        i + 4 <= s.len(),
{
    (s[i] as nat) * 0x1000000 + (s[i + 1] as nat) * 0x10000 + (s[i + 2] as nat) * 0x100 + (s[i + 3]
        as nat)
}

/// A decoded NAT-PMP response.  The public address is carried as the
/// big-endian integer form of the IPv4 address; the embedding turns it
/// into its address type.
#[derive(Debug, Clone, Copy, PartialEq, Eq)]
pub enum Response {
    PublicAddress { epoch_time: u32, public_ip: u32 },
    PortMap {
        proto: MapProtocol,
        epoch_time: u32,
        private_port: u16,
        external_port: u16,
        lifetime_seconds: u32,
    },
}

/// What [`Response::decode`] returns for a packet `s`, field by field
/// and check by check, in the order the decoder applies them.
pub open spec fn decode_spec(s: Seq<u8>) -> Result<Response, Error> {
    if s.len() < MIN_RESP_SIZE || s.len() > MAX_RESP_SIZE {
        Err(Error::Malformed)
    } else if s[0] != 0 {
        Err(Error::InvalidVersion)
    } else if s[1] < 0x80 {
        Err(Error::NotAResponse)
    } else if s[1] - 0x80 > 2 {
        Err(Error::InvalidOpcode)
    } else if be16_at(s, 2) > 5 {
        Err(Error::InvalidResultCode)
    } else if be16_at(s, 2) == 1 {
        Err(Error::UnsupportedVersion)
    } else if be16_at(s, 2) == 2 {
        Err(Error::NotAuthorizedOrRefused)
    } else if be16_at(s, 2) == 3 {
        Err(Error::NetworkFailure)
    } else if be16_at(s, 2) == 4 {
        Err(Error::OutOfResources)
    } else if be16_at(s, 2) == 5 {
        Err(Error::UnsupportedOpcode)
    } else if s[1] == 0x80 {
        Ok(
            Response::PublicAddress {
                epoch_time: be32_at(s, 4) as u32,
                public_ip: be32_at(s, 8) as u32,
            },
        )
    } else if s.len() != MAX_RESP_SIZE {
        Err(Error::Malformed)
    } else {
        Ok(
            Response::PortMap {
                proto: if s[1] == 0x81 {
                    MapProtocol::UDP
                } else {
                    MapProtocol::TCP
                },
                epoch_time: be32_at(s, 4) as u32,
                private_port: be16_at(s, 8) as u16,
                external_port: be16_at(s, 10) as u16,
                lifetime_seconds: be32_at(s, 12) as u32,
            },
        )
    }
}

impl Response {
    /// Decode a server packet, applying every check of [`decode_spec`]
    /// in order: size bounds, version, response indicator, opcode,
    /// result code, then the fields of the answer itself.  A port-map
    /// answer shorter than [`MAX_RESP_SIZE`] is malformed.
    pub fn decode(buf: &[u8]) -> (r: Result<Response, Error>)
        ensures
            r == decode_spec(buf@),
    {
        if buf.len() < MIN_RESP_SIZE || buf.len() > MAX_RESP_SIZE {
            return Err(Error::Malformed);
        }
        if buf[0] != 0 {
            return Err(Error::InvalidVersion);
        }
        let opcode_byte = buf[1];
        if opcode_byte < 0x80 {
            return Err(Error::NotAResponse);
        }
        let op = opcode_byte - 0x80;
        if op > 2 {
            return Err(Error::InvalidOpcode);
        }
        let result_code: u16 = (buf[2] as u16) * 0x100 + (buf[3] as u16);
        if result_code > 5 {
            return Err(Error::InvalidResultCode);
        }
        match result_code {
            1 => {
                return Err(Error::UnsupportedVersion);
            },
            2 => {
                return Err(Error::NotAuthorizedOrRefused);
            },
            3 => {
                return Err(Error::NetworkFailure);
            },
            4 => {
                return Err(Error::OutOfResources);
            },
            5 => {
                return Err(Error::UnsupportedOpcode);
            },
            _ => {},
        }
        let epoch_time = read_be32(buf, 4);
        if op == 0 {
            let public_ip = read_be32(buf, 8);
            Ok(Response::PublicAddress { epoch_time, public_ip })
        } else {
            if buf.len() != MAX_RESP_SIZE {
                return Err(Error::Malformed);
            }
            let proto = if op == 1 {
                MapProtocol::UDP
            } else {
                MapProtocol::TCP
            };
            let private_port: u16 = (buf[8] as u16) * 0x100 + (buf[9] as u16);
            let external_port: u16 = (buf[10] as u16) * 0x100 + (buf[11] as u16);
            let lifetime_seconds = read_be32(buf, 12);
            Ok(
                Response::PortMap {
                    proto,
                    epoch_time,
                    private_port,
                    external_port,
                    lifetime_seconds,
                },
            )
        }
    }
}

/// The 32-bit big-endian field at offset `at`.
fn read_be32(buf: &[u8], at: usize) -> (r: u32)
    requires
        at + 4 <= buf@.len(),
    ensures
        r as nat == be32_at(buf@, at as int),
{
    (buf[at] as u32) * 0x1000000 + (buf[at + 1] as u32) * 0x10000 + (buf[at + 2] as u32) * 0x100 + (
    buf[at + 3] as u32)
}

} // verus!
