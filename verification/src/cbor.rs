//! CBOR decoder: scanning an encoded item for the links it references.
//!
//! The scanner walks one CBOR data item — integers, byte and text
//! strings, arrays and maps (definite or indefinite length), tags and
//! simple values — without building it, skipping over scalar content
//! and collecting the hash of every tag-42 link it passes.  Input is a
//! byte slice with an explicit read position; a skip that runs past
//! the end of the data leaves the position at the end (as a seek past
//! the end of a stream would), and only an actual read beyond the end
//! fails.

use vstd::prelude::*;

verus! {

/// A blake3 hash naming a linked block.
#[derive(Debug, Clone, Copy, PartialEq, Eq)]
pub struct Hash(pub [u8; 32]);

impl View for Hash {
    type V = Seq<u8>;

    open spec fn view(&self) -> Seq<u8> {
        self.0@
    }
}

impl From<[u8; 32]> for Hash {
    fn from(bytes: [u8; 32]) -> (r: Hash) {
        Hash(bytes)
    }
}

impl vstd::std_specs::convert::FromSpecImpl<[u8; 32]> for Hash {
    open spec fn obeys_from_spec() -> bool {
        true
    }

    open spec fn from_spec(bytes: [u8; 32]) -> Hash {
        Hash(bytes)
    }
}

/// Length larger than usize or too small, for example zero length cid
/// field.
#[derive(Debug, Clone, Copy, PartialEq, Eq)]
pub struct LengthOutOfRange {
    /// Name of the type being decoded.
    pub ty: &'static str,
}

impl LengthOutOfRange {
    /// Creates a new `LengthOutOfRange` error for the named type.
    pub fn new(ty: &'static str) -> (r: LengthOutOfRange)
        ensures
            r == (LengthOutOfRange { ty }),
    {
        LengthOutOfRange { ty }
    }
}

/// Unexpected cbor code.
#[derive(Debug, Clone, Copy, PartialEq, Eq)]
pub struct UnexpectedCode {
    /// Code.
    pub code: u8,
    /// Name of the type being decoded.
    pub ty: &'static str,
}

impl UnexpectedCode {
    /// Creates a new `UnexpectedCode` error for the named type.
    pub fn new(code: u8, ty: &'static str) -> (r: UnexpectedCode)
        ensures
            r == (UnexpectedCode { code, ty }),
    {
        UnexpectedCode { code, ty }
    }
}

/// Unexpected key.
#[derive(Debug, Clone, PartialEq, Eq)]
pub struct UnexpectedKey {
    /// Key.
    pub key: String,
    /// Name of the type being decoded.
    pub ty: &'static str,
}

/// Unknown cbor tag.
#[derive(Debug, Clone, Copy, PartialEq, Eq)]
pub struct UnknownTag(pub u8);

/// Unexpected eof.
#[derive(Debug, Clone, Copy, PartialEq, Eq)]
pub struct UnexpectedEof;

/// The byte before a Cid was not the multibase identity prefix.
#[derive(Debug, Clone, Copy, PartialEq, Eq)]
pub struct InvalidCidPrefix(pub u8);

/// Any error of the CBOR scanner.
#[derive(Debug, Clone, Copy, PartialEq, Eq)]
pub enum CborError {
    LengthOutOfRange(LengthOutOfRange),
    UnexpectedCode(UnexpectedCode),
    UnknownTag(UnknownTag),
    UnexpectedEof(UnexpectedEof),
    InvalidCidPrefix(InvalidCidPrefix),
}

/// A position after skipping forward, capped at the end of the data:
/// skipping is a seek, which may pass the end without failing.
pub open spec fn skip_to(s: Seq<u8>, p: int) -> int {
    if p > s.len() {
        s.len() as int
    } else {
        p
    }
}

/// What `read_len` returns for the additional-information value
/// `major` at position `p`: the length itself for small values, else
/// the big-endian integer in the following 1, 2, 4 or 8 bytes.
pub open spec fn parse_len(s: Seq<u8>, p: int, major: u8) -> Result<(nat, int), CborError> {
    if major <= 0x17 {
        Ok((major as nat, p))
    } else if major == 0x18 {
        if p + 1 <= s.len() {
            Ok((s[p] as nat, p + 1))
        } else {
            Err(CborError::UnexpectedEof(UnexpectedEof))
        }
    } else if major == 0x19 {
        if p + 2 <= s.len() {
            Ok(((s[p] as nat) * 0x100 + s[p + 1] as nat, p + 2))
        } else {
            Err(CborError::UnexpectedEof(UnexpectedEof))
        }
    } else if major == 0x1a {
        if p + 4 <= s.len() {
            Ok(
                (
                    (s[p] as nat) * 0x1000000 + (s[p + 1] as nat) * 0x10000 + (s[p + 2] as nat)
                        * 0x100 + s[p + 3] as nat,
                    p + 4,
                ),
            )
        } else {
            Err(CborError::UnexpectedEof(UnexpectedEof))
        }
    } else if major == 0x1b {
        if p + 8 <= s.len() {
            let v = (s[p] as nat) * 0x100000000000000 + (s[p + 1] as nat) * 0x1000000000000 + (s[p
                + 2] as nat) * 0x10000000000 + (s[p + 3] as nat) * 0x100000000 + (s[p + 4] as nat)
                * 0x1000000 + (s[p + 5] as nat) * 0x10000 + (s[p + 6] as nat) * 0x100 + s[p + 7]
                as nat;
            if v > usize::MAX {
                Err(CborError::LengthOutOfRange(LengthOutOfRange { ty: "usize" }))
            } else {
                Ok((v, p + 8))
            }
        } else {
            Err(CborError::UnexpectedEof(UnexpectedEof))
        }
    } else {
        Err(CborError::UnexpectedCode(UnexpectedCode { code: major, ty: "usize" }))
    }
}

/// What `read_link` returns at position `p`: a 0x58-tagged byte
/// string of exactly 33 bytes whose first byte is the multibase
/// identity prefix, the remaining 32 being the hash.
pub open spec fn parse_link(s: Seq<u8>, p: int) -> Result<(Seq<u8>, int), CborError> {
    if p + 1 > s.len() {
        Err(CborError::UnexpectedEof(UnexpectedEof))
    } else if s[p] != 0x58 {
        Err(CborError::UnknownTag(UnknownTag(s[p])))
    } else if p + 2 > s.len() {
        Err(CborError::UnexpectedEof(UnexpectedEof))
    } else if s[p + 1] == 0 {
        Err(CborError::LengthOutOfRange(LengthOutOfRange { ty: "Hash" }))
    } else if p + 2 + s[p + 1] > s.len() {
        Err(CborError::UnexpectedEof(UnexpectedEof))
    } else if s[p + 2] != 0 {
        Err(CborError::InvalidCidPrefix(InvalidCidPrefix(s[p + 2])))
    } else if s[p + 1] != 33 {
        Err(CborError::LengthOutOfRange(LengthOutOfRange { ty: "Hash" }))
    } else {
        Ok((s.subrange(p + 3, p + 35), p + 35))
    }
}

/// Result of scanning: the position after the item and the hashes of
/// the links found inside it, in reading order; or the first error.
pub enum Scan {
    Done { end: int, links: Seq<Seq<u8>> },
    Fail(CborError),
}

/// Scan one CBOR item starting at `p`, collecting link hashes.
pub open spec fn scan_item(s: Seq<u8>, p: int) -> Scan
    decreases s.len() - p, 1int, 0int,
{
    if p < 0 || p >= s.len() {
        Scan::Fail(CborError::UnexpectedEof(UnexpectedEof))
    } else {
        let major = s[p];
        if major <= 0x17 {
            // major type 0: an unsigned integer
            Scan::Done { end: p + 1, links: Seq::empty() }
        } else if major == 0x18 {
            Scan::Done { end: skip_to(s, p + 2), links: Seq::empty() }
        } else if major == 0x19 {
            Scan::Done { end: skip_to(s, p + 3), links: Seq::empty() }
        } else if major == 0x1a {
            Scan::Done { end: skip_to(s, p + 5), links: Seq::empty() }
        } else if major == 0x1b {
            Scan::Done { end: skip_to(s, p + 9), links: Seq::empty() }
        } else if 0x20 <= major && major <= 0x37 {
            // major type 1: a negative integer
            Scan::Done { end: p + 1, links: Seq::empty() }
        } else if major == 0x38 {
            Scan::Done { end: skip_to(s, p + 2), links: Seq::empty() }
        } else if major == 0x39 {
            Scan::Done { end: skip_to(s, p + 3), links: Seq::empty() }
        } else if major == 0x3a {
            Scan::Done { end: skip_to(s, p + 5), links: Seq::empty() }
        } else if major == 0x3b {
            Scan::Done { end: skip_to(s, p + 9), links: Seq::empty() }
        } else if 0x40 <= major && major <= 0x5b {
            // major type 2: a byte string, skipped
            match parse_len(s, p + 1, (major - 0x40) as u8) {
                Ok((n, p2)) => Scan::Done { end: skip_to(s, p2 + n), links: Seq::empty() },
                Err(e) => Scan::Fail(e),
            }
        } else if 0x60 <= major && major <= 0x7b {
            // major type 3: a text string, skipped
            match parse_len(s, p + 1, (major - 0x60) as u8) {
                Ok((n, p2)) => Scan::Done { end: skip_to(s, p2 + n), links: Seq::empty() },
                Err(e) => Scan::Fail(e),
            }
        } else if 0x80 <= major && major <= 0x9b {
            // major type 4: an array of data items
            match parse_len(s, p + 1, (major - 0x80) as u8) {
                Ok((n, p2)) => if p < p2 <= s.len() {
                    scan_many(s, p2, n)
                } else {
                    Scan::Fail(CborError::UnexpectedEof(UnexpectedEof))
                },
                Err(e) => Scan::Fail(e),
            }
        } else if major == 0x9f {
            // major type 4, indefinite length
            scan_until_break(s, p + 1, false)
        } else if 0xa0 <= major && major <= 0xbb {
            // major type 5: a map of pairs of data items
            match parse_len(s, p + 1, (major - 0xa0) as u8) {
                Ok((n, p2)) => if p < p2 <= s.len() {
                    scan_many(s, p2, 2 * n)
                } else {
                    Scan::Fail(CborError::UnexpectedEof(UnexpectedEof))
                },
                Err(e) => Scan::Fail(e),
            }
        } else if major == 0xbf {
            // major type 5, indefinite length
            scan_until_break(s, p + 1, true)
        } else if major == 0xd8 {
            // major type 6: semantic tagging; tag 42 is a link
            if p + 2 > s.len() {
                Scan::Fail(CborError::UnexpectedEof(UnexpectedEof))
            } else if s[p + 1] == 42 {
                match parse_link(s, p + 2) {
                    Ok((hash, end)) => Scan::Done { end, links: seq![hash] },
                    Err(e) => Scan::Fail(e),
                }
            } else {
                scan_item(s, p + 2)
            }
        } else if 0xf4 <= major && major <= 0xf7 {
            // major type 7: simple values
            Scan::Done { end: p + 1, links: Seq::empty() }
        } else if major == 0xf8 {
            Scan::Done { end: skip_to(s, p + 2), links: Seq::empty() }
        } else if major == 0xf9 {
            Scan::Done { end: skip_to(s, p + 3), links: Seq::empty() }
        } else if major == 0xfa {
            Scan::Done { end: skip_to(s, p + 5), links: Seq::empty() }
        } else if major == 0xfb {
            Scan::Done { end: skip_to(s, p + 9), links: Seq::empty() }
        } else {
            Scan::Fail(CborError::UnexpectedCode(UnexpectedCode { code: major, ty: "Hash" }))
        }
    }
}

/// Scan `n` consecutive items starting at `p`.
pub open spec fn scan_many(s: Seq<u8>, p: int, n: nat) -> Scan
    decreases s.len() - p, 2int, n,
{
    if n == 0 {
        Scan::Done { end: p, links: Seq::empty() }
    } else {
        match scan_item(s, p) {
            Scan::Done { end: p2, links: l1 } => if p < p2 <= s.len() {
                match scan_many(s, p2, (n - 1) as nat) {
                    Scan::Done { end, links: l2 } => Scan::Done { end, links: l1 + l2 },
                    Scan::Fail(e) => Scan::Fail(e),
                }
            } else {
                Scan::Fail(CborError::UnexpectedEof(UnexpectedEof))
            },
            Scan::Fail(e) => Scan::Fail(e),
        }
    }
}

/// Scan items (or key/value pairs, for `pairs`) until the break byte.
pub open spec fn scan_until_break(s: Seq<u8>, p: int, pairs: bool) -> Scan
    decreases s.len() - p, 3int, 0int,
{
    if p < 0 || p >= s.len() {
        Scan::Fail(CborError::UnexpectedEof(UnexpectedEof))
    } else if s[p] == 0xff {
        Scan::Done { end: p + 1, links: Seq::empty() }
    } else {
        match scan_item(s, p) {
            Scan::Done { end: p2, links: l1 } => if p < p2 <= s.len() {
                if pairs {
                    match scan_item(s, p2) {
                        Scan::Done { end: p3, links: l2 } => if p2 < p3 <= s.len() {
                            match scan_until_break(s, p3, pairs) {
                                Scan::Done { end, links: l3 } => Scan::Done {
                                    end,
                                    links: l1 + l2 + l3,
                                },
                                Scan::Fail(e) => Scan::Fail(e),
                            }
                        } else {
                            Scan::Fail(CborError::UnexpectedEof(UnexpectedEof))
                        },
                        Scan::Fail(e) => Scan::Fail(e),
                    }
                } else {
                    match scan_until_break(s, p2, pairs) {
                        Scan::Done { end, links: l2 } => Scan::Done { end, links: l1 + l2 },
                        Scan::Fail(e) => Scan::Fail(e),
                    }
                }
            } else {
                Scan::Fail(CborError::UnexpectedEof(UnexpectedEof))
            },
            Scan::Fail(e) => Scan::Fail(e),
        }
    }
}

/// The hash bytes of a sequence of links.
pub open spec fn hash_views(v: Seq<Hash>) -> Seq<Seq<u8>> {
    v.map_values(|h: Hash| h@)
}

/// `newer` begins with `older`: links once collected are never
/// dropped or reordered, whatever happens afterwards.
pub open spec fn keeps_links(newer: Seq<Hash>, older: Seq<Hash>) -> bool {
    older.len() <= newer.len() && newer.take(older.len() as int) == older
}

proof fn lemma_keeps_links_refl(s: Seq<Hash>)
    ensures
        keeps_links(s, s),
{
    assert(s.take(s.len() as int) =~= s);
}

proof fn lemma_keeps_links_push(s: Seq<Hash>, h: Hash)
    ensures
        keeps_links(s.push(h), s),
{
    assert(s.push(h).take(s.len() as int) =~= s);
}

proof fn lemma_keeps_links_trans(c: Seq<Hash>, b: Seq<Hash>, a: Seq<Hash>)
    requires
        keeps_links(c, b),
        keeps_links(b, a),
    ensures
        keeps_links(c, a),
{
    assert(c.take(a.len() as int) =~= a) by {
        assert(forall|i: int|
            0 <= i < a.len() ==> #[trigger] c.take(a.len() as int)[i] == c.take(b.len() as int)[i]
                && b.take(a.len() as int)[i] == a[i] && c.take(b.len() as int)[i] == b[i]);
    }
}

/// Reads a u8 from the data.
pub fn read_u8(data: &[u8], pos: &mut usize) -> (r: Result<u8, CborError>)
    requires
        *old(pos) <= data@.len(),
    ensures
        *old(pos) < data@.len() ==> r == Ok::<u8, CborError>(data@[*old(pos) as int]) && *final (pos) == *old(pos) + 1,
        *old(pos) == data@.len() ==> r == Err::<u8, CborError>(
            CborError::UnexpectedEof(UnexpectedEof),
        ) && *final (pos) == *old(pos),
{
    if *pos < data.len() {
        let b = data[*pos];
        *pos = *pos + 1;
        Ok(b)
    } else {
        Err(CborError::UnexpectedEof(UnexpectedEof))
    }
}

/// Reads a big-endian u16 from the data.
pub fn read_u16(data: &[u8], pos: &mut usize) -> (r: Result<u16, CborError>)
    requires
        *old(pos) <= data@.len(),
    ensures
        *old(pos) + 2 <= data@.len() ==> (r matches Ok(v) && v as nat == (data@[*old(pos) as int]
            as nat) * 0x100 + data@[*old(pos) + 1] as nat) && *final (pos) == *old(pos) + 2,
        *old(pos) + 2 > data@.len() ==> r == Err::<u16, CborError>(
            CborError::UnexpectedEof(UnexpectedEof),
        ) && *final (pos) == *old(pos),
{
    if data.len() - *pos >= 2 {
        let v = (data[*pos] as u16) * 0x100 + (data[*pos + 1] as u16);
        *pos = *pos + 2;
        Ok(v)
    } else {
        Err(CborError::UnexpectedEof(UnexpectedEof))
    }
}

/// Reads a big-endian u32 from the data.
pub fn read_u32(data: &[u8], pos: &mut usize) -> (r: Result<u32, CborError>)
    requires
        *old(pos) <= data@.len(),
    ensures
        *old(pos) + 4 <= data@.len() ==> (r matches Ok(v) && v as nat == (data@[*old(pos) as int]
            as nat) * 0x1000000 + (data@[*old(pos) + 1] as nat) * 0x10000 + (data@[*old(pos) + 2]
            as nat) * 0x100 + data@[*old(pos) + 3] as nat) && *final (pos) == *old(pos) + 4,
        *old(pos) + 4 > data@.len() ==> r == Err::<u32, CborError>(
            CborError::UnexpectedEof(UnexpectedEof),
        ) && *final (pos) == *old(pos),
{
    if data.len() - *pos >= 4 {
        let v = (data[*pos] as u32) * 0x1000000 + (data[*pos + 1] as u32) * 0x10000 + (data[*pos
            + 2] as u32) * 0x100 + (data[*pos + 3] as u32);
        *pos = *pos + 4;
        Ok(v)
    } else {
        Err(CborError::UnexpectedEof(UnexpectedEof))
    }
}

/// Reads a big-endian u64 from the data.
pub fn read_u64(data: &[u8], pos: &mut usize) -> (r: Result<u64, CborError>)
    requires
        *old(pos) <= data@.len(),
    ensures
        *old(pos) + 8 <= data@.len() ==> (r matches Ok(v) && v as nat == (data@[*old(pos) as int]
            as nat) * 0x100000000000000 + (data@[*old(pos) + 1] as nat) * 0x1000000000000 + (
        data@[*old(pos) + 2] as nat) * 0x10000000000 + (data@[*old(pos) + 3] as nat) * 0x100000000
            + (data@[*old(pos) + 4] as nat) * 0x1000000 + (data@[*old(pos) + 5] as nat) * 0x10000
            + (data@[*old(pos) + 6] as nat) * 0x100 + data@[*old(pos) + 7] as nat) && *final (pos)
            == *old(pos) + 8,
        *old(pos) + 8 > data@.len() ==> r == Err::<u64, CborError>(
            CborError::UnexpectedEof(UnexpectedEof),
        ) && *final (pos) == *old(pos),
{
    if data.len() - *pos >= 8 {
        let v = (data[*pos] as u64) * 0x100000000000000 + (data[*pos + 1] as u64)
            * 0x1000000000000 + (data[*pos + 2] as u64) * 0x10000000000 + (data[*pos + 3] as u64)
            * 0x100000000 + (data[*pos + 4] as u64) * 0x1000000 + (data[*pos + 5] as u64) * 0x10000
            + (data[*pos + 6] as u64) * 0x100 + (data[*pos + 7] as u64);
        *pos = *pos + 8;
        Ok(v)
    } else {
        Err(CborError::UnexpectedEof(UnexpectedEof))
    }
}

/// Reads `len` bytes from the data.
pub fn read_bytes(data: &[u8], pos: &mut usize, len: usize) -> (r: Result<Vec<u8>, CborError>)
    requires
        *old(pos) <= data@.len(),
    ensures
        *old(pos) + len <= data@.len() ==> (r matches Ok(v) && v@ == data@.subrange(
            *old(pos) as int,
            *old(pos) + len,
        )) && *final (pos) == *old(pos) + len,
        *old(pos) + len > data@.len() ==> r == Err::<Vec<u8>, CborError>(
            CborError::UnexpectedEof(UnexpectedEof),
        ) && *final (pos) == *old(pos),
{
    if data.len() - *pos < len {
        return Err(CborError::UnexpectedEof(UnexpectedEof));
    }
    let start = *pos;
    let mut v: Vec<u8> = Vec::new();
    let mut i: usize = 0;
    while i < len
        invariant
            start + len <= data@.len(),
            start + len <= usize::MAX,
            0 <= i <= len,
            v@ =~= data@.subrange(start as int, start + i),
        decreases len - i,
    {
        v.push(data[start + i]);
        i = i + 1;
    }
    *pos = start + len;
    Ok(v)
}

/// Reads the length of a sized item given the additional-information
/// value of its initial byte; exactly [`parse_len`].
pub fn read_len(data: &[u8], pos: &mut usize, major: u8) -> (r: Result<usize, CborError>)
    requires
        *old(pos) <= data@.len(),
    ensures
        *final (pos) <= data@.len(),
        match parse_len(data@, *old(pos) as int, major) {
            Ok((n, p2)) => r matches Ok(v) && v == n && *final (pos) == p2,
            Err(e) => r == Err::<usize, CborError>(e) && *final (pos) == (if major == 0x1b && *old(
                pos,
            ) + 8 <= data@.len() {
                *old(pos) + 8
            } else {
                *old(pos) as int
            }),
        },
{
    if major <= 0x17 {
        Ok(major as usize)
    } else if major == 0x18 {
        match read_u8(data, pos) {
            Ok(v) => Ok(v as usize),
            Err(e) => Err(e),
        }
    } else if major == 0x19 {
        match read_u16(data, pos) {
            Ok(v) => Ok(v as usize),
            Err(e) => Err(e),
        }
    } else if major == 0x1a {
        match read_u32(data, pos) {
            Ok(v) => Ok(v as usize),
            Err(e) => Err(e),
        }
    } else if major == 0x1b {
        match read_u64(data, pos) {
            Ok(v) => {
                if v > usize::MAX as u64 {
                    Err(CborError::LengthOutOfRange(LengthOutOfRange::new("usize")))
                } else {
                    Ok(v as usize)
                }
            },
            Err(e) => Err(e),
        }
    } else {
        Err(CborError::UnexpectedCode(UnexpectedCode::new(major, "usize")))
    }
}

/// Reads a cid from cbor encoded bytes; exactly [`parse_link`].
pub fn read_link(data: &[u8], pos: &mut usize) -> (r: Result<Hash, CborError>)
    requires
        *old(pos) <= data@.len(),
    ensures
        *final (pos) <= data@.len(),
        match parse_link(data@, *old(pos) as int) {
            Ok((hash, end)) => r matches Ok(h) && h@ == hash && *final (pos) == end,
            Err(e) => r == Err::<Hash, CborError>(e),
        },
{
    let ty = match read_u8(data, pos) {
        Ok(v) => v,
        Err(e) => {
            return Err(e);
        },
    };
    if ty != 0x58 {
        return Err(CborError::UnknownTag(UnknownTag(ty)));
    }
    let len = match read_u8(data, pos) {
        Ok(v) => v,
        Err(e) => {
            return Err(e);
        },
    };
    if len == 0 {
        return Err(CborError::LengthOutOfRange(LengthOutOfRange::new("Hash")));
    }
    let bytes = match read_bytes(data, pos, len as usize) {
        Ok(v) => v,
        Err(e) => {
            return Err(e);
        },
    };
    if bytes[0] != 0 {
        return Err(CborError::InvalidCidPrefix(InvalidCidPrefix(bytes[0])));
    }
    if len != 33 {
        return Err(CborError::LengthOutOfRange(LengthOutOfRange::new("Hash")));
    }
    let mut hash = [0u8; 32];
    let mut i: usize = 0;
    while i < 32
        invariant
            bytes@.len() == 33,
            0 <= i <= 32,
            hash@.len() == 32,
            forall|k: int| 0 <= k < i ==> hash@[k] == bytes@[k + 1],
        decreases 32 - i,
    {
        hash[i] = bytes[i + 1];
        i = i + 1;
    }
    proof {
        assert(hash@ =~= parse_link(data@, *old(pos) as int).unwrap().0);
    }
    Ok(Hash::from(hash))
}

/// Scan one CBOR item at the read position, appending the hash of
/// every link inside it to `set`; exactly [`scan_item`].  On an error
/// the links found before it remain appended and the position is
/// somewhere inside the item.
pub fn references(data: &[u8], pos: &mut usize, set: &mut Vec<Hash>) -> (r: Result<(), CborError>)
    requires
        *old(pos) <= data@.len(),
    ensures
        *final (pos) <= data@.len(),
        keeps_links(final (set)@, old(set)@),
        match scan_item(data@, *old(pos) as int) {
            Scan::Done { end, links } => {
                &&& r == Ok::<(), CborError>(())
                &&& *final (pos) == end
                &&& *old(pos) < end
                &&& hash_views(final (set)@) == hash_views(old(set)@) + links
            },
            Scan::Fail(e) => r == Err::<(), CborError>(e),
        },
    decreases data@.len() - *old(pos), 1int, 0int,
{
    proof {
        lemma_keeps_links_refl(set@);
    }
    let major = match read_u8(data, pos) {
        Ok(v) => v,
        Err(e) => {
            return Err(e);
        },
    };
    if major <= 0x17 {
        Ok(())
    } else if major == 0x18 || major == 0x38 || major == 0xf8 {
        skip(data, pos, 1);
        Ok(())
    } else if major == 0x19 || major == 0x39 || major == 0xf9 {
        skip(data, pos, 2);
        Ok(())
    } else if major == 0x1a || major == 0x3a || major == 0xfa {
        skip(data, pos, 4);
        Ok(())
    } else if major == 0x1b || major == 0x3b || major == 0xfb {
        skip(data, pos, 8);
        Ok(())
    } else if 0x20 <= major && major <= 0x37 {
        Ok(())
    } else if 0x40 <= major && major <= 0x5b {
        let n = match read_len(data, pos, major - 0x40) {
            Ok(v) => v,
            Err(e) => {
                return Err(e);
            },
        };
        skip(data, pos, n);
        Ok(())
    } else if 0x60 <= major && major <= 0x7b {
        let n = match read_len(data, pos, major - 0x60) {
            Ok(v) => v,
            Err(e) => {
                return Err(e);
            },
        };
        skip(data, pos, n);
        Ok(())
    } else if 0x80 <= major && major <= 0x9b {
        let n = match read_len(data, pos, major - 0x80) {
            Ok(v) => v,
            Err(e) => {
                return Err(e);
            },
        };
        references_many(data, pos, set, n)
    } else if major == 0x9f {
        references_until_break(data, pos, set, false)
    } else if 0xa0 <= major && major <= 0xbb {
        let n = match read_len(data, pos, major - 0xa0) {
            Ok(v) => v,
            Err(e) => {
                return Err(e);
            },
        };
        references_pairs(data, pos, set, n)
    } else if major == 0xbf {
        references_until_break(data, pos, set, true)
    } else if major == 0xd8 {
        let tag = match read_u8(data, pos) {
            Ok(v) => v,
            Err(e) => {
                return Err(e);
            },
        };
        if tag == 42 {
            let hash = match read_link(data, pos) {
                Ok(v) => v,
                Err(e) => {
                    return Err(e);
                },
            };
            let ghost before = set@;
            set.push(hash);
            proof {
                assert(hash_views(set@) =~= hash_views(before) + seq![hash@]);
                lemma_keeps_links_push(before, hash);
            }
            Ok(())
        } else {
            references(data, pos, set)
        }
    } else if 0xf4 <= major && major <= 0xf7 {
        Ok(())
    } else {
        Err(CborError::UnexpectedCode(UnexpectedCode::new(major, "Hash")))
    }
}

/// Scan `n` consecutive items; exactly [`scan_many`].
fn references_many(data: &[u8], pos: &mut usize, set: &mut Vec<Hash>, n: usize) -> (r: Result<
    (),
    CborError,
>)
    requires
        *old(pos) <= data@.len(),
    ensures
        *final (pos) <= data@.len(),
        keeps_links(final (set)@, old(set)@),
        match scan_many(data@, *old(pos) as int, n as nat) {
            Scan::Done { end, links } => {
                &&& r == Ok::<(), CborError>(())
                &&& *final (pos) == end
                &&& *old(pos) <= end
                &&& hash_views(final (set)@) == hash_views(old(set)@) + links
            },
            Scan::Fail(e) => r == Err::<(), CborError>(e),
        },
    decreases data@.len() - *old(pos), 2int, n,
{
    proof {
        lemma_keeps_links_refl(set@);
    }
    if n == 0 {
        proof {
            assert(hash_views(set@) =~= hash_views(set@) + Seq::<Seq<u8>>::empty());
        }
        return Ok(());
    }
    let ghost before = set@;
    match references(data, pos, set) {
        Ok(()) => {},
        Err(e) => {
            return Err(e);
        },
    }
    let ghost mid = set@;
    match references_many(data, pos, set, n - 1) {
        Ok(()) => {
            proof {
                lemma_keeps_links_trans(set@, mid, before);
                match scan_item(data@, *old(pos) as int) {
                    Scan::Done { end: p2, links: l1 } => {
                        match scan_many(data@, p2, (n - 1) as nat) {
                            Scan::Done { end, links: l2 } => {
                                assert(hash_views(set@) =~= hash_views(before) + (l1 + l2));
                            },
                            Scan::Fail(_) => {},
                        }
                    },
                    Scan::Fail(_) => {},
                }
            }
            Ok(())
        },
        Err(e) => {
            proof {
                lemma_keeps_links_trans(set@, mid, before);
            }
            Err(e)
        },
    }
}

/// Scan `n` consecutive key/value pairs; exactly [`scan_many`] of
/// twice `n` items, without ever forming that product in executable
/// arithmetic.
#[verifier::rlimit(100)]
#[verifier::spinoff_prover]
fn references_pairs(data: &[u8], pos: &mut usize, set: &mut Vec<Hash>, n: usize) -> (r: Result<
    (),
    CborError,
>)
    requires
        *old(pos) <= data@.len(),
    ensures
        *final (pos) <= data@.len(),
        keeps_links(final (set)@, old(set)@),
        match scan_many(data@, *old(pos) as int, 2 * n as nat) {
            Scan::Done { end, links } => {
                &&& r == Ok::<(), CborError>(())
                &&& *final (pos) == end
                &&& *old(pos) <= end
                &&& hash_views(final (set)@) == hash_views(old(set)@) + links
            },
            Scan::Fail(e) => r == Err::<(), CborError>(e),
        },
    decreases data@.len() - *old(pos), 2int, n,
{
    proof {
        reveal_with_fuel(scan_many, 3);
        lemma_keeps_links_refl(set@);
    }
    if n == 0 {
        proof {
            assert(hash_views(set@) =~= hash_views(set@) + Seq::<Seq<u8>>::empty());
        }
        return Ok(());
    }
    let ghost before = set@;
    match references(data, pos, set) {
        Ok(()) => {},
        Err(e) => {
            return Err(e);
        },
    }
    let ghost mid1 = set@;
    match references(data, pos, set) {
        Ok(()) => {},
        Err(e) => {
            proof {
                lemma_keeps_links_trans(set@, mid1, before);
            }
            return Err(e);
        },
    }
    let ghost mid2 = set@;
    proof {
        lemma_keeps_links_trans(mid2, mid1, before);
    }
    match references_pairs(data, pos, set, n - 1) {
        Ok(()) => {
            proof {
                lemma_keeps_links_trans(set@, mid2, before);
                match scan_item(data@, *old(pos) as int) {
                    Scan::Done { end: p2, links: l1 } => {
                        match scan_item(data@, p2) {
                            Scan::Done { end: p3, links: l2 } => {
                                match scan_many(data@, p3, (2 * (n - 1)) as nat) {
                                    Scan::Done { end, links: l3 } => {
                                        assert((2 * n - 1) as nat - 1 == (2 * (n - 1)) as nat);
                                        assert(hash_views(set@) =~= hash_views(before) + (l1 + (l2
                                            + l3)));
                                    },
                                    Scan::Fail(_) => {},
                                }
                            },
                            Scan::Fail(_) => {},
                        }
                    },
                    Scan::Fail(_) => {},
                }
            }
            Ok(())
        },
        Err(e) => {
            proof {
                lemma_keeps_links_trans(set@, mid2, before);
            }
            Err(e)
        },
    }
}

/// Scan items (or pairs) until the break byte; exactly
/// [`scan_until_break`].
fn references_until_break(data: &[u8], pos: &mut usize, set: &mut Vec<Hash>, pairs: bool) -> (r:
    Result<(), CborError>)
    requires
        *old(pos) <= data@.len(),
    ensures
        *final (pos) <= data@.len(),
        keeps_links(final (set)@, old(set)@),
        match scan_until_break(data@, *old(pos) as int, pairs) {
            Scan::Done { end, links } => {
                &&& r == Ok::<(), CborError>(())
                &&& *final (pos) == end
                &&& *old(pos) < end
                &&& hash_views(final (set)@) == hash_views(old(set)@) + links
            },
            Scan::Fail(e) => r == Err::<(), CborError>(e),
        },
    decreases data@.len() - *old(pos), 3int, 0int,
{
    proof {
        lemma_keeps_links_refl(set@);
    }
    if *pos >= data.len() {
        return Err(CborError::UnexpectedEof(UnexpectedEof));
    }
    if data[*pos] == 0xff {
        *pos = *pos + 1;
        proof {
            assert(hash_views(set@) =~= hash_views(set@) + Seq::<Seq<u8>>::empty());
        }
        return Ok(());
    }
    let ghost before = set@;
    match references(data, pos, set) {
        Ok(()) => {},
        Err(e) => {
            return Err(e);
        },
    }
    let ghost mid_a = set@;
    if pairs {
        match references(data, pos, set) {
            Ok(()) => {},
            Err(e) => {
                proof {
                    lemma_keeps_links_trans(set@, mid_a, before);
                }
                return Err(e);
            },
        }
        proof {
            lemma_keeps_links_trans(set@, mid_a, before);
        }
    }
    let ghost mid_b = set@;
    match references_until_break(data, pos, set, pairs) {
        Ok(()) => {
            proof {
                lemma_keeps_links_trans(set@, mid_b, before);
                match scan_until_break(data@, *old(pos) as int, pairs) {
                    Scan::Done { end, links } => {
                        assert(hash_views(set@) =~= hash_views(before) + links);
                    },
                    Scan::Fail(_) => {},
                }
            }
            Ok(())
        },
        Err(e) => {
            proof {
                lemma_keeps_links_trans(set@, mid_b, before);
            }
            Err(e)
        },
    }
}

/// Advance the read position by `n` bytes, stopping at the end of the
/// data: a seek, not a read, so running past the end is not an error.
fn skip(data: &[u8], pos: &mut usize, n: usize)
    requires
        *old(pos) <= data@.len(),
    ensures
        *final (pos) == skip_to(data@, *old(pos) + n),
{
    if data.len() - *pos < n {
        *pos = data.len();
    } else {
        *pos = *pos + n;
    }
}

} // verus!
