//! The request/response wire protocol.
//!
//! Records on the wire are prefixed with their length as an unsigned
//! varint: seven value bits per byte, least significant group first,
//! the high bit of a byte announcing that another byte follows.  The
//! payload of a record is a message in a compact binary form: integers
//! as varints, byte strings as their length followed by the bytes,
//! enum variants as their index.
//!
//! Reading is incremental, as in [`crate::frame`]: an [`LpReader`]
//! accumulates stream bytes and [`LpReader::read_lp_data`] decides
//! from them alone whether a complete record is available.  Unlike the
//! framing there, a stream end is never a clean close: every record is
//! expected, and an end of stream before a complete record — even with
//! nothing buffered — is an error.

use vstd::prelude::*;

verus! {

/// Upper bound (exclusive) on the payload size of a single record.
pub const MAX_MESSAGE_SIZE: usize = 1024 * 1024 * 100;

/// A length prefix longer than this encodes a value far beyond any
/// accepted size, whatever its unread remainder holds.
pub const MAX_PREFIX_LEN: usize = 10;

/// Version of the protocol spoken by this library.
pub const VERSION: u64 = 1;

/// The unsigned varint encoding of `n`: seven bits per byte, least
/// significant group first, high bit set on every byte but the last.
pub open spec fn varint(n: nat) -> Seq<u8>
    decreases n,
{
    if n < 0x80 {
        seq![n as u8]
    } else {
        seq![((n % 0x80) + 0x80) as u8] + varint(n / 0x80)
    }
}

/// `0x80` raised to `k`: the number of values a varint of `k` bytes
/// can carry.
pub open spec fn pow7(k: nat) -> nat
    decreases k,
{
    if k == 0 {
        1
    } else {
        0x80 * pow7((k - 1) as nat)
    }
}

/// What the leading bytes of a buffer hold when read as a varint
/// limited to `cap` bytes: a complete value and the bytes it used, an
/// incomplete prefix, or one running past the cap.
pub enum VarintParse {
    Done { value: nat, used: int },
    More,
    TooLong,
}

/// Parse the varint at the front of `s`, reading at most `cap` bytes.
pub open spec fn parse_varint(s: Seq<u8>, cap: nat) -> VarintParse
    decreases cap,
{
    if cap == 0 {
        VarintParse::TooLong
    } else if s.len() == 0 {
        VarintParse::More
    } else if s[0] < 0x80 {
        VarintParse::Done { value: s[0] as nat, used: 1 }
    } else {
        match parse_varint(s.skip(1), (cap - 1) as nat) {
            VarintParse::Done { value, used } => VarintParse::Done {
                value: value * 0x80 + (s[0] - 0x80) as nat,
                used: used + 1,
            },
            VarintParse::More => VarintParse::More,
            VarintParse::TooLong => VarintParse::TooLong,
        }
    }
}

/// A varint never has more than one byte per seven bits of its value.
pub proof fn lemma_varint_len(n: nat, k: nat)
    requires
        k >= 1,
        n < pow7(k),
    ensures
        1 <= varint(n).len() <= k,
    decreases n,
{
    if n >= 0x80 {
        assert(pow7(k) == 0x80 * pow7((k - 1) as nat));
        assert(n / 0x80 < pow7((k - 1) as nat)) by (nonlinear_arith)
            requires
                n < 0x80 * pow7((k - 1) as nat),
        ;
        lemma_varint_len(n / 0x80, (k - 1) as nat);
    }
}

/// A complete parse uses at least one and at most `cap` bytes, never
/// more than the buffer holds, and its value fits in that many groups
/// of seven bits.
pub proof fn lemma_parse_bound(s: Seq<u8>, cap: nat)
    ensures
        parse_varint(s, cap) matches VarintParse::Done { value, used } ==> 1 <= used <= cap && used
            <= s.len() && value < pow7(used as nat) && value < pow7(cap),
    decreases cap,
{
    match parse_varint(s, cap) {
        VarintParse::Done { value, used } => {
            lemma_parse_bound_rec(s, cap);
            lemma_pow7_mono(used as nat, cap);
        },
        _ => {
            lemma_parse_bound_rec(s, cap);
        },
    }
}

/// Induction behind [`lemma_parse_bound`].
proof fn lemma_parse_bound_rec(s: Seq<u8>, cap: nat)
    ensures
        parse_varint(s, cap) matches VarintParse::Done { value, used } ==> 1 <= used <= cap && used
            <= s.len() && value < pow7(used as nat),
    decreases cap,
{
    reveal_with_fuel(pow7, 3);
    if cap > 0 && s.len() > 0 && s[0] >= 0x80 {
        lemma_parse_bound_rec(s.skip(1), (cap - 1) as nat);
        match parse_varint(s.skip(1), (cap - 1) as nat) {
            VarintParse::Done { value, used } => {
                assert(value * 0x80 + (s[0] - 0x80) < pow7((used + 1) as nat)) by (nonlinear_arith)
                    requires
                        value < pow7(used as nat),
                        s[0] < 0x100,
                        0x80 <= s[0],
                        pow7((used + 1) as nat) == 0x80 * pow7(used as nat),
                ;
            },
            _ => {},
        }
    }
}

/// Round trip: the varint encoding of `n`, followed by anything,
/// parses back to `n`, consuming exactly the encoding.
pub proof fn lemma_varint_round_trip(n: nat, rest: Seq<u8>, cap: nat)
    requires
        varint(n).len() <= cap,
    ensures
        parse_varint(varint(n) + rest, cap) == (VarintParse::Done {
            value: n,
            used: varint(n).len() as int,
        }),
    decreases n,
{
    let s = varint(n) + rest;
    if n < 0x80 {
        assert(s[0] == n as u8);
    } else {
        let b = ((n % 0x80) + 0x80) as u8;
        assert(s[0] == b);
        assert(b >= 0x80);
        lemma_varint_round_trip(n / 0x80, rest, (cap - 1) as nat);
        assert(s.skip(1) =~= varint(n / 0x80) + rest);
        assert((n / 0x80) * 0x80 + (b - 0x80) as nat == n) by (nonlinear_arith)
            requires
                b == (n % 0x80) + 0x80,
        ;
    }
}

/// More bytes can never carry fewer values.
pub proof fn lemma_pow7_mono(a: nat, b: nat)
    requires
        a <= b,
    ensures
        pow7(a) <= pow7(b),
    decreases b,
{
    if a < b && b > 0 {
        lemma_pow7_mono(a, (b - 1) as nat);
        assert(pow7(b) == 0x80 * pow7((b - 1) as nat));
        assert(pow7((b - 1) as nat) <= 0x80 * pow7((b - 1) as nat)) by (nonlinear_arith)
            requires
                pow7((b - 1) as nat) >= 0,
        ;
    }
}

/// An error of the varint-prefixed record protocol.  All of them are
/// fatal to the connection.
#[derive(Debug, Clone, Copy, PartialEq, Eq)]
pub enum LpError {
    /// The length prefix ran past [`MAX_PREFIX_LEN`] bytes.
    PrefixTooLong,
    /// The declared payload length is at or above [`MAX_MESSAGE_SIZE`].
    Oversized,
    /// The stream ended before a complete record arrived.
    UnexpectedEof,
    /// A complete record did not parse as the expected message.
    Decode,
}

/// What one [`LpReader::read_lp_data`] call produced.
#[derive(Debug, PartialEq, Eq)]
pub enum LpOutcome {
    /// A complete record payload.
    Data(Vec<u8>),
    /// The buffered bytes do not yet hold a complete record.
    NeedMoreData,
}

/// The decision [`LpReader::read_lp_data`] makes, as a function of the
/// buffered bytes and the end-of-stream flag alone.
pub enum LpStep {
    Data { payload: Seq<u8>, rest: Seq<u8> },
    NeedMore,
    Fail(LpError),
}

/// The record-reading state machine: parse the length prefix (checked
/// against [`MAX_MESSAGE_SIZE`] before any payload is considered),
/// then accumulate until the declared number of payload bytes is
/// present.  An end of stream before that point is an error.
pub open spec fn lp_step(b: Seq<u8>, eof: bool) -> LpStep {
    match parse_varint(b, MAX_PREFIX_LEN as nat) {
        VarintParse::TooLong => LpStep::Fail(LpError::PrefixTooLong),
        VarintParse::More => if eof {
            LpStep::Fail(LpError::UnexpectedEof)
        } else {
            LpStep::NeedMore
        },
        VarintParse::Done { value, used } => if value >= MAX_MESSAGE_SIZE {
            LpStep::Fail(LpError::Oversized)
        } else if b.len() >= used + value {
            LpStep::Data {
                payload: b.subrange(used, used + value as int),
                rest: b.skip(used + value as int),
            }
        } else if eof {
            LpStep::Fail(LpError::UnexpectedEof)
        } else {
            LpStep::NeedMore
        },
    }
}

/// Result of the executable varint parse.
enum PrefixParse {
    Done(u128, usize),
    More,
    TooLong,
}

/// Parse the varint starting at `pos`, reading at most `cap` bytes.
fn parse_varint_at(data: &[u8], pos: usize, cap: usize) -> (r: PrefixParse)
    requires
        pos <= data@.len(),
        cap <= MAX_PREFIX_LEN,
    ensures
        match parse_varint(data@.skip(pos as int), cap as nat) {
            VarintParse::Done { value, used } => r matches PrefixParse::Done(v, u) && v as nat
                == value && u as int == used,
            VarintParse::More => r is More,
            VarintParse::TooLong => r is TooLong,
        },
    decreases cap,
{
    let ghost s = data@.skip(pos as int);
    if cap == 0 {
        PrefixParse::TooLong
    } else if pos >= data.len() {
        PrefixParse::More
    } else {
        let b = data[pos];
        assert(b == s[0]);
        if b < 0x80 {
            PrefixParse::Done(b as u128, 1)
        } else {
            proof {
                assert(data@.skip(pos as int + 1) =~= s.skip(1));
            }
            match parse_varint_at(data, pos + 1, cap - 1) {
                PrefixParse::Done(v, u) => {
                    proof {
                        lemma_parse_bound(s.skip(1), (cap - 1) as nat);
                        lemma_pow7_mono((cap - 1) as nat, 9);
                        reveal_with_fuel(pow7, 10);
                        assert(pow7(9) == 0x8000000000000000);
                    }
                    PrefixParse::Done(v * 0x80 + (b - 0x80) as u128, u + 1)
                },
                PrefixParse::More => PrefixParse::More,
                PrefixParse::TooLong => PrefixParse::TooLong,
            }
        }
    }
}

/// Incremental reader of varint-length-prefixed records.
pub struct LpReader {
    buffer: Vec<u8>,
}

impl View for LpReader {
    type V = Seq<u8>;

    closed spec fn view(&self) -> Seq<u8> {
        self.buffer@
    }
}

impl LpReader {
    /// A reader with nothing buffered.
    pub fn new() -> (r: LpReader)
        ensures
            r@ == Seq::<u8>::empty(),
    {
        LpReader { buffer: Vec::new() }
    }

    /// Append bytes received from the stream to the buffer.
    pub fn feed(&mut self, chunk: &[u8])
        ensures
            final (self)@ == old(self)@ + chunk@,
    {
        self.buffer.extend_from_slice(chunk);
    }

    /// Try to take one complete record off the front of the buffer.
    /// The result is exactly [`lp_step`] of the buffered bytes; bytes
    /// of a following record stay buffered.  Only a complete record
    /// consumes buffered bytes.
    pub fn read_lp_data(&mut self, eof: bool) -> (r: Result<LpOutcome, LpError>)
        ensures
            match lp_step(old(self)@, eof) {
                LpStep::Data { payload, rest } => {
                    &&& r matches Ok(LpOutcome::Data(d)) && d@ == payload
                    &&& final (self)@ == rest
                },
                LpStep::NeedMore => r == Ok::<LpOutcome, LpError>(LpOutcome::NeedMoreData)
                    && final (self)@ == old(self)@,
                LpStep::Fail(e) => r == Err::<LpOutcome, LpError>(e) && final (self)@ == old(
                    self,
                )@,
            },
    {
        proof {
            assert(self.buffer@.skip(0) =~= self.buffer@);
        }
        match parse_varint_at(self.buffer.as_slice(), 0, MAX_PREFIX_LEN) {
            PrefixParse::TooLong => Err(LpError::PrefixTooLong),
            PrefixParse::More => {
                if eof {
                    Err(LpError::UnexpectedEof)
                } else {
                    Ok(LpOutcome::NeedMoreData)
                }
            },
            PrefixParse::Done(v, used) => {
                if v >= MAX_MESSAGE_SIZE as u128 {
                    Err(LpError::Oversized)
                } else {
                    let size = v as usize;
                    proof {
                        lemma_parse_bound(old(self)@, MAX_PREFIX_LEN as nat);
                    }
                    if self.buffer.len() - used >= size {
                        let mut tail = self.buffer.split_off(used);
                        let rest = tail.split_off(size);
                        self.buffer = rest;
                        proof {
                            assert(tail@ =~= old(self)@.subrange(
                                used as int,
                                used as int + size as int,
                            ));
                            assert(self.buffer@ =~= old(self)@.skip(used as int + size as int));
                        }
                        Ok(LpOutcome::Data(tail))
                    } else if eof {
                        Err(LpError::UnexpectedEof)
                    } else {
                        Ok(LpOutcome::NeedMoreData)
                    }
                }
            },
        }
    }
}

/// Append `value` to `out` in varint form.
pub fn write_varint(out: &mut Vec<u8>, value: u64)
    ensures
        final (out)@ == old(out)@ + varint(value as nat),
    decreases value,
{
    if value < 0x80 {
        out.push(value as u8);
        proof {
            assert(out@ =~= old(out)@ + varint(value as nat));
        }
    } else {
        out.push((value % 0x80 + 0x80) as u8);
        write_varint(out, value / 0x80);
        proof {
            assert(out@ =~= old(out)@ + varint(value as nat));
        }
    }
}

/// Write one record to the stream buffer `out`: the payload length as
/// a varint, then the payload.  A payload at or above
/// [`MAX_MESSAGE_SIZE`] is rejected before a single byte is produced.
pub fn write_lp(out: &mut Vec<u8>, data: &[u8]) -> (r: Result<(), LpError>)
    ensures
        data@.len() < MAX_MESSAGE_SIZE ==> r == Ok::<(), LpError>(()) && final (out)@ == old(out)@
            + varint(data@.len()) + data@,
        data@.len() >= MAX_MESSAGE_SIZE ==> r == Err::<(), LpError>(LpError::Oversized)
            && final (out)@ == old(out)@,
{
    if data.len() >= MAX_MESSAGE_SIZE {
        return Err(LpError::Oversized);
    }
    write_varint(out, data.len() as u64);
    out.extend_from_slice(data);
    Ok(())
}

/// Round trip: a record written by [`write_lp`], followed by any
/// further buffered bytes, reads back as exactly its payload, with
/// the further bytes left in place.
pub proof fn lemma_lp_round_trip(data: Seq<u8>, rest: Seq<u8>, eof: bool)
    requires
        data.len() < MAX_MESSAGE_SIZE,
    ensures
        lp_step(varint(data.len()) + data + rest, eof) == (LpStep::Data { payload: data, rest }),
{
    let n = data.len();
    assert(pow7(5) == 0x800000000) by {
        reveal_with_fuel(pow7, 6);
    }
    lemma_varint_len(n, 5);
    lemma_varint_round_trip(n, data + rest, MAX_PREFIX_LEN as nat);
    let b = varint(n) + data + rest;
    assert(b =~= varint(n) + (data + rest));
    let k = varint(n).len() as int;
    assert(b.subrange(k, k + n as int) =~= data);
    assert(b.skip(k + n as int) =~= rest);
}

/// The first message on a connection: the protocol version spoken.
#[derive(Debug, Clone, Copy, PartialEq, Eq, Structural)]
pub struct Handshake {
    pub version: u64,
}

impl Default for Handshake {
    /// A handshake carrying this library's [`VERSION`].
    fn default() -> (r: Handshake)
        ensures
            r.version == VERSION,
    {
        Handshake { version: VERSION }
    }
}

/// A request for a named blob.
#[derive(Debug, Clone, Copy, PartialEq, Eq)]
pub struct Request {
    pub id: u64,
    /// blake3 hash naming the requested data.
    pub name: [u8; 32],
}

/// The payload of an answer: nothing, or the size of the coming data
/// and its outboard tree (the data itself follows as a byte stream).
#[derive(Debug, Clone, PartialEq, Eq)]
pub enum Res {
    NotFound,
    Found { size: usize, outboard: Vec<u8> },
}

/// An answer, tied to the request it answers by its id.
#[derive(Debug, Clone, PartialEq, Eq)]
pub struct Response {
    pub id: u64,
    pub data: Res,
}

/// The mathematical shape of a [`Res`].
pub enum ResView {
    NotFound,
    Found { size: nat, outboard: Seq<u8> },
}

impl View for Res {
    type V = ResView;

    open spec fn view(&self) -> ResView {
        match *self {
            Res::NotFound => ResView::NotFound,
            Res::Found { size, outboard } => ResView::Found {
                size: size as nat,
                outboard: outboard@,
            },
        }
    }
}

impl Res {
    /// The number of outboard bytes carried: zero when nothing was
    /// found.
    pub fn len(&self) -> (r: usize)
        ensures
            r == (match self@ {
                ResView::Found { outboard, .. } => outboard.len(),
                ResView::NotFound => 0nat,
            }),
    {
        match self {
            Res::Found { outboard, .. } => outboard.len(),
            Res::NotFound => 0,
        }
    }
}

/// The wire form of a [`Handshake`]: its version as a varint.
pub open spec fn encode_handshake(m: Handshake) -> Seq<u8> {
    varint(m.version as nat)
}

/// The wire form of a [`Request`]: the id as a varint, then the 32
/// name bytes.
pub open spec fn encode_request(m: Request) -> Seq<u8> {
    varint(m.id as nat) + m.name@
}

/// The wire form of a [`ResView`]: the variant index, then for a
/// found answer the size and the length-prefixed outboard bytes.
pub open spec fn encode_res(d: ResView) -> Seq<u8> {
    match d {
        ResView::NotFound => seq![0u8],
        ResView::Found { size, outboard } => seq![1u8] + varint(size) + varint(outboard.len())
            + outboard,
    }
}

/// The wire form of a [`Response`]: the id as a varint, then the
/// answer payload.
pub open spec fn encode_response(id: nat, d: ResView) -> Seq<u8> {
    varint(id) + encode_res(d)
}

/// Parse a whole buffer as a handshake: one varint that fits a `u64`,
/// consuming everything.
pub open spec fn parse_handshake(s: Seq<u8>) -> Option<nat> {
    match parse_varint(s, MAX_PREFIX_LEN as nat) {
        VarintParse::Done { value, used } => if used == s.len() && value <= u64::MAX {
            Some(value)
        } else {
            None
        },
        _ => None,
    }
}

/// Parse a whole buffer as a request: an id varint that fits a `u64`,
/// then exactly 32 name bytes.
pub open spec fn parse_request(s: Seq<u8>) -> Option<(nat, Seq<u8>)> {
    match parse_varint(s, MAX_PREFIX_LEN as nat) {
        VarintParse::Done { value, used } => if value <= u64::MAX && s.len() - used == 32 {
            Some((value, s.skip(used)))
        } else {
            None
        },
        _ => None,
    }
}

/// Parse a whole buffer as an answer payload.
pub open spec fn parse_res(s: Seq<u8>) -> Option<ResView> {
    if s.len() == 0 {
        None
    } else if s[0] == 0 {
        if s.len() == 1 {
            Some(ResView::NotFound)
        } else {
            None
        }
    } else if s[0] == 1 {
        match parse_varint(s.skip(1), MAX_PREFIX_LEN as nat) {
            VarintParse::Done { value: size, used: k1 } => if size <= usize::MAX {
                match parse_varint(s.skip(1 + k1), MAX_PREFIX_LEN as nat) {
                    VarintParse::Done { value: blen, used: k2 } => if s.len() == 1 + k1 + k2
                        + blen {
                        Some(ResView::Found { size, outboard: s.skip(1 + k1 + k2) })
                    } else {
                        None
                    },
                    _ => None,
                }
            } else {
                None
            },
            _ => None,
        }
    } else {
        None
    }
}

/// Parse a whole buffer as a response: an id varint that fits a
/// `u64`, then the answer payload.
pub open spec fn parse_response(s: Seq<u8>) -> Option<(nat, ResView)> {
    match parse_varint(s, MAX_PREFIX_LEN as nat) {
        VarintParse::Done { value, used } => if value <= u64::MAX {
            match parse_res(s.skip(used)) {
                Some(d) => Some((value, d)),
                None => None,
            }
        } else {
            None
        },
        _ => None,
    }
}

/// Append the wire form of `m` to `out`.
pub fn write_handshake(out: &mut Vec<u8>, m: &Handshake)
    ensures
        final (out)@ == old(out)@ + encode_handshake(*m),
{
    write_varint(out, m.version);
}

/// Append the wire form of `m` to `out`.
pub fn write_request(out: &mut Vec<u8>, m: &Request)
    ensures
        final (out)@ == old(out)@ + encode_request(*m),
{
    write_varint(out, m.id);
    out.extend_from_slice(m.name.as_slice());
    proof {
        assert(out@ =~= old(out)@ + encode_request(*m));
    }
}

/// Append the wire form of `m` to `out`.
pub fn write_response(out: &mut Vec<u8>, m: &Response)
    ensures
        final (out)@ == old(out)@ + encode_response(m.id as nat, m.data@),
{
    write_varint(out, m.id);
    match &m.data {
        Res::NotFound => {
            out.push(0);
            proof {
                assert(out@ =~= old(out)@ + encode_response(m.id as nat, m.data@));
            }
        },
        Res::Found { size, outboard } => {
            out.push(1);
            write_varint(out, *size as u64);
            write_varint(out, outboard.len() as u64);
            out.extend_from_slice(outboard.as_slice());
            proof {
                assert(out@ =~= old(out)@ + encode_response(m.id as nat, m.data@));
            }
        },
    }
}

/// Decode a record payload as a [`Handshake`]; exactly
/// [`parse_handshake`] of the bytes.
pub fn decode_handshake(data: &[u8]) -> (r: Option<Handshake>)
    ensures
        match parse_handshake(data@) {
            Some(v) => r matches Some(h) && h.version == v,
            None => r is None,
        },
{
    proof {
        assert(data@.skip(0) =~= data@);
    }
    match parse_varint_at(data, 0, MAX_PREFIX_LEN) {
        PrefixParse::Done(v, used) => {
            if used == data.len() && v <= u64::MAX as u128 {
                Some(Handshake { version: v as u64 })
            } else {
                None
            }
        },
        _ => None,
    }
}

/// Decode a record payload as a [`Request`]; exactly
/// [`parse_request`] of the bytes.
pub fn decode_request(data: &[u8]) -> (r: Option<Request>)
    ensures
        match parse_request(data@) {
            Some((id, name)) => r matches Some(q) && q.id == id && q.name@ == name,
            None => r is None,
        },
{
    proof {
        assert(data@.skip(0) =~= data@);
    }
    match parse_varint_at(data, 0, MAX_PREFIX_LEN) {
        PrefixParse::Done(v, used) => {
            proof {
                lemma_parse_bound(data@, MAX_PREFIX_LEN as nat);
            }
            if v <= u64::MAX as u128 && data.len() - used == 32 {
                let mut name = [0u8; 32];
                let mut i: usize = 0;
                while i < 32
                    invariant
                        used + 32 == data@.len(),
                        used + 32 <= usize::MAX,
                        0 <= i <= 32,
                        name@.len() == 32,
                        forall|k: int| 0 <= k < i ==> name@[k] == data@[used + k],
                    decreases 32 - i,
                {
                    name[i] = data[used + i];
                    i = i + 1;
                }
                proof {
                    assert(name@ =~= data@.skip(used as int));
                }
                Some(Request { id: v as u64, name })
            } else {
                None
            }
        },
        _ => None,
    }
}

/// Decode a record payload as a [`Res`]; exactly [`parse_res`] of the
/// bytes.
pub fn decode_res(data: &[u8]) -> (r: Option<Res>)
    ensures
        match parse_res(data@) {
            Some(d) => r matches Some(x) && x@ == d,
            None => r is None,
        },
{
    if data.len() == 0 {
        return None;
    }
    let b0 = data[0];
    if b0 == 0 {
        if data.len() == 1 {
            Some(Res::NotFound)
        } else {
            None
        }
    } else if b0 == 1 {
        match parse_varint_at(data, 1, MAX_PREFIX_LEN) {
            PrefixParse::Done(v1, k1) => {
                proof {
                    lemma_parse_bound(data@.skip(1), MAX_PREFIX_LEN as nat);
                }
                if v1 <= usize::MAX as u128 {
                    let size = v1 as usize;
                    proof {
                        assert(data@.skip(1).skip(k1 as int) =~= data@.skip(1 + k1 as int));
                    }
                    match parse_varint_at(data, 1 + k1, MAX_PREFIX_LEN) {
                        PrefixParse::Done(v2, k2) => {
                            proof {
                                lemma_parse_bound(data@.skip(1 + k1 as int), MAX_PREFIX_LEN as nat);
                            }
                            let rem = data.len() - 1 - k1 - k2;
                            if rem as u128 == v2 {
                                let mut outboard: Vec<u8> = Vec::new();
                                let start = 1 + k1 + k2;
                                let mut i: usize = start;
                                while i < data.len()
                                    invariant
                                        start <= data@.len(),
                                        start <= i <= data@.len(),
                                        outboard@ =~= data@.subrange(start as int, i as int),
                                    decreases data@.len() - i,
                                {
                                    outboard.push(data[i]);
                                    i = i + 1;
                                }
                                proof {
                                    assert(outboard@ =~= data@.skip(start as int));
                                }
                                Some(Res::Found { size, outboard })
                            } else {
                                None
                            }
                        },
                        _ => None,
                    }
                } else {
                    None
                }
            },
            _ => None,
        }
    } else {
        None
    }
}

/// Decode a record payload as a [`Response`]; exactly
/// [`parse_response`] of the bytes.
pub fn decode_response(data: &[u8]) -> (r: Option<Response>)
    ensures
        match parse_response(data@) {
            Some((id, d)) => r matches Some(x) && x.id == id && x.data@ == d,
            None => r is None,
        },
{
    proof {
        assert(data@.skip(0) =~= data@);
    }
    match parse_varint_at(data, 0, MAX_PREFIX_LEN) {
        PrefixParse::Done(v, used) => {
            proof {
                lemma_parse_bound(data@, MAX_PREFIX_LEN as nat);
                assert(data@.subrange(used as int, data@.len() as int) =~= data@.skip(used as int));
            }
            if v <= u64::MAX as u128 {
                match decode_res(&data[used..data.len()]) {
                    Some(d) => Some(Response { id: v as u64, data: d }),
                    None => None,
                }
            } else {
                None
            }
        },
        _ => None,
    }
}

/// What one [`LpReader::read_lp`] call produced.
#[derive(Debug, PartialEq, Eq)]
pub enum ReadLp {
    Message(Response),
    NeedMoreData,
}

impl LpReader {
    /// Read one record and decode it as a [`Response`]: the typed
    /// layer over [`LpReader::read_lp_data`].  A record that arrives
    /// whole but does not parse is a [`LpError::Decode`] error — a
    /// distinct class from the framing errors — and its bytes are
    /// consumed.
    pub fn read_lp(&mut self, eof: bool) -> (r: Result<ReadLp, LpError>)
        ensures
            match lp_step(old(self)@, eof) {
                LpStep::Data { payload, rest } => {
                    &&& final (self)@ == rest
                    &&& match parse_response(payload) {
                        Some((id, d)) => r matches Ok(ReadLp::Message(m)) && m.id == id && m.data@
                            == d,
                        None => r == Err::<ReadLp, LpError>(LpError::Decode),
                    }
                },
                LpStep::NeedMore => r == Ok::<ReadLp, LpError>(ReadLp::NeedMoreData)
                    && final (self)@ == old(self)@,
                LpStep::Fail(e) => r == Err::<ReadLp, LpError>(e) && final (self)@ == old(self)@,
            },
    {
        match self.read_lp_data(eof)? {
            LpOutcome::NeedMoreData => Ok(ReadLp::NeedMoreData),
            LpOutcome::Data(payload) => match decode_response(payload.as_slice()) {
                Some(m) => Ok(ReadLp::Message(m)),
                None => Err(LpError::Decode),
            },
        }
    }
}

/// Round trip: an encoded [`Handshake`] parses back to the same
/// version.
pub proof fn lemma_handshake_round_trip(m: Handshake)
    ensures
        parse_handshake(encode_handshake(m)) == Some(m.version as nat),
{
    assert(pow7(10) > u64::MAX) by {
        reveal_with_fuel(pow7, 11);
    }
    lemma_varint_len(m.version as nat, 10);
    lemma_varint_round_trip(m.version as nat, Seq::<u8>::empty(), MAX_PREFIX_LEN as nat);
    assert(varint(m.version as nat) + Seq::<u8>::empty() =~= varint(m.version as nat));
}

/// Round trip: an encoded [`Request`] parses back to the same id and
/// name.
pub proof fn lemma_request_round_trip(m: Request)
    ensures
        parse_request(encode_request(m)) == Some((m.id as nat, m.name@)),
{
    assert(pow7(10) > u64::MAX) by {
        reveal_with_fuel(pow7, 11);
    }
    lemma_varint_len(m.id as nat, 10);
    lemma_varint_round_trip(m.id as nat, m.name@, MAX_PREFIX_LEN as nat);
    let s = encode_request(m);
    let k = varint(m.id as nat).len() as int;
    assert(s.skip(k) =~= m.name@);
}

/// Round trip: an encoded answer payload parses back to the same
/// value.
pub proof fn lemma_res_round_trip(d: ResView)
    requires
        d matches ResView::Found { size, outboard } ==> size <= usize::MAX && outboard.len()
            <= usize::MAX,
    ensures
        parse_res(encode_res(d)) == Some(d),
{
    assert(pow7(10) > u64::MAX) by {
        reveal_with_fuel(pow7, 11);
    }
    match d {
        ResView::NotFound => {
            assert(encode_res(d)[0] == 0);
        },
        ResView::Found { size, outboard } => {
            let s = encode_res(d);
            assert(s[0] == 1);
            lemma_varint_len(size, 10);
            lemma_varint_round_trip(size, varint(outboard.len()) + outboard, MAX_PREFIX_LEN as nat);
            let k1 = varint(size).len() as int;
            assert(s.skip(1) =~= varint(size) + (varint(outboard.len()) + outboard));
            lemma_varint_len(outboard.len(), 10);
            lemma_varint_round_trip(outboard.len(), outboard, MAX_PREFIX_LEN as nat);
            let k2 = varint(outboard.len()).len() as int;
            assert(s.skip(1 + k1) =~= varint(outboard.len()) + outboard);
            assert(s.len() == 1 + k1 + k2 + outboard.len());
            assert(s.skip(1 + k1 + k2) =~= outboard);
        },
    }
}

/// Round trip: an encoded [`Response`] parses back to the same id and
/// payload.
pub proof fn lemma_response_round_trip(id: u64, d: ResView)
    requires
        d matches ResView::Found { size, outboard } ==> size <= usize::MAX && outboard.len()
            <= usize::MAX,
    ensures
        parse_response(encode_response(id as nat, d)) == Some((id as nat, d)),
{
    assert(pow7(10) > u64::MAX) by {
        reveal_with_fuel(pow7, 11);
    }
    lemma_varint_len(id as nat, 10);
    lemma_varint_round_trip(id as nat, encode_res(d), MAX_PREFIX_LEN as nat);
    let s = encode_response(id as nat, d);
    let k = varint(id as nat).len() as int;
    assert(s.skip(k) =~= encode_res(d));
    lemma_res_round_trip(d);
}

} // verus!
