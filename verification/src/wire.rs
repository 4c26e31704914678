//! Wire frame codec.
//!
//! Defines the plaintext frame format carried inside each encrypted datagram.
//! Both the datagram class and the stream class of frames share one tag space,
//! so a payload may mix them freely.

use vstd::arithmetic::power2::*;
use vstd::bits::*;
use vstd::prelude::*;
use vstd::slice::{slice_subrange, slice_to_vec};

verus! {

/// Why a payload could not be decoded.
#[derive(Debug, PartialEq, Eq, Structural, Clone, Copy)]
pub enum WireError {
    /// The input ended inside a field.
    UnexpectedEof,
    /// An unassigned frame tag or stream kind.
    UnknownFrame(u8),
    /// A varint that does not fit in 64 bits.
    VarintOverflow,
    /// A length prefix that exceeds the remaining input.
    BadLength,
    /// A text field that is not UTF-8.
    BadUtf8,
}

/// What a multiplexed stream carries.
#[derive(Debug, Clone, Copy, PartialEq, Eq, Structural)]
pub enum StreamKind {
    /// A shell/exec channel.
    Session,
    /// A forwarded TCP connection.
    Forward,
    /// File-transfer subsystem.
    FileTransfer,
    /// Agent-forwarding socket proxy.
    Agent,
}

impl StreamKind {
    /// The byte that stands for this kind on the wire.
    pub open spec fn code(self) -> u8 {
        match self {
            StreamKind::Session => 0,
            StreamKind::Forward => 1,
            StreamKind::FileTransfer => 2,
            StreamKind::Agent => 3,
        }
    }

    /// The kind that a byte stands for, if any.
    pub open spec fn of_code(v: u8) -> Option<StreamKind> {
        if v == 0 {
            Some(StreamKind::Session)
        } else if v == 1 {
            Some(StreamKind::Forward)
        } else if v == 2 {
            Some(StreamKind::FileTransfer)
        } else if v == 3 {
            Some(StreamKind::Agent)
        } else {
            None
        }
    }

    fn to_u8(self) -> (v: u8)
        ensures
            v == self.code(),
    {
        match self {
            StreamKind::Session => 0,
            StreamKind::Forward => 1,
            StreamKind::FileTransfer => 2,
            StreamKind::Agent => 3,
        }
    }

    fn from_u8(v: u8) -> (r: Result<StreamKind, WireError>)
        ensures
            match Self::of_code(v) {
                Some(k) => r == Ok::<StreamKind, WireError>(k),
                None => r == Err::<StreamKind, WireError>(WireError::UnknownFrame(v)),
            },
    {
        match v {
            0 => Ok(StreamKind::Session),
            1 => Ok(StreamKind::Forward),
            2 => Ok(StreamKind::FileTransfer),
            3 => Ok(StreamKind::Agent),
            other => Err(WireError::UnknownFrame(other)),
        }
    }
}

/// A single protocol frame. Many frames are packed into one datagram payload.
#[derive(Debug, Clone, PartialEq, Eq)]
pub enum Frame {
    /// Acknowledge the highest contiguous state-sync sequence applied.
    Ack { seq: u64 },
    /// Client keystroke bytes as a reliable append-only stream from `offset`.
    Input { offset: u64, data: Vec<u8> },
    /// Latest-wins terminal state diff: `seq` is this state's id, `base` is the
    /// state id it was diffed against (0 = full snapshot).
    StateDiff { seq: u64, base: u64, data: Vec<u8> },
    /// Window resize.
    Resize { cols: u16, rows: u16 },
    /// Liveness probe carrying an opaque timestamp.
    Ping { stamp: u64 },
    /// Answer to a `Ping`, echoing its timestamp.
    Pong { stamp: u64 },
    /// Announces a new stream.
    StreamOpen { id: u64, kind: StreamKind, meta: Vec<u8> },
    /// A chunk of a stream's bytes; `fin` marks the end of the stream.
    StreamData { id: u64, offset: u64, data: Vec<u8>, fin: bool },
    /// Cumulative acknowledgement and receive window of a stream.
    StreamAck { id: u64, ack: u64, window: u32 },
    /// Graceful close of a stream with an exit status.
    StreamClose { id: u64, status: i32 },
    /// Abrupt end of a stream.
    StreamReset { id: u64 },
    /// Opaque control-channel message.
    Control { data: Vec<u8> },
}

/// What a frame says, with byte strings as sequences.
pub enum FrameView {
    Ack { seq: u64 },
    Input { offset: u64, data: Seq<u8> },
    StateDiff { seq: u64, base: u64, data: Seq<u8> },
    Resize { cols: u16, rows: u16 },
    Ping { stamp: u64 },
    Pong { stamp: u64 },
    StreamOpen { id: u64, kind: StreamKind, meta: Seq<u8> },
    StreamData { id: u64, offset: u64, data: Seq<u8>, fin: bool },
    StreamAck { id: u64, ack: u64, window: u32 },
    StreamClose { id: u64, status: i32 },
    StreamReset { id: u64 },
    Control { data: Seq<u8> },
}

impl View for Frame {
    type V = FrameView;

    open spec fn view(&self) -> FrameView {
        match *self {
            Frame::Ack { seq } => FrameView::Ack { seq },
            Frame::Input { offset, data } => FrameView::Input { offset, data: data@ },
            Frame::StateDiff { seq, base, data } => FrameView::StateDiff { seq, base, data: data@ },
            Frame::Resize { cols, rows } => FrameView::Resize { cols, rows },
            Frame::Ping { stamp } => FrameView::Ping { stamp },
            Frame::Pong { stamp } => FrameView::Pong { stamp },
            Frame::StreamOpen { id, kind, meta } => FrameView::StreamOpen { id, kind, meta: meta@ },
            Frame::StreamData { id, offset, data, fin } => FrameView::StreamData {
                id,
                offset,
                data: data@,
                fin,
            },
            Frame::StreamAck { id, ack, window } => FrameView::StreamAck { id, ack, window },
            Frame::StreamClose { id, status } => FrameView::StreamClose { id, status },
            Frame::StreamReset { id } => FrameView::StreamReset { id },
            Frame::Control { data } => FrameView::Control { data: data@ },
        }
    }
}

pub const T_ACK: u8 = 0x01;

pub const T_INPUT: u8 = 0x02;

pub const T_STATEDIFF: u8 = 0x03;

pub const T_RESIZE: u8 = 0x04;

pub const T_PING: u8 = 0x05;

pub const T_PONG: u8 = 0x06;

pub const T_STREAM_OPEN: u8 = 0x10;

pub const T_STREAM_DATA: u8 = 0x11;

pub const T_STREAM_ACK: u8 = 0x12;

pub const T_STREAM_CLOSE: u8 = 0x13;

pub const T_STREAM_RESET: u8 = 0x14;

pub const T_CONTROL: u8 = 0x20;

// ---------------------------------------------------------------------------
// Varints
// ---------------------------------------------------------------------------

/// The LEB128 form of a number: seven bits per byte, least significant first,
/// with the high bit set on every byte but the last.
pub open spec fn varint(v: nat) -> Seq<u8>
    decreases v,
{
    if v < 128 {
        seq![v as u8]
    } else {
        seq![(v % 128 + 128) as u8] + varint(v / 128)
    }
}

/// Reading a varint whose byte number `k` stands at `pos`: the value of this
/// and the following bytes, and the position behind the last byte read.
///
/// Ten bytes hold 64 bits, so byte number 9 may carry one bit only and there
/// is no byte number 10.
pub open spec fn varint_from(buf: Seq<u8>, pos: int, k: nat) -> (Result<nat, WireError>, int)
    decreases buf.len() - pos,
{
    if pos < 0 || pos >= buf.len() {
        (Err(WireError::UnexpectedEof), pos)
    } else if k >= 10 || (k == 9 && buf[pos] % 128 >= 2) {
        (Err(WireError::VarintOverflow), pos + 1)
    } else if buf[pos] < 128 {
        (Ok(buf[pos] as nat), pos + 1)
    } else {
        match varint_from(buf, pos + 1, k + 1) {
            (Ok(v), end) => (Ok((buf[pos] - 128 + 128 * v) as nat), end),
            (Err(e), end) => (Err(e), end),
        }
    }
}

/// Reading the varint at `pos`.
#[verifier::opaque]
pub open spec fn varint_at(buf: Seq<u8>, pos: int) -> (Result<nat, WireError>, int) {
    varint_from(buf, pos, 0)
}

/// Append a LEB128 unsigned varint.
pub fn put_varint(out: &mut Vec<u8>, v: u64)
    ensures
        final(out)@ == old(out)@ + varint(v as nat),
{
    let ghost start = out@;
    let ghost whole = v as nat;
    let mut v: u64 = v;
    loop
        invariant_except_break
            out@ + varint(v as nat) == start + varint(whole),
        ensures
            out@ == start + varint(whole),
        decreases v,
    {
        let ghost before = v;
        let mut byte: u8 = (v & 0x7f) as u8;
        v >>= 7;
        assert(before & 0x7f == before % 128 && before >> 7 == before / 128) by (bit_vector);
        if v != 0 {
            assert(byte < 128 ==> byte | 0x80 == byte + 128) by (bit_vector);
            byte |= 0x80;
        }
        out.push(byte);
        if v == 0 {
            break;
        }
        assert(out@ + varint(v as nat) =~= out@.drop_last() + varint(before as nat));
    }
}

/// Read a LEB128 unsigned varint, advancing `pos` behind the last byte read.
pub fn get_varint(buf: &[u8], pos: &mut usize) -> (r: Result<u64, WireError>)
    ensures
        *final(pos) == varint_at(buf@, *old(pos) as int).1,
        match varint_at(buf@, *old(pos) as int).0 {
            Ok(v) => r matches Ok(x) && x == v,
            Err(e) => r == Err::<u64, WireError>(e),
        },
{
    let ghost start = *pos as int;
    let mut result: u64 = 0;
    let mut shift: u32 = 0;
    let ghost mut k: nat = 0;
    proof {
        reveal(varint_at);
        lemma2_to64();
    }
    loop
        invariant
            start == *old(pos),
            k <= 10,
            shift == 7 * k,
            result < pow2(shift as nat),
            match varint_from(buf@, *pos as int, k) {
                (Ok(v), end) => k < 10 && varint_at(buf@, start) == (
                    Ok::<nat, WireError>((result + v * pow2(shift as nat)) as nat),
                    end,
                ),
                (Err(e), end) => varint_at(buf@, start) == (Err::<nat, WireError>(e), end),
            },
        decreases 11 - k,
    {
        if *pos >= buf.len() {
            return Err(WireError::UnexpectedEof);
        }
        let byte: u8 = buf[*pos];
        *pos += 1;
        assert((byte & 0x7e != 0 <==> byte % 128 >= 2) && (byte & 0x80 == 0 <==> byte < 128) && byte
            & 0x7f == byte % 128) by (bit_vector);
        if shift >= 64 || (shift == 63 && (byte & 0x7e) != 0) {
            return Err(WireError::VarintOverflow);
        }
        let low: u64 = (byte & 0x7f) as u64;
        let ghost before = result;
        result |= low << shift;
        proof {
            lemma_or_shifted(before, low, shift, k);
        }
        if byte & 0x80 == 0 {
            return Ok(result);
        }
        proof {
            lemma_pow2_adds(shift as nat, 7);
            lemma2_to64();
            if let (Ok(v), end) = varint_from(buf@, *pos as int, k + 1) {
                assert(before + low * pow2(shift as nat) + v * (pow2(shift as nat) * 128) == before + (low
                    + 128 * v) * pow2(shift as nat)) by (nonlinear_arith);
            }
            assert(before + low * pow2(shift as nat) < pow2(shift as nat) * 128) by (nonlinear_arith)
                requires
                    before < pow2(shift as nat),
                    low < 128,
            ;
            k = k + 1;
        }
        shift += 7;
    }
}

/// Setting the seven bits above the lowest `7 * k` adds their value.
proof fn lemma_or_shifted(acc: u64, low: u64, shift: u32, k: nat)
    requires
        shift == 7 * k,
        k < 10,
        acc < pow2(shift as nat),
        low < 128,
        shift == 63 ==> low < 2,
    ensures
        acc | (low << shift) == acc + low * pow2(shift as nat),
{
    lemma_pow2_strictly_increases(shift as nat, 64);
    lemma2_to64_rest();
    lemma_u64_shl_is_mul(1, shift as u64);
    assert(acc | (low << shift) == acc + low * (1u64 << shift)) by (bit_vector)
        requires
            acc < 1u64 << shift,
            low < 128,
            shift == 63 || shift <= 56,
            shift == 63 ==> low < 2,
    ;
}

/// The position behind a varint lies behind its first byte and within the
/// input, and the value fits in what is left of 64 bits.
pub proof fn lemma_varint_from_end(buf: Seq<u8>, pos: int, k: nat)
    requires
        0 <= pos,
    ensures
        varint_from(buf, pos, k).0 is Ok ==> pos < varint_from(buf, pos, k).1 <= buf.len(),
    decreases buf.len() - pos,
{
    if pos < buf.len() {
        lemma_varint_from_end(buf, pos + 1, k + 1);
    }
}

// ---------------------------------------------------------------------------
// Fields
// ---------------------------------------------------------------------------

/// A byte string with its length in front.
pub open spec fn bytes_field(data: Seq<u8>) -> Seq<u8> {
    varint(data.len()) + data
}

/// Reading a field at a position: its value and the position behind it.
pub type Parsed<T> = Result<(T, int), WireError>;

/// Reading one byte at `pos`.
pub open spec fn u8_at(buf: Seq<u8>, pos: int) -> Parsed<u8> {
    if 0 <= pos < buf.len() {
        Ok((buf[pos], pos + 1))
    } else {
        Err(WireError::UnexpectedEof)
    }
}

/// Reading a number at `pos`.
pub open spec fn number_at(buf: Seq<u8>, pos: int) -> Parsed<nat> {
    match varint_at(buf, pos) {
        (Ok(v), end) => Ok((v, end)),
        (Err(e), _) => Err(e),
    }
}

/// Reading a length-prefixed byte string at `pos`.
pub open spec fn bytes_at(buf: Seq<u8>, pos: int) -> Parsed<Seq<u8>> {
    match number_at(buf, pos) {
        Ok((n, p)) => if p + n > buf.len() {
            Err(WireError::BadLength)
        } else {
            Ok((buf.subrange(p, p + n), p + n))
        },
        Err(e) => Err(e),
    }
}

fn put_bytes(out: &mut Vec<u8>, data: &[u8])
    ensures
        final(out)@ == old(out)@ + bytes_field(data@),
{
    let ghost start = out@;
    put_varint(out, data.len() as u64);
    out.extend_from_slice(data);
    assert(out@ =~= start + bytes_field(data@));
}

fn get_bytes(buf: &[u8], pos: &mut usize) -> (r: Result<Vec<u8>, WireError>)
    ensures
        match bytes_at(buf@, *old(pos) as int) {
            Ok((data, end)) => r matches Ok(v) && v@ == data && *final(pos) == end,
            Err(e) => r == Err::<Vec<u8>, WireError>(e),
        },
{
    proof {
        reveal(varint_at);
        lemma_varint_from_end(buf@, *pos as int, 0);
    }
    let len: u64 = get_varint(buf, pos)?;
    if len > (buf.len() - *pos) as u64 {
        return Err(WireError::BadLength);
    }
    let end: usize = *pos + len as usize;
    let out: Vec<u8> = slice_to_vec(slice_subrange(buf, *pos, end));
    *pos = end;
    Ok(out)
}

fn get_u8(buf: &[u8], pos: &mut usize) -> (r: Result<u8, WireError>)
    ensures
        match u8_at(buf@, *old(pos) as int) {
            Ok((b, end)) => r == Ok::<u8, WireError>(b) && *final(pos) == end,
            Err(e) => r == Err::<u8, WireError>(e),
        },
{
    if *pos >= buf.len() {
        return Err(WireError::UnexpectedEof);
    }
    let b: u8 = buf[*pos];
    *pos += 1;
    Ok(b)
}

/// The zig-zag form of a signed number: 0, -1, 1, -2, ... become 0, 1, 2, 3, ...
pub open spec fn zigzag_of(v: int) -> int {
    if v >= 0 {
        2 * v
    } else {
        -2 * v - 1
    }
}

/// The signed number that a zig-zag form stands for.
pub open spec fn unzigzag_of(v: int) -> int {
    if v % 2 == 0 {
        v / 2
    } else {
        -(v / 2) - 1
    }
}

/// Zig-zag encode a signed number.
pub fn zigzag(v: i64) -> (r: u64)
    ensures
        r == zigzag_of(v as int),
{
    let r: u64 = ((v << 1) ^ (v >> 63)) as u64;
    assert(r == if v >= 0 { 2 * v } else { -2 * v - 1 }) by (bit_vector)
        requires
            r == ((v << 1) ^ (v >> 63)) as u64,
    ;
    r
}

/// Undo the zig-zag encoding.
pub fn unzigzag(v: u64) -> (r: i64)
    ensures
        r == unzigzag_of(v as int),
{
    assert(v >> 1 == v / 2 && v & 1 == v % 2) by (bit_vector);
    let half: i64 = (v >> 1) as i64;
    let sign: i64 = -((v & 1) as i64);
    assert(half ^ 0 == half && half ^ ((-1) as i64) == -half - 1) by (bit_vector);
    half ^ sign
}

// ---------------------------------------------------------------------------
// Frames
// ---------------------------------------------------------------------------

/// The bytes of a frame: its tag, then its fields.
pub open spec fn frame_bytes(f: FrameView) -> Seq<u8> {
    match f {
        FrameView::Ack { seq } => seq![T_ACK] + varint(seq as nat),
        FrameView::Input { offset, data } => seq![T_INPUT] + varint(offset as nat) + bytes_field(data),
        FrameView::StateDiff { seq, base, data } => seq![T_STATEDIFF] + varint(seq as nat) + varint(
            base as nat,
        ) + bytes_field(data),
        FrameView::Resize { cols, rows } => seq![T_RESIZE] + varint(cols as nat) + varint(
            rows as nat,
        ),
        FrameView::Ping { stamp } => seq![T_PING] + varint(stamp as nat),
        FrameView::Pong { stamp } => seq![T_PONG] + varint(stamp as nat),
        FrameView::StreamOpen { id, kind, meta } => seq![T_STREAM_OPEN] + varint(id as nat) + seq![
            kind.code(),
        ] + bytes_field(meta),
        FrameView::StreamData { id, offset, data, fin } => seq![T_STREAM_DATA] + varint(id as nat)
            + varint(offset as nat) + seq![
            if fin {
                1u8
            } else {
                0u8
            },
        ] + bytes_field(data),
        FrameView::StreamAck { id, ack, window } => seq![T_STREAM_ACK] + varint(id as nat) + varint(
            ack as nat,
        ) + varint(window as nat),
        FrameView::StreamClose { id, status } => seq![T_STREAM_CLOSE] + varint(id as nat) + varint(
            zigzag_of(status as int) as nat,
        ),
        FrameView::StreamReset { id } => seq![T_STREAM_RESET] + varint(id as nat),
        FrameView::Control { data } => seq![T_CONTROL] + bytes_field(data),
    }
}

/// The bytes of several frames, one after the other.
pub open spec fn frames_bytes(fs: Seq<FrameView>) -> Seq<u8>
    decreases fs.len(),
{
    if fs.len() == 0 {
        seq![]
    } else {
        frames_bytes(fs.drop_last()) + frame_bytes(fs.last())
    }
}

/// Reading the frame at `pos`.
pub open spec fn frame_at(buf: Seq<u8>, pos: int) -> Parsed<FrameView> {
    match u8_at(buf, pos) {
        Err(e) => Err(e),
        Ok((tag, p)) => fields_at(tag, buf, p),
    }
}

/// Reading the fields of a frame whose tag has been read.
pub open spec fn fields_at(tag: u8, buf: Seq<u8>, pos: int) -> Parsed<FrameView> {
    if tag == T_ACK {
        match number_at(buf, pos) {
            Err(e) => Err(e),
            Ok((seq, p)) => Ok((FrameView::Ack { seq: seq as u64 }, p)),
        }
    } else if tag == T_INPUT {
        match number_at(buf, pos) {
            Err(e) => Err(e),
            Ok((offset, p)) => match bytes_at(buf, p) {
                Err(e) => Err(e),
                Ok((data, p)) => Ok((FrameView::Input { offset: offset as u64, data }, p)),
            },
        }
    } else if tag == T_STATEDIFF {
        match number_at(buf, pos) {
            Err(e) => Err(e),
            Ok((seq, p)) => match number_at(buf, p) {
                Err(e) => Err(e),
                Ok((base, p)) => match bytes_at(buf, p) {
                    Err(e) => Err(e),
                    Ok((data, p)) => Ok(
                        (FrameView::StateDiff { seq: seq as u64, base: base as u64, data }, p),
                    ),
                },
            },
        }
    } else if tag == T_RESIZE {
        match number_at(buf, pos) {
            Err(e) => Err(e),
            Ok((cols, p)) => match number_at(buf, p) {
                Err(e) => Err(e),
                Ok((rows, p)) => Ok(
                    (
                        FrameView::Resize {
                            cols: (cols % 0x1_0000) as u16,
                            rows: (rows % 0x1_0000) as u16,
                        },
                        p,
                    ),
                ),
            },
        }
    } else if tag == T_PING {
        match number_at(buf, pos) {
            Err(e) => Err(e),
            Ok((stamp, p)) => Ok((FrameView::Ping { stamp: stamp as u64 }, p)),
        }
    } else if tag == T_PONG {
        match number_at(buf, pos) {
            Err(e) => Err(e),
            Ok((stamp, p)) => Ok((FrameView::Pong { stamp: stamp as u64 }, p)),
        }
    } else if tag == T_STREAM_OPEN {
        match number_at(buf, pos) {
            Err(e) => Err(e),
            Ok((id, p)) => match u8_at(buf, p) {
                Err(e) => Err(e),
                Ok((code, p)) => match StreamKind::of_code(code) {
                    None => Err(WireError::UnknownFrame(code)),
                    Some(kind) => match bytes_at(buf, p) {
                        Err(e) => Err(e),
                        Ok((meta, p)) => Ok(
                            (FrameView::StreamOpen { id: id as u64, kind, meta }, p),
                        ),
                    },
                },
            },
        }
    } else if tag == T_STREAM_DATA {
        match number_at(buf, pos) {
            Err(e) => Err(e),
            Ok((id, p)) => match number_at(buf, p) {
                Err(e) => Err(e),
                Ok((offset, p)) => match u8_at(buf, p) {
                    Err(e) => Err(e),
                    Ok((fin, p)) => match bytes_at(buf, p) {
                        Err(e) => Err(e),
                        Ok((data, p)) => Ok(
                            (
                                FrameView::StreamData {
                                    id: id as u64,
                                    offset: offset as u64,
                                    data,
                                    fin: fin != 0,
                                },
                                p,
                            ),
                        ),
                    },
                },
            },
        }
    } else if tag == T_STREAM_ACK {
        match number_at(buf, pos) {
            Err(e) => Err(e),
            Ok((id, p)) => match number_at(buf, p) {
                Err(e) => Err(e),
                Ok((ack, p)) => match number_at(buf, p) {
                    Err(e) => Err(e),
                    Ok((window, p)) => Ok(
                        (
                            FrameView::StreamAck {
                                id: id as u64,
                                ack: ack as u64,
                                window: (window % 0x1_0000_0000) as u32,
                            },
                            p,
                        ),
                    ),
                },
            },
        }
    } else if tag == T_STREAM_CLOSE {
        match number_at(buf, pos) {
            Err(e) => Err(e),
            Ok((id, p)) => match number_at(buf, p) {
                Err(e) => Err(e),
                Ok((status, p)) => Ok(
                    (
                        FrameView::StreamClose {
                            id: id as u64,
                            status: (unzigzag_of(status as int) as i64) as i32,
                        },
                        p,
                    ),
                ),
            },
        }
    } else if tag == T_STREAM_RESET {
        match number_at(buf, pos) {
            Err(e) => Err(e),
            Ok((id, p)) => Ok((FrameView::StreamReset { id: id as u64 }, p)),
        }
    } else if tag == T_CONTROL {
        match bytes_at(buf, pos) {
            Err(e) => Err(e),
            Ok((data, p)) => Ok((FrameView::Control { data }, p)),
        }
    } else {
        Err(WireError::UnknownFrame(tag))
    }
}

/// Reading frames from `pos` to the end of the input.
pub open spec fn frames_at(buf: Seq<u8>, pos: int) -> Result<Seq<FrameView>, WireError>
    decreases buf.len() - pos,
{
    if pos >= buf.len() {
        Ok(seq![])
    } else {
        match frame_at(buf, pos) {
            Err(e) => Err(e),
            Ok((f, p)) => {
                proof {
                    lemma_frame_at_end(buf, pos);
                }
                match frames_at(buf, p) {
                    Err(e) => Err(e),
                    Ok(fs) => Ok(seq![f] + fs),
                }
            },
        }
    }
}

/// What the frames of a vector say.
pub open spec fn frame_views(fs: Seq<Frame>) -> Seq<FrameView> {
    Seq::new(fs.len(), |i: int| fs[i]@)
}

impl Frame {
    /// Append this frame's bytes to `out`.
    #[verifier::rlimit(40)]
    pub fn encode(&self, out: &mut Vec<u8>)
        ensures
            final(out)@ == old(out)@ + frame_bytes(self@),
    {
        let ghost start = out@;
        match self {
            Frame::Ack { seq } => {
                out.push(T_ACK);
                put_varint(out, *seq);
            },
            Frame::Input { offset, data } => {
                out.push(T_INPUT);
                put_varint(out, *offset);
                put_bytes(out, data);
            },
            Frame::StateDiff { seq, base, data } => {
                out.push(T_STATEDIFF);
                put_varint(out, *seq);
                put_varint(out, *base);
                put_bytes(out, data);
            },
            Frame::Resize { cols, rows } => {
                out.push(T_RESIZE);
                put_varint(out, *cols as u64);
                put_varint(out, *rows as u64);
            },
            Frame::Ping { stamp } => {
                out.push(T_PING);
                put_varint(out, *stamp);
            },
            Frame::Pong { stamp } => {
                out.push(T_PONG);
                put_varint(out, *stamp);
            },
            Frame::StreamOpen { id, kind, meta } => {
                out.push(T_STREAM_OPEN);
                put_varint(out, *id);
                out.push(kind.to_u8());
                put_bytes(out, meta);
            },
            Frame::StreamData { id, offset, data, fin } => {
                out.push(T_STREAM_DATA);
                put_varint(out, *id);
                put_varint(out, *offset);
                out.push(if *fin { 1 } else { 0 });
                put_bytes(out, data);
            },
            Frame::StreamAck { id, ack, window } => {
                out.push(T_STREAM_ACK);
                put_varint(out, *id);
                put_varint(out, *ack);
                put_varint(out, *window as u64);
            },
            Frame::StreamClose { id, status } => {
                out.push(T_STREAM_CLOSE);
                put_varint(out, *id);
                put_varint(out, zigzag(*status as i64));
            },
            Frame::StreamReset { id } => {
                out.push(T_STREAM_RESET);
                put_varint(out, *id);
            },
            Frame::Control { data } => {
                out.push(T_CONTROL);
                put_bytes(out, data);
            },
        }
        assert(out@ =~= start + frame_bytes(self@));
    }

    /// Read the frame at `pos`, advancing it behind the frame.
    pub fn decode(buf: &[u8], pos: &mut usize) -> (r: Result<Frame, WireError>)
        ensures
            match frame_at(buf@, *old(pos) as int) {
                Ok((f, end)) => r matches Ok(x) && x@ == f && *final(pos) == end,
                Err(e) => r == Err::<Frame, WireError>(e),
            },
    {
        let tag: u8 = get_u8(buf, pos)?;
        let frame = match tag {
            T_ACK => Frame::Ack { seq: get_varint(buf, pos)? },
            T_INPUT => Frame::Input { offset: get_varint(buf, pos)?, data: get_bytes(buf, pos)? },
            T_STATEDIFF => Frame::StateDiff {
                seq: get_varint(buf, pos)?,
                base: get_varint(buf, pos)?,
                data: get_bytes(buf, pos)?,
            },
            T_RESIZE => {
                let cols: u64 = get_varint(buf, pos)?;
                let rows: u64 = get_varint(buf, pos)?;
                assert(cols as u16 == cols % 0x1_0000 && rows as u16 == rows % 0x1_0000)
                    by (bit_vector);
                Frame::Resize { cols: cols as u16, rows: rows as u16 }
            },
            T_PING => Frame::Ping { stamp: get_varint(buf, pos)? },
            T_PONG => Frame::Pong { stamp: get_varint(buf, pos)? },
            T_STREAM_OPEN => Frame::StreamOpen {
                id: get_varint(buf, pos)?,
                kind: StreamKind::from_u8(get_u8(buf, pos)?)?,
                meta: get_bytes(buf, pos)?,
            },
            T_STREAM_DATA => {
                let id: u64 = get_varint(buf, pos)?;
                let offset: u64 = get_varint(buf, pos)?;
                let fin: bool = get_u8(buf, pos)? != 0;
                let data: Vec<u8> = get_bytes(buf, pos)?;
                Frame::StreamData { id, offset, data, fin }
            },
            T_STREAM_ACK => {
                let id: u64 = get_varint(buf, pos)?;
                let ack: u64 = get_varint(buf, pos)?;
                let window: u64 = get_varint(buf, pos)?;
                assert(window as u32 == window % 0x1_0000_0000) by (bit_vector);
                Frame::StreamAck { id, ack, window: window as u32 }
            },
            T_STREAM_CLOSE => Frame::StreamClose {
                id: get_varint(buf, pos)?,
                status: unzigzag(get_varint(buf, pos)?) as i32,
            },
            T_STREAM_RESET => Frame::StreamReset { id: get_varint(buf, pos)? },
            T_CONTROL => Frame::Control { data: get_bytes(buf, pos)? },
            other => return Err(WireError::UnknownFrame(other)),
        };
        Ok(frame)
    }
}

/// Encode a sequence of frames into a payload buffer.
pub fn encode_frames(frames: &[Frame]) -> (out: Vec<u8>)
    ensures
        out@ == frames_bytes(frame_views(frames@)),
{
    let mut out: Vec<u8> = Vec::new();
    let mut i: usize = 0;
    while i < frames.len()
        invariant
            i <= frames.len(),
            out@ == frames_bytes(frame_views(frames@).take(i as int)),
        decreases frames.len() - i,
    {
        frames[i].encode(&mut out);
        proof {
            let fs = frame_views(frames@);
            assert(fs.take(i + 1).drop_last() =~= fs.take(i as int));
        }
        i += 1;
    }
    assert(frame_views(frames@).take(i as int) =~= frame_views(frames@));
    out
}

/// Decode a payload buffer into frames. Errors on any malformed input.
pub fn decode_frames(buf: &[u8]) -> (r: Result<Vec<Frame>, WireError>)
    ensures
        match frames_at(buf@, 0) {
            Ok(fs) => r matches Ok(v) && frame_views(v@) == fs,
            Err(e) => r == Err::<Vec<Frame>, WireError>(e),
        },
{
    let mut frames: Vec<Frame> = Vec::new();
    let mut pos: usize = 0;
    while pos < buf.len()
        invariant
            pos <= buf.len(),
            match frames_at(buf@, pos as int) {
                Ok(fs) => frames_at(buf@, 0) == Ok::<Seq<FrameView>, WireError>(
                    frame_views(frames@) + fs,
                ),
                Err(e) => frames_at(buf@, 0) == Err::<Seq<FrameView>, WireError>(e),
            },
        decreases buf.len() - pos,
    {
        let ghost old_frames = frames@;
        proof {
            lemma_frame_at_end(buf@, pos as int);
        }
        let frame: Frame = Frame::decode(buf, &mut pos)?;
        frames.push(frame);
        proof {
            if let Ok(fs) = frames_at(buf@, pos as int) {
                assert(frame_views(frames@) + fs =~= frame_views(old_frames) + (seq![frame@] + fs));
            }
        }
    }
    assert(frame_views(frames@) + seq![] =~= frame_views(frames@));
    Ok(frames)
}

/// A frame that decodes ends behind its tag and within the input.
pub proof fn lemma_frame_at_end(buf: Seq<u8>, pos: int)
    ensures
        frame_at(buf, pos) matches Ok((_, end)) ==> pos < end <= buf.len(),
{
    reveal(varint_at);
    assert forall|p: int| 0 <= p && (#[trigger] varint_from(buf, p, 0)).0 is Ok implies p < varint_from(
        buf,
        p,
        0,
    ).1 <= buf.len() by {
        lemma_varint_from_end(buf, p, 0);
    }
}

// ---------------------------------------------------------------------------
// Round trips
// ---------------------------------------------------------------------------

/// The bytes `part` stand in `buf` at `pos`.
#[verifier::opaque]
pub open spec fn stands_at(buf: Seq<u8>, pos: int, part: Seq<u8>) -> bool {
    &&& 0 <= pos
    &&& pos + part.len() <= buf.len()
    &&& buf.subrange(pos, pos + part.len()) == part
}

pub proof fn lemma_stands_at_split(buf: Seq<u8>, pos: int, a: Seq<u8>, b: Seq<u8>)
    requires
        stands_at(buf, pos, a + b),
    ensures
        stands_at(buf, pos, a),
        stands_at(buf, pos + a.len(), b),
{
    reveal(stands_at);
    let whole = a + b;
    assert forall|i: int| 0 <= i < a.len() implies buf[pos + i] == a[i] by {
        assert(buf.subrange(pos, pos + whole.len())[i] == whole[i]);
    }
    assert forall|i: int| 0 <= i < b.len() implies buf[pos + a.len() + i] == b[i] by {
        assert(buf.subrange(pos, pos + whole.len())[a.len() + i] == whole[a.len() + i]);
    }
    assert(buf.subrange(pos, pos + a.len()) =~= a);
    assert(buf.subrange(pos + a.len(), pos + a.len() + b.len()) =~= b);
}

pub proof fn lemma_byte_roundtrip(b: u8, buf: Seq<u8>, pos: int)
    requires
        stands_at(buf, pos, seq![b]),
    ensures
        u8_at(buf, pos) == Ok::<(u8, int), WireError>((b, pos + 1)),
{
    reveal(stands_at);
    assert(buf.subrange(pos, pos + 1)[0] == b);
}

proof fn lemma_varint_from(v: nat, buf: Seq<u8>, pos: int, k: nat)
    requires
        k <= 9,
        v * pow2(7 * k) <= u64::MAX,
        stands_at(buf, pos, varint(v)),
    ensures
        varint_from(buf, pos, k) == (Ok::<nat, WireError>(v), pos + varint(v).len()),
    decreases v,
{
    lemma2_to64();
    lemma2_to64_rest();
    if v < 128 {
        lemma_byte_roundtrip(v as u8, buf, pos);
        if k == 9 {
            assert(v < 2) by (nonlinear_arith)
                requires
                    v * pow2(63) <= u64::MAX,
                    pow2(63) == 0x8000_0000_0000_0000,
            ;
        }
    } else {
        let first = seq![(v % 128 + 128) as u8];
        lemma_stands_at_split(buf, pos, first, varint(v / 128));
        lemma_byte_roundtrip(first[0], buf, pos);
        lemma_pow2_adds(7 * k, 7);
        let p = pow2(7 * k);
        assert((v / 128) * (p * 128) <= v * p) by (nonlinear_arith);
        assert(k < 9) by {
            if k == 9 {
                assert(v * p > u64::MAX) by (nonlinear_arith)
                    requires
                        v >= 128,
                        p == 0x8000_0000_0000_0000,
                ;
            }
        }
        assert(7 * k + 7 == 7 * (k + 1));
        lemma_varint_from(v / 128, buf, pos + 1, k + 1);
    }
}

/// A varint read back where it was written gives the number, and reading stops
/// right behind it.
pub proof fn law_varint_roundtrip(v: u64, buf: Seq<u8>, pos: int)
    requires
        stands_at(buf, pos, varint(v as nat)),
    ensures
        number_at(buf, pos) == Ok::<(nat, int), WireError>(
            (v as nat, pos + varint(v as nat).len()),
        ),
{
    lemma2_to64();
    reveal(varint_at);
    assert(v * pow2(0) == v) by (nonlinear_arith)
        requires
            pow2(0) == 1,
    ;
    lemma_varint_from(v as nat, buf, pos, 0);
}

/// Undoing the zig-zag encoding of a number gives the number.
pub proof fn law_zigzag_roundtrip(v: int)
    ensures
        unzigzag_of(zigzag_of(v)) == v,
{
}

proof fn lemma_bytes_roundtrip(data: Seq<u8>, buf: Seq<u8>, pos: int)
    requires
        data.len() <= u64::MAX,
        stands_at(buf, pos, bytes_field(data)),
    ensures
        bytes_at(buf, pos) == Ok::<(Seq<u8>, int), WireError>(
            (data, pos + bytes_field(data).len()),
        ),
{
    reveal(stands_at);
    lemma_stands_at_split(buf, pos, varint(data.len()), data);
    law_varint_roundtrip(data.len() as u64, buf, pos);
}

/// The byte strings of a frame are no longer than memory can hold.
pub open spec fn frame_fits(f: FrameView) -> bool {
    match f {
        FrameView::Input { data, .. } => data.len() <= u64::MAX,
        FrameView::StateDiff { data, .. } => data.len() <= u64::MAX,
        FrameView::StreamOpen { meta, .. } => meta.len() <= u64::MAX,
        FrameView::StreamData { data, .. } => data.len() <= u64::MAX,
        FrameView::Control { data } => data.len() <= u64::MAX,
        _ => true,
    }
}

/// Frames that exist can be written.
pub proof fn lemma_frames_fit(fs: Seq<Frame>)
    ensures
        forall|i: int| 0 <= i < fs.len() ==> frame_fits(#[trigger] frame_views(fs)[i]),
{
    assert forall|i: int| 0 <= i < fs.len() implies frame_fits(#[trigger] frame_views(fs)[i]) by {
        match fs[i] {
            Frame::Input { data, .. } => assert(data.len() <= u64::MAX),
            Frame::StateDiff { data, .. } => assert(data.len() <= u64::MAX),
            Frame::StreamOpen { meta, .. } => assert(meta.len() <= u64::MAX),
            Frame::StreamData { data, .. } => assert(data.len() <= u64::MAX),
            Frame::Control { data } => assert(data.len() <= u64::MAX),
            _ => {},
        }
    }
}

/// A frame read back where it was written gives the same frame, and reading
/// stops right behind it.
#[verifier::rlimit(40)]
pub proof fn law_frame_roundtrip(f: FrameView, buf: Seq<u8>, pos: int)
    requires
        frame_fits(f),
        stands_at(buf, pos, frame_bytes(f)),
    ensures
        frame_at(buf, pos) == Ok::<(FrameView, int), WireError>((f, pos + frame_bytes(f).len())),
{
    let p = pos + 1;
    match f {
        FrameView::Ack { seq } => {
            lemma_stands_at_split(buf, pos, seq![T_ACK], varint(seq as nat));
            lemma_byte_roundtrip(T_ACK, buf, pos);
            law_varint_roundtrip(seq, buf, p);
        },
        FrameView::Input { offset, data } => {
            let a = seq![T_INPUT] + varint(offset as nat);
            lemma_stands_at_split(buf, pos, a, bytes_field(data));
            lemma_stands_at_split(buf, pos, seq![T_INPUT], varint(offset as nat));
            lemma_byte_roundtrip(T_INPUT, buf, pos);
            law_varint_roundtrip(offset, buf, p);
            lemma_bytes_roundtrip(data, buf, pos + a.len());
        },
        FrameView::StateDiff { seq, base, data } => {
            let a = seq![T_STATEDIFF] + varint(seq as nat);
            let b = a + varint(base as nat);
            lemma_stands_at_split(buf, pos, b, bytes_field(data));
            lemma_stands_at_split(buf, pos, a, varint(base as nat));
            lemma_stands_at_split(buf, pos, seq![T_STATEDIFF], varint(seq as nat));
            lemma_byte_roundtrip(T_STATEDIFF, buf, pos);
            law_varint_roundtrip(seq, buf, p);
            law_varint_roundtrip(base, buf, pos + a.len());
            lemma_bytes_roundtrip(data, buf, pos + b.len());
        },
        FrameView::Resize { cols, rows } => {
            let a = seq![T_RESIZE] + varint(cols as nat);
            lemma_stands_at_split(buf, pos, a, varint(rows as nat));
            lemma_stands_at_split(buf, pos, seq![T_RESIZE], varint(cols as nat));
            lemma_byte_roundtrip(T_RESIZE, buf, pos);
            law_varint_roundtrip(cols as u64, buf, p);
            law_varint_roundtrip(rows as u64, buf, pos + a.len());
        },
        FrameView::Ping { stamp } => {
            lemma_stands_at_split(buf, pos, seq![T_PING], varint(stamp as nat));
            lemma_byte_roundtrip(T_PING, buf, pos);
            law_varint_roundtrip(stamp, buf, p);
        },
        FrameView::Pong { stamp } => {
            lemma_stands_at_split(buf, pos, seq![T_PONG], varint(stamp as nat));
            lemma_byte_roundtrip(T_PONG, buf, pos);
            law_varint_roundtrip(stamp, buf, p);
        },
        FrameView::StreamOpen { id, kind, meta } => {
            let a = seq![T_STREAM_OPEN] + varint(id as nat);
            let b = a + seq![kind.code()];
            lemma_stands_at_split(buf, pos, b, bytes_field(meta));
            lemma_stands_at_split(buf, pos, a, seq![kind.code()]);
            lemma_stands_at_split(buf, pos, seq![T_STREAM_OPEN], varint(id as nat));
            lemma_byte_roundtrip(T_STREAM_OPEN, buf, pos);
            law_varint_roundtrip(id, buf, p);
            lemma_byte_roundtrip(kind.code(), buf, pos + a.len());
            lemma_bytes_roundtrip(meta, buf, pos + b.len());
        },
        FrameView::StreamData { id, offset, data, fin } => {
            let bit: u8 = if fin {
                1
            } else {
                0
            };
            let a = seq![T_STREAM_DATA] + varint(id as nat);
            let b = a + varint(offset as nat);
            let c = b + seq![bit];
            lemma_stands_at_split(buf, pos, c, bytes_field(data));
            lemma_stands_at_split(buf, pos, b, seq![bit]);
            lemma_stands_at_split(buf, pos, a, varint(offset as nat));
            lemma_stands_at_split(buf, pos, seq![T_STREAM_DATA], varint(id as nat));
            lemma_byte_roundtrip(T_STREAM_DATA, buf, pos);
            law_varint_roundtrip(id, buf, p);
            law_varint_roundtrip(offset, buf, pos + a.len());
            lemma_byte_roundtrip(bit, buf, pos + b.len());
            lemma_bytes_roundtrip(data, buf, pos + c.len());
        },
        FrameView::StreamAck { id, ack, window } => {
            let a = seq![T_STREAM_ACK] + varint(id as nat);
            let b = a + varint(ack as nat);
            lemma_stands_at_split(buf, pos, b, varint(window as nat));
            lemma_stands_at_split(buf, pos, a, varint(ack as nat));
            lemma_stands_at_split(buf, pos, seq![T_STREAM_ACK], varint(id as nat));
            lemma_byte_roundtrip(T_STREAM_ACK, buf, pos);
            law_varint_roundtrip(id, buf, p);
            law_varint_roundtrip(ack, buf, pos + a.len());
            law_varint_roundtrip(window as u64, buf, pos + b.len());
        },
        FrameView::StreamClose { id, status } => {
            let z = zigzag_of(status as int) as nat;
            let a = seq![T_STREAM_CLOSE] + varint(id as nat);
            lemma_stands_at_split(buf, pos, a, varint(z));
            lemma_stands_at_split(buf, pos, seq![T_STREAM_CLOSE], varint(id as nat));
            lemma_byte_roundtrip(T_STREAM_CLOSE, buf, pos);
            law_varint_roundtrip(id, buf, p);
            law_varint_roundtrip(z as u64, buf, pos + a.len());
        },
        FrameView::StreamReset { id } => {
            lemma_stands_at_split(buf, pos, seq![T_STREAM_RESET], varint(id as nat));
            lemma_byte_roundtrip(T_STREAM_RESET, buf, pos);
            law_varint_roundtrip(id, buf, p);
        },
        FrameView::Control { data } => {
            lemma_stands_at_split(buf, pos, seq![T_CONTROL], bytes_field(data));
            lemma_byte_roundtrip(T_CONTROL, buf, pos);
            lemma_bytes_roundtrip(data, buf, p);
        },
    }
}

proof fn lemma_frames_from(fs: Seq<FrameView>, n: int)
    requires
        forall|i: int| 0 <= i < fs.len() ==> frame_fits(#[trigger] fs[i]),
        0 <= n <= fs.len(),
    ensures
        frames_bytes(fs.take(n)).len() <= frames_bytes(fs).len(),
        stands_at(frames_bytes(fs), 0, frames_bytes(fs.take(n))),
        frames_at(frames_bytes(fs), frames_bytes(fs.take(n)).len() as int) == Ok::<
            Seq<FrameView>,
            WireError,
        >(fs.skip(n)),
    decreases fs.len() - n,
{
    reveal(stands_at);
    let all = frames_bytes(fs);
    if n == fs.len() {
        assert(fs.take(n) =~= fs);
        assert(fs.skip(n) =~= seq![]);
        assert(all.subrange(0, all.len() as int) =~= all);
    } else {
        lemma_frames_from(fs, n + 1);
        let done = frames_bytes(fs.take(n));
        let f = fs[n];
        assert(fs.take(n + 1).drop_last() =~= fs.take(n));
        assert(fs.take(n + 1).last() == f);
        lemma_stands_at_split(all, 0, done, frame_bytes(f));
        law_frame_roundtrip(f, all, done.len() as int);
        assert(fs.skip(n) =~= seq![f] + fs.skip(n + 1));
        lemma_frame_at_end(all, done.len() as int);
    }
}

/// Decoding what was encoded gives back the same frames, in order.
pub proof fn law_frames_roundtrip(fs: Seq<FrameView>)
    requires
        forall|i: int| 0 <= i < fs.len() ==> frame_fits(#[trigger] fs[i]),
    ensures
        frames_at(frames_bytes(fs), 0) == Ok::<Seq<FrameView>, WireError>(fs),
{
    lemma_frames_from(fs, 0);
    assert(fs.take(0) =~= seq![]);
    assert(fs.skip(0) =~= fs);
}

// ---------------------------------------------------------------------------
// Truncation
// ---------------------------------------------------------------------------

/// What can be read from the front part of a buffer is read alike from all of it.
proof fn lemma_varint_prefix(buf: Seq<u8>, n: int, pos: int, k: nat)
    requires
        0 <= n <= buf.len(),
        varint_from(buf.take(n), pos, k).0 is Ok,
    ensures
        varint_from(buf, pos, k) == varint_from(buf.take(n), pos, k),
        varint_from(buf, pos, k).1 <= n,
    decreases n - pos,
{
    assert(buf.take(n)[pos] == buf[pos]);
    if buf[pos] >= 128 {
        lemma_varint_prefix(buf, n, pos + 1, k + 1);
    }
}

/// A number that can be read from the front part of a buffer is read alike from all
/// of it.
pub proof fn lemma_number_prefix(buf: Seq<u8>, n: int, pos: int)
    requires
        0 <= n <= buf.len(),
        number_at(buf.take(n), pos) is Ok,
    ensures
        number_at(buf, pos) == number_at(buf.take(n), pos),
        number_at(buf, pos)->Ok_0.1 <= n,
{
    reveal(varint_at);
    lemma_varint_prefix(buf, n, pos, 0);
}

proof fn lemma_bytes_prefix(buf: Seq<u8>, n: int, pos: int)
    requires
        0 <= n <= buf.len(),
        bytes_at(buf.take(n), pos) is Ok,
    ensures
        bytes_at(buf, pos) == bytes_at(buf.take(n), pos),
        bytes_at(buf, pos)->Ok_0.1 <= n,
{
    lemma_number_prefix(buf, n, pos);
    let (len, p) = number_at(buf, pos)->Ok_0;
    assert(p >= 0) by {
        reveal(varint_at);
        lemma_varint_from_end(buf, pos, 0);
    }
    assert(buf.take(n).subrange(p, p + len) =~= buf.subrange(p, p + len));
}

/// Numbers, and then a byte string, that can be read from the front part.
proof fn lemma_numbers_prefix(buf: Seq<u8>, n: int, pos: int)
    requires
        0 <= n <= buf.len(),
    ensures
        number_at(buf.take(n), pos) matches Ok((_, p)) ==> number_at(buf, pos) == number_at(
            buf.take(n),
            pos,
        ) && p <= n,
        bytes_at(buf.take(n), pos) matches Ok((_, p)) ==> bytes_at(buf, pos) == bytes_at(
            buf.take(n),
            pos,
        ) && p <= n,
        u8_at(buf.take(n), pos) matches Ok((_, p)) ==> u8_at(buf, pos) == u8_at(buf.take(n), pos)
            && p <= n,
{
    if number_at(buf.take(n), pos) is Ok {
        lemma_number_prefix(buf, n, pos);
    }
    if bytes_at(buf.take(n), pos) is Ok {
        lemma_bytes_prefix(buf, n, pos);
    }
}

/// A frame that can be read from the front part of a buffer is read alike from all
/// of it.
#[verifier::rlimit(60)]
proof fn lemma_frame_prefix(buf: Seq<u8>, n: int, pos: int)
    requires
        0 <= n <= buf.len(),
        frame_at(buf.take(n), pos) is Ok,
    ensures
        frame_at(buf, pos) == frame_at(buf.take(n), pos),
        frame_at(buf, pos)->Ok_0.1 <= n,
{
    let short = buf.take(n);
    lemma_numbers_prefix(buf, n, pos);
    let a = pos + 1;
    lemma_numbers_prefix(buf, n, a);
    if let Ok((_, b)) = number_at(short, a) {
        lemma_numbers_prefix(buf, n, b);
        if let Ok((_, c)) = u8_at(short, b) {
            lemma_numbers_prefix(buf, n, c);
        }
        if let Ok((_, c)) = number_at(short, b) {
            lemma_numbers_prefix(buf, n, c);
            if let Ok((_, d)) = u8_at(short, c) {
                lemma_numbers_prefix(buf, n, d);
            }
        }
    }
}

/// A frame that is cut short is an error, not a shorter list.
pub proof fn law_cut_frame_is_error(f: FrameView, n: int)
    requires
        frame_fits(f),
        0 < n < frames_bytes(seq![f]).len(),
    ensures
        frames_at(frames_bytes(seq![f]).take(n), 0) is Err,
{
    let buf = frame_bytes(f);
    assert(seq![f].drop_last() =~= Seq::<FrameView>::empty());
    assert(frames_bytes(Seq::<FrameView>::empty()) =~= Seq::<u8>::empty());
    assert(seq![f].last() == f);
    assert(frames_bytes(seq![f]) =~= Seq::<u8>::empty() + buf);
    assert(frames_bytes(seq![f]) =~= buf);
    reveal(stands_at);
    assert(buf.subrange(0, buf.len() as int) =~= buf);
    law_frame_roundtrip(f, buf, 0);
    if frame_at(buf.take(n), 0) is Ok {
        lemma_frame_prefix(buf, n, 0);
    }
}

} // verus!
