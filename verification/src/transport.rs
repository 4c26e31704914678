//! Transport / session layer: the wire packet format, the cryptographic
//! session id, anti-replay and roaming (the peer address follows any
//! authenticated packet). Noise encrypts each datagram; the layers above see
//! plaintext frames.

use crate::noise;
use crate::noise::{NoiseError, NoiseErrorView};
use crate::replay::{ReplayView, WindowFilter};
use crate::wire::{decode_frames, encode_frames, Frame, FrameView, WireError};
use vstd::prelude::*;
use vstd::slice::slice_subrange;

verus! {

/// A cryptographic session id, chosen by the client and constant for the
/// session lifetime. Used for server-side demux *independent of source IP*.
pub type SessionId = [u8; 8];

/// A handshake packet.
pub const PKT_HANDSHAKE: u8 = 0;

/// A transport packet.
pub const PKT_TRANSPORT: u8 = 1;

/// The longest plaintext that a datagram is filled with, so that it is not
/// fragmented on its way. A frame that is longer by itself travels alone.
pub const MAX_DATAGRAM_PLAINTEXT: usize = 1200;

/// The shortest packet that begins a handshake. A server does not answer a
/// shorter one, so that no answer is longer than what drew it.
pub const MIN_HANDSHAKE_INIT: usize = 1200;

/// Where a datagram comes from or goes to.
#[derive(Debug, Clone, Copy, PartialEq, Eq, Structural)]
pub enum Addr {
    /// An IPv4 address and a port.
    V4 { ip: u32, port: u16 },
    /// An IPv6 address, a port, the flow and the scope.
    V6 { ip: u128, port: u16, flow: u32, scope: u32 },
}

/// Why a packet was refused.
#[derive(Debug)]
pub enum TransportError {
    /// The packet is too short.
    Short,
    /// An unknown packet type.
    UnknownType(u8),
    /// The session id is another one.
    SessionMismatch,
    /// A replayed or too-old packet.
    Replay,
    /// The packet is not authentic, or could not be encrypted.
    Noise(NoiseError),
    /// The packet holds what is not a sequence of frames.
    Wire(WireError),
}

/// What an error says.
pub enum TransportErrorView {
    Short,
    UnknownType(u8),
    SessionMismatch,
    Replay,
    Noise(NoiseErrorView),
    Wire(WireError),
}

impl View for TransportError {
    type V = TransportErrorView;

    open spec fn view(&self) -> TransportErrorView {
        match *self {
            TransportError::Short => TransportErrorView::Short,
            TransportError::UnknownType(t) => TransportErrorView::UnknownType(t),
            TransportError::SessionMismatch => TransportErrorView::SessionMismatch,
            TransportError::Replay => TransportErrorView::Replay,
            TransportError::Noise(e) => TransportErrorView::Noise(e@),
            TransportError::Wire(e) => TransportErrorView::Wire(e),
        }
    }
}

/// `getrandom::fill`: fills the id with random bytes, or says that the system
/// has none to give. Which bytes they are is left to chance.
#[verifier::external_body]
fn fill_random(id: &mut SessionId) -> bool {
    getrandom::fill(id).is_ok()
}

/// The id drawn, if one was.
pub fn drawn_id(filled: bool, id: SessionId) -> (r: Option<SessionId>)
    ensures
        r == if filled {
            Some(id)
        } else {
            None
        },
{
    if filled {
        Some(id)
    } else {
        None
    }
}

/// Generate a random session id, or nothing if the system gives no random
/// bytes.
pub fn random_session_id() -> Option<SessionId> {
    let mut id: SessionId = [0u8; 8];
    let filled: bool = fill_random(&mut id);
    drawn_id(filled, id)
}

// ---------------------------------------------------------------------------
// Packets
// ---------------------------------------------------------------------------

/// A number as eight bytes, the most significant first.
pub open spec fn be_bytes(n: u64) -> Seq<u8> {
    seq![
        (n / 0x100000000000000) as u8,
        (n / 0x1000000000000 % 0x100) as u8,
        (n / 0x10000000000 % 0x100) as u8,
        (n / 0x100000000 % 0x100) as u8,
        (n / 0x1000000 % 0x100) as u8,
        (n / 0x10000 % 0x100) as u8,
        (n / 0x100 % 0x100) as u8,
        (n % 0x100) as u8,
    ]
}

/// The number that eight bytes stand for.
pub open spec fn be_value(s: Seq<u8>) -> int {
    s[0] * 0x100000000000000 + s[1] * 0x1000000000000 + s[2] * 0x10000000000 + s[3] * 0x100000000
        + s[4] * 0x1000000 + s[5] * 0x10000 + s[6] * 0x100 + s[7]
}

/// A number is what its bytes stand for.
pub proof fn lemma_be_roundtrip(n: u64)
    ensures
        be_bytes(n).len() == 8,
        be_value(be_bytes(n)) == n,
{
    let a1 = n / 0x100;
    let a2 = n / 0x10000;
    let a3 = n / 0x1000000;
    let a4 = n / 0x100000000;
    let a5 = n / 0x10000000000;
    let a6 = n / 0x1000000000000;
    let a7 = n / 0x100000000000000;
    assert(n == a1 * 0x100 + n % 0x100);
    assert(a1 == a2 * 0x100 + a1 % 0x100);
    assert(a2 == a3 * 0x100 + a2 % 0x100);
    assert(a3 == a4 * 0x100 + a3 % 0x100);
    assert(a4 == a5 * 0x100 + a4 % 0x100);
    assert(a5 == a6 * 0x100 + a5 % 0x100);
    assert(a6 == a7 * 0x100 + a6 % 0x100);
    assert(a7 < 0x100);
}

fn push_be(out: &mut Vec<u8>, n: u64)
    ensures
        final(out)@ == old(out)@ + be_bytes(n),
{
    let ghost before = out@;
    out.push((n / 0x100000000000000) as u8);
    out.push((n / 0x1000000000000 % 0x100) as u8);
    out.push((n / 0x10000000000 % 0x100) as u8);
    out.push((n / 0x100000000 % 0x100) as u8);
    out.push((n / 0x1000000 % 0x100) as u8);
    out.push((n / 0x10000 % 0x100) as u8);
    out.push((n / 0x100 % 0x100) as u8);
    out.push((n % 0x100) as u8);
    assert(out@ =~= before + be_bytes(n));
}

fn read_be(buf: &[u8], at: usize) -> (n: u64)
    requires
        at + 8 <= buf@.len(),
    ensures
        n == be_value(buf@.subrange(at as int, at + 8)),
{
    assert(buf@.subrange(at as int, at + 8).len() == 8);
    (buf[at] as u64) * 0x100000000000000 + (buf[at + 1] as u64) * 0x1000000000000 + (buf[at
        + 2] as u64) * 0x10000000000 + (buf[at + 3] as u64) * 0x100000000 + (buf[at + 4] as u64)
        * 0x1000000 + (buf[at + 5] as u64) * 0x10000 + (buf[at + 6] as u64) * 0x100 + (buf[at
        + 7] as u64)
}

/// What kind of packet a raw datagram is, plus its session id and body.
#[derive(Debug)]
pub enum Packet<'a> {
    /// A handshake message.
    Handshake { session_id: SessionId, body: &'a [u8] },
    /// An encrypted message.
    Transport { session_id: SessionId, nonce: u64, body: &'a [u8] },
}

/// What a packet says.
pub enum PacketView {
    Handshake { id: Seq<u8>, body: Seq<u8> },
    Transport { id: Seq<u8>, nonce: u64, body: Seq<u8> },
}

impl<'a> View for Packet<'a> {
    type V = PacketView;

    open spec fn view(&self) -> PacketView {
        match *self {
            Packet::Handshake { session_id, body } => PacketView::Handshake {
                id: session_id@,
                body: body@,
            },
            Packet::Transport { session_id, nonce, body } => PacketView::Transport {
                id: session_id@,
                nonce,
                body: body@,
            },
        }
    }
}

/// The bytes of a packet: its type, the session id, for an encrypted message
/// the nonce, and the body.
pub open spec fn packet_bytes(p: PacketView) -> Seq<u8> {
    match p {
        PacketView::Handshake { id, body } => seq![PKT_HANDSHAKE] + id + body,
        PacketView::Transport { id, nonce, body } => seq![PKT_TRANSPORT] + id + be_bytes(nonce)
            + body,
    }
}

/// Reading a packet.
pub open spec fn packet_of(buf: Seq<u8>) -> Result<PacketView, TransportErrorView> {
    if buf.len() < 9 {
        Err(TransportErrorView::Short)
    } else if buf[0] == PKT_HANDSHAKE {
        Ok(PacketView::Handshake { id: buf.subrange(1, 9), body: buf.skip(9) })
    } else if buf[0] != PKT_TRANSPORT {
        Err(TransportErrorView::UnknownType(buf[0]))
    } else if buf.len() < 17 {
        Err(TransportErrorView::Short)
    } else {
        Ok(
            PacketView::Transport {
                id: buf.subrange(1, 9),
                nonce: be_value(buf.subrange(9, 17)) as u64,
                body: buf.skip(17),
            },
        )
    }
}

fn id_at(buf: &[u8], at: usize) -> (id: SessionId)
    requires
        at + 8 <= buf@.len(),
    ensures
        id@ == buf@.subrange(at as int, at + 8),
{
    let id: SessionId = [
        buf[at],
        buf[at + 1],
        buf[at + 2],
        buf[at + 3],
        buf[at + 4],
        buf[at + 5],
        buf[at + 6],
        buf[at + 7],
    ];
    assert(id@ =~= buf@.subrange(at as int, at + 8));
    id
}

/// Parse the outer header of a raw datagram without decrypting.
pub fn parse_packet<'a>(buf: &'a [u8]) -> (r: Result<Packet<'a>, TransportError>)
    ensures
        match packet_of(buf@) {
            Ok(p) => r matches Ok(x) && x@ == p,
            Err(e) => r matches Err(x) && x@ == e,
        },
{
    if buf.len() < 9 {
        return Err(TransportError::Short);
    }
    let session_id: SessionId = id_at(buf, 1);
    if buf[0] == PKT_HANDSHAKE {
        let body: &'a [u8] = slice_subrange(buf, 9, buf.len());
        assert(body@ =~= buf@.skip(9));
        return Ok(Packet::Handshake { session_id, body });
    }
    if buf[0] != PKT_TRANSPORT {
        return Err(TransportError::UnknownType(buf[0]));
    }
    if buf.len() < 17 {
        return Err(TransportError::Short);
    }
    let nonce: u64 = read_be(buf, 9);
    let body: &'a [u8] = slice_subrange(buf, 17, buf.len());
    assert(body@ =~= buf@.skip(17));
    Ok(Packet::Transport { session_id, nonce, body })
}

fn push_all(out: &mut Vec<u8>, bytes: &[u8])
    ensures
        final(out)@ == old(out)@ + bytes@,
{
    let ghost before = out@;
    let mut i: usize = 0;
    assert(before + bytes@.take(0) =~= before);
    while i < bytes.len()
        invariant
            i <= bytes@.len(),
            out@ == before + bytes@.take(i as int),
        decreases bytes@.len() - i,
    {
        out.push(bytes[i]);
        assert(before + bytes@.take(i + 1) =~= (before + bytes@.take(i as int)).push(
            bytes@[i as int],
        ));
        i += 1;
    }
    assert(bytes@.take(i as int) =~= bytes@);
}

/// Build a raw handshake packet: `[type=0][session_id][noise message]`.
pub fn build_handshake_packet(session_id: &SessionId, noise_msg: &[u8]) -> (out: Vec<u8>)
    ensures
        out@ == packet_bytes(PacketView::Handshake { id: session_id@, body: noise_msg@ }),
        packet_of(out@) == Ok::<PacketView, TransportErrorView>(
            (PacketView::Handshake { id: session_id@, body: noise_msg@ }),
        ),
{
    let mut out: Vec<u8> = Vec::new();
    out.push(PKT_HANDSHAKE);
    push_all(&mut out, session_id.as_slice());
    push_all(&mut out, noise_msg);
    proof {
        let p = PacketView::Handshake { id: session_id@, body: noise_msg@ };
        assert(out@ =~= packet_bytes(p));
        law_packet_roundtrip(p);
    }
    out
}

/// A packet is read back from its bytes.
pub proof fn law_packet_roundtrip(p: PacketView)
    requires
        match p {
            PacketView::Handshake { id, .. } => id.len() == 8,
            PacketView::Transport { id, .. } => id.len() == 8,
        },
    ensures
        packet_of(packet_bytes(p)) == Ok::<PacketView, TransportErrorView>(p),
{
    let b = packet_bytes(p);
    match p {
        PacketView::Handshake { id, body } => {
            assert(b.subrange(1, 9) =~= id);
            assert(b.skip(9) =~= body);
        },
        PacketView::Transport { id, nonce, body } => {
            lemma_be_roundtrip(nonce);
            assert(b.subrange(1, 9) =~= id);
            assert(b.subrange(9, 17) =~= be_bytes(nonce));
            assert(b.skip(17) =~= body);
        },
    }
}

// ---------------------------------------------------------------------------
// Sessions
// ---------------------------------------------------------------------------

/// The state of a session.
pub struct SessionView {
    /// The session id.
    pub id: Seq<u8>,
    /// The key under which packets are encrypted.
    pub sending: Seq<u8>,
    /// The key under which packets are decrypted.
    pub receiving: Seq<u8>,
    /// The static public key of the peer.
    pub remote: Seq<u8>,
    /// The nonce of the next packet.
    pub next_nonce: u64,
    /// The nonces seen.
    pub seen: ReplayView,
    /// Where the peer was last heard from.
    pub peer: Option<Addr>,
}

impl SessionView {
    /// A session that has just been established.
    pub open spec fn fresh(
        id: Seq<u8>,
        sending: Seq<u8>,
        receiving: Seq<u8>,
        remote: Seq<u8>,
        peer: Option<Addr>,
    ) -> SessionView {
        SessionView {
            id,
            sending,
            receiving,
            remote,
            next_nonce: 0,
            seen: ReplayView::empty(),
            peer,
        }
    }

    /// The packet that carries frames.
    pub open spec fn packet(self, frames: Seq<FrameView>) -> Result<Seq<u8>, TransportErrorView> {
        match noise::encrypted(self.sending, self.next_nonce, crate::wire::frames_bytes(frames)) {
            Ok(body) => Ok(
                packet_bytes(
                    PacketView::Transport { id: self.id, nonce: self.next_nonce, body },
                ),
            ),
            Err(e) => Err(TransportErrorView::Noise(e)),
        }
    }

    /// The session after a packet was made, or could not be made: its nonce is
    /// used up. There is none after the last.
    pub open spec fn after_packet(self) -> SessionView {
        if self.next_nonce == u64::MAX {
            self
        } else {
            SessionView { next_nonce: (self.next_nonce + 1) as u64, ..self }
        }
    }

    /// The session after `n` packets were made.
    pub open spec fn after_packets(self, n: nat) -> SessionView
        decreases n,
    {
        if n == 0 {
            self
        } else {
            self.after_packets((n - 1) as nat).after_packet()
        }
    }

    /// The packets that carry the first `n` batches of frames, one each, or the
    /// first error.
    pub open spec fn packets(self, batches: Seq<Seq<FrameView>>, n: int) -> Result<
        Seq<Seq<u8>>,
        TransportErrorView,
    >
        decreases n,
    {
        if n <= 0 {
            Ok(Seq::empty())
        } else {
            match self.packets(batches, n - 1) {
                Err(e) => Err(e),
                Ok(ps) => match self.after_packets((n - 1) as nat).packet(batches[n - 1]) {
                    Ok(p) => Ok(ps.push(p)),
                    Err(e) => Err(e),
                },
            }
        }
    }

    /// How many of the first `n` batches are tried: all up to the first that
    /// cannot be sealed.
    pub open spec fn tried(self, batches: Seq<Seq<FrameView>>, n: int) -> nat
        decreases n,
    {
        if n <= 0 {
            0
        } else if self.packets(batches, n - 1) is Err {
            self.tried(batches, n - 1)
        } else {
            n as nat
        }
    }

    /// The packets that carry frames, as few as their order allows.
    pub open spec fn sealed(self, frames: Seq<FrameView>, max: int) -> Result<
        Seq<Seq<u8>>,
        TransportErrorView,
    > {
        let batches = batches_of(frames, max);
        self.packets(batches, batches.len() as int)
    }

    /// The session after frames were sealed.
    pub open spec fn after_frames(self, frames: Seq<FrameView>, max: int) -> SessionView {
        let batches = batches_of(frames, max);
        self.after_packets(self.tried(batches, batches.len() as int))
    }

    /// Making packets changes nothing but the next nonce, which grows.
    pub proof fn lemma_after_packets(self, n: nat)
        ensures
            self.after_packets(n) == (SessionView {
                next_nonce: self.after_packets(n).next_nonce,
                ..self
            }),
            self.after_packets(n).next_nonce >= self.next_nonce,
        decreases n,
    {
        if n > 0 {
            self.lemma_after_packets((n - 1) as nat);
        }
    }

    proof fn lemma_packets_err(self, batches: Seq<Seq<FrameView>>, k: int, n: int)
        requires
            k <= n,
            self.packets(batches, k) is Err,
        ensures
            self.packets(batches, n) == self.packets(batches, k),
            self.tried(batches, n) == self.tried(batches, k),
        decreases n - k,
    {
        if k < n {
            self.lemma_packets_err(batches, k, n - 1);
        }
    }

    /// The nonce and the plaintext of a packet of this session that is
    /// authentic.
    pub open spec fn authentic(self, packet: Seq<u8>) -> Result<
        (u64, Seq<u8>),
        TransportErrorView,
    > {
        match packet_of(packet) {
            Err(e) => Err(e),
            Ok(PacketView::Handshake { .. }) => Err(TransportErrorView::UnknownType(PKT_HANDSHAKE)),
            Ok(PacketView::Transport { id, nonce, body }) => if id != self.id {
                Err(TransportErrorView::SessionMismatch)
            } else {
                match noise::decrypted(self.receiving, nonce, body) {
                    Ok(plain) => Ok((nonce, plain)),
                    Err(e) => Err(TransportErrorView::Noise(e)),
                }
            },
        }
    }

    /// What opening a packet gives.
    pub open spec fn opened(self, packet: Seq<u8>) -> Result<Seq<FrameView>, TransportErrorView> {
        match self.authentic(packet) {
            Err(e) => Err(e),
            Ok((nonce, plain)) => if !self.seen.fresh(nonce) {
                Err(TransportErrorView::Replay)
            } else {
                match crate::wire::frames_at(plain, 0) {
                    Ok(fs) => Ok(fs),
                    Err(e) => Err(TransportErrorView::Wire(e)),
                }
            },
        }
    }

    /// The session after a packet from `src` was opened. Only an authentic
    /// packet with a fresh nonce changes it.
    pub open spec fn after_open(self, src: Addr, packet: Seq<u8>) -> SessionView {
        match self.authentic(packet) {
            Err(_) => self,
            Ok((nonce, _)) => if self.seen.fresh(nonce) {
                SessionView { seen: self.seen.step(nonce), peer: Some(src), ..self }
            } else {
                self
            },
        }
    }
}

/// How many of the first frames fill a datagram: as many as fit in `max` bytes
/// together, but at least one.
pub open spec fn batch_len(frames: Seq<FrameView>, max: int, n: int) -> int
    recommends
        1 <= n <= frames.len(),
    decreases frames.len() - n,
{
    if n >= frames.len() || crate::wire::frames_bytes(frames.take(n + 1)).len() > max {
        n
    } else {
        batch_len(frames, max, n + 1)
    }
}

/// A batch is within the frames there are.
pub proof fn lemma_batch_len(frames: Seq<FrameView>, max: int, n: int)
    requires
        n <= frames.len(),
    ensures
        n <= batch_len(frames, max, n) <= frames.len(),
    decreases frames.len() - n,
{
    if n < frames.len() && crate::wire::frames_bytes(frames.take(n + 1)).len() <= max {
        lemma_batch_len(frames, max, n + 1);
    }
}

/// Frames in batches, each of which fills a datagram.
pub open spec fn batches_of(frames: Seq<FrameView>, max: int) -> Seq<Seq<FrameView>>
    decreases frames.len(),
{
    if frames.len() == 0 {
        Seq::empty()
    } else {
        let n = batch_len(frames, max, 1);
        proof {
            lemma_batch_len(frames, max, 1);
        }
        seq![frames.take(n)] + batches_of(frames.skip(n), max)
    }
}

proof fn lemma_next_batch(frames: Seq<FrameView>, max: int, from: int, k: int)
    requires
        0 <= from < frames.len(),
        0 <= k <= batches_of(frames, max).len(),
        batches_of(frames.skip(from), max) == batches_of(frames, max).skip(k),
    ensures
        ({
            let n = batch_len(frames.skip(from), max, 1);
            &&& k < batches_of(frames, max).len()
            &&& batches_of(frames, max)[k] == frames.subrange(from, from + n)
            &&& batches_of(frames.skip(from + n), max) == batches_of(frames, max).skip(k + 1)
        }),
{
    let rest = frames.skip(from);
    let n = batch_len(rest, max, 1);
    lemma_batch_len(rest, max, 1);
    let bs = batches_of(frames, max);
    let here = batches_of(rest, max);
    assert(here == seq![rest.take(n)] + batches_of(rest.skip(n), max));
    assert(here[0] == rest.take(n));
    assert(bs.skip(k).len() == bs.len() - k);
    assert(bs.skip(k)[0] == bs[k]);
    assert(rest.take(n) =~= frames.subrange(from, from + n));
    assert(rest.skip(n) =~= frames.skip(from + n));
    assert(here.skip(1) =~= batches_of(rest.skip(n), max));
    assert(bs.skip(k).skip(1) =~= bs.skip(k + 1));
}

/// What packets hold.
pub open spec fn packets_view(v: Seq<Vec<u8>>) -> Seq<Seq<u8>> {
    Seq::new(v.len(), |i: int| v[i]@)
}

fn batch_end(frames: &[Frame], from: usize, max: usize) -> (end: usize)
    requires
        from < frames@.len(),
    ensures
        from < end <= frames@.len(),
        end - from == batch_len(
            crate::wire::frame_views(frames@).skip(from as int),
            max as int,
            1,
        ),
{
    let ghost rest = crate::wire::frame_views(frames@).skip(from as int);
    let mut bytes: Vec<u8> = Vec::new();
    frames[from].encode(&mut bytes);
    let mut end: usize = from + 1;
    proof {
        let t = rest.take(1);
        assert(t.drop_last() =~= Seq::<FrameView>::empty());
        assert(t.last() == frames@[from as int]@);
        assert(crate::wire::frames_bytes(t.drop_last()) =~= Seq::<u8>::empty());
        assert(bytes@ =~= crate::wire::frames_bytes(t));
    }
    while end < frames.len()
        invariant
            from < end <= frames@.len(),
            rest == crate::wire::frame_views(frames@).skip(from as int),
            bytes@ == crate::wire::frames_bytes(rest.take(end - from)),
            batch_len(rest, max as int, 1) == batch_len(rest, max as int, end - from),
        decreases frames@.len() - end,
    {
        frames[end].encode(&mut bytes);
        proof {
            let t = rest.take(end - from + 1);
            assert(t.drop_last() =~= rest.take(end - from));
            assert(t.last() == frames@[end as int]@);
        }
        if bytes.len() > max {
            return end;
        }
        end += 1;
    }
    end
}

/// A packet that whoever decrypts under `key` reads as `frames`.
pub open spec fn conveys(
    packet: Seq<u8>,
    id: Seq<u8>,
    key: Seq<u8>,
    nonce: u64,
    frames: Seq<FrameView>,
) -> bool {
    packet_of(packet) matches Ok(PacketView::Transport { id: i, nonce: n, body }) && i == id && n
        == nonce && noise::decrypted(key, nonce, body) == Ok::<Seq<u8>, NoiseErrorView>(
        crate::wire::frames_bytes(frames),
    ) && crate::wire::frames_at(crate::wire::frames_bytes(frames), 0) == Ok::<
        Seq<FrameView>,
        WireError,
    >(frames)
}

fn same_id(a: &SessionId, b: &SessionId) -> (r: bool)
    ensures
        r == (a@ == b@),
{
    let mut i: usize = 0;
    while i < 8
        invariant
            i <= 8,
            a@.len() == 8,
            b@.len() == 8,
            forall|j: int| 0 <= j < i ==> a@[j] == b@[j],
        decreases 8 - i,
    {
        if a[i] != b[i] {
            return false;
        }
        i += 1;
    }
    assert(a@ =~= b@);
    true
}

/// A live transport session over an established Noise session.
///
/// Roaming: `open()` updates `peer_addr` to the source address of any packet
/// that authenticates — and only after it authenticates, so a forged packet
/// from a new address can never hijack the session.
pub struct Session {
    pub session_id: SessionId,
    noise: noise::Session,
    send_nonce: u64,
    replay: WindowFilter,
    peer_addr: Option<Addr>,
}

impl View for Session {
    type V = SessionView;

    closed spec fn view(&self) -> SessionView {
        SessionView {
            id: self.session_id@,
            sending: self.noise.sending(),
            receiving: self.noise.receiving(),
            remote: self.noise.remote(),
            next_nonce: self.send_nonce,
            seen: self.replay@,
            peer: self.peer_addr,
        }
    }
}

impl Session {
    /// A session with an id, established by a handshake.
    pub fn new(session_id: SessionId, noise: noise::Session, peer_addr: Option<Addr>) -> (r:
        Session)
        ensures
            r@ == SessionView::fresh(
                session_id@,
                noise.sending(),
                noise.receiving(),
                noise.remote(),
                peer_addr,
            ),
    {
        Session { session_id, noise, send_nonce: 0, replay: WindowFilter::new(), peer_addr }
    }

    /// The session id.
    pub fn session_id(&self) -> (r: SessionId)
        ensures
            r@ == self@.id,
    {
        self.session_id
    }

    /// The authenticated peer static public key.
    pub fn remote_static(&self) -> (r: &[u8])
        ensures
            r@ == self@.remote,
    {
        self.noise.remote_static()
    }

    /// Current known peer address (where to send), if any.
    pub fn peer_addr(&self) -> (r: Option<Addr>)
        ensures
            r == self@.peer,
    {
        self.peer_addr
    }

    /// Encrypt and frame outgoing frames into a transport packet. Whoever
    /// holds the key can read the frames back.
    pub fn seal(&mut self, frames: &[Frame]) -> (r: Result<Vec<u8>, TransportError>)
        ensures
            match old(self)@.packet(crate::wire::frame_views(frames@)) {
                Ok(p) => r matches Ok(x) && x@ == p,
                Err(e) => r matches Err(x) && x@ == e,
            },
            final(self)@ == old(self)@.after_packet(),
            r matches Ok(x) ==> conveys(
                x@,
                old(self)@.id,
                old(self)@.sending,
                old(self)@.next_nonce,
                crate::wire::frame_views(frames@),
            ),
    {
        let plaintext: Vec<u8> = encode_frames(frames);
        let nonce: u64 = self.send_nonce;
        if nonce < u64::MAX {
            self.send_nonce = nonce + 1;
        }
        let ct: Vec<u8> = match self.noise.encrypt(nonce, plaintext.as_slice()) {
            Ok(ct) => ct,
            Err(e) => return Err(TransportError::Noise(e)),
        };
        let mut out: Vec<u8> = Vec::new();
        out.push(PKT_TRANSPORT);
        push_all(&mut out, self.session_id.as_slice());
        push_be(&mut out, nonce);
        push_all(&mut out, ct.as_slice());
        proof {
            let p = PacketView::Transport { id: self.session_id@, nonce, body: ct@ };
            assert(out@ =~= packet_bytes(p));
            law_packet_roundtrip(p);
            crate::wire::lemma_frames_fit(frames@);
            crate::wire::law_frames_roundtrip(crate::wire::frame_views(frames@));
        }
        Ok(out)
    }

    /// Seal frames into as few packets as their order allows, none with a
    /// plaintext longer than `max` unless a single frame is. The first packet
    /// that cannot be made ends it.
    pub fn seal_many(&mut self, frames: &[Frame], max: usize) -> (r: Result<
        Vec<Vec<u8>>,
        TransportError,
    >)
        ensures
            match old(self)@.sealed(crate::wire::frame_views(frames@), max as int) {
                Ok(ps) => r matches Ok(x) && packets_view(x@) == ps,
                Err(e) => r matches Err(x) && x@ == e,
            },
            final(self)@ == old(self)@.after_frames(
                crate::wire::frame_views(frames@),
                max as int,
            ),
    {
        let ghost fs = crate::wire::frame_views(frames@);
        let ghost batches = batches_of(fs, max as int);
        let ghost s0 = self@;
        let mut out: Vec<Vec<u8>> = Vec::new();
        let mut from: usize = 0;
        assert(fs.skip(0) =~= fs);
        assert(packets_view(out@) =~= Seq::<Seq<u8>>::empty());
        assert(batches.skip(0) =~= batches);
        while from < frames.len()
            invariant
                from <= frames@.len(),
                fs == crate::wire::frame_views(frames@),
                batches == batches_of(fs, max as int),
                out@.len() <= batches.len(),
                batches_of(fs.skip(from as int), max as int) == batches.skip(out@.len() as int),
                s0.packets(batches, out@.len() as int) == Ok::<Seq<Seq<u8>>, TransportErrorView>(
                    packets_view(out@),
                ),
                self@ == s0.after_packets(out@.len()),
                s0 == old(self)@,
            decreases frames@.len() - from,
        {
            let n: usize = batch_end(frames, from, max);
            let batch: &[Frame] = slice_subrange(frames, from, n);
            let ghost k = out@.len() as int;
            proof {
                lemma_next_batch(fs, max as int, from as int, k);
                assert(crate::wire::frame_views(batch@) =~= batches[k]);
                s0.lemma_after_packets(k as nat);
                s0.lemma_after_packets((k + 1) as nat);
            }
            match self.seal(batch) {
                Ok(p) => {
                    let ghost before = out@;
                    out.push(p);
                    assert(packets_view(out@) =~= packets_view(before).push(p@));
                },
                Err(e) => {
                    proof {
                        s0.lemma_packets_err(batches, k + 1, batches.len() as int);
                    }
                    return Err(e);
                },
            }
            from = n;
        }
        proof {
            assert(fs.skip(from as int) =~= Seq::<FrameView>::empty());
            assert(batches.skip(out@.len() as int).len() == 0);
            s0.lemma_after_packets(out@.len());
        }
        Ok(out)
    }

    /// Authenticate and decode an incoming transport packet from `src`.
    /// On success, updates the roaming peer address to `src`.
    pub fn open(&mut self, src: Addr, packet: &[u8]) -> (r: Result<Vec<Frame>, TransportError>)
        ensures
            match old(self)@.opened(packet@) {
                Ok(fs) => r matches Ok(x) && crate::wire::frame_views(x@) == fs,
                Err(e) => r matches Err(x) && x@ == e,
            },
            final(self)@ == old(self)@.after_open(src, packet@),
    {
        let parsed: Packet = match parse_packet(packet) {
            Ok(p) => p,
            Err(e) => return Err(e),
        };
        match parsed {
            Packet::Handshake { .. } => Err(TransportError::UnknownType(PKT_HANDSHAKE)),
            Packet::Transport { session_id, nonce, body } => {
                if !same_id(&session_id, &self.session_id) {
                    return Err(TransportError::SessionMismatch);
                }
                // Decrypt FIRST. Only an authenticated packet may move our peer address.
                let plaintext: Vec<u8> = match self.noise.decrypt(nonce, body) {
                    Ok(p) => p,
                    Err(e) => return Err(TransportError::Noise(e)),
                };
                // Then enforce anti-replay (authentic but replayed packets are dropped).
                if !self.replay.check_and_set(nonce) {
                    return Err(TransportError::Replay);
                }
                self.peer_addr = Some(src);
                match decode_frames(plaintext.as_slice()) {
                    Ok(fs) => Ok(fs),
                    Err(e) => Err(TransportError::Wire(e)),
                }
            },
        }
    }
}

// ---------------------------------------------------------------------------
// Laws
// ---------------------------------------------------------------------------

/// What one side seals, the other side opens: a packet of the same session,
/// encrypted under the key that the other side decrypts with, gives the frames
/// it was made of, and moves the peer address to where it came from, unless its
/// nonce was seen before.
pub proof fn law_sealed_is_opened(
    packet: Seq<u8>,
    nonce: u64,
    frames: Seq<FrameView>,
    other: SessionView,
    src: Addr,
)
    requires
        conveys(packet, other.id, other.receiving, nonce, frames),
        other.seen.fresh(nonce),
    ensures
        other.opened(packet) == Ok::<Seq<FrameView>, TransportErrorView>(frames),
        other.after_open(src, packet).peer == Some(src),
{
}

/// Only an authentic packet, and only a fresh one, changes a session: a forged
/// packet from a new address does not move the peer address, whatever else it
/// claims.
pub proof fn law_forged_packet_changes_nothing(s: SessionView, src: Addr, packet: Seq<u8>)
    requires
        s.authentic(packet) is Err,
    ensures
        s.opened(packet) is Err,
        s.after_open(src, packet) == s,
{
}

/// A packet that was opened is refused as a replay when it comes again, from
/// wherever, and the peer address stays.
pub proof fn law_replayed_packet_rejected(s: SessionView, src: Addr, again: Addr, packet: Seq<u8>)
    requires
        s.opened(packet) is Ok,
    ensures
        s.after_open(src, packet).opened(packet) == Err::<Seq<FrameView>, TransportErrorView>(
            TransportErrorView::Replay,
        ),
        s.after_open(src, packet).after_open(again, packet) == s.after_open(src, packet),
{
}

/// No two packets that a session makes have the same nonce.
pub proof fn law_nonces_differ(s: SessionView)
    requires
        s.next_nonce < u64::MAX,
    ensures
        s.after_packet().next_nonce > s.next_nonce,
        s.after_packet() == (SessionView { next_nonce: s.after_packet().next_nonce, ..s }),
{
}

/// Batches hold the frames in order, none twice and none left out, and no batch
/// is longer than allowed unless it is a single frame.
pub proof fn law_batches(frames: Seq<FrameView>, max: int)
    ensures
        batches_of(frames, max).flatten() == frames,
        forall|i: int|
            0 <= i < batches_of(frames, max).len() ==> {
                let b = #[trigger] batches_of(frames, max)[i];
                b.len() >= 1 && (b.len() > 1 ==> crate::wire::frames_bytes(b).len() <= max)
            },
    decreases frames.len(),
{
    let bs = batches_of(frames, max);
    if frames.len() > 0 {
        let n = batch_len(frames, max, 1);
        lemma_batch_len(frames, max, 1);
        lemma_batch_fits(frames, max, 1);
        let rest = batches_of(frames.skip(n), max);
        law_batches(frames.skip(n), max);
        assert(bs[0] == frames.take(n));
        assert(bs.drop_first() =~= rest);
        assert(bs.flatten() =~= frames.take(n) + rest.flatten());
        assert(frames.take(n) + frames.skip(n) =~= frames);
        assert forall|i: int| 0 <= i < bs.len() implies {
            let b = #[trigger] bs[i];
            b.len() >= 1 && (b.len() > 1 ==> crate::wire::frames_bytes(b).len() <= max)
        } by {
            if i > 0 {
                assert(bs[i] == rest[i - 1]);
            }
        }
    } else {
        assert(bs.flatten() =~= frames);
    }
}

proof fn lemma_batch_fits(frames: Seq<FrameView>, max: int, n: int)
    requires
        1 <= n <= frames.len(),
        n > 1 ==> crate::wire::frames_bytes(frames.take(n)).len() <= max,
    ensures
        batch_len(frames, max, n) > 1 ==> crate::wire::frames_bytes(
            frames.take(batch_len(frames, max, n)),
        ).len() <= max,
    decreases frames.len() - n,
{
    if n < frames.len() && crate::wire::frames_bytes(frames.take(n + 1)).len() <= max {
        lemma_batch_fits(frames, max, n + 1);
    }
}

/// A batch is as long as it may be: the first frame of the next would not fit in it.
pub proof fn law_batches_are_full(frames: Seq<FrameView>, max: int, i: int)
    requires
        0 <= i < batches_of(frames, max).len() - 1,
    ensures
        ({
            let bs = batches_of(frames, max);
            crate::wire::frames_bytes(bs[i].push(bs[i + 1][0])).len() > max
        }),
    decreases frames.len(),
{
    let bs = batches_of(frames, max);
    let n = batch_len(frames, max, 1);
    lemma_batch_len(frames, max, 1);
    let rest = batches_of(frames.skip(n), max);
    assert(bs =~= seq![frames.take(n)] + rest);
    if i == 0 {
        lemma_batch_len(frames.skip(n), max, 1);
        lemma_batch_is_full(frames, max, 1);
        assert(bs[1] == rest[0]);
        assert(frames.take(n).push(frames[n]) =~= frames.take(n + 1));
        assert(rest[0][0] == frames[n]);
    } else {
        law_batches_are_full(frames.skip(n), max, i - 1);
        assert(bs[i] == rest[i - 1] && bs[i + 1] == rest[i]);
    }
}

proof fn lemma_batch_is_full(frames: Seq<FrameView>, max: int, n: int)
    requires
        1 <= n <= frames.len(),
    ensures
        ({
            let k = batch_len(frames, max, n);
            k < frames.len() ==> crate::wire::frames_bytes(frames.take(k + 1)).len() > max
        }),
    decreases frames.len() - n,
{
    if n < frames.len() && crate::wire::frames_bytes(frames.take(n + 1)).len() <= max {
        lemma_batch_is_full(frames, max, n + 1);
    }
}

} // verus!
