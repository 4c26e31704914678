//! Reliable, ordered, flow-controlled stream multiplexer.
//!
//! Each stream is an independent byte stream with retransmission, in-order
//! reassembly, and a sliding receive window for flow control.
//!
//! The mux does no I/O: it consumes and produces frames. A driver calls
//! [`StreamMux::poll_transmit`] to get frames to seal, and feeds decoded frames
//! to [`StreamMux::on_frame`].

use crate::reassembler::{Reassembler, RecvView};
use crate::wire::{Frame, FrameView, StreamKind};
use vstd::prelude::*;
use vstd::slice::{slice_subrange, slice_to_vec};

verus! {

/// Default per-stream receive window (bytes the peer may have in flight).
pub const DEFAULT_WINDOW: u32 = 262144;

/// Max payload of a single `StreamData` frame, chosen so the resulting datagram
/// stays within a conservative path MTU.
pub const MAX_STREAM_CHUNK: usize = 1024;

/// Maximum segment size: the unit for the congestion window.
pub const MSS: u32 = 1024;

/// Initial congestion window, in bytes.
pub const INIT_CWND: u32 = 10240;

/// Congestion-window ceiling: no point exceeding the receiver's window.
pub const MAX_CWND: u32 = 262144;

/// Retransmit timeout before the first round-trip sample, in
/// `poll_transmit` rounds.
pub const INIT_RTO: u32 = 8;

/// Lowest retransmit timeout, in rounds.
pub const MIN_RTO: u32 = 2;

/// Highest retransmit timeout, in rounds.
pub const MAX_RTO: u32 = 240;

/// After a graceful close, how many rounds to wait for the FIN-bearing data
/// before the stream is reclaimed.
pub const CLOSE_GRACE_TICKS: u32 = 100;

/// How many streams the peer may have open at a time.
pub const MAX_PEER_STREAMS: usize = 1024;

/// Whether the peer has announced the end of its bytes.
#[derive(PartialEq, Eq, Structural, Clone, Copy, Debug)]
pub enum HalfState {
    Open,
    /// The peer's bytes end at this absolute offset.
    Finished(u64),
}

/// The retransmit timer and the round-trip estimate, in `poll_transmit` rounds.
#[derive(Clone, Copy)]
pub struct Timer {
    /// Round the retransmit countdown started from, while data is outstanding.
    pub start: Option<u64>,
    /// Current retransmit timeout.
    pub rto: u32,
    /// Smoothed round-trip time (0 = no sample yet).
    pub srtt: u32,
    /// Variation of the round-trip time.
    pub rttvar: u32,
    /// Round-trip probe: the offset it covers and the round it was sent in.
    /// Void once data was retransmitted.
    pub probe: Option<(u64, u64)>,
}

/// Congestion control.
#[derive(Clone, Copy)]
pub struct Congestion {
    /// Congestion window in bytes.
    pub cwnd: u32,
    /// Slow-start threshold in bytes.
    pub ssthresh: u32,
}

/// How far our side of a stream is closed.
#[derive(Clone, Copy)]
pub struct Fin {
    /// The application closed our side.
    pub closed: bool,
    /// A frame that carries the FIN has been emitted.
    pub sent: bool,
    /// The peer has acknowledged all our bytes and the FIN.
    pub acked: bool,
    /// The exit status to announce.
    pub status: Option<i32>,
}

/// How far the peer has closed a stream.
#[derive(Clone, Copy)]
pub struct PeerClose {
    /// The end of the peer's bytes, once its FIN has arrived.
    pub fin: HalfState,
    /// A `StreamClose` has been surfaced as an event.
    pub close_received: bool,
    /// Rounds spent waiting for a lost FIN after the close.
    pub ticks: u32,
}

pub open spec fn min(a: int, b: int) -> int {
    if a <= b {
        a
    } else {
        b
    }
}

pub open spec fn max(a: int, b: int) -> int {
    if a >= b {
        a
    } else {
        b
    }
}

impl Timer {
    /// No sample taken, nothing outstanding.
    pub open spec fn fresh() -> Timer {
        Timer { start: None, rto: INIT_RTO, srtt: 0, rttvar: 0, probe: None }
    }

    pub open spec fn wf(self) -> bool {
        MIN_RTO <= self.rto <= MAX_RTO
    }

    /// With the timeout that follows from the round-trip estimate.
    pub open spec fn derived(self) -> Timer {
        Timer {
            rto: if self.srtt > 0 {
                min(max(self.srtt + max(4 * self.rttvar, 1), MIN_RTO as int), MAX_RTO as int) as u32
            } else {
                INIT_RTO
            },
            ..self
        }
    }

    /// With a round-trip sample of `r` rounds folded into the estimate.
    pub open spec fn sampled(self, r: u32) -> Timer {
        (if self.srtt == 0 {
            Timer { srtt: r, rttvar: (r / 2) as u32, ..self }
        } else {
            let delta = if self.srtt >= r {
                self.srtt - r
            } else {
                r - self.srtt
            };
            Timer {
                rttvar: ((3 * self.rttvar + delta) / 4) as u32,
                srtt: ((7 * self.srtt + r) / 8) as u32,
                ..self
            }
        }).derived()
    }

    /// With the probe answered, if `ack` covers it.
    pub open spec fn probed(self, ack: u64, now: u64) -> Timer {
        match self.probe {
            Some((seq, sent)) if ack >= seq => Timer {
                probe: None,
                ..self.sampled((max(now - sent, 1) % 0x1_0000_0000) as u32)
            },
            _ => self,
        }
    }

    /// The retransmit timeout has elapsed.
    pub open spec fn due(self, now: u64) -> bool {
        match self.start {
            Some(t) => now - t >= self.rto,
            None => true,
        }
    }

    /// After new bytes up to `end` were sent in round `now`.
    pub open spec fn sent(self, end: u64, now: u64) -> Timer {
        Timer {
            probe: if self.probe is None {
                Some((end, now))
            } else {
                self.probe
            },
            start: if self.start is None {
                Some(now)
            } else {
                self.start
            },
            ..self
        }
    }

    /// After a timeout in round `now`: the timeout doubles and the probe is
    /// void.
    pub open spec fn backed_off(self, now: u64) -> Timer {
        Timer {
            start: Some(now),
            rto: min(2 * self.rto, MAX_RTO as int) as u32,
            probe: None,
            ..self
        }
    }

    fn recompute_rto(&mut self)
        ensures
            *final(self) == old(self).derived(),
    {
        self.rto = if self.srtt > 0 {
            let var: u64 = 4 * self.rttvar as u64;
            let sum: u64 = self.srtt as u64 + if var > 1 { var } else { 1 };
            if sum < MIN_RTO as u64 {
                MIN_RTO
            } else if sum > MAX_RTO as u64 {
                MAX_RTO
            } else {
                sum as u32
            }
        } else {
            INIT_RTO
        };
    }

    fn update_rtt(&mut self, r: u32)
        ensures
            *final(self) == old(self).sampled(r),
    {
        if self.srtt == 0 {
            self.srtt = r;
            self.rttvar = r / 2;
        } else {
            let delta: u32 = if self.srtt >= r { self.srtt - r } else { r - self.srtt };
            self.rttvar = ((3 * self.rttvar as u64 + delta as u64) / 4) as u32;
            self.srtt = ((7 * self.srtt as u64 + r as u64) / 8) as u32;
        }
        self.recompute_rto();
    }

    fn take_probe(&mut self, ack: u64, now: u64)
        ensures
            *final(self) == old(self).probed(ack, now),
    {
        if let Some((seq, sent)) = self.probe {
            if ack >= seq {
                let elapsed: u64 = now.saturating_sub(sent);
                let rounds: u64 = if elapsed > 1 { elapsed } else { 1 };
                assert(rounds as u32 == rounds % 0x1_0000_0000) by (bit_vector);
                self.update_rtt(rounds as u32);
                self.probe = None;
            }
        }
    }

    fn is_due(&self, now: u64) -> (r: bool)
        requires
            self.wf(),
        ensures
            r == self.due(now),
    {
        match self.start {
            Some(t) => now.saturating_sub(t) >= self.rto as u64,
            None => true,
        }
    }

    fn on_sent(&mut self, end: u64, now: u64)
        ensures
            *final(self) == old(self).sent(end, now),
    {
        if self.probe.is_none() {
            self.probe = Some((end, now));
        }
        if self.start.is_none() {
            self.start = Some(now);
        }
    }

    fn back_off(&mut self, now: u64)
        requires
            old(self).wf(),
        ensures
            *final(self) == old(self).backed_off(now),
    {
        self.start = Some(now);
        self.rto = if 2 * self.rto < MAX_RTO { 2 * self.rto } else { MAX_RTO };
        self.probe = None;
    }
}

impl Congestion {
    /// The window a stream starts with.
    pub open spec fn fresh() -> Congestion {
        Congestion { cwnd: INIT_CWND, ssthresh: MAX_CWND }
    }

    pub open spec fn wf(self) -> bool {
        &&& MSS <= self.cwnd <= MAX_CWND
        &&& 2 * MSS <= self.ssthresh <= MAX_CWND
    }

    /// After `acked` bytes were newly acknowledged: slow start below the
    /// threshold, congestion avoidance above it.
    pub open spec fn grown(self, acked: int) -> Congestion {
        let inc = if self.cwnd < self.ssthresh {
            min(acked % 0x1_0000_0000, MSS as int)
        } else {
            max((MSS * MSS) / max(self.cwnd as int, 1), 1)
        };
        Congestion { cwnd: min(self.cwnd + inc, MAX_CWND as int) as u32, ..self }
    }

    /// After a timeout: the threshold is half the window, and the window
    /// collapses to one segment.
    pub open spec fn collapsed(self) -> Congestion {
        Congestion { ssthresh: max((self.cwnd / 2) as int, 2 * MSS) as u32, cwnd: MSS }
    }

    fn grow(&mut self, acked: u64)
        requires
            old(self).wf(),
        ensures
            *final(self) == old(self).grown(acked as int),
            final(self).wf(),
    {
        let inc: u32 = if self.cwnd < self.ssthresh {
            assert(acked as u32 == acked % 0x1_0000_0000) by (bit_vector);
            let low: u32 = acked as u32;
            if low < MSS { low } else { MSS }
        } else {
            let step: u32 = (MSS * MSS) / self.cwnd;
            if step > 1 { step } else { 1 }
        };
        let sum: u32 = self.cwnd + inc;
        self.cwnd = if sum < MAX_CWND { sum } else { MAX_CWND };
    }

    fn collapse(&mut self)
        requires
            old(self).wf(),
        ensures
            *final(self) == old(self).collapsed(),
            final(self).wf(),
    {
        let half: u32 = self.cwnd / 2;
        self.ssthresh = if half > 2 * MSS { half } else { 2 * MSS };
        self.cwnd = MSS;
    }
}

/// The bytes of our side of a stream: those below `base` are acknowledged,
/// those below `high` have been transmitted at least once.
pub struct SendView {
    /// Bytes from `base` onward: written and not yet acknowledged.
    pub buf: Seq<u8>,
    pub base: int,
    pub high: int,
}

impl SendView {
    pub open spec fn fresh() -> SendView {
        SendView { buf: Seq::empty(), base: 0, high: 0 }
    }

    /// Total bytes written.
    pub open spec fn next(self) -> int {
        self.base + self.buf.len()
    }

    pub open spec fn wf(self) -> bool {
        0 <= self.base <= self.high <= self.next() <= u64::MAX
    }

    /// With `data` queued. Bytes beyond the 64-bit offset space are not taken.
    pub open spec fn write(self, data: Seq<u8>) -> SendView {
        if self.next() + data.len() <= u64::MAX {
            SendView { buf: self.buf + data, ..self }
        } else {
            self
        }
    }

    /// What counts of an acknowledgement of everything below `ack`: bytes that were
    /// never sent cannot be acknowledged.
    pub open spec fn heeded(self, ack: u64) -> u64 {
        min(ack as int, self.high) as u64
    }

    /// How many bytes an acknowledgement of everything below `ack` releases.
    pub open spec fn released(self, ack: u64) -> int {
        self.heeded(ack) - self.base
    }

    /// With the bytes below `ack` no longer kept.
    pub open spec fn advanced(self, ack: u64) -> SendView {
        let n = self.released(ack);
        SendView { buf: self.buf.skip(n), base: self.base + n, high: self.high }
    }
}

struct SendBuf {
    buf: Vec<u8>,
    base: u64,
    high: u64,
    next: u64,
}

impl View for SendBuf {
    type V = SendView;

    closed spec fn view(&self) -> SendView {
        SendView { buf: self.buf@, base: self.base as int, high: self.high as int }
    }
}

impl SendBuf {
    spec fn wf(&self) -> bool {
        self@.wf() && self.next == self@.next()
    }

    fn new() -> (r: SendBuf)
        ensures
            r.wf(),
            r@ == SendView::fresh(),
    {
        SendBuf { buf: Vec::new(), base: 0, high: 0, next: 0 }
    }

    fn write(&mut self, data: &[u8])
        requires
            old(self).wf(),
        ensures
            final(self).wf(),
            final(self)@ == old(self)@.write(data@),
    {
        let ghost before = self.buf@;
        if data.len() as u64 <= u64::MAX - self.next {
            self.buf.extend_from_slice(data);
            self.next = self.next + data.len() as u64;
            assert(self.buf@ =~= before + data@);
        }
    }

    fn advance(&mut self, ack: u64) -> (n: u64)
        requires
            old(self).wf(),
            old(self)@.base < ack <= old(self)@.high,
        ensures
            final(self).wf(),
            n == old(self)@.released(ack),
            final(self)@ == old(self)@.advanced(ack),
    {
        let ghost before = self.buf@;
        let n: u64 = ack - self.base;
        assert(self.buf.len() >= n);
        let rest: Vec<u8> = self.buf.split_off(n as usize);
        self.buf = rest;
        self.base = self.base + n;
        assert(self.buf@ =~= before.skip(n as int));
        n
    }
}

/// The state of one stream.
pub struct StreamView {
    pub id: u64,
    pub kind: StreamKind,
    pub meta: Seq<u8>,
    /// Whether the peer still has to be told of the stream.
    pub needs_open: bool,
    pub send: SendView,
    /// Flow-control limit advertised by the peer.
    pub peer_window: u32,
    pub fin: Fin,
    pub timer: Timer,
    pub congestion: Congestion,
    pub recv: RecvView,
    pub peer: PeerClose,
    pub reset: bool,
}

impl StreamView {
    /// A stream on which nothing has been sent or received.
    pub open spec fn fresh(id: u64, kind: StreamKind, meta: Seq<u8>, needs_open: bool) -> StreamView {
        StreamView {
            id,
            kind,
            meta,
            needs_open,
            send: SendView::fresh(),
            peer_window: DEFAULT_WINDOW,
            fin: Fin { closed: false, sent: false, acked: false, status: None },
            timer: Timer::fresh(),
            congestion: Congestion::fresh(),
            recv: RecvView::empty(),
            peer: PeerClose { fin: HalfState::Open, close_received: false, ticks: 0 },
            reset: false,
        }
    }

    /// What has been sent lies between what is acknowledged and what was
    /// written, the controllers stay within their bounds, and what is held of the
    /// peer's bytes within our window.
    pub open spec fn wf(self) -> bool {
        &&& self.send.wf()
        &&& self.timer.wf()
        &&& self.congestion.wf()
        &&& self.recv.within(DEFAULT_WINDOW as int)
    }

    /// The peer has closed and everything up to its end has been read.
    pub open spec fn recv_finished(self) -> bool {
        self.peer.fin matches HalfState::Finished(at) && self.recv.delivered >= at
            && self.recv.unread() == 0
    }

    /// The stream can be reclaimed: our side is closed and either both ends
    /// have seen the other's FIN, or the peer closed and then stayed silent for
    /// the grace period.
    pub open spec fn fully_done(self) -> bool {
        self.fin.closed && ((self.fin.acked && self.recv_finished()) || (self.peer.close_received
            && self.peer.ticks >= CLOSE_GRACE_TICKS))
    }

    /// With `data` queued.
    pub open spec fn write(self, data: Seq<u8>) -> StreamView {
        StreamView { send: self.send.write(data), ..self }
    }

    /// With our side closed.
    pub open spec fn close(self, status: i32) -> StreamView {
        StreamView { fin: Fin { closed: true, status: Some(status), ..self.fin }, ..self }
    }

    /// With the bytes below `ack` released, in round `now`.
    pub open spec fn advanced(self, ack: u64, now: u64) -> StreamView {
        let send = self.send.advanced(ack);
        StreamView {
            send,
            congestion: self.congestion.grown(self.send.released(ack)),
            timer: Timer {
                start: if send.base < send.high {
                    Some(now)
                } else {
                    None
                },
                ..self.timer
            }.derived(),
            ..self
        }
    }

    /// The state after the peer acknowledged everything below `ack` and
    /// advertised `window`, in round `now`. What was never sent cannot be
    /// acknowledged. Our FIN counts as acknowledged when it has been sent and all
    /// our bytes are.
    pub open spec fn on_ack(self, ack: u64, window: u32, now: u64) -> StreamView {
        let a = self.send.heeded(ack);
        let s = if a > self.send.base {
            self.advanced(a, now)
        } else {
            self
        };
        StreamView {
            peer_window: window,
            timer: s.timer.probed(a, now),
            fin: Fin {
                acked: s.fin.acked || (s.fin.closed && s.fin.sent && a >= s.send.next()),
                ..s.fin
            },
            ..s
        }
    }

    /// Whether bytes at `offset` are taken: they end within our window and within
    /// the 64-bit offset space.
    pub open spec fn takes(self, offset: u64, data: Seq<u8>) -> bool {
        &&& offset + data.len() <= u64::MAX
        &&& offset + data.len() <= self.recv.delivered + DEFAULT_WINDOW
    }

    /// The state after `data` arrived at `offset`, with the end of the peer's
    /// bytes behind it if `fin`. That end is noted once; what is not taken leaves
    /// no trace.
    pub open spec fn on_data(self, offset: u64, data: Seq<u8>, fin: bool) -> StreamView {
        if self.takes(offset, data) {
            StreamView {
                recv: self.recv.insert(offset as int, data),
                peer: PeerClose {
                    fin: if fin && self.peer.fin is Open {
                        HalfState::Finished((offset + data.len()) as u64)
                    } else {
                        self.peer.fin
                    },
                    ..self.peer
                },
                ..self
            }
        } else {
            self
        }
    }

    /// Whether the chunk that ends at `hi` carries the FIN.
    pub open spec fn fin_at(self, hi: int) -> bool {
        self.fin.closed && hi == self.send.next() && !self.fin.acked
    }

    /// Chunk number `k` of the bytes `from..to`.
    pub open spec fn chunk(self, from: int, to: int, k: int) -> FrameView {
        let lo = from + MAX_STREAM_CHUNK * k;
        let hi = min(lo + MAX_STREAM_CHUNK, to);
        FrameView::StreamData {
            id: self.id,
            offset: lo as u64,
            data: self.send.buf.subrange(lo - self.send.base, hi - self.send.base),
            fin: self.fin_at(hi),
        }
    }

    /// The bytes `from..to` as frames of at most `MAX_STREAM_CHUNK` bytes.
    pub open spec fn chunks(self, from: int, to: int) -> Seq<FrameView> {
        Seq::new(
            ((to - from + MAX_STREAM_CHUNK - 1) / MAX_STREAM_CHUNK as int) as nat,
            |k: int| self.chunk(from, to, k),
        )
    }

    /// Our side after the bytes `from..to` were emitted.
    pub open spec fn fin_after(self, from: int, to: int) -> Fin {
        Fin { sent: self.fin.sent || (from < to && self.fin_at(to)), ..self.fin }
    }

    /// Where transmission has to stop: what is in flight stays within the
    /// peer's window and the congestion window.
    pub open spec fn send_end(self) -> int {
        min(
            self.send.next(),
            self.send.base + min(self.peer_window as int, self.congestion.cwnd as int),
        )
    }

    /// The data frames to send in round `now`, and the state after that: bytes
    /// never sent go out at once; else unacknowledged bytes go out again when
    /// the timeout has elapsed; else an outstanding FIN goes out alone.
    pub open spec fn transmit_data(self, now: u64) -> (StreamView, Seq<FrameView>) {
        let end = self.send_end();
        let base = self.send.base;
        let high = self.send.high;
        if high < end {
            (
                StreamView {
                    fin: self.fin_after(high, end),
                    timer: self.timer.sent(end as u64, now),
                    send: SendView { high: end, ..self.send },
                    ..self
                },
                self.chunks(high, end),
            )
        } else if base < high {
            if self.timer.due(now) {
                (
                    StreamView {
                        fin: self.fin_after(base, high),
                        timer: self.timer.backed_off(now),
                        congestion: self.congestion.collapsed(),
                        ..self
                    },
                    self.chunks(base, high),
                )
            } else {
                (self, Seq::empty())
            }
        } else if self.fin.closed && !self.fin.acked && self.send.buf.len() == 0 && (!self.fin.sent
            || self.timer.due(now)) {
            (
                StreamView {
                    fin: Fin { sent: true, ..self.fin },
                    timer: Timer { start: Some(now), ..self.timer },
                    ..self
                },
                seq![
                    FrameView::StreamData {
                        id: self.id,
                        offset: self.send.next() as u64,
                        data: Seq::empty(),
                        fin: true,
                    },
                ],
            )
        } else {
            (self, Seq::empty())
        }
    }

    /// The announcement of the stream, if the peer does not know it yet.
    pub open spec fn open_frames(self) -> Seq<FrameView> {
        if self.needs_open {
            seq![FrameView::StreamOpen { id: self.id, kind: self.kind, meta: self.meta }]
        } else {
            Seq::empty()
        }
    }

    /// The acknowledgement to send, with the room left in our window.
    pub open spec fn ack_frame(self) -> FrameView {
        FrameView::StreamAck {
            id: self.id,
            ack: self.recv.ack_point() as u64,
            window: (DEFAULT_WINDOW - min(self.recv.unread(), DEFAULT_WINDOW as int)) as u32,
        }
    }

    /// The close to announce, until the peer has acknowledged all our bytes.
    pub open spec fn close_frames(self) -> Seq<FrameView> {
        match self.fin.status {
            Some(status) if !self.fin.acked => seq![
                FrameView::StreamClose { id: self.id, status },
            ],
            _ => Seq::empty(),
        }
    }

    /// After one more round of waiting for the peer's FIN behind its close.
    pub open spec fn waited(self) -> StreamView {
        if self.peer.close_received && self.fin.closed && self.peer.fin is Open {
            StreamView {
                peer: PeerClose {
                    ticks: min(self.peer.ticks + 1, u32::MAX as int) as u32,
                    ..self.peer
                },
                ..self
            }
        } else {
            self
        }
    }

    /// The frames to send in round `now`, and the state after that.
    pub open spec fn transmit(self, now: u64) -> (StreamView, Seq<FrameView>) {
        if self.reset {
            (self, Seq::empty())
        } else {
            let (s, data) = StreamView { needs_open: false, ..self }.transmit_data(now);
            (s.waited(), self.open_frames() + data + seq![s.ack_frame()] + s.close_frames())
        }
    }
}

/// Append a frame to a list of frames to send.
fn push_frame(out: &mut Vec<Frame>, f: Frame)
    ensures
        crate::wire::frame_views(final(out)@) == crate::wire::frame_views(old(out)@).push(f@),
{
    let ghost before = out@;
    out.push(f);
    assert(crate::wire::frame_views(out@) =~= crate::wire::frame_views(before).push(f@));
}

/// One stream.
struct StreamState {
    id: u64,
    kind: StreamKind,
    meta: Vec<u8>,
    needs_open: bool,
    send: SendBuf,
    peer_window: u32,
    fin: Fin,
    timer: Timer,
    congestion: Congestion,
    recv: Reassembler,
    peer: PeerClose,
    reset: bool,
}

impl View for StreamState {
    type V = StreamView;

    closed spec fn view(&self) -> StreamView {
        StreamView {
            id: self.id,
            kind: self.kind,
            meta: self.meta@,
            needs_open: self.needs_open,
            send: self.send@,
            peer_window: self.peer_window,
            fin: self.fin,
            timer: self.timer,
            congestion: self.congestion,
            recv: self.recv@,
            peer: self.peer,
            reset: self.reset,
        }
    }
}

impl StreamState {
    spec fn wf(&self) -> bool {
        &&& self.send.wf()
        &&& self.timer.wf()
        &&& self.congestion.wf()
        &&& self.recv.wf()
        &&& self.recv@.within(DEFAULT_WINDOW as int)
    }

    fn new(id: u64, kind: StreamKind, meta: Vec<u8>, needs_open: bool) -> (r: StreamState)
        ensures
            r.wf(),
            r@ == StreamView::fresh(id, kind, meta@, needs_open),
    {
        StreamState {
            id,
            kind,
            meta,
            needs_open,
            send: SendBuf::new(),
            peer_window: DEFAULT_WINDOW,
            fin: Fin { closed: false, sent: false, acked: false, status: None },
            timer: Timer { start: None, rto: INIT_RTO, srtt: 0, rttvar: 0, probe: None },
            congestion: Congestion { cwnd: INIT_CWND, ssthresh: MAX_CWND },
            recv: Reassembler::new(),
            peer: PeerClose { fin: HalfState::Open, close_received: false, ticks: 0 },
            reset: false,
        }
    }

    fn recv_finished(&self) -> (r: bool)
        requires
            self.wf(),
        ensures
            r == self@.recv_finished(),
    {
        match self.peer.fin {
            HalfState::Finished(at) => self.recv.delivered() >= at && self.recv.unread() == 0,
            HalfState::Open => false,
        }
    }

    fn fully_done(&self) -> (r: bool)
        requires
            self.wf(),
        ensures
            r == self@.fully_done(),
    {
        if !self.fin.closed {
            return false;
        }
        if self.fin.acked && self.recv_finished() {
            return true;
        }
        self.peer.close_received && self.peer.ticks >= CLOSE_GRACE_TICKS
    }

    fn write(&mut self, data: &[u8])
        requires
            old(self).wf(),
        ensures
            final(self).wf(),
            final(self)@ == old(self)@.write(data@),
    {
        self.send.write(data);
    }

    fn close(&mut self, status: i32)
        requires
            old(self).wf(),
        ensures
            final(self).wf(),
            final(self)@ == old(self)@.close(status),
    {
        self.fin.closed = true;
        self.fin.status = Some(status);
    }

    fn on_ack(&mut self, ack: u64, window: u32, now: u64)
        requires
            old(self).wf(),
        ensures
            final(self).wf(),
            final(self)@ == old(self)@.on_ack(ack, window, now),
    {
        self.peer_window = window;
        // What was never sent cannot be acknowledged.
        let ack: u64 = if ack < self.send.high { ack } else { self.send.high };
        if ack > self.send.base {
            let n: u64 = self.send.advance(ack);
            self.congestion.grow(n);
            self.timer.start = if self.send.base < self.send.high { Some(now) } else { None };
            self.timer.recompute_rto();
        }
        self.timer.take_probe(ack, now);
        if self.fin.closed && self.fin.sent && ack >= self.send.next {
            self.fin.acked = true;
        }
    }

    fn on_data(&mut self, offset: u64, data: Vec<u8>, fin: bool)
        requires
            old(self).wf(),
        ensures
            final(self).wf(),
            final(self)@ == old(self)@.on_data(offset, data@, fin),
    {
        let len: u64 = data.len() as u64;
        if len > u64::MAX - offset {
            return ;
        }
        let end: u64 = offset + len;
        let delivered: u64 = self.recv.delivered();
        if end > delivered && end - delivered > DEFAULT_WINDOW as u64 {
            return ;
        }
        if fin && matches!(self.peer.fin, HalfState::Open) {
            self.peer.fin = HalfState::Finished(end);
        }
        self.recv.insert(offset, data);
    }

    fn read(&mut self) -> (out: Vec<u8>)
        requires
            old(self).wf(),
        ensures
            final(self).wf(),
            out@ == old(self)@.recv.readable(),
            final(self)@ == (StreamView { recv: old(self)@.recv.after_read(), ..old(self)@ }),
    {
        proof {
            crate::reassembler::lemma_within(self.recv@, DEFAULT_WINDOW as int);
        }
        self.recv.read()
    }

    fn ack_point(&self) -> (r: u64)
        requires
            self.wf(),
        ensures
            r == self@.recv.ack_point(),
    {
        self.recv.ack_point()
    }

    /// Note a graceful close; true for the first.
    fn on_close(&mut self) -> (first: bool)
        requires
            old(self).wf(),
        ensures
            final(self).wf(),
            first == !old(self)@.peer.close_received,
            final(self)@ == (StreamView {
                peer: PeerClose { close_received: true, ..old(self)@.peer },
                ..old(self)@
            }),
    {
        let first: bool = !self.peer.close_received;
        self.peer.close_received = true;
        first
    }

    fn abort(&mut self)
        requires
            old(self).wf(),
        ensures
            final(self).wf(),
            final(self)@ == (StreamView { reset: true, ..old(self)@ }),
    {
        self.reset = true;
    }

    /// Emit `[from, to)` as MTU-sized StreamData chunks, flagging FIN on the
    /// chunk that reaches the end of what was written.
    fn emit_range(&mut self, out: &mut Vec<Frame>, from: u64, to: u64)
        requires
            old(self).wf(),
            old(self)@.send.base <= from <= to <= old(self)@.send.next(),
        ensures
            final(self).wf(),
            final(self)@ == (StreamView {
                fin: old(self)@.fin_after(from as int, to as int),
                ..old(self)@
            }),
            crate::wire::frame_views(final(out)@) == crate::wire::frame_views(old(out)@) + old(
                self,
            )@.chunks(from as int, to as int),
    {
        let ghost s0 = self@;
        let ghost out0 = crate::wire::frame_views(out@);
        let ghost all = s0.chunks(from as int, to as int);
        let mut off: u64 = from;
        let ghost mut k: int = 0;
        assert(out0 + all.take(0) =~= out0);
        while off < to
            invariant
                self.wf(),
                s0.send.base <= from <= to <= s0.send.next(),
                all == s0.chunks(from as int, to as int),
                0 <= k <= all.len(),
                off == if k == all.len() {
                    to as int
                } else {
                    from + 1024 * k
                },
                self@ == (StreamView { fin: s0.fin_after(from as int, off as int), ..s0 }),
                crate::wire::frame_views(out@) == out0 + all.take(k),
            decreases to - off,
        {
            let chunk_end: u64 = if to - off > MAX_STREAM_CHUNK as u64 {
                off + MAX_STREAM_CHUNK as u64
            } else {
                to
            };
            let lo: usize = (off - self.send.base) as usize;
            let hi: usize = (chunk_end - self.send.base) as usize;
            assert(self.send.buf.len() >= hi);
            let fin: bool = self.fin.closed && chunk_end == self.send.next && !self.fin.acked;
            if fin {
                self.fin.sent = true;
            }
            let data: Vec<u8> = slice_to_vec(slice_subrange(&self.send.buf, lo, hi));
            let frame = Frame::StreamData { id: self.id, offset: off, data, fin };
            assert(frame@ == all[k]);
            push_frame(out, frame);
            proof {
                assert(out0 + all.take(k + 1) =~= (out0 + all.take(k)).push(all[k]));
                k = k + 1;
            }
            off = chunk_end;
        }
        assert(all.take(k) =~= all);
    }

    fn transmit_data(&mut self, now: u64, out: &mut Vec<Frame>)
        requires
            old(self).wf(),
        ensures
            final(self).wf(),
            final(self)@ == old(self)@.transmit_data(now).0,
            crate::wire::frame_views(final(out)@) == crate::wire::frame_views(old(out)@) + old(
                self,
            )@.transmit_data(now).1,
    {
        let ghost out0 = crate::wire::frame_views(out@);
        assert(out0 + Seq::<FrameView>::empty() =~= out0);
        let cap: u32 = if self.peer_window < self.congestion.cwnd {
            self.peer_window
        } else {
            self.congestion.cwnd
        };
        let limit: u64 = self.send.base.saturating_add(cap as u64);
        let send_end: u64 = if self.send.next < limit { self.send.next } else { limit };
        if self.send.high < send_end {
            let from: u64 = self.send.high;
            self.emit_range(out, from, send_end);
            self.timer.on_sent(send_end, now);
            self.send.high = send_end;
        } else if self.send.base < self.send.high {
            if self.timer.is_due(now) {
                let from: u64 = self.send.base;
                let to: u64 = self.send.high;
                self.emit_range(out, from, to);
                self.timer.back_off(now);
                self.congestion.collapse();
            }
        } else if self.fin.closed && !self.fin.acked && self.send.next == self.send.base && (
        !self.fin.sent || self.timer.is_due(now)) {
            let data: Vec<u8> = Vec::new();
            let frame = Frame::StreamData { id: self.id, offset: self.send.next, data, fin: true };
            let ghost f = frame@;
            push_frame(out, frame);
            assert(out0 + seq![f] =~= out0.push(f));
            self.fin.sent = true;
            self.timer.start = Some(now);
        }
    }

    /// Frames to (re)transmit in round `now`, respecting flow control and the
    /// congestion window.
    fn transmit(&mut self, now: u64, out: &mut Vec<Frame>)
        requires
            old(self).wf(),
        ensures
            final(self).wf(),
            final(self)@ == old(self)@.transmit(now).0,
            crate::wire::frame_views(final(out)@) == crate::wire::frame_views(old(out)@) + old(
                self,
            )@.transmit(now).1,
    {
        let ghost s0 = self@;
        let ghost out0 = crate::wire::frame_views(out@);
        if self.reset {
            assert(out0 + Seq::<FrameView>::empty() =~= out0);
            return;
        }
        if self.needs_open {
            let meta: Vec<u8> = self.meta.clone();
            assert(meta@ =~= self.meta@);
            push_frame(out, Frame::StreamOpen { id: self.id, kind: self.kind, meta });
            self.needs_open = false;
        }
        assert(crate::wire::frame_views(out@) =~= out0 + s0.open_frames());
        assert(self@ == StreamView { needs_open: false, ..s0 });
        self.transmit_data(now, out);
        self.transmit_ack(out);
        self.wait_for_fin();
        assert(crate::wire::frame_views(out@) =~= out0 + s0.transmit(now).1);
    }

    /// Advertise our receive window, and announce our close while the peer has
    /// not acknowledged everything.
    fn transmit_ack(&self, out: &mut Vec<Frame>)
        requires
            self.wf(),
        ensures
            crate::wire::frame_views(final(out)@) == crate::wire::frame_views(old(out)@).push(
                self@.ack_frame(),
            ) + self@.close_frames(),
    {
        let unread: u64 = self.recv.unread();
        let room: u32 = if unread < DEFAULT_WINDOW as u64 {
            DEFAULT_WINDOW - unread as u32
        } else {
            0
        };
        push_frame(
            out,
            Frame::StreamAck { id: self.id, ack: self.recv.ack_point(), window: room },
        );
        let ghost seen = crate::wire::frame_views(out@);
        if let Some(status) = self.fin.status {
            if !self.fin.acked {
                push_frame(out, Frame::StreamClose { id: self.id, status });
            }
        }
        assert(crate::wire::frame_views(out@) =~= seen + self@.close_frames());
    }

    /// Count down the grace period once the peer has gracefully closed but its
    /// FIN is still missing.
    fn wait_for_fin(&mut self)
        requires
            old(self).wf(),
        ensures
            final(self).wf(),
            final(self)@ == old(self)@.waited(),
    {
        if self.peer.close_received && self.fin.closed && matches!(self.peer.fin, HalfState::Open) {
            self.peer.ticks = self.peer.ticks.saturating_add(1);
        }
    }
}

// ---------------------------------------------------------------------------
// Multiplexer
// ---------------------------------------------------------------------------

/// Events surfaced to the application as frames are processed.
#[derive(Debug, Clone, PartialEq, Eq)]
pub enum StreamEvent {
    /// The peer opened a stream.
    Opened { id: u64, kind: StreamKind, meta: Vec<u8> },
    /// More bytes can be read from a stream.
    Readable { id: u64 },
    /// The peer closed a stream gracefully.
    Closed { id: u64, status: i32 },
    /// The peer aborted a stream.
    Reset { id: u64 },
}

/// What an event says.
pub enum EventView {
    Opened { id: u64, kind: StreamKind, meta: Seq<u8> },
    Readable { id: u64 },
    Closed { id: u64, status: i32 },
    Reset { id: u64 },
}

impl View for StreamEvent {
    type V = EventView;

    open spec fn view(&self) -> EventView {
        match *self {
            StreamEvent::Opened { id, kind, meta } => EventView::Opened { id, kind, meta: meta@ },
            StreamEvent::Readable { id } => EventView::Readable { id },
            StreamEvent::Closed { id, status } => EventView::Closed { id, status },
            StreamEvent::Reset { id } => EventView::Reset { id },
        }
    }
}

/// What the events of a vector say.
pub open spec fn event_views(evs: Seq<StreamEvent>) -> Seq<EventView> {
    Seq::new(evs.len(), |i: int| evs[i]@)
}

/// The state of a multiplexer.
pub struct MuxView {
    /// The id that the next stream opened here gets.
    pub next_local_id: u64,
    /// The open streams by id.
    pub streams: Map<u64, StreamView>,
    /// The ids of the open streams, in order.
    pub order: Seq<u64>,
    /// Events not yet taken.
    pub events: Seq<EventView>,
    /// Rounds so far.
    pub now: u64,
}

/// The ids of streams, in order.
pub open spec fn is_order(order: Seq<u64>, streams: Map<u64, StreamView>) -> bool {
    &&& forall|i: int, j: int|
        0 <= i < j < order.len() ==> #[trigger] order[i] < #[trigger] order[j]
    &&& forall|id: u64| #[trigger] streams.contains_key(id) <==> order.contains(id)
}

/// The ids of streams, in order.
pub open spec fn order_of(streams: Map<u64, StreamView>) -> Seq<u64> {
    choose|order: Seq<u64>| is_order(order, streams)
}

proof fn lemma_order_prefix(a: Seq<u64>, b: Seq<u64>, streams: Map<u64, StreamView>, n: int)
    requires
        is_order(a, streams),
        is_order(b, streams),
        0 <= n <= a.len(),
        n <= b.len(),
    ensures
        a.take(n) == b.take(n),
    decreases n,
{
    if n > 0 {
        lemma_order_prefix(a, b, streams, n - 1);
        let i = n - 1;
        assert forall|k: int| 0 <= k < i implies a[k] == b[k] by {
            assert(a.take(i)[k] == b.take(i)[k]);
        }
        assert(streams.contains_key(a[i])) by {
            assert(a.contains(a[i]));
        }
        assert(streams.contains_key(b[i])) by {
            assert(b.contains(b[i]));
        }
        let j = choose|j: int| 0 <= j < b.len() && b[j] == a[i];
        let k = choose|k: int| 0 <= k < a.len() && a[k] == b[i];
        assert(j >= i) by {
            if j < i {
                assert(a[j] < a[i]);
            }
        }
        assert(k >= i) by {
            if k < i {
                assert(b[k] < b[i]);
            }
        }
        assert(a[i] == b[i]) by {
            if j > i {
                assert(b[i] < b[j]);
            }
            if k > i {
                assert(a[i] < a[k]);
            }
        }
        assert(a.take(n) =~= b.take(n));
    }
}

/// Streams have one order only.
pub proof fn lemma_order_unique(a: Seq<u64>, b: Seq<u64>, streams: Map<u64, StreamView>)
    requires
        is_order(a, streams),
    ensures
        is_order(b, streams) ==> a == b,
        is_order(order_of(streams), streams),
{
    if is_order(b, streams) {
        let n = if a.len() <= b.len() {
            a.len()
        } else {
            b.len()
        };
        lemma_order_prefix(a, b, streams, n as int);
        if a.len() > n {
            assert(a.contains(a[n as int]));
            assert(streams.contains_key(a[n as int]));
            let j = choose|j: int| 0 <= j < b.len() && b[j] == a[n as int];
            assert(a.take(n as int)[j] == b.take(n as int)[j]);
            assert(a[j] < a[n as int]);
        }
        if b.len() > n {
            assert(b.contains(b[n as int]));
            assert(streams.contains_key(b[n as int]));
            let j = choose|j: int| 0 <= j < a.len() && a[j] == b[n as int];
            assert(a.take(n as int)[j] == b.take(n as int)[j]);
            assert(b[j] < b[n as int]);
        }
        assert(a.take(n as int) =~= a);
        assert(b.take(n as int) =~= b);
    }
}

/// How many of the ids belong to streams that the peer opened: those of the other
/// parity than the ids given out here.
pub open spec fn peers_among(order: Seq<u64>, local: u64) -> nat
    decreases order.len(),
{
    if order.len() == 0 {
        0
    } else {
        peers_among(order.drop_last(), local) + if order.last() % 2 != local % 2 {
            1nat
        } else {
            0
        }
    }
}

impl MuxView {
    /// The peer may open a stream under this id: the id is one that the peer gives
    /// out, no open stream has it, and there are not too many.
    pub open spec fn admits(self, id: u64) -> bool {
        &&& !self.streams.contains_key(id)
        &&& id % 2 != self.next_local_id % 2
        &&& peers_among(self.order, self.next_local_id) < MAX_PEER_STREAMS
    }

    /// The ids are in order and name the open streams, each under its own id.
    pub open spec fn wf(self) -> bool {
        &&& is_order(self.order, self.streams)
        &&& forall|id: u64| #[trigger]
            self.streams.contains_key(id) ==> self.streams[id].id == id && self.streams[id].wf()
    }

    /// The streams after `frame` was processed.
    pub open spec fn streams_after(self, frame: FrameView) -> Map<u64, StreamView> {
        match frame {
            FrameView::StreamOpen { id, kind, meta } => if self.admits(id) {
                self.streams.insert(id, StreamView::fresh(id, kind, meta, false))
            } else {
                self.streams
            },
            FrameView::StreamData { id, offset, data, fin } => if self.streams.contains_key(id) {
                self.streams.insert(id, self.streams[id].on_data(offset, data, fin))
            } else {
                self.streams
            },
            FrameView::StreamAck { id, ack, window } => if self.streams.contains_key(id) {
                self.streams.insert(id, self.streams[id].on_ack(ack, window, self.now))
            } else {
                self.streams
            },
            FrameView::StreamClose { id, .. } => if self.streams.contains_key(id) {
                let s = self.streams[id];
                self.streams.insert(
                    id,
                    StreamView { peer: PeerClose { close_received: true, ..s.peer }, ..s },
                )
            } else {
                self.streams
            },
            FrameView::StreamReset { id } => if self.streams.contains_key(id) {
                self.streams.insert(id, StreamView { reset: true, ..self.streams[id] })
            } else {
                self.streams
            },
            _ => self.streams,
        }
    }

    /// This is the state that `frame` leaves of `before`.
    pub open spec fn follows(self, before: MuxView, frame: FrameView) -> bool {
        &&& self.streams == before.streams_after(frame)
        &&& self.events == before.events + before.events_for(frame)
        &&& self.next_local_id == before.next_local_id
        &&& self.now == before.now
    }

    /// The state that `frame` leaves.
    pub open spec fn after_frame(self, frame: FrameView) -> MuxView {
        MuxView {
            streams: self.streams_after(frame),
            order: order_of(self.streams_after(frame)),
            events: self.events + self.events_for(frame),
            ..self
        }
    }

    /// The state after a round of sending.
    pub open spec fn after_round(self) -> MuxView {
        MuxView {
            streams: self.streams_left(self.next_round()),
            order: order_of(self.streams_left(self.next_round())),
            now: self.next_round(),
            ..self
        }
    }

    /// The frames that a round of sending gives.
    pub open spec fn round_frames(self) -> Seq<FrameView> {
        self.frames_of(self.next_round(), self.order.len() as int)
    }

    /// The state after a stream was opened here.
    pub open spec fn after_open(self, kind: StreamKind, meta: Seq<u8>) -> MuxView {
        let id = self.next_local_id;
        let streams = self.streams.insert(id, StreamView::fresh(id, kind, meta, true));
        MuxView {
            streams,
            order: order_of(streams),
            next_local_id: ((id + 2) % 0x1_0000_0000_0000_0000) as u64,
            ..self
        }
    }

    /// The state after bytes were queued on a stream.
    pub open spec fn written(self, id: u64, data: Seq<u8>) -> MuxView {
        if self.streams.contains_key(id) {
            MuxView { streams: self.streams.insert(id, self.streams[id].write(data)), ..self }
        } else {
            self
        }
    }

    /// The state after the send side of a stream was closed.
    pub open spec fn closed(self, id: u64, status: i32) -> MuxView {
        if self.streams.contains_key(id) {
            MuxView { streams: self.streams.insert(id, self.streams[id].close(status)), ..self }
        } else {
            self
        }
    }

    /// The state after a stream was aborted.
    pub open spec fn aborted(self, id: u64) -> MuxView {
        if self.streams.contains_key(id) {
            MuxView {
                streams: self.streams.insert(
                    id,
                    StreamView { reset: true, ..self.streams[id] },
                ),
                ..self
            }
        } else {
            self
        }
    }

    /// The bytes that can be read from a stream.
    pub open spec fn readable(self, id: u64) -> Seq<u8> {
        if self.streams.contains_key(id) {
            self.streams[id].recv.readable()
        } else {
            Seq::empty()
        }
    }

    /// The state after they were read.
    pub open spec fn after_read(self, id: u64) -> MuxView {
        if self.streams.contains_key(id) {
            MuxView {
                streams: self.streams.insert(
                    id,
                    StreamView {
                        recv: self.streams[id].recv.after_read(),
                        ..self.streams[id]
                    },
                ),
                ..self
            }
        } else {
            self
        }
    }

    /// How many bytes of a stream are written and not acknowledged.
    pub open spec fn in_flight(self, id: u64) -> nat {
        if self.streams.contains_key(id) {
            self.streams[id].send.buf.len()
        } else {
            0
        }
    }

    /// The peer closed its side of a stream and every byte was read.
    pub open spec fn recv_finished(self, id: u64) -> bool {
        self.streams.contains_key(id) ==> self.streams[id].recv_finished()
    }

    /// The order of the ids follows from the streams.
    pub proof fn lemma_order(self)
        requires
            self.wf(),
        ensures
            self.order == order_of(self.streams),
    {
        lemma_order_unique(self.order, order_of(self.streams), self.streams);
    }

    /// The events that `frame` gives rise to: a stream opened, new contiguous
    /// bytes, the first close, or a reset.
    pub open spec fn events_for(self, frame: FrameView) -> Seq<EventView> {
        match frame {
            FrameView::StreamOpen { id, kind, meta } => if self.admits(id) {
                seq![EventView::Opened { id, kind, meta }]
            } else {
                Seq::empty()
            },
            FrameView::StreamData { id, offset, data, fin } => if self.streams.contains_key(id)
                && self.streams[id].on_data(offset, data, fin).recv.ack_point() > self.streams[id].recv.ack_point() {
                seq![EventView::Readable { id }]
            } else {
                Seq::empty()
            },
            FrameView::StreamClose { id, status } => if self.streams.contains_key(id)
                && !self.streams[id].peer.close_received {
                seq![EventView::Closed { id, status }]
            } else {
                Seq::empty()
            },
            FrameView::StreamReset { id } => if self.streams.contains_key(id) {
                seq![EventView::Reset { id }]
            } else {
                Seq::empty()
            },
            _ => Seq::empty(),
        }
    }

    /// The round that `poll_transmit` starts.
    pub open spec fn next_round(self) -> u64 {
        if self.now == u64::MAX {
            0
        } else {
            (self.now + 1) as u64
        }
    }

    /// The frames that the first `n` streams send in round `now`: a reset, or
    /// what the stream has to transmit.
    pub open spec fn frames_of(self, now: u64, n: int) -> Seq<FrameView>
        decreases n,
    {
        if n <= 0 {
            Seq::empty()
        } else {
            let s = self.streams[self.order[n - 1]];
            self.frames_of(now, n - 1) + if s.reset {
                seq![FrameView::StreamReset { id: s.id }]
            } else {
                s.transmit(now).1
            }
        }
    }

    /// Whether a stream is given up in round `now`: it was reset, or it is
    /// closed in both directions.
    pub open spec fn retired(self, id: u64, now: u64) -> bool {
        self.streams[id].reset || self.streams[id].transmit(now).0.fully_done()
    }

    /// The streams left after round `now`.
    pub open spec fn streams_left(self, now: u64) -> Map<u64, StreamView> {
        Map::new(
            |id: u64| self.streams.contains_key(id) && !self.retired(id, now),
            |id: u64| self.streams[id].transmit(now).0,
        )
    }
}

/// Multiplexes many reliable streams over one session.
pub struct StreamMux {
    /// Streams opened here have ids of one parity (client even, server odd).
    next_local_id: u64,
    streams: Vec<StreamState>,
    events: Vec<StreamEvent>,
    now: u64,
}

/// A read handle returned to callers (just the id).
pub type Stream = u64;

spec fn ids_of(s: Seq<StreamState>) -> Seq<u64> {
    Seq::new(s.len(), |k: int| s[k].id)
}

spec fn has_id(s: Seq<StreamState>, k: int, id: u64) -> bool {
    0 <= k < s.len() && s[k].id == id
}

spec fn map_of(s: Seq<StreamState>) -> Map<u64, StreamView> {
    Map::new(
        |id: u64| exists|k: int| has_id(s, k, id),
        |id: u64| s[choose|k: int| has_id(s, k, id)]@,
    )
}

spec fn sorted(s: Seq<StreamState>) -> bool {
    &&& forall|i: int, j: int| 0 <= i < j < s.len() ==> (#[trigger] s[i]).id < (#[trigger] s[j]).id
    &&& forall|i: int| 0 <= i < s.len() ==> (#[trigger] s[i]).wf()
}

proof fn lemma_map_at(s: Seq<StreamState>, k: int)
    requires
        sorted(s),
        0 <= k < s.len(),
    ensures
        map_of(s).contains_key(s[k].id),
        map_of(s)[s[k].id] == s[k]@,
{
    let id = s[k].id;
    assert(has_id(s, k, id));
    let c = choose|c: int| has_id(s, c, id);
    if c < k {
        assert(s[c].id < s[k].id);
    } else if k < c {
        assert(s[k].id < s[c].id);
    }
}

proof fn lemma_map_update(s: Seq<StreamState>, k: int, t: StreamState)
    requires
        sorted(s),
        0 <= k < s.len(),
        t.id == s[k].id,
        t.wf(),
    ensures
        sorted(s.update(k, t)),
        map_of(s.update(k, t)) == map_of(s).insert(t.id, t@),
        ids_of(s.update(k, t)) == ids_of(s),
{
    let out = s.update(k, t);
    let m = map_of(s).insert(t.id, t@);
    assert(ids_of(out) =~= ids_of(s));
    assert forall|id: u64| #[trigger] map_of(out).contains_key(id) == m.contains_key(id) by {
        if map_of(out).contains_key(id) {
            let c = choose|c: int| has_id(out, c, id);
            assert(has_id(s, c, id));
        }
        if m.contains_key(id) {
            if id == t.id {
                assert(has_id(out, k, id));
            } else {
                let c = choose|c: int| has_id(s, c, id);
                assert(has_id(out, c, id));
            }
        }
    }
    assert forall|id: u64| #[trigger] map_of(out).contains_key(id) implies map_of(out)[id]
        == m[id] by {
        let c = choose|c: int| has_id(out, c, id);
        lemma_map_at(out, c);
        lemma_map_at(s, c);
        lemma_map_at(out, k);
        if c < k {
            assert(s[c].id < s[k].id);
        } else if k < c {
            assert(s[k].id < s[c].id);
        }
    }
    assert(map_of(out) =~= m);
}

proof fn lemma_map_insert(s: Seq<StreamState>, k: int, t: StreamState)
    requires
        sorted(s),
        0 <= k <= s.len(),
        forall|i: int| 0 <= i < k ==> (#[trigger] s[i]).id < t.id,
        forall|i: int| k <= i < s.len() ==> t.id < (#[trigger] s[i]).id,
        t.wf(),
    ensures
        sorted(s.insert(k, t)),
        map_of(s.insert(k, t)) == map_of(s).insert(t.id, t@),
{
    let out = s.insert(k, t);
    assert forall|i: int| 0 <= i < out.len() implies #[trigger] out[i] == if i < k {
        s[i]
    } else if i == k {
        t
    } else {
        s[i - 1]
    } by {}
    assert(sorted(out));
    assert forall|id: u64| map_of(out).contains_key(id) == #[trigger] map_of(s).insert(
        t.id,
        t@,
    ).contains_key(id) && (map_of(out).contains_key(id) ==> map_of(out)[id] == map_of(s).insert(
        t.id,
        t@,
    )[id]) by {
        if map_of(out).contains_key(id) {
            let c = choose|c: int| has_id(out, c, id);
            lemma_map_at(out, c);
            if c < k {
                lemma_map_at(s, c);
            } else if c > k {
                lemma_map_at(s, c - 1);
            }
        }
        if map_of(s).contains_key(id) {
            let c = choose|c: int| has_id(s, c, id);
            if c < k {
                assert(has_id(out, c, id));
            } else {
                assert(has_id(out, c + 1, id));
            }
        }
        assert(has_id(out, k, t.id));
    }
    assert(map_of(out) =~= map_of(s).insert(t.id, t@));
}

impl View for StreamMux {
    type V = MuxView;

    closed spec fn view(&self) -> MuxView {
        MuxView {
            next_local_id: self.next_local_id,
            streams: map_of(self.streams@),
            order: ids_of(self.streams@),
            events: event_views(self.events@),
            now: self.now,
        }
    }
}

impl StreamMux {
    /// The streams are in order, each in a valid state.
    pub closed spec fn wf(&self) -> bool {
        sorted(self.streams@)
    }

    /// A valid multiplexer has a valid view.
    pub proof fn lemma_view_wf(&self)
        requires
            self.wf(),
        ensures
            self@.wf(),
    {
        let s = self.streams@;
        let v = self@;
        assert forall|id: u64| #[trigger] v.streams.contains_key(id) implies v.order.contains(id)
            && v.streams[id].id == id && v.streams[id].wf() by {
            let k = choose|k: int| has_id(s, k, id);
            lemma_map_at(s, k);
            assert(v.order[k] == id);
        }
        assert forall|id: u64| v.order.contains(id) implies #[trigger] v.streams.contains_key(id) by {
            let k = choose|k: int| 0 <= k < v.order.len() && v.order[k] == id;
            lemma_map_at(s, k);
        }
    }

    /// `is_client` controls local stream-id parity to avoid collisions.
    pub fn new(is_client: bool) -> (r: StreamMux)
        ensures
            r.wf(),
            r@ == (MuxView {
                next_local_id: if is_client {
                    0
                } else {
                    1
                },
                streams: Map::empty(),
                order: Seq::empty(),
                events: Seq::empty(),
                now: 0,
            }),
    {
        let r = StreamMux {
            next_local_id: if is_client { 0 } else { 1 },
            streams: Vec::new(),
            events: Vec::new(),
            now: 0,
        };
        assert(r@.streams =~= Map::<u64, StreamView>::empty());
        assert(r@.order =~= Seq::<u64>::empty());
        assert(r@.events =~= Seq::<EventView>::empty());
        r
    }

    /// The index of the first stream whose id is not below `id`.
    fn position(&self, id: u64) -> (k: usize)
        requires
            self.wf(),
        ensures
            k <= self.streams@.len(),
            forall|i: int| 0 <= i < k ==> (#[trigger] self.streams@[i]).id < id,
            forall|i: int| k <= i < self.streams@.len() ==> id <= (#[trigger] self.streams@[i]).id,
            self@.streams.contains_key(id) <==> k < self.streams@.len() && self.streams@[k as int].id
                == id,
            self@.streams.contains_key(id) ==> self@.streams[id] == self.streams@[k as int]@,
    {
        let mut k: usize = 0;
        while k < self.streams.len() && self.streams[k].id < id
            invariant
                k <= self.streams@.len(),
                forall|i: int| 0 <= i < k ==> (#[trigger] self.streams@[i]).id < id,
            decreases self.streams@.len() - k,
        {
            k += 1;
        }
        proof {
            if k < self.streams@.len() {
                assert forall|i: int| k <= i < self.streams@.len() implies id <= (
                #[trigger] self.streams@[i]).id by {
                    if i > k {
                        assert(self.streams@[k as int].id < self.streams@[i].id);
                    }
                }
                if self.streams@[k as int].id == id {
                    lemma_map_at(self.streams@, k as int);
                }
            }
            if self@.streams.contains_key(id) {
                let c = choose|c: int| has_id(self.streams@, c, id);
                assert(has_id(self.streams@, c, id));
                if c != k {
                    assert(self.streams@[k as int].id < self.streams@[c].id || c < k);
                }
            }
        }
        k
    }

    /// The index of a stream.
    fn find(&self, id: u64) -> (r: Option<usize>)
        requires
            self.wf(),
        ensures
            r is Some <==> self@.streams.contains_key(id),
            r matches Some(k) ==> k < self.streams@.len() && self.streams@[k as int].id == id
                && self@.streams[id] == self.streams@[k as int]@,
    {
        let k: usize = self.position(id);
        if k < self.streams.len() && self.streams[k].id == id {
            Some(k)
        } else {
            None
        }
    }

    /// Add a stream, in place of one with the same id if there is one.
    fn put(&mut self, s: StreamState)
        requires
            old(self).wf(),
            s.wf(),
        ensures
            final(self).wf(),
            final(self)@.streams == old(self)@.streams.insert(s.id, s@),
            final(self).next_local_id == old(self).next_local_id,
            final(self).events == old(self).events,
            final(self).now == old(self).now,
    {
        let k: usize = self.position(s.id);
        let ghost before = self.streams@;
        if k < self.streams.len() && self.streams[k].id == s.id {
            proof {
                lemma_map_update(before, k as int, s);
            }
            self.streams[k] = s;
        } else {
            proof {
                lemma_map_insert(before, k as int, s);
            }
            self.streams.insert(k, s);
        }
    }

    fn push_event(&mut self, ev: StreamEvent)
        ensures
            final(self).streams == old(self).streams,
            final(self)@ == (MuxView { events: old(self)@.events.push(ev@), ..old(self)@ }),
    {
        let ghost before = self.events@;
        self.events.push(ev);
        assert(event_views(self.events@) =~= event_views(before).push(ev@));
    }

    /// Open a new locally-initiated stream; returns its id.
    pub fn open(&mut self, kind: StreamKind, meta: Vec<u8>) -> (id: Stream)
        requires
            old(self).wf(),
        ensures
            final(self).wf(),
            final(self)@.wf(),
            id == old(self)@.next_local_id,
            final(self)@ == old(self)@.after_open(kind, meta@),
    {
        let id: u64 = self.next_local_id;
        self.next_local_id = self.next_local_id.wrapping_add(2);
        self.put(StreamState::new(id, kind, meta, true));
        proof {
            self.lemma_view_wf();
            self@.lemma_order();
        }
        id
    }

    /// Queue bytes to send on a stream.
    pub fn write(&mut self, id: Stream, data: &[u8])
        requires
            old(self).wf(),
        ensures
            final(self).wf(),
            final(self)@ == old(self)@.written(id, data@),
    {
        if let Some(k) = self.find(id) {
            let ghost before = self.streams@;
            self.streams[k].write(data);
            proof {
                lemma_map_update(before, k as int, self.streams@[k as int]);
            }
        }
    }

    /// Close our send side, optionally signalling an exit status.
    pub fn close(&mut self, id: Stream, status: i32)
        requires
            old(self).wf(),
        ensures
            final(self).wf(),
            final(self)@ == old(self)@.closed(id, status),
    {
        if let Some(k) = self.find(id) {
            let ghost before = self.streams@;
            self.streams[k].close(status);
            proof {
                lemma_map_update(before, k as int, self.streams@[k as int]);
            }
        }
    }

    /// Abort a stream immediately.
    pub fn reset(&mut self, id: Stream)
        requires
            old(self).wf(),
        ensures
            final(self).wf(),
            final(self)@ == old(self)@.aborted(id),
    {
        if let Some(k) = self.find(id) {
            let ghost before = self.streams@;
            self.streams[k].abort();
            proof {
                lemma_map_update(before, k as int, self.streams@[k as int]);
            }
        }
    }

    /// Read contiguous received bytes from a stream.
    pub fn read(&mut self, id: Stream) -> (out: Vec<u8>)
        requires
            old(self).wf(),
        ensures
            final(self).wf(),
            out@ == old(self)@.readable(id),
            final(self)@ == old(self)@.after_read(id),
    {
        match self.find(id) {
            Some(k) => {
                let ghost before = self.streams@;
                let out: Vec<u8> = self.streams[k].read();
                proof {
                    lemma_map_update(before, k as int, self.streams@[k as int]);
                }
                out
            },
            None => Vec::new(),
        }
    }

    /// True once the peer has closed and we've read everything.
    pub fn is_recv_finished(&self, id: Stream) -> (r: bool)
        requires
            self.wf(),
        ensures
            r == self@.recv_finished(id),
    {
        match self.find(id) {
            Some(k) => {
                assert(self.streams@[k as int].wf());
                self.streams[k].recv_finished()
            },
            None => true,
        }
    }

    /// Drain accumulated events.
    pub fn take_events(&mut self) -> (evs: Vec<StreamEvent>)
        requires
            old(self).wf(),
        ensures
            final(self).wf(),
            event_views(evs@) == old(self)@.events,
            final(self)@ == (MuxView { events: Seq::empty(), ..old(self)@ }),
    {
        let mut evs: Vec<StreamEvent> = Vec::new();
        std::mem::swap(&mut evs, &mut self.events);
        assert(event_views(self.events@) =~= Seq::<EventView>::empty());
        evs
    }

    /// How many streams the peer has open.
    fn peer_streams(&self) -> (r: usize)
        ensures
            r == peers_among(self@.order, self@.next_local_id),
            r <= self.streams@.len(),
    {
        let ghost all = ids_of(self.streams@);
        let mut i: usize = 0;
        let mut r: usize = 0;
        while i < self.streams.len()
            invariant
                i <= self.streams@.len(),
                r <= i,
                all == ids_of(self.streams@),
                r == peers_among(all.take(i as int), self.next_local_id),
            decreases self.streams@.len() - i,
        {
            assert(all.take(i + 1).drop_last() =~= all.take(i as int));
            if self.streams[i].id % 2 != self.next_local_id % 2 {
                r += 1;
            }
            i += 1;
        }
        assert(all.take(i as int) =~= all);
        r
    }

    fn on_open(&mut self, id: u64, kind: StreamKind, meta: Vec<u8>)
        requires
            old(self).wf(),
        ensures
            final(self).wf(),
            final(self)@.follows(
                old(self)@,
                (FrameView::StreamOpen { id, kind, meta: meta@ }),
            ),
    {
        let ghost v0 = self@;
        assert(v0.events + Seq::<EventView>::empty() =~= v0.events);
        if self.find(id).is_none() && id % 2 != self.next_local_id % 2 && self.peer_streams()
            < MAX_PEER_STREAMS {
            let copy: Vec<u8> = meta.clone();
            assert(copy@ =~= meta@);
            self.put(StreamState::new(id, kind, copy, false));
            self.push_event(StreamEvent::Opened { id, kind, meta });
        }
    }

    fn on_data(&mut self, id: u64, offset: u64, data: Vec<u8>, fin: bool)
        requires
            old(self).wf(),
        ensures
            final(self).wf(),
            final(self)@.follows(
                old(self)@,
                (FrameView::StreamData { id, offset, data: data@, fin }),
            ),
    {
        let ghost v0 = self@;
        assert(v0.events + Seq::<EventView>::empty() =~= v0.events);
        if let Some(k) = self.find(id) {
            let ghost before = self.streams@;
            let had: u64 = self.streams[k].ack_point();
            self.streams[k].on_data(offset, data, fin);
            proof {
                lemma_map_update(before, k as int, self.streams@[k as int]);
            }
            if self.streams[k].ack_point() > had {
                self.push_event(StreamEvent::Readable { id });
            }
        }
    }

    fn on_ack(&mut self, id: u64, ack: u64, window: u32)
        requires
            old(self).wf(),
        ensures
            final(self).wf(),
            final(self)@.follows(old(self)@, (FrameView::StreamAck { id, ack, window })),
    {
        let ghost v0 = self@;
        assert(v0.events + Seq::<EventView>::empty() =~= v0.events);
        let now: u64 = self.now;
        if let Some(k) = self.find(id) {
            let ghost before = self.streams@;
            self.streams[k].on_ack(ack, window, now);
            proof {
                lemma_map_update(before, k as int, self.streams@[k as int]);
            }
        }
    }

    fn on_close(&mut self, id: u64, status: i32)
        requires
            old(self).wf(),
        ensures
            final(self).wf(),
            final(self)@.follows(old(self)@, (FrameView::StreamClose { id, status })),
    {
        let ghost v0 = self@;
        assert(v0.events + Seq::<EventView>::empty() =~= v0.events);
        // The end of the peer's bytes is not taken from here: a close that
        // overtakes the FIN-bearing data would otherwise end the stream before
        // that data arrives.
        if let Some(k) = self.find(id) {
            let ghost before = self.streams@;
            let first: bool = self.streams[k].on_close();
            proof {
                lemma_map_update(before, k as int, self.streams@[k as int]);
            }
            if first {
                self.push_event(StreamEvent::Closed { id, status });
            }
        }
    }

    fn on_reset(&mut self, id: u64)
        requires
            old(self).wf(),
        ensures
            final(self).wf(),
            final(self)@.follows(old(self)@, (FrameView::StreamReset { id })),
    {
        let ghost v0 = self@;
        assert(v0.events + Seq::<EventView>::empty() =~= v0.events);
        if let Some(k) = self.find(id) {
            let ghost before = self.streams@;
            self.streams[k].abort();
            proof {
                lemma_map_update(before, k as int, self.streams@[k as int]);
            }
            self.push_event(StreamEvent::Reset { id });
        }
    }

    /// Process one incoming stream-class frame. Non-stream frames are ignored, and
    /// so is what a peer that keeps to the rules does not send: data whose end lies
    /// beyond our window or the 64-bit offset space, another end of its bytes than
    /// the first it told, acknowledgements of what was not sent, and streams opened
    /// under an id that is ours to give out or beyond the number allowed.
    pub fn on_frame(&mut self, frame: Frame)
        requires
            old(self).wf(),
        ensures
            final(self).wf(),
            final(self)@.wf(),
            final(self)@ == old(self)@.after_frame(frame@),
    {
        let ghost v0 = self@;
        match frame {
            Frame::StreamOpen { id, kind, meta } => self.on_open(id, kind, meta),
            Frame::StreamData { id, offset, data, fin } => self.on_data(id, offset, data, fin),
            Frame::StreamAck { id, ack, window } => self.on_ack(id, ack, window),
            Frame::StreamClose { id, status } => self.on_close(id, status),
            Frame::StreamReset { id } => self.on_reset(id),
            _ => {
                assert(v0.events + Seq::<EventView>::empty() =~= v0.events);
            },
        }
        proof {
            self.lemma_view_wf();
            self@.lemma_order();
        }
    }

    /// Collect all frames that should be sent now.
    pub fn poll_transmit(&mut self) -> (out: Vec<Frame>)
        requires
            old(self).wf(),
        ensures
            final(self).wf(),
            final(self)@.wf(),
            final(self)@ == old(self)@.after_round(),
            crate::wire::frame_views(out@) == old(self)@.round_frames(),
    {
        let ghost v0 = self@;
        let ghost s0 = self.streams@;
        self.now = self.now.wrapping_add(1);
        let now: u64 = self.now;
        let mut out: Vec<Frame> = Vec::new();
        let n: usize = self.streams.len();
        let mut i: usize = 0;
        assert(crate::wire::frame_views(out@) =~= Seq::<FrameView>::empty());
        while i < n
            invariant
                n == s0.len(),
                i <= n,
                self.streams@.len() == n,
                sorted(s0),
                sorted(self.streams@),
                v0.streams == map_of(s0),
                v0.order == ids_of(s0),
                forall|k: int|
                    0 <= k < i ==> (#[trigger] self.streams@[k])@ == s0[k]@.transmit(now).0,
                forall|k: int| i <= k < n ==> #[trigger] self.streams@[k] == s0[k],
                forall|k: int| 0 <= k < n ==> (#[trigger] self.streams@[k]).id == s0[k].id,
                crate::wire::frame_views(out@) == v0.frames_of(now, i as int),
                self.now == now,
                self.events == old(self).events,
                self.next_local_id == old(self).next_local_id,
            decreases n - i,
        {
            proof {
                lemma_map_at(s0, i as int);
            }
            let ghost seen = crate::wire::frame_views(out@);
            if self.streams[i].reset {
                let id: u64 = self.streams[i].id;
                push_frame(&mut out, Frame::StreamReset { id });
                assert(seen + seq![FrameView::StreamReset { id }] =~= crate::wire::frame_views(out@));
            } else {
                self.streams[i].transmit(now, &mut out);
            }
            i += 1;
        }
        let ghost s1 = self.streams@;
        let mut i: usize = 0;
        while i < self.streams.len()
            invariant
                i <= self.streams@.len(),
                sorted(s1),
                sorted(self.streams@),
                forall|k: int| 0 <= k < i ==> !gone((#[trigger] self.streams@[k])@),
                forall|id: u64| #[trigger]
                    map_of(self.streams@).contains_key(id) ==> map_of(s1).contains_key(id) && map_of(
                        self.streams@,
                    )[id] == map_of(s1)[id],
                forall|id: u64| #[trigger]
                    map_of(s1).contains_key(id) && !gone(map_of(s1)[id]) ==> map_of(
                        self.streams@,
                    ).contains_key(id),
                self.now == now,
                self.events == old(self).events,
                self.next_local_id == old(self).next_local_id,
            decreases self.streams@.len() - i,
        {
            let ghost cur = self.streams@;
            proof {
                lemma_map_at(cur, i as int);
            }
            if self.streams[i].reset || self.streams[i].fully_done() {
                proof {
                    lemma_map_remove(cur, i as int);
                }
                self.streams.remove(i);
            } else {
                i += 1;
            }
        }
        proof {
            self.lemma_view_wf();
            self@.lemma_order();
            lemma_left(s0, s1, self.streams@, now);
        }
        out
    }

    /// Whether any streams are currently open (so the driver knows it has
    /// stream-class frames to send and should keep polling).
    pub fn has_traffic(&self) -> (r: bool)
        requires
            self.wf(),
        ensures
            r == (self@.order.len() > 0),
            r <==> exists|id: u64| self@.streams.contains_key(id),
    {
        proof {
            self.lemma_view_wf();
            if self.streams@.len() > 0 {
                assert(self@.order.contains(self@.order[0]));
                assert(self@.streams.contains_key(self@.order[0]));
            }
        }
        self.streams.len() > 0
    }

    /// Bytes written but not yet acked by the peer (send-side backlog).
    pub fn in_flight(&self, id: Stream) -> (r: u64)
        requires
            self.wf(),
        ensures
            r == self@.in_flight(id),
    {
        match self.find(id) {
            Some(k) => self.streams[k].send.buf.len() as u64,
            None => 0,
        }
    }

    /// Bytes received contiguously but not yet read by the app (recv buffer).
    pub fn recv_buffered(&self, id: Stream) -> (r: u64)
        requires
            self.wf(),
        ensures
            r == if self@.streams.contains_key(id) {
                self@.streams[id].recv.unread()
            } else {
                0
            },
            r <= DEFAULT_WINDOW,
    {
        match self.find(id) {
            Some(k) => {
                assert(self.streams@[k as int].wf());
                proof {
                    crate::reassembler::lemma_within(
                        self.streams@[k as int].recv@,
                        DEFAULT_WINDOW as int,
                    );
                }
                self.streams[k].recv.unread()
            },
            None => 0,
        }
    }
}

/// The stream is given up.
spec fn gone(s: StreamView) -> bool {
    s.reset || s.fully_done()
}

proof fn lemma_map_remove(s: Seq<StreamState>, k: int)
    requires
        sorted(s),
        0 <= k < s.len(),
    ensures
        sorted(s.remove(k)),
        forall|id: u64| #[trigger]
            map_of(s.remove(k)).contains_key(id) <==> map_of(s).contains_key(id) && id != s[k].id,
        forall|id: u64| #[trigger]
            map_of(s.remove(k)).contains_key(id) ==> map_of(s.remove(k))[id] == map_of(s)[id],
{
    let out = s.remove(k);
    assert forall|i: int| 0 <= i < out.len() implies #[trigger] out[i] == if i < k {
        s[i]
    } else {
        s[i + 1]
    } by {}
    assert(sorted(out));
    assert forall|id: u64| #[trigger] map_of(out).contains_key(id) implies map_of(s).contains_key(id) && id
        != s[k].id && map_of(out)[id] == map_of(s)[id] by {
        let c = choose|c: int| has_id(out, c, id);
        lemma_map_at(out, c);
        if c < k {
            lemma_map_at(s, c);
            assert(s[c].id < s[k].id);
        } else {
            lemma_map_at(s, c + 1);
            assert(s[k].id < s[c + 1].id);
        }
    }
    assert forall|id: u64| map_of(s).contains_key(id) && id != s[k].id implies #[trigger] map_of(
        out,
    ).contains_key(id) by {
        let c = choose|c: int| has_id(s, c, id);
        if c < k {
            lemma_map_at(out, c);
        } else {
            lemma_map_at(out, c - 1);
        }
    }
}

/// What is left of the streams `s0` after each transmitted (`s1`) and those
/// given up were dropped (`s2`).
proof fn lemma_left(s0: Seq<StreamState>, s1: Seq<StreamState>, s2: Seq<StreamState>, now: u64)
    requires
        sorted(s0),
        sorted(s1),
        sorted(s2),
        s0.len() == s1.len(),
        forall|k: int| 0 <= k < s1.len() ==> (#[trigger] s1[k])@ == s0[k]@.transmit(now).0,
        forall|k: int| 0 <= k < s1.len() ==> (#[trigger] s1[k]).id == s0[k].id,
        forall|k: int| 0 <= k < s2.len() ==> !gone((#[trigger] s2[k])@),
        forall|id: u64| #[trigger]
            map_of(s2).contains_key(id) ==> map_of(s1).contains_key(id) && map_of(s2)[id] == map_of(s1)[id],
        forall|id: u64| #[trigger]
            map_of(s1).contains_key(id) && !gone(map_of(s1)[id]) ==> map_of(s2).contains_key(id),
    ensures
        forall|v: MuxView|
            v.streams == map_of(s0) ==> map_of(s2) == #[trigger] v.streams_left(now),
{
    assert forall|v: MuxView| v.streams == map_of(s0) implies map_of(s2) == #[trigger] v.streams_left(
        now,
    ) by {
        let left = v.streams_left(now);
        assert forall|id: u64| #[trigger] map_of(s1).contains_key(id) == map_of(s0).contains_key(id) && (
        map_of(s0).contains_key(id) ==> map_of(s1)[id] == map_of(s0)[id].transmit(now).0) by {
            if map_of(s0).contains_key(id) {
                let c = choose|c: int| has_id(s0, c, id);
                lemma_map_at(s0, c);
                lemma_map_at(s1, c);
                assert(s1[c].id == s0[c].id);
            }
            if map_of(s1).contains_key(id) {
                let c = choose|c: int| has_id(s1, c, id);
                assert(s1[c].id == s0[c].id);
                lemma_map_at(s0, c);
            }
        }
        assert forall|id: u64| map_of(s2).contains_key(id) == #[trigger] left.contains_key(id) && (map_of(
            s2,
        ).contains_key(id) ==> map_of(s2)[id] == left[id]) by {
            if map_of(s2).contains_key(id) {
                let c = choose|c: int| has_id(s2, c, id);
                lemma_map_at(s2, c);
                assert(!gone(s2[c]@));
                assert(map_of(s1).contains_key(id));
            }
            if left.contains_key(id) {
                assert(map_of(s1).contains_key(id));
            }
        }
        assert(map_of(s2) =~= left);
    }
}

} // verus!
