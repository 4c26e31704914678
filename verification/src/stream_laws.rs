//! What the stream multiplexer promises of a stream as a whole.

use crate::reassembler::RecvView;
use crate::stream::{
    EventView, HalfState, MuxView, SendView, StreamView, CLOSE_GRACE_TICKS, DEFAULT_WINDOW,
    MAX_STREAM_CHUNK,
};
use crate::wire::FrameView;
use vstd::prelude::*;

verus! {

/// The send buffer holds what is left to acknowledge of `written`, all bytes
/// ever written to the stream.
pub open spec fn sends(send: SendView, written: Seq<u8>) -> bool {
    &&& send.wf()
    &&& send.next() == written.len()
    &&& send.buf == written.skip(send.base)
}

/// A data frame of stream `id` carries bytes of `written` at their place, and
/// marks the end of the stream only where `written` ends.
pub open spec fn carries(f: FrameView, id: u64, written: Seq<u8>) -> bool {
    f matches FrameView::StreamData { id: i, offset, data, fin } ==> {
        &&& i == id
        &&& offset + data.len() <= written.len()
        &&& data == written.subrange(offset as int, offset + data.len())
        &&& fin ==> offset + data.len() == written.len()
    }
}

/// A new stream has sent nothing of nothing.
pub proof fn law_fresh_sends(id: u64, kind: crate::wire::StreamKind, meta: Seq<u8>, needs_open: bool)
    ensures
        sends(StreamView::fresh(id, kind, meta, needs_open).send, Seq::empty()),
        StreamView::fresh(id, kind, meta, needs_open).recv.follows(Seq::empty()),
{
    assert(Seq::<u8>::empty().skip(0) =~= Seq::<u8>::empty());
}

/// Writing appends to what the stream carries.
pub proof fn law_write_appends(s: StreamView, written: Seq<u8>, data: Seq<u8>)
    requires
        sends(s.send, written),
        written.len() + data.len() <= u64::MAX,
    ensures
        sends(s.write(data).send, written + data),
{
    assert(s.send.buf + data =~= (written + data).skip(s.send.base));
}

/// An acknowledgement loses none of the bytes not acknowledged, and releases none
/// that was not sent.
pub proof fn law_ack_keeps_unacked(s: StreamView, written: Seq<u8>, ack: u64, window: u32, now: u64)
    requires
        sends(s.send, written),
    ensures
        sends(s.on_ack(ack, window, now).send, written),
        s.on_ack(ack, window, now).send.base >= s.send.base,
        s.on_ack(ack, window, now).send.base <= crate::stream::max(
            s.send.base,
            crate::stream::min(ack as int, s.send.high),
        ),
        s.on_ack(ack, window, now).send.high == s.send.high,
{
    let t = s.on_ack(ack, window, now);
    assert(t.send.buf =~= written.skip(t.send.base));
}

proof fn lemma_chunks_carry(s: StreamView, written: Seq<u8>, from: int, to: int)
    requires
        sends(s.send, written),
        s.send.base <= from <= to <= s.send.next(),
    ensures
        forall|i: int|
            0 <= i < s.chunks(from, to).len() ==> carries(
                #[trigger] s.chunks(from, to)[i],
                s.id,
                written,
            ),
{
    let frames = s.chunks(from, to);
    assert forall|i: int| 0 <= i < frames.len() implies carries(#[trigger] frames[i], s.id, written) by {
        let lo = from + MAX_STREAM_CHUNK * i;
        let hi = crate::stream::min(lo + MAX_STREAM_CHUNK, to);
        assert(s.send.buf.subrange(lo - s.send.base, hi - s.send.base) =~= written.subrange(lo, hi));
    }
}

/// Every data frame that a stream transmits, the first time or again, carries
/// bytes that were written, at their place.
pub proof fn law_transmit_carries(s: StreamView, written: Seq<u8>, now: u64)
    requires
        sends(s.send, written),
    ensures
        sends(s.transmit(now).0.send, written),
        forall|i: int|
            0 <= i < s.transmit(now).1.len() ==> carries(
                #[trigger] s.transmit(now).1[i],
                s.id,
                written,
            ),
{
    if !s.reset {
        let t = StreamView { needs_open: false, ..s };
        lemma_chunks_carry(t, written, t.send.high, crate::stream::max(t.send.high, t.send_end()));
        lemma_chunks_carry(t, written, t.send.base, t.send.high);
        let (u, data) = t.transmit_data(now);
        assert(Seq::<u8>::empty() =~= written.subrange(written.len() as int, written.len() as int));
        assert forall|i: int| 0 <= i < data.len() implies carries(#[trigger] data[i], s.id, written) by {}
        let all = s.transmit(now).1;
        let open = s.open_frames();
        assert forall|i: int| 0 <= i < all.len() implies carries(#[trigger] all[i], s.id, written) by {
            if open.len() <= i < open.len() + data.len() {
                assert(all[i] == data[i - open.len()]);
            }
        }
    }
}

/// The receiving side holds bytes of `written` at their place and knows of no
/// other end than that of `written`.
pub open spec fn receives(s: StreamView, written: Seq<u8>) -> bool {
    &&& s.recv.follows(written)
    &&& s.peer.fin matches HalfState::Finished(at) ==> at == written.len()
}

/// Whatever frames get lost, reordered or duplicated: as long as each carries
/// bytes that were written, the receiving side holds bytes that were written,
/// at their place.
pub proof fn law_data_received(s: StreamView, written: Seq<u8>, offset: u64, data: Seq<u8>, fin: bool)
    requires
        written.len() <= u64::MAX,
        receives(s, written),
        carries(FrameView::StreamData { id: s.id, offset, data, fin }, s.id, written),
    ensures
        receives(s.on_data(offset, data, fin), written),
{
    crate::reassembler::law_insert_follows(s.recv, written, offset as int, data);
}

/// What happens on the receiving side of a stream.
pub enum RecvStep {
    /// A data frame arrives.
    Data { offset: u64, data: Seq<u8>, fin: bool },
    /// The application reads.
    Read,
}

/// The state after a run of steps, and all bytes read during it.
pub open spec fn after_steps(s: StreamView, steps: Seq<RecvStep>) -> (StreamView, Seq<u8>)
    decreases steps.len(),
{
    if steps.len() == 0 {
        (s, Seq::empty())
    } else {
        let (t, read) = after_steps(s, steps.drop_last());
        match steps.last() {
            RecvStep::Data { offset, data, fin } => (t.on_data(offset, data, fin), read),
            RecvStep::Read => (
                StreamView { recv: t.recv.after_read(), ..t },
                read + t.recv.readable(),
            ),
        }
    }
}

/// The contiguous run of bytes held has an end.
proof fn lemma_run_ends(v: RecvView, written: Seq<u8>)
    requires
        v.follows(written),
    ensures
        v.runs_to(v.ack_point()),
{
    lemma_run_from(v, written, v.delivered);
}

proof fn lemma_run_from(v: RecvView, written: Seq<u8>, end: int)
    requires
        v.follows(written),
        v.delivered <= end <= written.len(),
        forall|i: int| v.delivered <= i < end ==> v.held.contains_key(i),
    ensures
        exists|e: int| v.runs_to(e),
    decreases written.len() - end,
{
    if v.held.contains_key(end) {
        lemma_run_from(v, written, end + 1);
    } else {
        assert(v.runs_to(end));
    }
}

/// The application reads exactly what was written, in order and from the
/// start, whatever is lost, reordered or duplicated on the way and however
/// reads and arrivals interleave.
pub proof fn law_reads_what_was_written(s: StreamView, written: Seq<u8>, steps: Seq<RecvStep>)
    requires
        written.len() <= u64::MAX,
        receives(s, written),
        s.recv.delivered == 0,
        forall|i: int|
            0 <= i < steps.len() ==> (#[trigger] steps[i] matches RecvStep::Data { offset, data, fin }
                ==> carries(FrameView::StreamData { id: s.id, offset, data, fin }, s.id, written)),
    ensures
        ({
            let (t, read) = after_steps(s, steps);
            &&& receives(t, written)
            &&& t.id == s.id
            &&& read.len() == t.recv.delivered
            &&& read == written.take(read.len() as int)
            &&& t.recv_finished() ==> read == written
        }),
    decreases steps.len(),
{
    if steps.len() == 0 {
        assert(after_steps(s, steps).1 =~= written.take(0));
        assert(written.len() == 0 ==> written =~= written.take(0));
    } else {
        let init = steps.drop_last();
        law_reads_what_was_written(s, written, init);
        let (t, read) = after_steps(s, init);
        assert(steps[steps.len() - 1] == steps.last());
        match steps.last() {
            RecvStep::Data { offset, data, fin } => {
                law_data_received(t, written, offset, data, fin);
            },
            RecvStep::Read => {
                lemma_run_ends(t.recv, written);
                crate::reassembler::law_read_in_order(t.recv, written, t.recv.ack_point());
                assert(read + t.recv.readable() =~= written.take(t.recv.ack_point()));
            },
        }
        let (u, all) = after_steps(s, steps);
        if u.recv_finished() {
            assert(all =~= written);
        }
    }
}

/// A stream that reports its receiving side finished has handed over every
/// byte that was written, no more and no less.
pub proof fn law_finished_is_complete(s: StreamView, written: Seq<u8>)
    requires
        receives(s, written),
        s.recv_finished(),
    ensures
        s.recv.delivered == written.len(),
{
}

/// A round sends no byte for the first time that the peer's window or the
/// congestion window does not cover.
pub proof fn law_window_respected(s: StreamView, now: u64)
    requires
        s.wf(),
    ensures
        s.transmit(now).0.send.high <= crate::stream::max(
            s.send.high,
            s.send.base + crate::stream::min(s.peer_window as int, s.congestion.cwnd as int),
        ),
        s.transmit(now).0.send.base == s.send.base,
        s.transmit(now).0.wf(),
{
}

/// Bytes that have been sent and not acknowledged are not sent again before
/// the retransmit timeout has elapsed.
pub proof fn law_no_early_retransmit(s: StreamView, now: u64)
    requires
        s.wf(),
        s.send.base < s.send.high,
        s.send_end() <= s.send.high,
        !s.timer.due(now),
    ensures
        forall|i: int|
            0 <= i < s.transmit(now).1.len() ==> !(#[trigger] s.transmit(now).1[i] is StreamData),
{
}

/// Once the retransmit timeout has elapsed, everything sent and not
/// acknowledged is sent again.
pub proof fn law_retransmit_after_timeout(s: StreamView, now: u64)
    requires
        s.wf(),
        !s.reset,
        s.send.base < s.send.high,
        s.send_end() <= s.send.high,
        s.timer.due(now),
    ensures
        s.transmit_data(now).1 == s.chunks(s.send.base, s.send.high),
        s.chunks(s.send.base, s.send.high).len() > 0,
{
}

/// A close reaches the application once, however often it is received.
pub proof fn law_closed_surfaced_once(v: MuxView, w: MuxView, id: u64, first: i32, again: i32)
    requires
        v.streams.contains_key(id),
        w.streams == v.streams_after(FrameView::StreamClose { id, status: first }),
    ensures
        w.events_for(FrameView::StreamClose { id, status: again }) == Seq::<EventView>::empty(),
{
}

/// A multiplexer without streams sends nothing.
pub proof fn law_quiescent(v: MuxView, now: u64)
    requires
        v.order.len() == 0,
    ensures
        v.frames_of(now, v.order.len() as int) == Seq::<FrameView>::empty(),
{
}

/// The state of a stream after `n` rounds in which nothing arrives.
pub open spec fn after_rounds(s: StreamView, now: spec_fn(nat) -> u64, n: nat) -> StreamView
    decreases n,
{
    if n == 0 {
        s
    } else {
        after_rounds(s, now, (n - 1) as nat).transmit(now((n - 1) as nat)).0
    }
}

/// A stream closed on our side, whose peer closed and then went silent, is
/// reclaimed after the grace period.
pub proof fn law_silent_peer_reclaimed(s: StreamView, now: spec_fn(nat) -> u64, n: nat)
    requires
        !s.reset,
        s.fin.closed,
        s.peer.close_received,
        s.peer.fin is Open,
        n >= CLOSE_GRACE_TICKS,
    ensures
        after_rounds(s, now, n).fully_done(),
{
    lemma_ticks(s, now, n);
}

proof fn lemma_ticks(s: StreamView, now: spec_fn(nat) -> u64, n: nat)
    requires
        !s.reset,
        s.fin.closed,
        s.peer.close_received,
        s.peer.fin is Open,
    ensures
        ({
            let t = after_rounds(s, now, n);
            &&& !t.reset
            &&& t.fin.closed
            &&& t.peer.close_received
            &&& t.peer.fin is Open
            &&& t.peer.ticks >= crate::stream::min(n as int, u32::MAX as int)
        }),
    decreases n,
{
    if n > 0 {
        lemma_ticks(s, now, (n - 1) as nat);
    }
}

/// The ids of streams opened on one side keep their parity, so the two sides
/// never choose the same id.
pub proof fn law_ids_keep_parity(id: u64)
    ensures
        ((id + 2) % 0x1_0000_0000_0000_0000) % 2 == id % 2,
{
}

/// The frame carries the byte that was written at offset `i` of the stream.
pub open spec fn covers(f: FrameView, s: StreamView, i: int) -> bool {
    f matches FrameView::StreamData { id, offset, data, fin } && {
        &&& id == s.id
        &&& offset <= i < offset + data.len()
        &&& data[i - offset] == s.send.buf[i - s.send.base]
        &&& data.len() <= 1024
    }
}

proof fn lemma_chunk_covers(s: StreamView, from: int, to: int, i: int)
    requires
        s.send.base <= from <= i < to <= s.send.next(),
        s.wf(),
    ensures
        0 <= (i - from) / 1024 < s.chunks(from, to).len(),
        covers(s.chunks(from, to)[(i - from) / 1024], s, i),
{
}

/// A byte that was never sent goes out in the next round, if the peer's window and the
/// congestion window allow it.
pub proof fn law_new_bytes_go_out(s: StreamView, now: u64, i: int)
    requires
        s.wf(),
        !s.reset,
        s.send.high <= i < s.send.base + s.send.buf.len(),
        i < s.send.base + s.peer_window,
        i < s.send.base + s.congestion.cwnd,
    ensures
        exists|k: int| 0 <= k < s.transmit(now).1.len() && covers(s.transmit(now).1[k], s, i),
        s.transmit(now).0.send.high > i,
{
    let t = StreamView { needs_open: false, ..s };
    let (u, data) = t.transmit_data(now);
    let all = s.transmit(now).1;
    let open = s.open_frames();
    lemma_chunk_covers(t, t.send.high, t.send_end(), i);
    let k = (i - t.send.high) / 1024;
    assert(data == t.chunks(t.send.high, t.send_end()));
    assert(all[open.len() + k] == data[k]);
    assert(covers(all[open.len() + k], s, i));
}

/// A byte that was sent and is not acknowledged goes out again once the timeout has
/// elapsed and nothing new is to be sent.
pub proof fn law_lost_bytes_go_out_again(s: StreamView, now: u64, i: int)
    requires
        s.wf(),
        !s.reset,
        s.send.base <= i < s.send.high,
        s.send_end() <= s.send.high,
        s.timer.start matches Some(t) ==> now - t >= s.timer.rto,
    ensures
        exists|k: int| 0 <= k < s.transmit(now).1.len() && covers(s.transmit(now).1[k], s, i),
{
    let t = StreamView { needs_open: false, ..s };
    let (u, data) = t.transmit_data(now);
    let all = s.transmit(now).1;
    let open = s.open_frames();
    lemma_chunk_covers(t, t.send.base, t.send.high, i);
    let k = (i - t.send.base) / 1024;
    assert(data == t.chunks(t.send.base, t.send.high));
    assert(all[open.len() + k] == data[k]);
    assert(covers(all[open.len() + k], s, i));
}

/// The end of a stream that was closed is told with its last byte, or alone where all
/// bytes were sent and acknowledged before.
pub proof fn law_end_is_told(s: StreamView, now: u64)
    requires
        s.wf(),
        !s.reset,
        s.fin.closed,
        !s.fin.sent,
        !s.fin.acked,
        s.send_end() == s.send.next(),
        s.send.high < s.send.next() || s.send.buf.len() == 0,
    ensures
        exists|k: int|
            0 <= k < s.transmit(now).1.len() && (#[trigger] s.transmit(now).1[k] matches FrameView::StreamData {
                id,
                offset,
                data,
                fin,
            } && id == s.id && fin && offset + data.len() == s.send.next()),
        s.transmit(now).0.fin.sent,
{
    let t = StreamView { needs_open: false, ..s };
    let (u, data) = t.transmit_data(now);
    let all = s.transmit(now).1;
    let open = s.open_frames();
    if s.send.high < s.send.next() {
        let k = data.len() - 1;
        lemma_chunk_covers(t, t.send.high, t.send_end(), t.send_end() - 1);
        assert(all[open.len() + k] == data[k]);
    } else {
        assert(all[open.len() as int] == data[0]);
    }
}

/// A stream that one side opens is announced with its kind and what it is for. The
/// announcement gives the other side a stream of the same id, kind and purpose, and the
/// event that says so, if it admits the stream, and nothing if it does not. It is made
/// once.
pub proof fn law_stream_is_announced(a: MuxView, b: MuxView, kind: crate::wire::StreamKind, meta: Seq<u8>, now: u64)
    ensures
        ({
            let id = a.next_local_id;
            let s = a.after_open(kind, meta).streams[id];
            let f = FrameView::StreamOpen { id, kind, meta };
            &&& a.after_open(kind, meta).streams.contains_key(id)
            &&& s.transmit(now).1[0] == f
            &&& !s.transmit(now).0.needs_open
            &&& b.admits(id) ==> {
                &&& b.events_for(f) == seq![EventView::Opened { id, kind, meta }]
                &&& b.streams_after(f).contains_key(id)
                &&& b.streams_after(f)[id].kind == kind
                &&& b.streams_after(f)[id].meta == meta
                &&& !b.streams_after(f)[id].needs_open
            }
            &&& !b.admits(id) ==> b.events_for(f).len() == 0 && b.streams_after(f) == b.streams
        }),
{
}

/// The status with which one side closes a stream is what the other side learns; a
/// stream that one side aborts is aborted on the other.
pub proof fn law_close_status_gets_through(s: StreamView, b: MuxView, status: i32, now: u64)
    requires
        s.wf(),
        !s.reset,
        !s.fin.acked,
        b.streams.contains_key(s.id),
        !b.streams[s.id].peer.close_received,
    ensures
        ({
            let f = s.close(status).transmit(now).1.last();
            &&& f == FrameView::StreamClose { id: s.id, status }
            &&& b.events_for(f) == seq![EventView::Closed { id: s.id, status }]
            &&& b.streams_after(f)[s.id].peer.close_received
            &&& b.events_for(FrameView::StreamReset { id: s.id }) == seq![
                EventView::Reset { id: s.id },
            ]
            &&& b.streams_after(FrameView::StreamReset { id: s.id })[s.id].reset
        }),
{
    let c = s.close(status);
    let all = c.transmit(now).1;
    let t = StreamView { needs_open: false, ..c };
    let (u, data) = t.transmit_data(now);
    assert(u.close_frames() == seq![FrameView::StreamClose { id: s.id, status }]);
}

/// Once the other side holds every byte that was written, its acknowledgement leaves
/// nothing to be sent again. The room that it tells of is what its unread bytes leave of
/// the window.
pub proof fn law_acknowledged_bytes_are_released(
    s: StreamView,
    r: StreamView,
    written: Seq<u8>,
    now: u64,
)
    requires
        sends(s.send, written),
        s.send.high == written.len(),
        written.len() <= u64::MAX,
        r.recv.runs_to(written.len() as int),
        0 <= r.recv.delivered,
        written.len() - r.recv.delivered <= DEFAULT_WINDOW,
    ensures
        r.ack_frame() matches FrameView::StreamAck { id, ack, window } && {
            &&& id == r.id
            &&& ack == written.len()
            &&& window + (written.len() - r.recv.delivered) == DEFAULT_WINDOW
            &&& s.on_ack(ack, window, now).send.buf.len() == 0
            &&& s.on_ack(ack, window, now).peer_window == window
        },
{
    let end = written.len() as int;
    let p = r.recv.ack_point();
    assert(r.recv.runs_to(p));
    assert(p == end) by {
        if p < end {
            assert(r.recv.held.contains_key(p));
        } else if end < p {
            assert(r.recv.held.contains_key(end));
        }
    }
}

/// The retransmit timeout is longer than the round trip as it was measured, within its
/// bounds. Round trips that stay the same leave the estimate as it is, and each one that
/// is shorter or longer draws it nearer.
pub proof fn law_round_trip_estimate(t: crate::stream::Timer, r: u32)
    requires
        0 < r <= 0x0fff_ffff,
        t.srtt <= 0x0fff_ffff,
        t.rttvar <= 0x0fff_ffff,
    ensures
        ({
            let u = t.sampled(r);
            &&& 2 <= u.rto <= 240
            &&& u.rto > u.srtt || u.rto == 240
            &&& t.srtt == 0 ==> u.srtt == r
            &&& t.srtt == r ==> u.srtt == r && u.rttvar <= t.rttvar
            &&& t.srtt > r ==> r <= u.srtt <= t.srtt
            &&& 0 < t.srtt < r ==> t.srtt <= u.srtt <= r
            &&& u.start == t.start
        }),
{
}

/// A timeout doubles the time until the next, up to the longest, and starts it anew; the
/// congestion window falls to one segment, and its threshold to half of what it was, at
/// least two segments.
pub proof fn law_timeout_backs_off(t: crate::stream::Timer, c: crate::stream::Congestion, now: u64)
    requires
        t.wf(),
        c.wf(),
    ensures
        t.backed_off(now).rto == if 2 * t.rto <= 240 {
            2 * t.rto
        } else {
            240
        },
        t.backed_off(now).start == Some(now),
        t.backed_off(now).probe is None,
        !t.backed_off(now).due(now),
        c.collapsed().cwnd == 1024,
        c.collapsed().ssthresh >= 2048,
        2 * c.collapsed().ssthresh <= c.cwnd || c.collapsed().ssthresh == 2048,
        2 * c.collapsed().ssthresh + 2 > c.cwnd,
{
}

/// Acknowledged bytes widen the congestion window and never narrow it: below the
/// threshold by as much as was acknowledged, up to a segment, and above it by one
/// segment for each window's worth of segments.
pub proof fn law_congestion_window_grows(c: crate::stream::Congestion, acked: int)
    requires
        c.wf(),
        0 < acked <= u32::MAX,
    ensures
        ({
            let d = c.grown(acked);
            &&& c.cwnd <= d.cwnd <= 262144
            &&& d.cwnd <= c.cwnd + 1024
            &&& d.ssthresh == c.ssthresh
            &&& d.cwnd == 262144 || d.cwnd > c.cwnd
            &&& c.cwnd < c.ssthresh && c.cwnd + 1024 <= 262144 ==> d.cwnd - c.cwnd == if acked
                < 1024 {
                acked
            } else {
                1024
            }
            &&& c.cwnd >= c.ssthresh ==> (d.cwnd - c.cwnd) * c.cwnd <= 1024 * 1024
        }),
{
    let q = (1024int * 1024int) / (c.cwnd as int);
    assert(q * c.cwnd <= 1024 * 1024 && 0 <= q) by (nonlinear_arith)
        requires
            q == (1024int * 1024int) / (c.cwnd as int),
            c.cwnd >= 1,
    ;
    assert(q <= 1024) by (nonlinear_arith)
        requires
            q * c.cwnd <= 1024 * 1024,
            c.cwnd >= 1024,
    ;
    let inc = c.grown(acked).cwnd - c.cwnd;
    if c.cwnd >= c.ssthresh {
        assert(inc * c.cwnd <= 1024 * 1024) by (nonlinear_arith)
            requires
                inc <= q || inc <= 1,
                q * c.cwnd <= 1024 * 1024,
                1024 <= c.cwnd <= 262144,
        ;
    }
}

} // verus!
