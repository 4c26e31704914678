//! What the stream multiplexer promises over all that is done with it.

use crate::reassembler::RecvView;
use crate::stream::{
    HalfState, MuxView, SendView, StreamView, DEFAULT_WINDOW, MAX_PEER_STREAMS, MAX_STREAM_CHUNK,
};
use crate::wire::{FrameView, StreamKind};
use vstd::prelude::*;

verus! {

/// What can be done with a multiplexer.
pub enum MuxStep {
    /// A frame arrives.
    Frame(FrameView),
    /// A stream is opened here.
    Open { kind: StreamKind, meta: Seq<u8> },
    Write { id: u64, data: Seq<u8> },
    Close { id: u64, status: i32 },
    Reset { id: u64 },
    Read { id: u64 },
    /// A round of sending.
    Round,
    TakeEvents,
}

/// The state after a step.
#[verifier::opaque]
pub open spec fn stepped(v: MuxView, step: MuxStep) -> MuxView {
    match step {
        MuxStep::Frame(f) => v.after_frame(f),
        MuxStep::Open { kind, meta } => v.after_open(kind, meta),
        MuxStep::Write { id, data } => v.written(id, data),
        MuxStep::Close { id, status } => v.closed(id, status),
        MuxStep::Reset { id } => v.aborted(id),
        MuxStep::Read { id } => v.after_read(id),
        MuxStep::Round => v.after_round(),
        MuxStep::TakeEvents => MuxView { events: Seq::empty(), ..v },
    }
}

/// The state after a run of steps.
pub open spec fn after_all(v: MuxView, steps: Seq<MuxStep>) -> MuxView
    decreases steps.len(),
{
    if steps.len() == 0 {
        v
    } else {
        stepped(after_all(v, steps.drop_last()), steps.last())
    }
}

/// The stream that a frame belongs to.
pub open spec fn frame_id(f: FrameView) -> Option<u64> {
    match f {
        FrameView::StreamOpen { id, .. } => Some(id),
        FrameView::StreamData { id, .. } => Some(id),
        FrameView::StreamAck { id, .. } => Some(id),
        FrameView::StreamClose { id, .. } => Some(id),
        FrameView::StreamReset { id } => Some(id),
        _ => None,
    }
}

/// The frames of one stream, in order.
pub open spec fn frames_for(frames: Seq<FrameView>, id: u64) -> Seq<FrameView>
    decreases frames.len(),
{
    if frames.len() == 0 {
        Seq::empty()
    } else {
        let rest = frames_for(frames.drop_last(), id);
        if frame_id(frames.last()) == Some(id) {
            rest.push(frames.last())
        } else {
            rest
        }
    }
}

/// What a stream sends in a round: a reset, or what it has to transmit.
pub open spec fn sent_by(s: StreamView, now: u64) -> Seq<FrameView> {
    if s.reset {
        seq![FrameView::StreamReset { id: s.id }]
    } else {
        s.transmit(now).1
    }
}

// ---------------------------------------------------------------------------
// Rounds
// ---------------------------------------------------------------------------

proof fn lemma_frames_for_add(a: Seq<FrameView>, b: Seq<FrameView>, id: u64)
    ensures
        frames_for(a + b, id) == frames_for(a, id) + frames_for(b, id),
    decreases b.len(),
{
    if b.len() == 0 {
        assert(a + b =~= a);
        assert(frames_for(a, id) + Seq::<FrameView>::empty() =~= frames_for(a, id));
    } else {
        lemma_frames_for_add(a, b.drop_last(), id);
        assert((a + b).drop_last() =~= a + b.drop_last());
        assert((a + b).last() == b.last());
        assert(frames_for(a + b, id) =~= frames_for(a, id) + frames_for(b, id));
    }
}

proof fn lemma_frames_for_one(frames: Seq<FrameView>, of: u64, id: u64)
    requires
        forall|i: int| 0 <= i < frames.len() ==> frame_id(#[trigger] frames[i]) == Some(of),
    ensures
        frames_for(frames, id) == if id == of {
            frames
        } else {
            Seq::<FrameView>::empty()
        },
    decreases frames.len(),
{
    if frames.len() > 0 {
        lemma_frames_for_one(frames.drop_last(), of, id);
        assert(frame_id(frames[frames.len() - 1]) == Some(of));
        assert(frames.drop_last().push(frames.last()) =~= frames);
    }
}

proof fn lemma_sent_ids(s: StreamView, now: u64)
    ensures
        forall|i: int|
            0 <= i < sent_by(s, now).len() ==> frame_id(#[trigger] sent_by(s, now)[i]) == Some(s.id),
{
    if !s.reset {
        let t = StreamView { needs_open: false, ..s };
        let (u, data) = t.transmit_data(now);
        assert forall|i: int| 0 <= i < data.len() implies frame_id(#[trigger] data[i]) == Some(
            s.id,
        ) by {}
        let all = s.transmit(now).1;
        let open = s.open_frames();
        assert forall|i: int| 0 <= i < all.len() implies frame_id(#[trigger] all[i]) == Some(
            s.id,
        ) by {
            if open.len() <= i < open.len() + data.len() {
                assert(all[i] == data[i - open.len()]);
            }
        }
    }
}

proof fn lemma_round(v: MuxView, now: u64, n: int, id: u64)
    requires
        v.wf(),
        0 <= n <= v.order.len(),
    ensures
        frames_for(v.frames_of(now, n), id) == if v.order.take(n).contains(id) {
            sent_by(v.streams[id], now)
        } else {
            Seq::<FrameView>::empty()
        },
    decreases n,
{
    if n > 0 {
        lemma_round(v, now, n - 1, id);
        let k = v.order[n - 1];
        assert(v.order.contains(k));
        assert(v.streams.contains_key(k));
        let s = v.streams[k];
        lemma_sent_ids(s, now);
        lemma_frames_for_one(sent_by(s, now), k, id);
        lemma_frames_for_add(v.frames_of(now, n - 1), sent_by(s, now), id);
        let seen = v.order.take(n);
        let before = v.order.take(n - 1);
        assert(seen[n - 1] == k);
        if before.contains(id) {
            let j = choose|j: int| 0 <= j < before.len() && before[j] == id;
            assert(seen[j] == id);
            assert(v.order[j] < v.order[n - 1]);
            assert(frames_for(v.frames_of(now, n), id) =~= sent_by(v.streams[id], now));
        } else if id == k {
            assert(frames_for(v.frames_of(now, n), id) =~= sent_by(v.streams[id], now));
        } else {
            if seen.contains(id) {
                let j = choose|j: int| 0 <= j < seen.len() && seen[j] == id;
                assert(before[j] == id);
            }
            assert(frames_for(v.frames_of(now, n), id) =~= Seq::<FrameView>::empty());
        }
    }
}

/// In a round each open stream sends what it has to send, or its reset, and there is
/// no frame of any other stream.
pub proof fn law_round_by_stream(v: MuxView, id: u64)
    requires
        v.wf(),
    ensures
        frames_for(v.round_frames(), id) == if v.streams.contains_key(id) {
            sent_by(v.streams[id], v.next_round())
        } else {
            Seq::<FrameView>::empty()
        },
{
    lemma_round(v, v.next_round(), v.order.len() as int, id);
    assert(v.order.take(v.order.len() as int) =~= v.order);
}

// ---------------------------------------------------------------------------
// Reset
// ---------------------------------------------------------------------------

/// A stream that is aborted sends one frame more, which says so, and is gone after
/// it. What other streams send is not affected. To abort a stream that is not there
/// does nothing.
pub proof fn law_reset_is_told_once(v: MuxView, id: u64, other: u64)
    requires
        v.wf(),
        other != id,
    ensures
        v.streams.contains_key(id) ==> {
            let w = v.aborted(id);
            &&& frames_for(w.round_frames(), id) == seq![FrameView::StreamReset { id }]
            &&& frames_for(w.round_frames(), other) == frames_for(v.round_frames(), other)
            &&& !w.after_round().streams.contains_key(id)
        },
        !v.streams.contains_key(id) ==> v.aborted(id) == v,
{
    if v.streams.contains_key(id) {
        let w = v.aborted(id);
        assert(w.wf()) by {
            assert forall|k: u64| #[trigger] w.streams.contains_key(k) implies w.streams[k].id == k
                && w.streams[k].wf() by {
                assert(v.streams.contains_key(k));
            }
            assert forall|k: u64| #[trigger] w.streams.contains_key(k) <==> w.order.contains(k) by {
                assert(v.streams.contains_key(k) == w.streams.contains_key(k));
            }
        }
        law_round_by_stream(w, id);
        law_round_by_stream(w, other);
        law_round_by_stream(v, other);
    }
}

/// None of the steps opens a stream under this id.
pub open spec fn never_opens(v: MuxView, steps: Seq<MuxStep>, id: u64) -> bool
    decreases steps.len(),
{
    steps.len() == 0 || {
        &&& never_opens(v, steps.drop_last(), id)
        &&& match steps.last() {
            MuxStep::Frame(FrameView::StreamOpen { id: i, .. }) => i != id,
            MuxStep::Open { .. } => after_all(v, steps.drop_last()).next_local_id != id,
            _ => true,
        }
    }
}

/// A stream that is gone stays gone until one is opened under its id: nothing of it
/// is in flight or can be read, it counts as read to its end, and no round has a
/// frame of it.
pub proof fn law_gone_is_silent(v: MuxView, steps: Seq<MuxStep>, id: u64)
    requires
        !v.streams.contains_key(id),
        never_opens(v, steps, id),
    ensures
        ({
            let t = after_all(v, steps);
            &&& !t.streams.contains_key(id)
            &&& t.in_flight(id) == 0
            &&& t.readable(id) == Seq::<u8>::empty()
            &&& t.recv_finished(id)
            &&& t.wf() ==> frames_for(t.round_frames(), id) == Seq::<FrameView>::empty()
        }),
    decreases steps.len(),
{
    if steps.len() > 0 {
        law_gone_is_silent(v, steps.drop_last(), id);
        reveal(stepped);
    }
    let t = after_all(v, steps);
    if t.wf() {
        law_round_by_stream(t, id);
    }
}

// ---------------------------------------------------------------------------
// One stream through all steps
// ---------------------------------------------------------------------------

/// A stream is there all the time, and is the same one.
pub open spec fn kept(v: MuxView, steps: Seq<MuxStep>, id: u64) -> bool
    decreases steps.len(),
{
    &&& after_all(v, steps).streams.contains_key(id)
    &&& steps.len() > 0 ==> {
        &&& kept(v, steps.drop_last(), id)
        &&& steps.last() is Open ==> after_all(v, steps.drop_last()).next_local_id != id
    }
}

/// What a step does to a stream that is there before and after it.
pub open spec fn stream_stepped(s: StreamView, step: MuxStep, now: u64, round: u64) -> StreamView {
    match step {
        MuxStep::Frame(FrameView::StreamData { id, offset, data, fin }) if id == s.id => s.on_data(
            offset,
            data,
            fin,
        ),
        MuxStep::Frame(FrameView::StreamAck { id, ack, window }) if id == s.id => s.on_ack(
            ack,
            window,
            now,
        ),
        MuxStep::Frame(FrameView::StreamClose { id, .. }) if id == s.id => StreamView {
            peer: crate::stream::PeerClose { close_received: true, ..s.peer },
            ..s
        },
        MuxStep::Frame(FrameView::StreamReset { id }) if id == s.id => StreamView { reset: true, ..s },
        MuxStep::Write { id, data } if id == s.id => s.write(data),
        MuxStep::Close { id, status } if id == s.id => s.close(status),
        MuxStep::Reset { id } if id == s.id => StreamView { reset: true, ..s },
        MuxStep::Read { id } if id == s.id => StreamView { recv: s.recv.after_read(), ..s },
        MuxStep::Round => s.transmit(round).0,
        _ => s,
    }
}

proof fn lemma_stream_stepped(v: MuxView, step: MuxStep, id: u64)
    requires
        v.streams.contains_key(id),
        v.streams[id].id == id,
        stepped(v, step).streams.contains_key(id),
        step is Open ==> v.next_local_id != id,
    ensures
        stepped(v, step).streams[id] == stream_stepped(
            v.streams[id],
            step,
            v.now,
            v.next_round(),
        ),
        stepped(v, step).streams[id].id == id,
        step is Round ==> !v.streams[id].reset,
{
    reveal(stepped);
}

proof fn lemma_kept(v: MuxView, steps: Seq<MuxStep>, id: u64)
    requires
        kept(v, steps, id),
        v.streams.contains_key(id),
        v.streams[id].id == id,
    ensures
        after_all(v, steps).streams.contains_key(id),
        after_all(v, steps).streams[id].id == id,
        steps.len() > 0 ==> {
            let t = after_all(v, steps.drop_last());
            &&& kept(v, steps.drop_last(), id)
            &&& t.streams.contains_key(id)
            &&& t.streams[id].id == id
            &&& after_all(v, steps).streams[id] == stream_stepped(
                t.streams[id],
                steps.last(),
                t.now,
                t.next_round(),
            )
            &&& steps.last() is Round ==> !t.streams[id].reset
        },
    decreases steps.len(),
{
    if steps.len() > 0 {
        lemma_kept(v, steps.drop_last(), id);
        lemma_stream_stepped(after_all(v, steps.drop_last()), steps.last(), id);
    }
}

// ---------------------------------------------------------------------------
// Receiving
// ---------------------------------------------------------------------------

/// All bytes read from a stream so far.
pub open spec fn read_so_far(v: MuxView, steps: Seq<MuxStep>, id: u64) -> Seq<u8>
    decreases steps.len(),
{
    if steps.len() == 0 {
        Seq::empty()
    } else {
        let before = read_so_far(v, steps.drop_last(), id);
        match steps.last() {
            MuxStep::Read { id: i } if i == id => before + after_all(
                v,
                steps.drop_last(),
            ).readable(id),
            _ => before,
        }
    }
}

/// The byte at offset `i` of a stream was received, within the window.
pub open spec fn received(v: MuxView, steps: Seq<MuxStep>, id: u64, i: int) -> bool
    decreases steps.len(),
{
    steps.len() > 0 && {
        ||| received(v, steps.drop_last(), id, i)
        ||| steps.last() matches MuxStep::Frame(FrameView::StreamData { id: s, offset, data, .. })
            && s == id && offset <= i < offset + data.len() && after_all(
            v,
            steps.drop_last(),
        ).streams[id].takes(offset, data)
    }
}

/// The end of the peer's bytes, as the first frame within the window that bears one
/// tells it.
pub open spec fn end_told(v: MuxView, steps: Seq<MuxStep>, id: u64) -> Option<u64>
    decreases steps.len(),
{
    if steps.len() == 0 {
        None
    } else {
        match end_told(v, steps.drop_last(), id) {
            Some(e) => Some(e),
            None => match steps.last() {
                MuxStep::Frame(FrameView::StreamData { id: s, offset, data, fin }) => if s == id
                    && fin && after_all(v, steps.drop_last()).streams[id].takes(offset, data) {
                    Some((offset + data.len()) as u64)
                } else {
                    None
                },
                _ => None,
            },
        }
    }
}

/// Nothing has been received on a stream yet.
pub open spec fn untouched(s: StreamView) -> bool {
    s.recv == RecvView::empty() && s.peer.fin is Open
}

proof fn lemma_receiving(v: MuxView, steps: Seq<MuxStep>, id: u64)
    requires
        v.streams.contains_key(id),
        v.streams[id].id == id,
        untouched(v.streams[id]),
        kept(v, steps, id),
    ensures
        ({
            let s = after_all(v, steps).streams[id];
            &&& s.recv.within(DEFAULT_WINDOW as int)
            &&& s.recv.delivered == read_so_far(v, steps, id).len()
            &&& s.peer.fin == match end_told(v, steps, id) {
                Some(e) => HalfState::Finished(e),
                None => HalfState::Open,
            }
            &&& forall|i: int|
                0 <= i ==> (#[trigger] received(v, steps, id, i) <==> i < s.recv.delivered
                    || s.recv.held.contains_key(i))
            &&& forall|i: int| #[trigger] s.recv.held.contains_key(i) ==> i >= s.recv.delivered
        }),
    decreases steps.len(),
{
    if steps.len() > 0 {
        let init = steps.drop_last();
        lemma_receiving(v, init, id);
        lemma_kept(v, steps, id);
        let t = after_all(v, init);
        let s = t.streams[id];
        crate::reassembler::lemma_within(s.recv, DEFAULT_WINDOW as int);
        let u = after_all(v, steps).streams[id];
        assert forall|i: int| 0 <= i implies (#[trigger] received(v, steps, id, i) <==> i
            < u.recv.delivered || u.recv.held.contains_key(i)) by {
            assert(received(v, init, id, i) <==> i < s.recv.delivered || s.recv.held.contains_key(
                i,
            ));
        }
    }
}

/// The bytes read from a stream, together with those that can be read now, are all
/// that were received without a gap from the start, in whatever order, with whatever
/// overlaps and repeats. Once they are read there is nothing more to read.
pub proof fn law_reads_all_received(
    v: MuxView,
    steps: Seq<MuxStep>,
    id: u64,
    stream: Seq<u8>,
    n: int,
)
    requires
        v.streams.contains_key(id),
        v.streams[id].id == id,
        untouched(v.streams[id]),
        kept(v, steps, id),
        stream.len() <= u64::MAX,
        forall|k: int|
            0 <= k < steps.len() ==> (#[trigger] steps[k] matches MuxStep::Frame(
                FrameView::StreamData { id: s, offset, data, .. },
            ) ==> s == id ==> offset + data.len() <= stream.len() && data == stream.subrange(
                offset as int,
                offset + data.len(),
            )),
        0 <= n,
        forall|i: int| 0 <= i < n ==> #[trigger] received(v, steps, id, i),
        !received(v, steps, id, n),
    ensures
        n <= stream.len(),
        read_so_far(v, steps, id) + after_all(v, steps).readable(id) == stream.take(n),
        after_all(v, steps).after_read(id).readable(id) == Seq::<u8>::empty(),
{
    lemma_receiving(v, steps, id);
    lemma_content(v, steps, id, stream);
    let r = after_all(v, steps).streams[id].recv;
    let read = read_so_far(v, steps, id);
    if n < r.delivered {
        assert(received(v, steps, id, n));
    }
    assert(r.runs_to(n)) by {
        assert forall|i: int| r.delivered <= i < n implies r.held.contains_key(i) by {
            assert(received(v, steps, id, i));
        }
    }
    crate::reassembler::law_read_in_order(r, stream, n);
    crate::reassembler::lemma_ack_point(r, n);
    if n > stream.len() {
        assert(r.held.contains_key(n - 1));
    }
    assert(read + r.readable() =~= stream.take(n));
    let a = r.after_read();
    assert(a.runs_to(n));
    crate::reassembler::lemma_ack_point(a, n);
    assert(a.readable() =~= Seq::<u8>::empty());
}

proof fn lemma_content(v: MuxView, steps: Seq<MuxStep>, id: u64, stream: Seq<u8>)
    requires
        v.streams.contains_key(id),
        v.streams[id].id == id,
        untouched(v.streams[id]),
        kept(v, steps, id),
        stream.len() <= u64::MAX,
        forall|k: int|
            0 <= k < steps.len() ==> (#[trigger] steps[k] matches MuxStep::Frame(
                FrameView::StreamData { id: s, offset, data, .. },
            ) ==> s == id ==> offset + data.len() <= stream.len() && data == stream.subrange(
                offset as int,
                offset + data.len(),
            )),
    ensures
        after_all(v, steps).streams[id].recv.follows(stream),
        read_so_far(v, steps, id) == stream.take(read_so_far(v, steps, id).len() as int),
        read_so_far(v, steps, id).len() <= stream.len(),
    decreases steps.len(),
{
    if steps.len() == 0 {
        assert(read_so_far(v, steps, id) =~= stream.take(0));
    } else {
        let init = steps.drop_last();
        assert forall|k: int| 0 <= k < init.len() implies (#[trigger] init[k] matches MuxStep::Frame(
            FrameView::StreamData { id: s, offset, data, .. },
        ) ==> s == id ==> offset + data.len() <= stream.len() && data == stream.subrange(
            offset as int,
            offset + data.len(),
        )) by {
            assert(init[k] == steps[k]);
        }
        lemma_content(v, init, id, stream);
        lemma_receiving(v, init, id);
        lemma_kept(v, steps, id);
        let t = after_all(v, init);
        let s = t.streams[id];
        assert(steps[steps.len() - 1] == steps.last());
        crate::reassembler::lemma_within(s.recv, DEFAULT_WINDOW as int);
        match steps.last() {
            MuxStep::Frame(FrameView::StreamData { id: i, offset, data, fin }) => {
                if i == id && s.takes(offset, data) {
                    crate::reassembler::law_insert_follows(s.recv, stream, offset as int, data);
                }
            },
            MuxStep::Read { id: i } => {
                if i == id {
                    crate::reassembler::law_read_in_order(s.recv, stream, s.recv.ack_point());
                    let read = read_so_far(v, init, id);
                    assert(read + s.recv.readable() =~= stream.take(s.recv.ack_point()));
                }
            },
            _ => {},
        }
    }
}

/// A stream counts as read to its end if and only if it is gone, or the end of the
/// peer's bytes was told by a data frame, as many bytes were read, and none is left
/// to read. The peer's close alone does not bring this about.
pub proof fn law_finished_by_frames(v: MuxView, steps: Seq<MuxStep>, id: u64)
    requires
        v.streams.contains_key(id),
        v.streams[id].id == id,
        untouched(v.streams[id]),
        kept(v, steps, id),
    ensures
        after_all(v, steps).recv_finished(id) <==> {
            &&& end_told(v, steps, id) matches Some(e)
            &&& read_so_far(v, steps, id).len() >= e
            &&& after_all(v, steps).streams[id].recv.unread() == 0
        },
{
    lemma_receiving(v, steps, id);
}

/// What is held of the peer's bytes lies within the window on every stream.
pub open spec fn windows_kept(v: MuxView) -> bool {
    forall|id: u64| #[trigger]
        v.streams.contains_key(id) ==> v.streams[id].recv.within(DEFAULT_WINDOW as int)
}

/// However much the peer sends and however little is read, no stream ever holds more
/// unread bytes than its window.
pub proof fn law_buffer_within_window(v: MuxView, steps: Seq<MuxStep>, id: u64)
    requires
        windows_kept(v),
    ensures
        windows_kept(after_all(v, steps)),
        after_all(v, steps).streams.contains_key(id) ==> 0 <= after_all(
            v,
            steps,
        ).streams[id].recv.unread() <= DEFAULT_WINDOW,
    decreases steps.len(),
{
    let t = after_all(v, steps);
    if steps.len() > 0 {
        let b = after_all(v, steps.drop_last());
        law_buffer_within_window(v, steps.drop_last(), id);
        reveal(stepped);
        assert forall|k: u64| #[trigger] t.streams.contains_key(k) implies t.streams[k].recv.within(
            DEFAULT_WINDOW as int,
        ) by {
            if b.streams.contains_key(k) {
                crate::reassembler::lemma_within(b.streams[k].recv, DEFAULT_WINDOW as int);
            }
        }
    }
    if t.streams.contains_key(id) {
        crate::reassembler::lemma_within(t.streams[id].recv, DEFAULT_WINDOW as int);
    }
}

// ---------------------------------------------------------------------------
// Sending
// ---------------------------------------------------------------------------

/// All bytes written to a stream so far.
pub open spec fn written_so_far(steps: Seq<MuxStep>, id: u64) -> Seq<u8>
    decreases steps.len(),
{
    if steps.len() == 0 {
        Seq::empty()
    } else {
        let before = written_so_far(steps.drop_last(), id);
        match steps.last() {
            MuxStep::Write { id: i, data } if i == id => before + data,
            _ => before,
        }
    }
}

/// The window of the last acknowledgement of a stream.
pub open spec fn window_told(steps: Seq<MuxStep>, id: u64) -> u32
    decreases steps.len(),
{
    if steps.len() == 0 {
        DEFAULT_WINDOW
    } else {
        match steps.last() {
            MuxStep::Frame(FrameView::StreamAck { id: i, window, .. }) if i == id => window,
            _ => window_told(steps.drop_last(), id),
        }
    }
}

/// The highest acknowledgement of a stream.
pub open spec fn acked_to(steps: Seq<MuxStep>, id: u64) -> int
    decreases steps.len(),
{
    if steps.len() == 0 {
        0
    } else {
        let before = acked_to(steps.drop_last(), id);
        match steps.last() {
            MuxStep::Frame(FrameView::StreamAck { id: i, ack, .. }) if i == id => crate::stream::max(
                before,
                ack as int,
            ),
            _ => before,
        }
    }
}

/// Where the data of frames ends.
pub open spec fn data_end(frames: Seq<FrameView>) -> int
    decreases frames.len(),
{
    if frames.len() == 0 {
        0
    } else {
        let before = data_end(frames.drop_last());
        match frames.last() {
            FrameView::StreamData { offset, data, .. } => crate::stream::max(
                before,
                offset + data.len(),
            ),
            _ => before,
        }
    }
}

/// The highest offset up to which bytes of a stream were sent.
pub open spec fn sent_to(v: MuxView, steps: Seq<MuxStep>, id: u64) -> int
    decreases steps.len(),
{
    if steps.len() == 0 {
        0
    } else {
        let before = sent_to(v, steps.drop_last(), id);
        match steps.last() {
            MuxStep::Round => {
                let t = after_all(v, steps.drop_last());
                crate::stream::max(before, data_end(sent_by(t.streams[id], t.next_round())))
            },
            _ => before,
        }
    }
}

/// Only bytes that were sent are acknowledged.
pub open spec fn honest_acks(v: MuxView, steps: Seq<MuxStep>, id: u64) -> bool
    decreases steps.len(),
{
    steps.len() > 0 ==> {
        &&& honest_acks(v, steps.drop_last(), id)
        &&& steps.last() matches MuxStep::Frame(FrameView::StreamAck { id: i, ack, .. }) ==> i == id
            ==> ack <= sent_to(v, steps.drop_last(), id)
    }
}

proof fn lemma_data_end_over(frames: Seq<FrameView>, k: int)
    requires
        0 <= k < frames.len(),
    ensures
        frames[k] matches FrameView::StreamData { offset, data, .. } ==> offset + data.len()
            <= data_end(frames),
    decreases frames.len(),
{
    if k < frames.len() - 1 {
        lemma_data_end_over(frames.drop_last(), k);
        assert(frames.drop_last()[k] == frames[k]);
    }
}

proof fn lemma_data_end_under(frames: Seq<FrameView>, bound: int)
    requires
        bound >= 0,
        forall|k: int|
            0 <= k < frames.len() ==> (#[trigger] frames[k] matches FrameView::StreamData {
                offset,
                data,
                ..
            } ==> offset + data.len() <= bound),
    ensures
        0 <= data_end(frames) <= bound,
    decreases frames.len(),
{
    if frames.len() > 0 {
        assert(frames[frames.len() - 1] == frames.last());
        lemma_data_end_under(frames.drop_last(), bound);
    }
}

/// What a round does to the sending side, and where its frames end.
proof fn lemma_transmitted(s: StreamView, now: u64)
    requires
        s.send.wf(),
        s.congestion.wf(),
        !s.reset,
    ensures
        ({
            let t = s.transmit(now).0;
            let frames = s.transmit(now).1;
            &&& t.send.base == s.send.base
            &&& t.send.buf == s.send.buf
            &&& t.send.wf()
            &&& t.congestion.wf()
            &&& t.peer_window == s.peer_window
            &&& t.send.high == crate::stream::max(s.send.high, data_end(frames))
            &&& forall|k: int|
                0 <= k < frames.len() ==> (#[trigger] frames[k] matches FrameView::StreamData {
                    offset,
                    data,
                    ..
                } ==> data.len() <= MAX_STREAM_CHUNK && offset + data.len() <= t.send.high)
            &&& t.send.high > s.send.high ==> t.send.high <= s.send_end()
        }),
{
    let u = StreamView { needs_open: false, ..s };
    let (w, data) = u.transmit_data(now);
    let frames = s.transmit(now).1;
    let open = s.open_frames();
    assert forall|k: int| 0 <= k < frames.len() implies (#[trigger] frames[k] matches FrameView::StreamData {
        offset,
        data,
        ..
    } ==> data.len() <= MAX_STREAM_CHUNK && offset + data.len() <= w.send.high) by {
        if open.len() <= k < open.len() + data.len() {
            assert(frames[k] == data[k - open.len()]);
        }
    }
    lemma_data_end_under(frames, w.send.high);
    if w.send.high > s.send.high {
        let last = data.len() - 1;
        assert(data == u.chunks(s.send.high, u.send_end()));
        assert(data[last] == u.chunk(s.send.high, u.send_end(), last));
        assert(frames[open.len() + last] == data[last]);
        lemma_data_end_over(frames, open.len() + last);
    }
}

/// Nothing was written to a stream yet.
pub open spec fn unwritten(s: StreamView) -> bool {
    &&& s.send == SendView::fresh()
    &&& s.peer_window == DEFAULT_WINDOW
    &&& s.congestion.wf()
}

proof fn lemma_sending(v: MuxView, steps: Seq<MuxStep>, id: u64)
    requires
        v.streams.contains_key(id),
        v.streams[id].id == id,
        unwritten(v.streams[id]),
        kept(v, steps, id),
        honest_acks(v, steps, id),
        written_so_far(steps, id).len() <= u64::MAX,
    ensures
        ({
            let s = after_all(v, steps).streams[id];
            &&& crate::stream_laws::sends(s.send, written_so_far(steps, id))
            &&& s.send.base == acked_to(steps, id)
            &&& s.send.high == sent_to(v, steps, id)
            &&& s.peer_window == window_told(steps, id)
            &&& s.congestion.wf()
        }),
    decreases steps.len(),
{
    if steps.len() == 0 {
        assert(Seq::<u8>::empty().skip(0) =~= Seq::<u8>::empty());
    } else {
        let init = steps.drop_last();
        lemma_sending(v, init, id);
        lemma_kept(v, steps, id);
        let t = after_all(v, init);
        let s = t.streams[id];
        let written = written_so_far(init, id);
        match steps.last() {
            MuxStep::Frame(FrameView::StreamAck { id: i, ack, window }) => {
                if i == id {
                    crate::stream_laws::law_ack_keeps_unacked(s, written, ack, window, t.now);
                    if s.send.heeded(ack) > s.send.base {
                        lemma_grown(s.congestion, s.send.released(s.send.heeded(ack)));
                    }
                }
            },
            MuxStep::Write { id: i, data } => {
                if i == id {
                    crate::stream_laws::law_write_appends(s, written, data);
                }
            },
            MuxStep::Round => {
                lemma_transmitted(s, t.next_round());
            },
            _ => {},
        }
    }
}

proof fn lemma_grown(c: crate::stream::Congestion, acked: int)
    requires
        c.wf(),
        acked >= 0,
    ensures
        c.grown(acked).wf(),
{
}

/// In a round a stream sends only bytes that were written to it, in pieces of at most
/// `MAX_STREAM_CHUNK`; those that go out for the first time stay within the window
/// that the peer told last, counted from its highest acknowledgement. And it sends
/// one acknowledgement, which tells the room left in our window.
pub proof fn law_round_of_stream(v: MuxView, steps: Seq<MuxStep>, id: u64)
    requires
        v.streams.contains_key(id),
        v.streams[id].id == id,
        unwritten(v.streams[id]),
        kept(v, steps, id),
        honest_acks(v, steps, id),
        written_so_far(steps, id).len() <= u64::MAX,
        after_all(v, steps).wf(),
        !after_all(v, steps).streams[id].reset,
    ensures
        ({
            let t = after_all(v, steps);
            let frames = frames_for(t.round_frames(), id);
            let written = written_so_far(steps, id);
            let room = crate::stream::min(window_told(steps, id) as int, DEFAULT_WINDOW as int);
            &&& forall|k: int|
                0 <= k < frames.len() ==> (#[trigger] frames[k] matches FrameView::StreamData {
                    offset,
                    data,
                    ..
                } ==> {
                    &&& data.len() <= MAX_STREAM_CHUNK
                    &&& offset + data.len() <= written.len()
                    &&& data == written.subrange(offset as int, offset + data.len())
                    &&& offset + data.len() > sent_to(v, steps, id) ==> offset + data.len()
                        <= acked_to(steps, id) + room
                })
            &&& exists|k: int| #[trigger]
                is_only_ack(frames, k, FrameView::StreamAck {
                    id,
                    ack: t.streams[id].recv.ack_point() as u64,
                    window: (DEFAULT_WINDOW - crate::stream::min(
                        t.streams[id].recv.unread(),
                        DEFAULT_WINDOW as int,
                    )) as u32,
                })
        }),
{
    let t = after_all(v, steps);
    let s = t.streams[id];
    let now = t.next_round();
    lemma_sending(v, steps, id);
    law_round_by_stream(t, id);
    lemma_transmitted(s, now);
    crate::stream_laws::law_transmit_carries(s, written_so_far(steps, id), now);
    let frames = s.transmit(now).1;
    assert forall|k: int| 0 <= k < frames.len() implies crate::stream_laws::carries(
        #[trigger] frames[k],
        id,
        written_so_far(steps, id),
    ) by {}
    let u = StreamView { needs_open: false, ..s };
    let (w, data) = u.transmit_data(now);
    let k = s.open_frames().len() + data.len();
    assert(forall|i: int| 0 <= i < data.len() ==> #[trigger] data[i] is StreamData);
    assert forall|i: int| 0 <= i < frames.len() && i != k implies !(#[trigger] frames[
    i] is StreamAck) by {
        if s.open_frames().len() <= i < k {
            assert(frames[i] == data[i - s.open_frames().len()]);
        }
    }
    assert(frames[k as int] == w.ack_frame());
    assert(w.recv == s.recv);
    assert(is_only_ack(frames, k as int, s.ack_frame()));
}

/// The frame numbered `k` is this one, and no other is an acknowledgement.
pub open spec fn is_only_ack(frames: Seq<FrameView>, k: int, ack: FrameView) -> bool {
    &&& 0 <= k < frames.len()
    &&& frames[k] == ack
    &&& forall|i: int| 0 <= i < frames.len() && i != k ==> !(#[trigger] frames[i] is StreamAck)
}

// ---------------------------------------------------------------------------
// Opening
// ---------------------------------------------------------------------------

proof fn lemma_peers_without(order: Seq<u64>, local: u64, k: int)
    requires
        0 <= k < order.len(),
    ensures
        crate::stream::peers_among(order, local) == crate::stream::peers_among(order.remove(k), local) + if order[k] % 2 != local
            % 2 {
            1nat
        } else {
            0
        },
    decreases order.len(),
{
    if k == order.len() - 1 {
        assert(order.remove(k) =~= order.drop_last());
    } else {
        lemma_peers_without(order.drop_last(), local, k);
        assert(order.remove(k).drop_last() =~= order.drop_last().remove(k));
        assert(order.remove(k).last() == order.last());
    }
}

/// A peer cannot open a stream under an id that is ours to give out, and no frame
/// makes the streams that it has open more than those allowed.
pub proof fn law_peer_opens_bounded(v: MuxView, f: FrameView)
    requires
        v.wf(),
        v.after_frame(f).wf(),
    ensures
        f matches FrameView::StreamOpen { id, .. } ==> id % 2 == v.next_local_id % 2
            ==> v.after_frame(f).streams == v.streams && v.events_for(f) == Seq::<
            crate::stream::EventView,
        >::empty(),
        crate::stream::peers_among(v.after_frame(f).order, v.next_local_id) <= crate::stream::max(
            crate::stream::peers_among(v.order, v.next_local_id) as int,
            MAX_PEER_STREAMS as int,
        ),
{
    let w = v.after_frame(f);
    match f {
        FrameView::StreamOpen { id, .. } if v.admits(id) => {
            assert(w.streams.contains_key(id));
            let k = choose|k: int| 0 <= k < w.order.len() && w.order[k] == id;
            let rest = w.order.remove(k);
            assert forall|x: u64| #[trigger] v.streams.contains_key(x) <==> rest.contains(x) by {
                assert(w.streams.contains_key(x) <==> v.streams.contains_key(x) || x == id);
                if rest.contains(x) {
                    let j = choose|j: int| 0 <= j < rest.len() && rest[j] == x;
                    let i = if j < k {
                        j
                    } else {
                        j + 1
                    };
                    assert(w.order[i] == x);
                    assert(w.order.contains(x));
                    assert(x != id);
                }
                if v.streams.contains_key(x) {
                    let i = choose|i: int| 0 <= i < w.order.len() && w.order[i] == x;
                    assert(rest[if i < k {
                        i
                    } else {
                        i - 1
                    }] == x);
                }
            }
            crate::stream::lemma_order_unique(v.order, rest, v.streams);
            lemma_peers_without(w.order, v.next_local_id, k);
        },
        _ => {
            assert forall|x: u64| #[trigger] v.streams.contains_key(x) <==> w.order.contains(x) by {
                assert(w.streams.contains_key(x) <==> v.streams.contains_key(x));
            }
            crate::stream::lemma_order_unique(v.order, w.order, v.streams);
        },
    }
}

} // verus!
