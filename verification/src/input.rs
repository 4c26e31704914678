//! Reliable client-to-server input channel.
//!
//! User keystrokes are an append-only byte stream. The client sends the
//! unacknowledged suffix, retransmitting until it is acknowledged; the server
//! reconstructs the exact contiguous stream regardless of loss, reorder or
//! duplication.

use crate::wire::{Frame, FrameView};
use vstd::prelude::*;
use vstd::slice::{slice_subrange, slice_to_vec};

verus! {

/// Client side: buffers typed bytes and produces retransmittable Input frames.
pub struct InputSender {
    buffer: Vec<u8>,
    acked: u64,
}

impl InputSender {
    /// Everything typed so far.
    pub closed spec fn stream(&self) -> Seq<u8> {
        self.buffer@
    }

    /// How many bytes of the stream are acknowledged.
    pub closed spec fn acked(&self) -> nat {
        self.acked as nat
    }

    /// No more is acknowledged than was typed.
    pub open spec fn wf(&self) -> bool {
        self.acked() <= self.stream().len()
    }

    /// A sender with nothing typed.
    pub fn new() -> (r: InputSender)
        ensures
            r.wf(),
            r.stream() == Seq::<u8>::empty(),
            r.acked() == 0,
    {
        InputSender { buffer: Vec::new(), acked: 0 }
    }

    /// Append freshly typed bytes.
    pub fn push(&mut self, data: &[u8])
        requires
            old(self).wf(),
        ensures
            final(self).wf(),
            final(self).stream() == old(self).stream() + data@,
            final(self).acked() == old(self).acked(),
    {
        let ghost before = self.buffer@;
        self.buffer.extend_from_slice(data);
        assert(self.buffer@ =~= before + data@);
    }

    /// The frame to (re)send: everything not yet acknowledged. `None` if all
    /// sent data is acknowledged.
    pub fn pending(&self) -> (r: Option<Frame>)
        requires
            self.wf(),
        ensures
            r is None <==> self.acked() == self.stream().len(),
            r matches Some(f) ==> f@ == (FrameView::Input {
                offset: self.acked() as u64,
                data: self.stream().skip(self.acked() as int),
            }),
    {
        let acked: usize = self.acked as usize;
        if acked >= self.buffer.len() {
            return None;
        }
        let data: Vec<u8> = slice_to_vec(slice_subrange(&self.buffer, acked, self.buffer.len()));
        assert(data@ =~= self.stream().skip(self.acked() as int));
        Some(Frame::Input { offset: self.acked, data })
    }

    /// Total bytes the client has queued.
    pub fn total(&self) -> (r: u64)
        ensures
            r == self.stream().len(),
    {
        self.buffer.len() as u64
    }

    /// Process a server ack confirming bytes up to `seq` are received.
    pub fn on_ack(&mut self, seq: u64)
        requires
            old(self).wf(),
        ensures
            final(self).wf(),
            final(self).stream() == old(self).stream(),
            final(self).acked() == if seq <= old(self).acked() {
                old(self).acked()
            } else if seq <= old(self).stream().len() {
                seq as nat
            } else {
                old(self).stream().len()
            },
    {
        if seq > self.acked {
            let total: u64 = self.buffer.len() as u64;
            self.acked = if seq < total { seq } else { total };
        }
    }
}

impl Default for InputSender {
    fn default() -> (r: InputSender)
        ensures
            r.wf(),
            r.stream() == Seq::<u8>::empty(),
            r.acked() == 0,
    {
        InputSender::new()
    }
}

/// The bytes that a frame adds behind the `received` contiguous bytes.
///
/// A frame that starts behind a gap adds nothing (the sender retransmits the
/// missing prefix); nor does one that holds only old bytes, or one whose end
/// lies beyond the 64-bit offset space.
pub open spec fn fresh_bytes(received: nat, offset: u64, data: Seq<u8>) -> Seq<u8> {
    if offset <= received < offset + data.len() <= u64::MAX {
        data.skip(received - offset)
    } else {
        Seq::empty()
    }
}

/// Server side: reconstructs the contiguous input stream and tracks the ack.
pub struct InputReceiver {
    received: u64,
}

impl InputReceiver {
    /// How many contiguous bytes have been received.
    pub closed spec fn received(&self) -> nat {
        self.received as nat
    }

    /// A receiver that has received nothing.
    pub fn new() -> (r: InputReceiver)
        ensures
            r.received() == 0,
    {
        InputReceiver { received: 0 }
    }

    /// Ingest an Input frame, returning newly-available contiguous bytes.
    pub fn ingest(&mut self, offset: u64, data: &[u8]) -> (fresh: Vec<u8>)
        ensures
            fresh@ == fresh_bytes(old(self).received(), offset, data@),
            final(self).received() == old(self).received() + fresh@.len(),
    {
        let end: u64 = match offset.checked_add(data.len() as u64) {
            Some(end) => end,
            None => return Vec::new(),
        };
        if end <= self.received {
            return Vec::new();
        }
        if offset > self.received {
            return Vec::new();
        }
        let skip: usize = (self.received - offset) as usize;
        let fresh: Vec<u8> = slice_to_vec(slice_subrange(data, skip, data.len()));
        assert(fresh@ =~= data@.skip(skip as int));
        self.received = end;
        fresh
    }

    /// The current ack sequence (contiguous bytes received).
    pub fn ack(&self) -> (r: u64)
        ensures
            r == self.received(),
    {
        self.received
    }
}

impl Default for InputReceiver {
    fn default() -> (r: InputReceiver)
        ensures
            r.received() == 0,
    {
        InputReceiver::new()
    }
}

/// An Input frame that may be on its way.
pub struct Arrival {
    pub offset: u64,
    pub data: Seq<u8>,
}

/// The frame carries bytes of `stream` at their place.
pub open spec fn honest(stream: Seq<u8>, a: Arrival) -> bool {
    &&& a.offset + a.data.len() <= stream.len()
    &&& a.data == stream.subrange(a.offset as int, a.offset + a.data.len())
}

/// All bytes that a new receiver hands out over a run of arriving frames.
pub open spec fn delivered(arrivals: Seq<Arrival>) -> Seq<u8>
    decreases arrivals.len(),
{
    if arrivals.len() == 0 {
        Seq::empty()
    } else {
        let before = delivered(arrivals.drop_last());
        let a = arrivals.last();
        before + fresh_bytes(before.len(), a.offset, a.data)
    }
}

/// What a sender has pending carries bytes of its stream at their place, and
/// still does when more has been typed.
pub proof fn law_pending_is_honest(stream: Seq<u8>, acked: nat, more: Seq<u8>)
    requires
        acked <= stream.len() <= u64::MAX,
    ensures
        honest(
            stream + more,
            (Arrival { offset: acked as u64, data: stream.skip(acked as int) }),
        ),
{
    assert(stream.skip(acked as int) =~= (stream + more).subrange(acked as int, stream.len() as int));
}

/// Whatever is lost, reordered or duplicated on the way, the receiver hands
/// out exactly a prefix of what was typed.
pub proof fn law_delivered_is_prefix(stream: Seq<u8>, arrivals: Seq<Arrival>)
    requires
        stream.len() <= u64::MAX,
        forall|i: int| 0 <= i < arrivals.len() ==> honest(stream, #[trigger] arrivals[i]),
    ensures
        delivered(arrivals).len() <= stream.len(),
        delivered(arrivals) == stream.take(delivered(arrivals).len() as int),
    decreases arrivals.len(),
{
    if arrivals.len() == 0 {
        assert(delivered(arrivals) =~= stream.take(0));
    } else {
        let init = arrivals.drop_last();
        law_delivered_is_prefix(stream, init);
        assert(honest(stream, arrivals[arrivals.len() - 1]));
        assert(delivered(arrivals) =~= stream.take(delivered(arrivals).len() as int));
    }
}

/// Once the frame that carries all unacknowledged bytes arrives, everything
/// typed has been handed out.
pub proof fn law_pending_completes(stream: Seq<u8>, arrivals: Seq<Arrival>, acked: nat)
    requires
        stream.len() <= u64::MAX,
        forall|i: int| 0 <= i < arrivals.len() ==> honest(stream, #[trigger] arrivals[i]),
        acked <= delivered(arrivals).len(),
    ensures
        delivered(
            arrivals.push(Arrival { offset: acked as u64, data: stream.skip(acked as int) }),
        ) == stream,
{
    let a = Arrival { offset: acked as u64, data: stream.skip(acked as int) };
    law_delivered_is_prefix(stream, arrivals);
    assert(arrivals.push(a).drop_last() =~= arrivals);
    assert(delivered(arrivals.push(a)) =~= stream);
}

} // verus!
