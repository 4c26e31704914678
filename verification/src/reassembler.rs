//! In-order reassembly of a byte stream from segments that arrive in any order.

use vstd::prelude::*;
use vstd::slice::{slice_subrange, slice_to_vec};

verus! {

/// What a reassembler holds: the bytes read by the application come first,
/// then bytes at absolute offsets, with gaps where nothing has arrived.
pub struct RecvView {
    /// Bytes already handed to the application.
    pub delivered: int,
    /// The bytes held, by absolute offset; none lies below `delivered`.
    pub held: Map<int, u8>,
}

impl RecvView {
    /// Nothing received.
    pub open spec fn empty() -> RecvView {
        RecvView { delivered: 0, held: Map::empty() }
    }

    /// The bytes held run without gap from the delivered point up to `end`,
    /// and no further.
    pub open spec fn runs_to(self, end: int) -> bool {
        &&& self.delivered <= end
        &&& forall|i: int| self.delivered <= i < end ==> self.held.contains_key(i)
        &&& !self.held.contains_key(end)
    }

    /// The highest contiguous offset received.
    pub open spec fn ack_point(self) -> int {
        choose|end: int| self.runs_to(end)
    }

    /// How many bytes are received contiguously but not yet read.
    pub open spec fn unread(self) -> int {
        self.ack_point() - self.delivered
    }

    /// With the bytes `data` received at `offset`; what was delivered before
    /// is not taken again, and what was held before is overwritten.
    pub open spec fn insert(self, offset: int, data: Seq<u8>) -> RecvView {
        RecvView {
            delivered: self.delivered,
            held: Map::new(
                |i: int|
                    self.held.contains_key(i) || (self.delivered <= i && offset <= i < offset
                        + data.len()),
                |i: int|
                    if offset <= i < offset + data.len() {
                        data[i - offset]
                    } else {
                        self.held[i]
                    },
            ),
        }
    }

    /// No byte held lies further than `window` behind the delivered point.
    pub open spec fn within(self, window: int) -> bool {
        forall|i: int| #[trigger] self.held.contains_key(i) ==> i < self.delivered + window
    }

    /// The bytes that can be read now.
    pub open spec fn readable(self) -> Seq<u8> {
        Seq::new(self.unread() as nat, |j: int| self.held[self.delivered + j])
    }

    /// With everything readable read.
    pub open spec fn after_read(self) -> RecvView {
        RecvView {
            delivered: self.ack_point(),
            held: Map::new(
                |i: int| self.held.contains_key(i) && i >= self.ack_point(),
                |i: int| self.held[i],
            ),
        }
    }
}

/// The contiguous run from the delivered point has one end only.
pub proof fn lemma_ack_point(v: RecvView, end: int)
    requires
        v.runs_to(end),
    ensures
        v.ack_point() == end,
{
    let other = v.ack_point();
    assert(v.runs_to(other));
    if other < end {
        assert(v.held.contains_key(other));
    } else if end < other {
        assert(v.held.contains_key(end));
    }
}

proof fn lemma_run_within(v: RecvView, window: int, end: int)
    requires
        v.within(window),
        v.delivered <= end <= v.delivered + window,
        forall|i: int| v.delivered <= i < end ==> v.held.contains_key(i),
    ensures
        exists|e: int| v.runs_to(e) && e <= v.delivered + window,
    decreases v.delivered + window - end,
{
    if v.held.contains_key(end) {
        lemma_run_within(v, window, end + 1);
    } else {
        assert(v.runs_to(end));
    }
}

/// Of bytes within a window there are at most as many to read, and what is left
/// when they are read lies within the window.
pub proof fn lemma_within(v: RecvView, window: int)
    requires
        v.within(window),
        window >= 0,
    ensures
        v.runs_to(v.ack_point()),
        0 <= v.unread() <= window,
        v.after_read().within(window),
{
    lemma_run_within(v, window, v.delivered);
    let e = choose|e: int| v.runs_to(e) && e <= v.delivered + window;
    lemma_ack_point(v, e);
}

/// A run of bytes from an absolute offset.
struct Segment {
    start: u64,
    data: Vec<u8>,
}

impl Segment {
    spec fn end(&self) -> int {
        self.start + self.data@.len()
    }

    spec fn has(&self, i: int) -> bool {
        self.start <= i < self.end()
    }
}

spec fn seg_has(segs: Seq<Segment>, k: int, i: int) -> bool {
    0 <= k < segs.len() && segs[k].has(i)
}

/// Segments stand in order, none is empty, and there is a gap between any two.
spec fn segs_wf(segs: Seq<Segment>) -> bool {
    &&& forall|k: int|
        0 <= k < segs.len() ==> (#[trigger] segs[k]).data@.len() > 0 && segs[k].end() <= u64::MAX
    &&& forall|j: int, k: int|
        0 <= j < k < segs.len() ==> (#[trigger] segs[j]).end() < (#[trigger] segs[k]).start
}

spec fn held_of(segs: Seq<Segment>) -> Map<int, u8> {
    Map::new(
        |i: int| exists|k: int| seg_has(segs, k, i),
        |i: int|
            {
                let k = choose|k: int| seg_has(segs, k, i);
                segs[k].data@[i - segs[k].start]
            },
    )
}

proof fn lemma_held(segs: Seq<Segment>, k: int, i: int)
    requires
        segs_wf(segs),
        seg_has(segs, k, i),
    ensures
        held_of(segs).contains_key(i),
        held_of(segs)[i] == segs[k].data@[i - segs[k].start],
{
    let c = choose|c: int| seg_has(segs, c, i);
    assert(seg_has(segs, c, i));
    if c < k {
        assert(segs[c].end() < segs[k].start);
    } else if k < c {
        assert(segs[k].end() < segs[c].start);
    }
}

/// Reassembles out-of-order segments into a contiguous in-order byte stream.
pub struct Reassembler {
    /// Bytes already handed to the application via `read`.
    delivered: u64,
    /// Future segments by start offset.
    segs: Vec<Segment>,
}

impl View for Reassembler {
    type V = RecvView;

    closed spec fn view(&self) -> RecvView {
        RecvView { delivered: self.delivered as int, held: held_of(self.segs@) }
    }
}

impl Reassembler {
    /// The segments are in order and lie at or above the delivered point.
    pub closed spec fn wf(&self) -> bool {
        &&& segs_wf(self.segs@)
        &&& self.segs@.len() > 0 ==> self.delivered <= self.segs@[0].start
    }

    /// A reassembler that has received nothing.
    pub fn new() -> (r: Reassembler)
        ensures
            r.wf(),
            r@ == RecvView::empty(),
    {
        let r = Reassembler { delivered: 0, segs: Vec::new() };
        assert(r@.held =~= Map::<int, u8>::empty());
        r
    }

    /// Take in the bytes `data` at `offset`.
    pub fn insert(&mut self, offset: u64, data: Vec<u8>)
        requires
            old(self).wf(),
            offset + data@.len() <= u64::MAX,
        ensures
            final(self).wf(),
            final(self)@ == old(self)@.insert(offset as int, data@),
    {
        let ghost before = self@;
        let ghost given = data@;
        proof {
            lemma_held_bounds(self.segs@, self.delivered as int);
        }
        if data.len() == 0 {
            assert(before.insert(offset as int, given).held =~= before.held);
            return;
        }
        // Drop any already-delivered prefix.
        if offset < self.delivered {
            let cut: u64 = self.delivered - offset;
            if cut >= data.len() as u64 {
                assert(before.insert(offset as int, given).held =~= before.held);
                return;
            }
            let mut data: Vec<u8> = data;
            let rest: Vec<u8> = data.split_off(cut as usize);
            let start: u64 = self.delivered;
            assert(before.insert(offset as int, given).held =~= before.insert(
                start as int,
                rest@,
            ).held);
            self.splice(start, rest);
        } else {
            self.splice(offset, data);
        }
    }

    /// Replace the segments that overlap or touch `data` by one that holds
    /// them all.
    fn splice(&mut self, offset: u64, data: Vec<u8>)
        requires
            old(self).wf(),
            data@.len() > 0,
            old(self)@.delivered <= offset,
            offset + data@.len() <= u64::MAX,
        ensures
            final(self).wf(),
            final(self)@ == old(self)@.insert(offset as int, data@),
    {
        let ghost before = self@;
        let ghost given = data@;
        let ghost segs = self.segs@;
        let end: u64 = offset + data.len() as u64;
        let n: usize = self.segs.len();
        let mut lo: usize = 0;
        while lo < n && self.segs[lo].start + (self.segs[lo].data.len() as u64) < offset
            invariant
                n == self.segs@.len(),
                lo <= n,
                segs_wf(self.segs@),
                forall|k: int| 0 <= k < lo ==> (#[trigger] self.segs@[k]).end() < offset,
            decreases n - lo,
        {
            lo += 1;
        }
        let mut hi: usize = lo;
        while hi < n && self.segs[hi].start <= end
            invariant
                n == self.segs@.len(),
                lo <= hi <= n,
                forall|k: int| lo <= k < hi ==> (#[trigger] self.segs@[k]).start <= end,
            decreases n - hi,
        {
            hi += 1;
        }
        let seg: Segment = if lo == hi {
            Segment { start: offset, data }
        } else {
            proof {
                if lo < hi - 1 {
                    assert(segs[lo as int].end() < segs[hi - 1].start);
                }
            }
            merge(&self.segs[lo], &self.segs[hi - 1], offset, data)
        };
        let ghost merged = seg;
        let mut tail: Vec<Segment> = self.segs.split_off(hi);
        self.segs.truncate(lo);
        self.segs.push(seg);
        self.segs.append(&mut tail);
        proof {
            assert(self.segs@ =~= segs.take(lo as int).push(merged) + segs.skip(hi as int));
            lemma_replaced(segs, lo as int, hi as int, merged, offset as int, end as int);
            lemma_held_bounds(segs, self.delivered as int);
            lemma_splice(
                segs,
                lo as int,
                hi as int,
                merged,
                offset as int,
                given,
                self.segs@,
            );
            assert(self@.held =~= before.insert(offset as int, given).held);
            assert(self.segs@[0] == if lo == 0 {
                merged
            } else {
                segs[0]
            });
        }
    }

    /// Drain and return the contiguous bytes available.
    pub fn read(&mut self) -> (out: Vec<u8>)
        requires
            old(self).wf(),
        ensures
            final(self).wf(),
            out@ == old(self)@.readable(),
            final(self)@ == old(self)@.after_read(),
    {
        let ghost before = *self;
        proof {
            self.lemma_run();
        }
        if self.segs.len() > 0 && self.segs[0].start == self.delivered {
            let seg: Segment = self.segs.remove(0);
            let len: u64 = seg.data.len() as u64;
            self.delivered = self.delivered + len;
            proof {
                let old_segs = before.segs@;
                assert forall|i: int| 0 <= i < seg.data@.len() implies seg.data@[i]
                    == #[trigger] before@.readable()[i] by {
                    lemma_held(old_segs, 0, before.delivered + i);
                }
                assert(seg.data@ =~= before@.readable());
                assert forall|k: int| 0 <= k < self.segs@.len() implies self.segs@[k] == #[trigger] old_segs[k
                    + 1] by {}
                assert(segs_wf(self.segs@));
                assert forall|i: int| self@.held.contains_key(i) == #[trigger] before@.after_read().held.contains_key(
                    i,
                ) && (self@.held.contains_key(i) ==> self@.held[i] == before@.after_read().held[i]) by {
                    if self@.held.contains_key(i) {
                        let k = choose|k: int| seg_has(self.segs@, k, i);
                        assert(seg_has(old_segs, k + 1, i));
                        lemma_held(self.segs@, k, i);
                        lemma_held(old_segs, k + 1, i);
                        assert(old_segs[0].end() < old_segs[k + 1].start);
                    }
                    if before@.after_read().held.contains_key(i) {
                        let k = choose|k: int| seg_has(old_segs, k, i);
                        assert(k > 0);
                        assert(seg_has(self.segs@, k - 1, i));
                        lemma_held(self.segs@, k - 1, i);
                    }
                }
                assert(self@.held =~= before@.after_read().held);
            }
            seg.data
        } else {
            let out: Vec<u8> = Vec::new();
            proof {
                lemma_held_bounds(self.segs@, self.delivered as int);
                assert(out@ =~= before@.readable());
                assert forall|i: int| self@.held.contains_key(i) implies #[trigger] before@.after_read().held.contains_key(
                    i,
                ) by {
                    assert(held_of(self.segs@).contains_key(i));
                }
                assert(self@.held =~= before@.after_read().held);
            }
            out
        }
    }

    /// Highest contiguous offset received (ack point).
    pub fn ack_point(&self) -> (r: u64)
        requires
            self.wf(),
        ensures
            r == self@.ack_point(),
            self@.runs_to(r as int),
    {
        proof {
            self.lemma_run();
        }
        if self.segs.len() > 0 && self.segs[0].start == self.delivered {
            self.delivered + self.segs[0].data.len() as u64
        } else {
            self.delivered
        }
    }

    /// Bytes received contiguously but not yet read by the app.
    pub fn unread(&self) -> (r: u64)
        requires
            self.wf(),
        ensures
            r == self@.unread(),
    {
        self.ack_point() - self.delivered
    }

    /// Bytes already handed to the application.
    pub fn delivered(&self) -> (r: u64)
        ensures
            r == self@.delivered,
    {
        self.delivered
    }

    proof fn lemma_run(&self)
        requires
            self.wf(),
        ensures
            self@.runs_to(
                if self.segs@.len() > 0 && self.segs@[0].start == self.delivered {
                    self.segs@[0].end()
                } else {
                    self.delivered as int
                },
            ),
            self@.ack_point() == if self.segs@.len() > 0 && self.segs@[0].start == self.delivered {
                self.segs@[0].end()
            } else {
                self.delivered as int
            },
    {
        let segs = self.segs@;
        let end = if segs.len() > 0 && segs[0].start == self.delivered {
            segs[0].end()
        } else {
            self.delivered as int
        };
        assert forall|i: int| self.delivered <= i < end implies self@.held.contains_key(i) by {
            assert(seg_has(segs, 0, i));
            lemma_held(segs, 0, i);
        }
        if self@.held.contains_key(end) {
            let k = choose|k: int| seg_has(segs, k, end);
            if k > 0 {
                assert(segs[0].end() < segs[k].start);
            }
        }
        lemma_ack_point(self@, end);
    }
}

proof fn lemma_held_bounds(segs: Seq<Segment>, delivered: int)
    requires
        segs_wf(segs),
        segs.len() > 0 ==> delivered <= segs[0].start,
    ensures
        forall|i: int| held_of(segs).contains_key(i) ==> delivered <= i,
{
    assert forall|i: int| held_of(segs).contains_key(i) implies delivered <= i by {
        let k = choose|k: int| seg_has(segs, k, i);
        if k > 0 {
            assert(segs[0].end() < segs[k].start);
        }
    }
}

/// The segment that `data` at `offset` forms with what sticks out of the first
/// and the last of the segments it overlaps or touches.
fn merge(first: &Segment, last: &Segment, offset: u64, data: Vec<u8>) -> (r: Segment)
    requires
        first.end() >= offset,
        last.start <= offset + data@.len(),
        first.start <= last.start,
        first.end() <= last.end() <= u64::MAX,
        data@.len() > 0,
        offset + data@.len() <= u64::MAX,
    ensures
        r.start == if first.start < offset {
            first.start
        } else {
            offset
        },
        r.end() == if last.end() > offset + data@.len() {
            last.end()
        } else {
            offset + data@.len()
        },
        forall|i: int|
            r.has(i) ==> #[trigger] r.data@[i - r.start] == if i < offset {
                first.data@[i - first.start]
            } else if i < offset + data@.len() {
                data@[i - offset]
            } else {
                last.data@[i - last.start]
            },
{
    let ghost given = data@;
    let end: u64 = offset + data.len() as u64;
    let mut data: Vec<u8> = data;
    let mut buf: Vec<u8> = Vec::new();
    let mut start: u64 = offset;
    if first.start < offset {
        start = first.start;
        assert(first.data.len() >= offset - first.start);
        buf = slice_to_vec(slice_subrange(&first.data, 0, (offset - first.start) as usize));
    }
    let ghost head = buf@;
    buf.append(&mut data);
    let last_end: u64 = last.start + last.data.len() as u64;
    if last_end > end {
        let mut rest: Vec<u8> = slice_to_vec(
            slice_subrange(&last.data, (end - last.start) as usize, last.data.len()),
        );
        buf.append(&mut rest);
    }
    let ghost tail = if last_end > end {
        last.data@.skip(end - last.start)
    } else {
        Seq::empty()
    };
    assert(buf@ =~= head + given + tail);
    assert(head.len() == offset - start);
    Segment { start, data: buf }
}

/// Replacing the segments `lo..hi` by one that spans them keeps the order.
proof fn lemma_replaced(segs: Seq<Segment>, lo: int, hi: int, merged: Segment, offset: int, end: int)
    requires
        segs_wf(segs),
        0 <= lo <= hi <= segs.len(),
        offset < end <= u64::MAX,
        forall|k: int| 0 <= k < lo ==> (#[trigger] segs[k]).end() < offset,
        lo < segs.len() ==> segs[lo].end() >= offset,
        forall|k: int| lo <= k < hi ==> (#[trigger] segs[k]).start <= end,
        hi < segs.len() ==> segs[hi].start > end,
        merged.start == if lo < hi && segs[lo].start < offset {
            segs[lo].start as int
        } else {
            offset
        },
        merged.end() == if lo < hi && segs[hi - 1].end() > end {
            segs[hi - 1].end()
        } else {
            end
        },
    ensures
        segs_wf(segs.take(lo).push(merged) + segs.skip(hi)),
{
    let out = segs.take(lo).push(merged) + segs.skip(hi);
    assert forall|k: int| 0 <= k < out.len() implies (#[trigger] out[k]).data@.len() > 0 && out[k].end()
        <= u64::MAX by {
        if k < lo {
            assert(out[k] == segs[k]);
        } else if k > lo {
            assert(out[k] == segs[k - lo - 1 + hi]);
        }
    }
    assert forall|j: int, k: int| 0 <= j < k < out.len() implies (#[trigger] out[j]).end() < (
    #[trigger] out[k]).start by {
        if j < lo {
            assert(out[j] == segs[j]);
        } else if j > lo {
            assert(out[j] == segs[j - lo - 1 + hi]);
        }
        if k < lo {
            assert(out[k] == segs[k]);
        } else if k > lo {
            assert(out[k] == segs[k - lo - 1 + hi]);
        }
        if j == lo {
            let q = k - lo - 1 + hi;
            assert(segs[q].start > end) by {
                if q > hi {
                    assert(segs[hi].end() < segs[q].start);
                }
            }
            if lo < hi {
                assert(segs[hi - 1].end() < segs[q].start);
            }
        }
    }
}

/// What is held after the replacement is what was held, with `data` over it.
proof fn lemma_splice(
    segs: Seq<Segment>,
    lo: int,
    hi: int,
    merged: Segment,
    offset: int,
    data: Seq<u8>,
    out: Seq<Segment>,
)
    requires
        segs_wf(segs),
        segs_wf(out),
        0 <= lo <= hi <= segs.len(),
        data.len() > 0,
        out == segs.take(lo).push(merged) + segs.skip(hi),
        merged.start == if lo < hi && segs[lo].start < offset {
            segs[lo].start as int
        } else {
            offset
        },
        merged.end() == if lo < hi && segs[hi - 1].end() > offset + data.len() {
            segs[hi - 1].end()
        } else {
            offset + data.len()
        },
        forall|i: int|
            merged.has(i) ==> #[trigger] merged.data@[i - merged.start] == if i < offset {
                segs[lo].data@[i - segs[lo].start]
            } else if i < offset + data.len() {
                data[i - offset]
            } else {
                segs[hi - 1].data@[i - segs[hi - 1].start]
            },
        forall|k: int| 0 <= k < lo ==> (#[trigger] segs[k]).end() < offset,
        lo < segs.len() ==> segs[lo].end() >= offset,
        forall|k: int| lo <= k < hi ==> (#[trigger] segs[k]).start <= offset + data.len(),
        hi < segs.len() ==> segs[hi].start > offset + data.len(),
    ensures
        forall|i: int|
            #![trigger held_of(out).contains_key(i)]
            held_of(out).contains_key(i) <==> held_of(segs).contains_key(i) || offset <= i < offset
                + data.len(),
        forall|i: int|
            #![trigger held_of(out)[i]]
            held_of(out).contains_key(i) ==> held_of(out)[i] == if offset <= i < offset + data.len() {
                data[i - offset]
            } else {
                held_of(segs)[i]
            },
{
    let end = offset + data.len();
    assert forall|i: int|
        #![trigger held_of(out).contains_key(i)]
        {
            &&& held_of(out).contains_key(i) <==> held_of(segs).contains_key(i) || offset <= i < end
            &&& held_of(out).contains_key(i) ==> held_of(out)[i] == if offset <= i < end {
                data[i - offset]
            } else {
                held_of(segs)[i]
            }
        } by {
        assert(out[lo] == merged);
        if offset <= i < end {
            assert(seg_has(out, lo, i));
            lemma_held(out, lo, i);
            assert(merged.data@[i - merged.start] == data[i - offset]);
        } else if held_of(segs).contains_key(i) {
            let k = choose|k: int| seg_has(segs, k, i);
            lemma_held(segs, k, i);
            if k < lo {
                assert(out[k] == segs[k]);
                assert(seg_has(out, k, i));
                lemma_held(out, k, i);
            } else if k >= hi {
                let q = k - hi + lo + 1;
                assert(out[q] == segs[k]);
                assert(seg_has(out, q, i));
                lemma_held(out, q, i);
            } else {
                // Sticks out of the new bytes on one side, so it is the first
                // or the last of the segments replaced.
                if i < offset {
                    if k > lo {
                        assert(segs[lo].end() < segs[k].start);
                    }
                    assert(k == lo);
                } else {
                    if k < hi - 1 {
                        assert(segs[k].end() < segs[hi - 1].start);
                    }
                    assert(k == hi - 1);
                }
                assert(seg_has(out, lo, i));
                lemma_held(out, lo, i);
                assert(merged.data@[i - merged.start] == segs[k].data@[i - segs[k].start]);
            }
        } else if held_of(out).contains_key(i) {
            let q = choose|q: int| seg_has(out, q, i);
            if q < lo {
                assert(out[q] == segs[q]);
                assert(seg_has(segs, q, i));
                lemma_held(segs, q, i);
            } else if q > lo {
                let k = q - lo - 1 + hi;
                assert(out[q] == segs[k]);
                assert(seg_has(segs, k, i));
                lemma_held(segs, k, i);
            } else if i < offset {
                assert(seg_has(segs, lo, i));
                lemma_held(segs, lo, i);
            } else {
                assert(seg_has(segs, hi - 1, i));
                lemma_held(segs, hi - 1, i);
            }
        }
    }
}

impl Default for Reassembler {
    fn default() -> (r: Reassembler)
        ensures
            r.wf(),
            r@ == RecvView::empty(),
    {
        Reassembler::new()
    }
}

impl RecvView {
    /// Every byte held is the byte that `stream` has at its offset.
    pub open spec fn follows(self, stream: Seq<u8>) -> bool {
        &&& 0 <= self.delivered <= stream.len()
        &&& forall|i: int| #[trigger] self.held.contains_key(i) ==> self.delivered <= i < stream.len()
            && self.held[i] == stream[i]
    }
}

/// A receiver into which only bytes of `stream` at their place are put goes on
/// to hold bytes of `stream` at their place.
pub proof fn law_insert_follows(v: RecvView, stream: Seq<u8>, offset: int, data: Seq<u8>)
    requires
        v.follows(stream),
        0 <= offset,
        offset + data.len() <= stream.len(),
        data == stream.subrange(offset, offset + data.len()),
    ensures
        v.insert(offset, data).follows(stream),
{
}

/// A byte string that was put in at the acknowledgement point or below moves
/// that point at least to its end.
pub proof fn law_insert_advances(v: RecvView, offset: int, data: Seq<u8>, old_end: int, new_end: int)
    requires
        v.runs_to(old_end),
        v.insert(offset, data).runs_to(new_end),
        offset <= old_end,
    ensures
        new_end >= old_end,
        new_end >= offset + data.len(),
{
    if new_end < old_end {
        assert(v.held.contains_key(new_end));
    }
}

/// What is read are the bytes of the stream that follow those read before, so
/// all reads together make up a prefix of the stream.
pub proof fn law_read_in_order(v: RecvView, stream: Seq<u8>, end: int)
    requires
        v.follows(stream),
        v.runs_to(end),
    ensures
        v.readable() == stream.subrange(v.delivered, end),
        v.after_read().follows(stream),
        v.after_read().delivered == end,
{
    lemma_ack_point(v, end);
    if end > v.delivered {
        assert(v.held.contains_key(end - 1));
    }
    assert(v.readable() =~= stream.subrange(v.delivered, end)) by {
        assert forall|i: int| v.delivered <= i < end implies v.held[i] == #[trigger] stream[i] by {
            assert(v.held.contains_key(i));
        }
    }
}

} // verus!
