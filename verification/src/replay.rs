//! Sliding-window anti-replay filter over a 64-bit packet nonce space.
//!
//! Packets arrive reordered on a datagram link. The filter accepts each nonce
//! at most once and drops anything older than the window or already seen.

use vstd::prelude::*;

verus! {

/// Width of the replay window in packets.
pub const WINDOW: u64 = 64;

/// Remembers which of the most recent nonces have been accepted.
pub struct WindowFilter {
    /// Highest nonce accepted so far (None until the first packet).
    max: Option<u64>,
    /// Bit `i` (from LSB) marks that nonce `max - i` has been accepted.
    bitmap: u64,
}

/// What a filter knows: the highest nonce accepted, and which nonces of the
/// window below it have been accepted.
pub struct ReplayView {
    pub max: Option<u64>,
    pub seen: Set<u64>,
}

spec fn bit_set(bitmap: u64, i: u64) -> bool {
    bitmap & (1u64 << i) != 0
}

impl ReplayView {
    /// Nothing accepted yet.
    pub open spec fn empty() -> ReplayView {
        ReplayView { max: None, seen: Set::empty() }
    }

    /// The window reaches down to `WINDOW - 1` below the highest nonce.
    pub open spec fn in_window(self, nonce: u64) -> bool {
        self.max matches Some(max) && nonce <= max && max - nonce < WINDOW
    }

    /// A nonce is fresh if it is the first, higher than all before, or in the
    /// window and not seen.
    pub open spec fn fresh(self, nonce: u64) -> bool {
        match self.max {
            None => true,
            Some(max) => nonce > max || (self.in_window(nonce) && !self.seen.contains(nonce)),
        }
    }

    /// What is known once `nonce` has been accepted.
    pub open spec fn accept(self, nonce: u64) -> ReplayView {
        let max = match self.max {
            Some(max) if max >= nonce => max,
            _ => nonce,
        };
        ReplayView {
            max: Some(max),
            seen: Set::new(
                |n: u64| n <= max && max - n < WINDOW && (n == nonce || self.seen.contains(n)),
            ),
        }
    }

    /// What is known after `nonce` was presented.
    pub open spec fn step(self, nonce: u64) -> ReplayView {
        if self.fresh(nonce) {
            self.accept(nonce)
        } else {
            self
        }
    }

    /// What is known after a run of nonces was presented to a new filter.
    pub open spec fn after(nonces: Seq<u64>) -> ReplayView
        decreases nonces.len(),
    {
        if nonces.len() == 0 {
            ReplayView::empty()
        } else {
            ReplayView::after(nonces.drop_last()).step(nonces.last())
        }
    }

    /// Whether nonce number `i` of a run is accepted.
    pub open spec fn accepts(nonces: Seq<u64>, i: int) -> bool {
        ReplayView::after(nonces.take(i)).fresh(nonces[i])
    }
}

impl View for WindowFilter {
    type V = ReplayView;

    closed spec fn view(&self) -> ReplayView {
        ReplayView {
            max: self.max,
            seen: Set::new(
                |n: u64|
                    self.max matches Some(max) && n <= max && max - n < WINDOW && bit_set(
                        self.bitmap,
                        (max - n) as u64,
                    ),
            ),
        }
    }
}

impl Default for WindowFilter {
    fn default() -> (r: WindowFilter)
        ensures
            r@ == ReplayView::empty(),
    {
        WindowFilter::new()
    }
}

impl WindowFilter {
    /// A filter that has accepted nothing.
    pub fn new() -> (r: WindowFilter)
        ensures
            r@ == ReplayView::empty(),
    {
        let r = WindowFilter { max: None, bitmap: 0 };
        assert(r@.seen =~= Set::<u64>::empty());
        r
    }

    /// Returns true and records the nonce if it is fresh; false if it is a
    /// replay or too old to verify.
    pub fn check_and_set(&mut self, nonce: u64) -> (fresh: bool)
        ensures
            fresh == old(self)@.fresh(nonce),
            final(self)@ == old(self)@.step(nonce),
    {
        let ghost before = *self;
        match self.max {
            None => {
                self.max = Some(nonce);
                self.bitmap = 1;
                proof {
                    lemma_bit_one();
                    assert(self@.seen =~= before@.accept(nonce).seen);
                }
                true
            },
            Some(max) => {
                if nonce > max {
                    let diff: u64 = nonce - max;
                    if diff >= WINDOW {
                        self.bitmap = 1;
                        proof {
                            lemma_bit_one();
                        }
                    } else {
                        self.bitmap = (self.bitmap << diff) | 1;
                        proof {
                            lemma_bit_shift(before.bitmap, diff);
                        }
                    }
                    self.max = Some(nonce);
                    assert(self@.seen =~= before@.accept(nonce).seen);
                    true
                } else {
                    let diff: u64 = max - nonce;
                    if diff >= WINDOW {
                        return false;
                    }
                    let bit: u64 = 1u64 << diff;
                    if self.bitmap & bit != 0 {
                        return false;
                    }
                    self.bitmap |= bit;
                    proof {
                        lemma_bit_or(before.bitmap, diff);
                    }
                    assert(self@.seen =~= before@.accept(nonce).seen);
                    true
                }
            },
        }
    }
}

proof fn lemma_bit_one()
    ensures
        forall|i: u64| i < 64 ==> (#[trigger] bit_set(1, i) <==> i == 0),
{
    assert(forall|i: u64| i < 64 ==> (#[trigger] (1u64 & (1u64 << i)) != 0 <==> i == 0)) by (bit_vector);
}

proof fn lemma_bit_shift(bitmap: u64, d: u64)
    requires
        0 < d < 64,
    ensures
        forall|i: u64|
            i < 64 ==> (#[trigger] bit_set((bitmap << d) | 1, i) <==> i == 0 || (i >= d && bit_set(
                bitmap,
                (i - d) as u64,
            ))),
{
    assert forall|i: u64| i < 64 implies (#[trigger] bit_set((bitmap << d) | 1, i) <==> i == 0 || (i >= d
        && bit_set(bitmap, (i - d) as u64))) by {
        let j = if i >= d {
            (i - d) as u64
        } else {
            0
        };
        assert(((bitmap << d) | 1) & (1u64 << i) != 0 <==> i == 0 || (i >= d && bitmap & (1u64 << j) != 0))
            by (bit_vector)
            requires
                0 < d < 64,
                i < 64,
                i >= d ==> j == i - d,
        ;
    }
}

proof fn lemma_bit_or(bitmap: u64, d: u64)
    requires
        d < 64,
    ensures
        forall|i: u64|
            i < 64 ==> (#[trigger] bit_set(bitmap | (1u64 << d), i) <==> i == d || bit_set(bitmap, i)),
{
    assert(forall|i: u64|
        i < 64 ==> (#[trigger] ((bitmap | (1u64 << d)) & (1u64 << i)) != 0 <==> i == d || bitmap & (1u64
            << i) != 0)) by (bit_vector)
        requires
            d < 64,
    ;
}

/// Every nonce accepted in a run is at most the highest, and is known to be
/// seen as long as it lies in the window.
proof fn lemma_accepted_are_known(nonces: Seq<u64>, i: int)
    requires
        0 <= i < nonces.len(),
        ReplayView::accepts(nonces, i),
    ensures
        ({
            let v = ReplayView::after(nonces);
            v.max matches Some(max) && nonces[i] <= max && (max - nonces[i] < WINDOW ==> v.seen.contains(
                nonces[i],
            ))
        }),
    decreases nonces.len(),
{
    let init = nonces.drop_last();
    if i < nonces.len() - 1 {
        assert(init.take(i) =~= nonces.take(i));
        lemma_accepted_are_known(init, i);
    } else {
        assert(nonces.take(i) =~= init);
    }
}

/// No nonce is accepted twice, whatever the order in which packets arrive.
pub proof fn law_accepted_at_most_once(nonces: Seq<u64>, i: int, j: int)
    requires
        0 <= i < j < nonces.len(),
        nonces[i] == nonces[j],
        ReplayView::accepts(nonces, i),
    ensures
        !ReplayView::accepts(nonces, j),
{
    let before = nonces.take(j);
    assert(before.take(i) =~= nonces.take(i));
    lemma_accepted_are_known(before, i);
}

/// A nonce above all that came before is accepted.
pub proof fn law_increasing_accepted(nonces: Seq<u64>, i: int)
    requires
        0 <= i < nonces.len(),
        forall|j: int| 0 <= j < i ==> nonces[j] < nonces[i],
    ensures
        ReplayView::accepts(nonces, i),
{
    lemma_max_was_presented(nonces.take(i));
}

proof fn lemma_max_was_presented(nonces: Seq<u64>)
    ensures
        ReplayView::after(nonces).max matches Some(max) ==> nonces.contains(max),
    decreases nonces.len(),
{
    if nonces.len() > 0 {
        let init = nonces.drop_last();
        lemma_max_was_presented(init);
        assert(nonces[nonces.len() - 1] == nonces.last());
        if let Some(max) = ReplayView::after(init).max {
            let k = choose|k: int| 0 <= k < init.len() && init[k] == max;
            assert(nonces[k] == max);
        }
    }
}

/// Packets may overtake each other: a nonce below the highest is accepted if it is not
/// too far below and did not come before, and only then. A nonce that is accepted takes
/// nothing from what others are.
pub proof fn law_late_accepted(v: ReplayView, nonce: u64, other: u64)
    requires
        v.max is Some,
    ensures
        v.fresh(nonce) <==> nonce > v.max->0 || (v.max->0 - nonce < WINDOW && !v.seen.contains(nonce)),
        !v.step(nonce).fresh(nonce),
        v.fresh(nonce) && nonce < v.max->0 && other != nonce ==> v.step(nonce).fresh(other)
            == v.fresh(other),
        v.step(nonce).max->0 >= v.max->0,
{
}

} // verus!
