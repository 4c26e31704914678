//! The interactive-shell data plane: server-authoritative state-sync plus the
//! reliable client-to-server input channel.
//!
//! Direction-specific meaning of an `Ack` frame:
//! - client to server: acknowledges the highest applied screen-state seq.
//! - server to client: acknowledges contiguous input bytes received.

use crate::diff::{apply_diff, encode_diff, is_full};
use crate::grid::{Grid, GridView};
use crate::input::{InputReceiver, InputSender};
use crate::predict::{DisplayMode, PredictView, Predictor};
use crate::terminal::Terminal;
use crate::wire::{Frame, FrameView};
use vstd::prelude::*;

verus! {

/// Dimensions that a screen in memory can have.
pub open spec fn fits(rows: usize, cols: usize) -> bool {
    crate::grid::at_least_one(rows as int) * crate::grid::at_least_one(cols as int) <= usize::MAX
}

/// A screen whose dimensions are 16-bit numbers fits.
pub proof fn lemma_size_fits(rows: u16, cols: u16)
    ensures
        fits(rows as usize, cols as usize),
{
    let r = crate::grid::at_least_one(rows as int);
    let c = crate::grid::at_least_one(cols as int);
    assert(r * c <= 65535 * 65535) by (nonlinear_arith)
        requires
            1 <= r <= 65535,
            1 <= c <= 65535,
    ;
}

/// A blank screen of at least one row and one column.
pub open spec fn blank_screen(rows: usize, cols: usize) -> GridView {
    GridView::fresh(
        crate::grid::at_least_one(rows as int),
        crate::grid::at_least_one(cols as int),
    )
}

/// The state of the server side of a shell.
pub struct ServerShellView {
    /// The screen as the emulator has it.
    pub screen: GridView,
    /// What the emulator has been fed.
    pub fed: Seq<Seq<u8>>,
    /// The number of the last screen recorded for sending.
    pub seq: u64,
    /// The number of the last screen the client has applied.
    pub acked_seq: u64,
    /// Recorded screens that a diff may start from, by number.
    pub history: Map<u64, GridView>,
    /// The screen recorded last.
    pub last_sent: GridView,
    /// Contiguous input bytes received.
    pub received: nat,
    /// The next diff has to be a full snapshot.
    pub force_full: bool,
}

impl ServerShellView {
    pub open spec fn fresh(rows: usize, cols: usize) -> ServerShellView {
        ServerShellView {
            screen: blank_screen(rows, cols),
            fed: Seq::empty(),
            seq: 0,
            acked_seq: 0,
            history: Map::empty().insert(0u64, blank_screen(rows, cols)),
            last_sent: blank_screen(rows, cols),
            received: 0,
            force_full: false,
        }
    }

    /// Screens are valid, and the screen that the client has applied is among
    /// those recorded, none of which is newer than the last. That one, if it is
    /// still there, is the screen recorded last.
    pub open spec fn wf(self) -> bool {
        &&& self.screen.wf()
        &&& self.last_sent.wf()
        &&& self.history.contains_key(self.acked_seq)
        &&& self.history.contains_key(self.seq) ==> self.history[self.seq] == self.last_sent
        &&& forall|k: u64| #[trigger]
            self.history.contains_key(k) ==> k <= self.seq && self.history[k].wf()
    }

    /// As seen by a client that knows nothing yet: no screen is acknowledged
    /// but the blank one, input starts over, and the next diff is a full
    /// snapshot. The screen stays.
    pub open spec fn rebound(self) -> ServerShellView {
        let blank = GridView::fresh(self.screen.rows, self.screen.cols);
        ServerShellView {
            acked_seq: 0,
            history: Map::empty().insert(0u64, blank),
            last_sent: blank,
            received: 0,
            force_full: true,
            ..self
        }
    }

    /// With a screen acknowledged. Only a recorded one that is newer than the
    /// last acknowledged counts; older ones are forgotten.
    pub open spec fn acked(self, seq: u64) -> ServerShellView {
        if seq > self.acked_seq && self.history.contains_key(seq) {
            ServerShellView {
                acked_seq: seq,
                history: Map::new(
                    |k: u64| self.history.contains_key(k) && k >= seq,
                    |k: u64| self.history[k],
                ),
                ..self
            }
        } else {
            self
        }
    }

    /// With the current screen recorded under a new number, if it renders
    /// otherwise than the last one recorded (and numbers are left).
    pub open spec fn recorded(self) -> ServerShellView {
        if self.screen.render() != self.last_sent.render() && self.seq < u64::MAX {
            let seq = (self.seq + 1) as u64;
            ServerShellView {
                seq,
                history: self.history.insert(seq, self.screen),
                last_sent: self.screen,
                ..self
            }
        } else {
            self
        }
    }

    /// The frame that brings a client from the acknowledged screen to the one
    /// recorded last, unless it has that.
    pub open spec fn diff_frame(self) -> Option<FrameView> {
        if self.seq == self.acked_seq {
            None
        } else if self.force_full {
            Some(
                FrameView::StateDiff {
                    seq: self.seq,
                    base: 0,
                    data: crate::diff::diff_bytes(None, self.last_sent.render()),
                },
            )
        } else {
            Some(
                FrameView::StateDiff {
                    seq: self.seq,
                    base: self.acked_seq,
                    data: crate::diff::diff_bytes(
                        Some(self.history[self.acked_seq].render()),
                        self.last_sent.render(),
                    ),
                },
            )
        }
    }

    /// After `diff_frame` has been handed out.
    pub open spec fn diff_sent(self) -> ServerShellView {
        if self.seq == self.acked_seq {
            self
        } else {
            ServerShellView { force_full: false, ..self }
        }
    }
}

/// A recorded screen.
struct Snapshot {
    seq: u64,
    grid: Grid,
}

spec fn has_seq(s: Seq<Snapshot>, k: int, seq: u64) -> bool {
    0 <= k < s.len() && s[k].seq == seq
}

spec fn history_of(s: Seq<Snapshot>) -> Map<u64, GridView> {
    Map::new(
        |seq: u64| exists|k: int| has_seq(s, k, seq),
        |seq: u64| s[choose|k: int| has_seq(s, k, seq)].grid@,
    )
}

spec fn ascending(s: Seq<Snapshot>) -> bool {
    &&& forall|i: int, j: int| 0 <= i < j < s.len() ==> (#[trigger] s[i]).seq < (#[trigger] s[j]).seq
    &&& forall|i: int| 0 <= i < s.len() ==> (#[trigger] s[i]).grid.wf()
}

proof fn lemma_history_at(s: Seq<Snapshot>, k: int)
    requires
        ascending(s),
        0 <= k < s.len(),
    ensures
        history_of(s).contains_key(s[k].seq),
        history_of(s)[s[k].seq] == s[k].grid@,
{
    let seq = s[k].seq;
    assert(has_seq(s, k, seq));
    let c = choose|c: int| has_seq(s, c, seq);
    if c < k {
        assert(s[c].seq < s[k].seq);
    } else if k < c {
        assert(s[k].seq < s[c].seq);
    }
}

proof fn lemma_history_one(s: Seq<Snapshot>)
    requires
        s.len() == 1,
        s[0].grid.wf(),
    ensures
        ascending(s),
        history_of(s) == Map::<u64, GridView>::empty().insert(s[0].seq, s[0].grid@),
{
    lemma_history_at(s, 0);
    assert(history_of(s) =~= Map::<u64, GridView>::empty().insert(s[0].seq, s[0].grid@));
}

proof fn lemma_history_push(s: Seq<Snapshot>, t: Snapshot)
    requires
        ascending(s),
        t.grid.wf(),
        forall|i: int| 0 <= i < s.len() ==> (#[trigger] s[i]).seq < t.seq,
    ensures
        ascending(s.push(t)),
        history_of(s.push(t)) == history_of(s).insert(t.seq, t.grid@),
{
    let out = s.push(t);
    assert forall|seq: u64| history_of(out).contains_key(seq) == #[trigger] history_of(s).insert(
        t.seq,
        t.grid@,
    ).contains_key(seq) && (history_of(out).contains_key(seq) ==> history_of(out)[seq] == history_of(
        s,
    ).insert(t.seq, t.grid@)[seq]) by {
        if history_of(out).contains_key(seq) {
            let c = choose|c: int| has_seq(out, c, seq);
            lemma_history_at(out, c);
            if c < s.len() {
                lemma_history_at(s, c);
                assert(s[c].seq < t.seq);
            }
        }
        if history_of(s).contains_key(seq) {
            let c = choose|c: int| has_seq(s, c, seq);
            assert(has_seq(out, c, seq));
        }
        assert(has_seq(out, s.len() as int, t.seq));
    }
    assert(history_of(out) =~= history_of(s).insert(t.seq, t.grid@));
}

proof fn lemma_history_skip(s: Seq<Snapshot>, n: int)
    requires
        ascending(s),
        0 <= n < s.len(),
    ensures
        ascending(s.skip(n)),
        history_of(s.skip(n)) == Map::<u64, GridView>::new(
            |k: u64| history_of(s).contains_key(k) && k >= s[n].seq,
            |k: u64| history_of(s)[k],
        ),
{
    let out = s.skip(n);
    let goal = Map::<u64, GridView>::new(
        |k: u64| history_of(s).contains_key(k) && k >= s[n].seq,
        |k: u64| history_of(s)[k],
    );
    assert(ascending(out)) by {
        assert forall|i: int| 0 <= i < out.len() implies #[trigger] out[i] == s[i + n] by {}
    }
    assert forall|seq: u64| history_of(out).contains_key(seq) == #[trigger] goal.contains_key(seq) && (
    history_of(out).contains_key(seq) ==> history_of(out)[seq] == goal[seq]) by {
        if history_of(out).contains_key(seq) {
            let c = choose|c: int| has_seq(out, c, seq);
            lemma_history_at(out, c);
            lemma_history_at(s, c + n);
            if c > 0 {
                assert(s[n].seq < s[c + n].seq);
            }
        }
        if goal.contains_key(seq) {
            let c = choose|c: int| has_seq(s, c, seq);
            if c < n {
                assert(s[c].seq < s[n].seq);
            }
            assert(has_seq(out, c - n, seq));
        }
    }
    assert(history_of(out) =~= goal);
}

/// Server-side authoritative screen + input receiver.
pub struct ServerShell {
    term: Terminal,
    seq: u64,
    acked_seq: u64,
    history: Vec<Snapshot>,
    last_sent: Grid,
    input_rx: InputReceiver,
    force_full: bool,
}

impl View for ServerShell {
    type V = ServerShellView;

    closed spec fn view(&self) -> ServerShellView {
        ServerShellView {
            screen: self.term.shown(),
            fed: self.term.fed(),
            seq: self.seq,
            acked_seq: self.acked_seq,
            history: history_of(self.history@),
            last_sent: self.last_sent@,
            received: self.input_rx.received(),
            force_full: self.force_full,
        }
    }
}

impl ServerShell {
    /// The state is valid.
    pub closed spec fn wf(&self) -> bool {
        &&& self@.wf()
        &&& ascending(self.history@)
    }

    /// A valid shell has a valid view.
    pub proof fn lemma_view_wf(&self)
        requires
            self.wf(),
        ensures
            self@.wf(),
    {
    }

    /// A shell with a blank screen.
    pub fn new(rows: usize, cols: usize) -> (r: ServerShell)
        requires
            fits(rows, cols),
        ensures
            r.wf(),
            r@ == ServerShellView::fresh(rows, cols),
    {
        let blank: Grid = Grid::new(rows, cols);
        let mut history: Vec<Snapshot> = Vec::new();
        history.push(Snapshot { seq: 0, grid: blank.clone() });
        proof {
            lemma_history_one(history@);
        }
        ServerShell {
            term: Terminal::new(rows, cols),
            seq: 0,
            acked_seq: 0,
            history,
            last_sent: blank,
            input_rx: InputReceiver::new(),
            force_full: false,
        }
    }

    /// Re-bind this (already-running) shell to a freshly-connected client after
    /// a reattach: forget the previous client's ack/input progress and arrange
    /// to send the current screen as a full snapshot. The live terminal state
    /// is preserved.
    pub fn rebind_to_new_client(&mut self)
        requires
            old(self).wf(),
        ensures
            final(self).wf(),
            final(self)@ == old(self)@.rebound(),
    {
        let (rows, cols): (usize, usize) = {
            let g: &Grid = self.term.screen();
            (g.rows, g.cols)
        };
        let blank: Grid = Grid::new(rows, cols);
        self.acked_seq = 0;
        let mut history: Vec<Snapshot> = Vec::new();
        history.push(Snapshot { seq: 0, grid: blank.clone() });
        proof {
            lemma_history_one(history@);
        }
        self.history = history;
        self.last_sent = blank;
        self.input_rx = InputReceiver::new();
        self.force_full = true;
    }

    /// Feed shell/pty output into the authoritative emulator. Returns what it
    /// answers to queries in the output, for the shell to read.
    pub fn feed_output(&mut self, bytes: &[u8]) -> (reply: Vec<u8>)
        requires
            old(self).wf(),
        ensures
            final(self).wf(),
            reply@ == crate::terminal::answers(
                old(self)@.screen,
                crate::terminal::recognised(old(self)@.fed, bytes@),
            ),
            final(self)@ == (ServerShellView {
                screen: old(self)@.screen.perform_all(
                    crate::terminal::recognised(old(self)@.fed, bytes@),
                ),
                fed: old(self)@.fed.push(bytes@),
                ..old(self)@
            }),
    {
        self.term.advance(bytes)
    }

    /// Give the screen other dimensions.
    pub fn resize(&mut self, rows: usize, cols: usize)
        requires
            old(self).wf(),
            fits(rows, cols),
        ensures
            final(self).wf(),
            final(self)@ == (ServerShellView {
                screen: old(self)@.screen.resized(
                    crate::grid::at_least_one(rows as int),
                    crate::grid::at_least_one(cols as int),
                ),
                ..old(self)@
            }),
    {
        self.term.resize(rows, cols);
    }

    /// The authoritative screen.
    pub fn screen(&self) -> (r: &Grid)
        requires
            self.wf(),
        ensures
            r.wf(),
            r@ == self@.screen,
    {
        self.term.screen()
    }

    /// Client acknowledged screen-state `seq`.
    pub fn on_state_ack(&mut self, seq: u64)
        requires
            old(self).wf(),
        ensures
            final(self).wf(),
            final(self)@ == old(self)@.acked(seq),
    {
        if seq <= self.acked_seq {
            return;
        }
        let ghost before = self.history@;
        let mut k: usize = 0;
        while k < self.history.len() && self.history[k].seq < seq
            invariant
                k <= self.history@.len(),
                forall|i: int| 0 <= i < k ==> (#[trigger] self.history@[i]).seq < seq,
            decreases self.history@.len() - k,
        {
            k += 1;
        }
        if k < self.history.len() && self.history[k].seq == seq {
            self.acked_seq = seq;
            let rest: Vec<Snapshot> = self.history.split_off(k);
            self.history = rest;
            proof {
                lemma_history_at(before, k as int);
                lemma_history_skip(before, k as int);
                assert(self.history@ =~= before.skip(k as int));
                lemma_history_at(self.history@, 0);
            }
        } else {
            proof {
                if history_of(before).contains_key(seq) {
                    let c = choose|c: int| has_seq(before, c, seq);
                    assert(has_seq(before, c, seq));
                    if c > k {
                        assert(before[k as int].seq < before[c].seq);
                    }
                }
            }
        }
    }

    /// Ingest a client Input frame: returns the newly-available bytes (to write
    /// to the pty) and the input-ack frame to send back.
    pub fn ingest_input(&mut self, offset: u64, data: &[u8]) -> (r: (Vec<u8>, Frame))
        requires
            old(self).wf(),
        ensures
            final(self).wf(),
            r.0@ == crate::input::fresh_bytes(old(self)@.received, offset, data@),
            final(self)@ == (ServerShellView {
                received: old(self)@.received + r.0@.len(),
                ..old(self)@
            }),
            r.1@ == (FrameView::Ack { seq: final(self)@.received as u64 }),
    {
        let fresh: Vec<u8> = self.input_rx.ingest(offset, data);
        (fresh, Frame::Ack { seq: self.input_rx.ack() })
    }

    /// Record the current screen if the client has not been sent it.
    fn record(&mut self)
        requires
            old(self).wf(),
        ensures
            final(self).wf(),
            final(self)@ == old(self)@.recorded(),
    {
        if !self.term.screen().render_eq(&self.last_sent) && self.seq < u64::MAX {
            let ghost before = self.history@;
            let current: Grid = self.term.screen().clone();
            let snapshot = Snapshot { seq: self.seq + 1, grid: current.clone() };
            proof {
                assert forall|i: int| 0 <= i < before.len() implies (#[trigger] before[i]).seq
                    < snapshot.seq by {
                    lemma_history_at(before, i);
                    assert(self@.history.contains_key(before[i].seq));
                }
                lemma_history_push(before, snapshot);
            }
            self.seq = self.seq + 1;
            self.history.push(snapshot);
            self.last_sent = current;
        }
    }

    /// The diff from the acknowledged screen to the one recorded last.
    fn delta(&self) -> (r: Vec<u8>)
        requires
            self.wf(),
        ensures
            r@ == crate::diff::diff_bytes(
                Some(self@.history[self@.acked_seq].render()),
                self@.last_sent.render(),
            ),
    {
        let mut k: usize = 0;
        proof {
            assert(self@.history.contains_key(self.acked_seq));
            let c = choose|c: int| has_seq(self.history@, c, self.acked_seq);
            assert(has_seq(self.history@, c, self.acked_seq));
        }
        while k < self.history.len() && self.history[k].seq != self.acked_seq
            invariant
                k <= self.history@.len(),
                exists|c: int| k <= c && has_seq(self.history@, c, self.acked_seq),
            decreases self.history@.len() - k,
        {
            k += 1;
        }
        proof {
            lemma_history_at(self.history@, k as int);
        }
        encode_diff(Some(&self.history[k].grid), &self.last_sent)
    }

    /// Produce a state-diff frame if the client is behind. Idempotent retransmit
    /// of the acked-to-current delta until the client catches up; one full
    /// snapshot after a reattach.
    pub fn poll_diff(&mut self) -> (r: Option<Frame>)
        requires
            old(self).wf(),
        ensures
            final(self).wf(),
            final(self)@ == old(self)@.recorded().diff_sent(),
            match old(self)@.recorded().diff_frame() {
                Some(f) => r matches Some(x) && x@ == f,
                None => r is None,
            },
    {
        self.record();
        if self.seq == self.acked_seq {
            return None;
        }
        if self.force_full {
            self.force_full = false;
            let data: Vec<u8> = encode_diff(None, &self.last_sent);
            Some(Frame::StateDiff { seq: self.seq, base: 0, data })
        } else {
            let data: Vec<u8> = self.delta();
            Some(Frame::StateDiff { seq: self.seq, base: self.acked_seq, data })
        }
    }
}

/// The state of the client side of a shell.
pub struct ClientShellView {
    /// The screen as the server has sent it.
    pub grid: GridView,
    /// The number of that screen.
    pub current_seq: u64,
    /// Everything typed.
    pub typed: Seq<u8>,
    /// How much of it the server has acknowledged.
    pub acked: nat,
    pub predictor: PredictView,
}

impl ClientShellView {
    pub open spec fn wf(self) -> bool {
        &&& self.grid.wf()
        &&& self.predictor.wf()
        &&& self.acked <= self.typed.len()
    }

    pub open spec fn fresh(rows: usize, cols: usize) -> ClientShellView {
        ClientShellView {
            grid: blank_screen(rows, cols),
            current_seq: 0,
            typed: Seq::empty(),
            acked: 0,
            predictor: PredictView::fresh(blank_screen(rows, cols)),
        }
    }

    /// A full snapshot applies always, a delta if it starts from the current
    /// screen and leads to a newer one.
    pub open spec fn applicable(self, seq: u64, base: u64, data: Seq<u8>) -> bool {
        (data.len() > 0 && data[0] == crate::diff::TAG_FULL) || (base == self.current_seq && seq
            > self.current_seq)
    }

    /// Whether a diff is applied.
    pub open spec fn applies(self, seq: u64, base: u64, data: Seq<u8>) -> bool {
        self.applicable(seq, base, data) && crate::diff::applied(self.grid, data).0 is Ok
    }

    /// After a diff has arrived.
    pub open spec fn after_diff(self, seq: u64, base: u64, data: Seq<u8>) -> ClientShellView {
        if self.applicable(seq, base, data) {
            let (r, grid) = crate::diff::applied(self.grid, data);
            if r is Ok {
                ClientShellView {
                    grid,
                    current_seq: seq,
                    predictor: self.predictor.reconcile(grid),
                    ..self
                }
            } else {
                ClientShellView { grid, ..self }
            }
        } else {
            self
        }
    }

    /// After the server acknowledged input bytes up to `seq`.
    pub open spec fn input_acked(self, seq: u64) -> ClientShellView {
        ClientShellView {
            acked: if seq <= self.acked {
                self.acked
            } else if seq <= self.typed.len() {
                seq as nat
            } else {
                self.typed.len()
            },
            ..self
        }
    }

    /// After bytes were typed.
    pub open spec fn after_typing(self, bytes: Seq<u8>) -> ClientShellView {
        ClientShellView {
            typed: self.typed + bytes,
            predictor: self.predictor.predict_all(bytes),
            ..self
        }
    }

    /// The input that is still to be acknowledged.
    pub open spec fn input_frames(self) -> Seq<FrameView> {
        if self.acked < self.typed.len() {
            seq![
                FrameView::Input {
                    offset: self.acked as u64,
                    data: self.typed.skip(self.acked as int),
                },
            ]
        } else {
            Seq::empty()
        }
    }

    /// The frames to send: pending input, then the acknowledgement of the
    /// current screen.
    pub open spec fn frames(self) -> Seq<FrameView> {
        self.input_frames().push(FrameView::Ack { seq: self.current_seq })
    }
}

/// Client-side render grid + predictive echo + input sender.
pub struct ClientShell {
    grid: Grid,
    current_seq: u64,
    input_tx: InputSender,
    predictor: Predictor,
}

impl View for ClientShell {
    type V = ClientShellView;

    closed spec fn view(&self) -> ClientShellView {
        ClientShellView {
            grid: self.grid@,
            current_seq: self.current_seq,
            typed: self.input_tx.stream(),
            acked: self.input_tx.acked(),
            predictor: self.predictor@,
        }
    }
}

impl ClientShell {
    /// The state is valid.
    pub open spec fn wf(&self) -> bool {
        self@.wf()
    }

    /// A shell with a blank screen.
    pub fn new(rows: usize, cols: usize) -> (r: ClientShell)
        requires
            fits(rows, cols),
        ensures
            r.wf(),
            r@ == ClientShellView::fresh(rows, cols),
    {
        let grid: Grid = Grid::new(rows, cols);
        ClientShell {
            grid: grid.clone(),
            current_seq: 0,
            input_tx: InputSender::new(),
            predictor: Predictor::new(grid),
        }
    }

    /// With another display mode for predictions.
    pub fn with_prediction(self, mode: DisplayMode) -> (r: ClientShell)
        requires
            self.wf(),
        ensures
            r.wf(),
            r@ == (ClientShellView {
                predictor: PredictView { mode, ..self@.predictor },
                ..self@
            }),
    {
        let mut s: ClientShell = self;
        s.predictor.set_mode(mode);
        s
    }

    /// Locally type bytes: queue them for reliable send and predict their echo.
    pub fn type_input(&mut self, bytes: &[u8])
        requires
            old(self).wf(),
        ensures
            final(self).wf(),
            final(self)@ == old(self)@.after_typing(bytes@),
    {
        self.input_tx.push(bytes);
        self.predictor.predict_input(bytes);
    }

    /// Whether there is unacknowledged input still to (re)transmit.
    pub fn has_pending_input(&self) -> (r: bool)
        requires
            self.wf(),
        ensures
            r == (self@.acked < self@.typed.len()),
    {
        self.input_tx.pending().is_some()
    }

    /// Frames to send now: pending input (if any) plus the screen-state ack.
    pub fn poll_frames(&self) -> (frames: Vec<Frame>)
        requires
            self.wf(),
        ensures
            crate::wire::frame_views(frames@) == self@.frames(),
    {
        let mut frames: Vec<Frame> = Vec::new();
        if let Some(input) = self.input_tx.pending() {
            frames.push(input);
        }
        assert(crate::wire::frame_views(frames@) =~= self@.input_frames());
        frames.push(Frame::Ack { seq: self.current_seq });
        assert(crate::wire::frame_views(frames@) =~= self@.frames());
        frames
    }

    /// Apply a server state-diff. Full snapshots apply unconditionally; deltas
    /// apply only when their base matches our current state and they are newer.
    pub fn apply_state_diff(&mut self, seq: u64, base: u64, data: &[u8]) -> (r: bool)
        requires
            old(self).wf(),
        ensures
            final(self).wf(),
            r == old(self)@.applies(seq, base, data@),
            final(self)@ == old(self)@.after_diff(seq, base, data@),
    {
        let applicable: bool = is_full(data) || (base == self.current_seq && seq
            > self.current_seq);
        if !applicable {
            return false;
        }
        if apply_diff(&mut self.grid, data).is_err() {
            return false;
        }
        self.current_seq = seq;
        self.predictor.reconcile(self.grid.clone());
        true
    }

    /// Server acknowledged input bytes up to `seq`.
    pub fn on_input_ack(&mut self, seq: u64)
        requires
            old(self).wf(),
        ensures
            final(self).wf(),
            final(self)@ == old(self)@.input_acked(seq),
    {
        self.input_tx.on_ack(seq);
    }

    /// The number of the screen shown.
    pub fn current_seq(&self) -> (r: u64)
        ensures
            r == self@.current_seq,
    {
        self.current_seq
    }

    /// The authoritative render grid (no predictions).
    pub fn screen(&self) -> (r: &Grid)
        ensures
            r@ == self@.grid,
    {
        &self.grid
    }

    /// The grid as the user should see it (predictions painted on top).
    pub fn overlay(&self) -> (r: Grid)
        requires
            self.wf(),
        ensures
            r.wf(),
            r@ == self@.predictor.overlay(),
    {
        self.predictor.overlay()
    }
}

// ---------------------------------------------------------------------------
// Laws
// ---------------------------------------------------------------------------

/// The client shows the screen that the server recorded under the number that
/// the client holds, if the server still has it.
pub open spec fn in_sync(server: ServerShellView, client: ClientShellView) -> bool {
    server.history.contains_key(client.current_seq) ==> client.grid.render()
        == server.history[client.current_seq].render()
}

/// A client that shows the acknowledged screen and gets the frame that the
/// server has for it shows the server's screen.
pub proof fn law_diff_catches_up(server: ServerShellView, client: ClientShellView)
    requires
        server.wf(),
        client.wf(),
        in_sync(server, client),
        server.recorded().diff_frame() is Some,
        server.force_full || client.current_seq == server.acked_seq,
        server.seq < u64::MAX,
    ensures
        ({
            let frame = server.recorded().diff_frame()->0;
            &&& frame matches FrameView::StateDiff { seq, base, data } && {
                &&& client.applies(seq, base, data)
                &&& client.after_diff(seq, base, data).current_seq == seq
                &&& client.after_diff(seq, base, data).grid.render() == server.screen.render()
            }
        }),
{
    let s = server.recorded();
    let target = s.last_sent.render();
    assert(target == server.screen.render());
    assert(crate::diff::renderable(target));
    assert(s.acked_seq == server.acked_seq);
    assert(s.history[s.acked_seq] == server.history[server.acked_seq]);
    if s.force_full {
        crate::diff::law_full_renders_as_target(client.grid, target);
        assert(crate::diff::diff_bytes(None, target)[0] == crate::diff::TAG_FULL);
    } else {
        let base = s.history[s.acked_seq].render();
        assert(client.grid.render() == base);
        crate::diff::law_apply_diff_renders_as_target(client.grid, target);
        assert(s.seq > s.acked_seq);
    }
}

/// When nothing is left to send, the client that acknowledged the last screen
/// shows the server's screen.
pub proof fn law_quiet_means_converged(server: ServerShellView, client: ClientShellView)
    requires
        server.wf(),
        client.wf(),
        in_sync(server, client),
        server.seq < u64::MAX,
        server.recorded().diff_frame() is None,
        client.current_seq == server.acked_seq,
    ensures
        client.grid.render() == server.screen.render(),
{
}

/// After a reattach the first frame is a full snapshot of the screen, which any
/// client can apply.
pub proof fn law_reattach_sends_snapshot(server: ServerShellView, client: ClientShellView)
    requires
        server.wf(),
        client.wf(),
        server.rebound().recorded().diff_frame() is Some,
        server.seq < u64::MAX,
    ensures
        ({
            let frame = server.rebound().recorded().diff_frame()->0;
            &&& frame matches FrameView::StateDiff { seq, base, data } && {
                &&& client.applies(seq, base, data)
                &&& client.after_diff(seq, base, data).grid.render() == server.screen.render()
            }
        }),
{
    let s = server.rebound().recorded();
    let target = s.last_sent.render();
    assert(target == server.screen.render());
    crate::diff::law_full_renders_as_target(client.grid, target);
    assert(crate::diff::diff_bytes(None, target)[0] == crate::diff::TAG_FULL);
}

/// The diff leads to the screen that `truth` has under `seq`, either from the
/// one under `base` or from none.
pub open spec fn tells(
    truth: Map<u64, crate::grid::RenderView>,
    seq: u64,
    base: u64,
    data: Seq<u8>,
) -> bool {
    &&& crate::diff::renderable(truth[seq])
    &&& data == crate::diff::diff_bytes(Some(truth[base]), truth[seq]) || data
        == crate::diff::diff_bytes(None, truth[seq])
}

/// Where `truth` holds all screens that the server has recorded, by number, each
/// frame of the server leads to one of them.
pub proof fn law_server_tells_truth(
    server: ServerShellView,
    truth: Map<u64, crate::grid::RenderView>,
)
    requires
        server.wf(),
        forall|k: u64| #[trigger]
            server.history.contains_key(k) ==> truth[k] == server.history[k].render(),
        truth[server.seq] == server.last_sent.render(),
    ensures
        server.diff_frame() matches Some(FrameView::StateDiff { seq, base, data }) ==> tells(
            truth,
            seq,
            base,
            data,
        ),
{
}

/// Whatever is lost, reordered or duplicated on the way: as long as each diff
/// leads to a screen that the server recorded, the client shows the screen that
/// the server recorded under the number the client holds.
pub proof fn law_client_shows_truth(
    client: ClientShellView,
    truth: Map<u64, crate::grid::RenderView>,
    seq: u64,
    base: u64,
    data: Seq<u8>,
)
    requires
        client.wf(),
        client.grid.render() == truth[client.current_seq],
        tells(truth, seq, base, data),
    ensures
        client.after_diff(seq, base, data).grid.render() == truth[client.after_diff(
            seq,
            base,
            data,
        ).current_seq],
{
    if client.applicable(seq, base, data) {
        if data == crate::diff::diff_bytes(None, truth[seq]) {
            crate::diff::law_full_renders_as_target(client.grid, truth[seq]);
        } else {
            let from = truth[base];
            let to = truth[seq];
            if from.rows == to.rows && from.cols == to.cols {
                assert(data[0] == crate::diff::TAG_DELTA);
                crate::diff::law_delta_renders_as_target(client.grid, to);
            } else {
                crate::diff::law_full_renders_as_target(client.grid, to);
            }
        }
    }
}

} // verus!
