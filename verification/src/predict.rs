//! Client-side predictive echo engine.
//!
//! On each keystroke the client guesses the visible effect (echo of printable
//! characters, cursor motion), paints the guess immediately and distinctly, and
//! reconciles or abandons predictions as authoritative screens arrive.

use crate::cell::{Cell, Color};
use crate::flags;
use crate::grid::{Grid, GridView};
use vstd::prelude::*;

verus! {

/// When predictions are shown to the user.
#[derive(Debug, Clone, Copy, PartialEq, Eq, Structural)]
pub enum DisplayMode {
    /// Always paint predictions.
    Always,
    /// Never paint predictions (pure pass-through).
    Never,
    /// Paint predictions only once the server has confirmed at least one,
    /// proving the remote end is echoing, and suspend on a misprediction.
    Adaptive,
}

/// A character expected to appear at a place.
#[derive(Debug, Clone, Copy)]
pub struct Prediction {
    pub row: usize,
    pub col: usize,
    pub ch: char,
}

/// The state of a predictor.
pub struct PredictView {
    /// The latest authoritative screen.
    pub base: GridView,
    /// Outstanding predictions, oldest first.
    pub preds: Seq<Prediction>,
    /// Row and column at which the next character is expected.
    pub cursor: (int, int),
    pub mode: DisplayMode,
    /// The server has been seen to echo.
    pub confirmed_echo: bool,
    /// A prediction has failed since the last confirmed one.
    pub glitch: bool,
}

/// How a predicted character is painted.
pub open spec fn predicted_cell(ch: char) -> Cell {
    Cell {
        ch,
        fg: Color::Default,
        bg: Color::Default,
        flags: flags::PREDICTED | flags::UNDERLINE,
    }
}

/// The screen's cursor has passed the place of a prediction.
pub open spec fn reached(screen: GridView, p: Prediction) -> bool {
    screen.cursor_row > p.row || (screen.cursor_row == p.row && screen.cursor_col > p.col)
}

/// The screen shows what was predicted.
pub open spec fn echoed(screen: GridView, p: Prediction) -> bool {
    screen.at(p.row as int, p.col as int).ch == p.ch
}

/// The predictions among the first `n` that the screen has not reached and
/// that lie on it.
pub open spec fn pending(screen: GridView, preds: Seq<Prediction>, n: int) -> Seq<Prediction>
    decreases n,
{
    if n <= 0 {
        Seq::empty()
    } else {
        let before = pending(screen, preds, n - 1);
        let p = preds[n - 1];
        if !reached(screen, p) && p.row < screen.rows && p.col < screen.cols {
            before.push(p)
        } else {
            before
        }
    }
}

/// The cells with the first `n` predictions painted over them.
pub open spec fn painted(cells: Seq<Cell>, cols: int, preds: Seq<Prediction>, n: int) -> Seq<Cell>
    decreases n,
{
    if n <= 0 {
        cells
    } else {
        let p = preds[n - 1];
        painted(cells, cols, preds, n - 1).update(p.row * cols + p.col, predicted_cell(p.ch))
    }
}

impl PredictView {
    /// A predictor without predictions.
    pub open spec fn fresh(base: GridView) -> PredictView {
        PredictView {
            base,
            preds: Seq::empty(),
            cursor: (base.cursor_row, base.cursor_col),
            mode: DisplayMode::Adaptive,
            confirmed_echo: false,
            glitch: false,
        }
    }

    /// The cursor and all predictions lie on the screen.
    pub open spec fn wf(self) -> bool {
        &&& self.base.wf()
        &&& 0 <= self.cursor.0 < self.base.rows
        &&& 0 <= self.cursor.1 < self.base.cols
        &&& forall|i: int|
            0 <= i < self.preds.len() ==> (#[trigger] self.preds[i]).row < self.base.rows
                && self.preds[i].col < self.base.cols
    }

    /// Whether predictions are shown.
    pub open spec fn displaying(self) -> bool {
        match self.mode {
            DisplayMode::Always => true,
            DisplayMode::Never => false,
            DisplayMode::Adaptive => self.confirmed_echo && !self.glitch,
        }
    }

    /// Without predictions, waiting for the authoritative screen.
    pub open spec fn abandoned(self) -> PredictView {
        PredictView {
            preds: Seq::empty(),
            cursor: (self.base.cursor_row, self.base.cursor_col),
            ..self
        }
    }

    /// After one typed byte: a printable character is expected at the cursor
    /// unless the screen is full; a backspace takes back the last prediction;
    /// anything else abandons them all.
    pub open spec fn predict(self, b: u8) -> PredictView {
        let (r, c) = self.cursor;
        if 0x20 <= b <= 0x7e {
            if c + 1 >= self.base.cols && r + 1 >= self.base.rows {
                self
            } else {
                PredictView {
                    preds: self.preds.push(
                        Prediction { row: r as usize, col: c as usize, ch: b as char },
                    ),
                    cursor: if c + 1 < self.base.cols {
                        (r, c + 1)
                    } else {
                        (r + 1, 0)
                    },
                    ..self
                }
            }
        } else if b == 0x08 || b == 0x7f {
            if self.preds.len() == 0 {
                self
            } else {
                PredictView {
                    preds: self.preds.drop_last(),
                    cursor: if c > 0 {
                        (r, c - 1)
                    } else if r > 0 {
                        (r - 1, self.base.cols - 1)
                    } else {
                        (r, c)
                    },
                    ..self
                }
            }
        } else {
            self.abandoned()
        }
    }

    /// After several typed bytes.
    pub open spec fn predict_all(self, bytes: Seq<u8>) -> PredictView
        decreases bytes.len(),
    {
        if bytes.len() == 0 {
            self
        } else {
            self.predict_all(bytes.drop_last()).predict(bytes.last())
        }
    }

    /// What the user sees.
    pub open spec fn overlay(self) -> GridView {
        if self.displaying() {
            GridView {
                cells: painted(
                    self.base.cells,
                    self.base.cols,
                    self.preds,
                    self.preds.len() as int,
                ),
                cursor_row: self.cursor.0,
                cursor_col: self.cursor.1,
                ..self.base
            }
        } else {
            self.base
        }
    }

    /// Some prediction has turned out wrong.
    pub open spec fn refuted_by(self, screen: GridView) -> bool {
        exists|i: int|
            0 <= i < self.preds.len() && reached(screen, #[trigger] self.preds[i]) && !echoed(
                screen,
                self.preds[i],
            )
    }

    /// Some prediction has turned out right.
    pub open spec fn confirmed_by(self, screen: GridView) -> bool {
        exists|i: int|
            0 <= i < self.preds.len() && reached(screen, #[trigger] self.preds[i]) && echoed(
                screen,
                self.preds[i],
            )
    }

    /// After a fresh authoritative screen: a wrong prediction abandons them
    /// all, a right one shows that the server echoes, and those not reached
    /// stay as far as they lie on the screen.
    pub open spec fn reconcile(self, screen: GridView) -> PredictView {
        let wrong = self.refuted_by(screen);
        let right = self.confirmed_by(screen);
        let preds = if wrong {
            Seq::empty()
        } else {
            pending(screen, self.preds, self.preds.len() as int)
        };
        PredictView {
            base: screen,
            preds,
            cursor: if preds.len() == 0 {
                (screen.cursor_row, screen.cursor_col)
            } else {
                (
                    crate::grid::min(self.cursor.0, screen.rows - 1),
                    crate::grid::min(self.cursor.1, screen.cols - 1),
                )
            },
            mode: self.mode,
            confirmed_echo: self.confirmed_echo || (right && !wrong),
            glitch: if wrong {
                true
            } else if right {
                false
            } else {
                self.glitch
            },
        }
    }
}

/// The predictive-echo engine. Holds the latest authoritative screen and the
/// outstanding local predictions layered on top of it.
pub struct Predictor {
    base: Grid,
    preds: Vec<Prediction>,
    cursor: (usize, usize),
    mode: DisplayMode,
    confirmed_echo: bool,
    glitch: bool,
}

impl View for Predictor {
    type V = PredictView;

    closed spec fn view(&self) -> PredictView {
        PredictView {
            base: self.base@,
            preds: self.preds@,
            cursor: (self.cursor.0 as int, self.cursor.1 as int),
            mode: self.mode,
            confirmed_echo: self.confirmed_echo,
            glitch: self.glitch,
        }
    }
}

impl Predictor {
    /// The cursor and all predictions lie on the screen.
    pub open spec fn wf(&self) -> bool {
        self@.wf()
    }

    /// Create a predictor anchored to an authoritative screen.
    pub fn new(base: Grid) -> (r: Predictor)
        requires
            base.wf(),
        ensures
            r.wf(),
            r@ == PredictView::fresh(base@),
    {
        let cursor: (usize, usize) = (base.cursor_row, base.cursor_col);
        Predictor {
            base,
            preds: Vec::new(),
            cursor,
            mode: DisplayMode::Adaptive,
            confirmed_echo: false,
            glitch: false,
        }
    }

    /// With another display mode.
    pub fn with_mode(self, mode: DisplayMode) -> (r: Predictor)
        requires
            self.wf(),
        ensures
            r.wf(),
            r@ == (PredictView { mode, ..self@ }),
    {
        let mut p: Predictor = self;
        p.mode = mode;
        p
    }

    /// Choose another display mode.
    pub fn set_mode(&mut self, mode: DisplayMode)
        requires
            old(self).wf(),
        ensures
            final(self).wf(),
            final(self)@ == (PredictView { mode, ..old(self)@ }),
    {
        self.mode = mode;
    }

    /// Number of outstanding predictions.
    pub fn outstanding(&self) -> (r: usize)
        ensures
            r == self@.preds.len(),
    {
        self.preds.len()
    }

    /// Whether predictions are currently being shown.
    pub fn displaying(&self) -> (r: bool)
        ensures
            r == self@.displaying(),
    {
        match self.mode {
            DisplayMode::Always => true,
            DisplayMode::Never => false,
            DisplayMode::Adaptive => self.confirmed_echo && !self.glitch,
        }
    }

    fn abandon(&mut self)
        requires
            old(self).wf(),
        ensures
            final(self).wf(),
            final(self)@ == old(self)@.abandoned(),
    {
        self.preds.clear();
        self.cursor = (self.base.cursor_row, self.base.cursor_col);
    }

    fn predict_byte(&mut self, b: u8)
        requires
            old(self).wf(),
        ensures
            final(self).wf(),
            final(self)@ == old(self)@.predict(b),
    {
        let (row, col): (usize, usize) = self.cursor;
        match b {
            0x20..=0x7e => {
                let at_end: bool = col + 1 >= self.base.cols && row + 1 >= self.base.rows;
                if !at_end {
                    self.preds.push(Prediction { row, col, ch: b as char });
                    self.cursor = if col + 1 < self.base.cols { (row, col + 1) } else { (row + 1, 0) };
                }
            },
            0x08 | 0x7f => {
                let ghost before = self.preds@;
                if self.preds.pop().is_some() {
                    assert(self.preds@ =~= before.drop_last());
                    if col > 0 {
                        self.cursor = (row, col - 1);
                    } else if row > 0 {
                        self.cursor = (row - 1, self.base.cols - 1);
                    }
                }
            },
            _ => self.abandon(),
        }
    }

    /// Feed locally-typed bytes, generating predictions for the safe ones.
    pub fn predict_input(&mut self, bytes: &[u8])
        requires
            old(self).wf(),
        ensures
            final(self).wf(),
            final(self)@ == old(self)@.predict_all(bytes@),
    {
        let ghost before = self@;
        let mut i: usize = 0;
        assert(bytes@.take(0) =~= Seq::<u8>::empty());
        while i < bytes.len()
            invariant
                i <= bytes@.len(),
                self.wf(),
                self@ == before.predict_all(bytes@.take(i as int)),
            decreases bytes@.len() - i,
        {
            self.predict_byte(bytes[i]);
            assert(bytes@.take(i + 1).drop_last() =~= bytes@.take(i as int));
            i += 1;
        }
        assert(bytes@.take(i as int) =~= bytes@);
    }

    /// Render the authoritative screen with predictions painted on top.
    pub fn overlay(&self) -> (r: Grid)
        requires
            self.wf(),
        ensures
            r.wf(),
            r@ == self@.overlay(),
    {
        let mut g: Grid = self.base.clone();
        if !self.displaying() {
            return g;
        }
        let ghost base = self.base@;
        let mut k: usize = 0;
        while k < self.preds.len()
            invariant
                k <= self.preds@.len(),
                self.wf(),
                base == self@.base,
                g.wf(),
                g@ == (GridView {
                    cells: painted(base.cells, base.cols, self.preds@, k as int),
                    ..base
                }),
            decreases self.preds@.len() - k,
        {
            let p: Prediction = self.preds[k];
            assert(self@.preds[k as int] == p);
            proof {
                crate::grid::lemma_index_bound(p.row as int, p.col as int, base.rows, base.cols);
            }
            let i: usize = p.row * g.cols + p.col;
            g.cells[i] = Cell {
                ch: p.ch,
                fg: Color::Default,
                bg: Color::Default,
                flags: flags::PREDICTED | flags::UNDERLINE,
            };
            k += 1;
        }
        g.cursor_row = self.cursor.0;
        g.cursor_col = self.cursor.1;
        g
    }

    /// Adopt a fresh authoritative screen, confirming/abandoning predictions.
    pub fn reconcile(&mut self, new_base: Grid)
        requires
            old(self).wf(),
            new_base.wf(),
        ensures
            final(self).wf(),
            final(self)@ == old(self)@.reconcile(new_base@),
    {
        let ghost before = self@;
        let ghost screen = new_base@;
        let mut abandoned: bool = false;
        let mut confirmed: bool = false;
        let mut kept: Vec<Prediction> = Vec::new();
        let mut k: usize = 0;
        while k < self.preds.len()
            invariant
                k <= self.preds@.len(),
                new_base.wf(),
                screen == new_base@,
                abandoned <==> exists|i: int|
                    0 <= i < k && reached(screen, #[trigger] self.preds@[i]) && !echoed(
                        screen,
                        self.preds@[i],
                    ),
                confirmed <==> exists|i: int|
                    0 <= i < k && reached(screen, #[trigger] self.preds@[i]) && echoed(
                        screen,
                        self.preds@[i],
                    ),
                kept@ == pending(screen, self.preds@, k as int),
                forall|i: int|
                    0 <= i < kept@.len() ==> (#[trigger] kept@[i]).row < screen.rows && kept@[i].col
                        < screen.cols,
            decreases self.preds@.len() - k,
        {
            let p: Prediction = self.preds[k];
            let passed: bool = new_base.cursor_row > p.row || (new_base.cursor_row == p.row
                && new_base.cursor_col > p.col);
            if passed {
                if new_base.cell(p.row, p.col).ch == p.ch {
                    confirmed = true;
                    assert(echoed(screen, self.preds@[k as int]));
                } else {
                    abandoned = true;
                    assert(!echoed(screen, self.preds@[k as int]));
                }
            } else if p.row < new_base.rows && p.col < new_base.cols {
                kept.push(p);
            }
            k += 1;
        }
        assert(abandoned == before.refuted_by(screen));
        assert(confirmed == before.confirmed_by(screen));
        if abandoned {
            kept.clear();
            self.glitch = true;
        } else if confirmed {
            self.confirmed_echo = true;
            self.glitch = false;
        }
        self.base = new_base;
        self.preds = kept;
        if self.preds.len() == 0 {
            self.cursor = (self.base.cursor_row, self.base.cursor_col);
        } else {
            let last_row: usize = self.base.rows - 1;
            let last_col: usize = self.base.cols - 1;
            self.cursor = (
                if self.cursor.0 < last_row { self.cursor.0 } else { last_row },
                if self.cursor.1 < last_col { self.cursor.1 } else { last_col },
            );
        }
    }
}

// ---------------------------------------------------------------------------
// Laws
// ---------------------------------------------------------------------------

proof fn lemma_pending(screen: GridView, preds: Seq<Prediction>, n: int)
    requires
        0 <= n <= preds.len(),
    ensures
        forall|i: int|
            0 <= i < pending(screen, preds, n).len() ==> !reached(
                screen,
                #[trigger] pending(screen, preds, n)[i],
            ),
        (forall|i: int| 0 <= i < n ==> reached(screen, #[trigger] preds[i])) ==> pending(
            screen,
            preds,
            n,
        ).len() == 0,
    decreases n,
{
    if n > 0 {
        lemma_pending(screen, preds, n - 1);
        let before = pending(screen, preds, n - 1);
        let all = pending(screen, preds, n);
        assert forall|i: int| 0 <= i < all.len() implies !reached(screen, #[trigger] all[i]) by {
            if i < before.len() {
                assert(all[i] == before[i]);
            }
        }
    }
}

/// No prediction is left where the screen's cursor has passed: what is shown
/// there is the truth.
pub proof fn law_no_stale_prediction(v: PredictView, screen: GridView, i: int)
    requires
        0 <= i < v.reconcile(screen).preds.len(),
    ensures
        !reached(screen, v.reconcile(screen).preds[i]),
{
    lemma_pending(screen, v.preds, v.preds.len() as int);
}

/// Once the screen has passed all predictions, none is left and what is shown
/// is the screen.
pub proof fn law_reconciled_without_residue(v: PredictView, screen: GridView)
    requires
        forall|i: int| 0 <= i < v.preds.len() ==> reached(screen, #[trigger] v.preds[i]),
    ensures
        v.reconcile(screen).preds.len() == 0,
        v.reconcile(screen).overlay() == screen,
{
    lemma_pending(screen, v.preds, v.preds.len() as int);
    let w = v.reconcile(screen);
    assert(painted(screen.cells, screen.cols, w.preds, 0) == screen.cells);
}

/// A wrong prediction takes back all of them and shows the screen.
pub proof fn law_misprediction_shows_truth(v: PredictView, screen: GridView)
    requires
        v.refuted_by(screen),
    ensures
        v.reconcile(screen).preds.len() == 0,
        v.reconcile(screen).overlay() == screen,
{
    let w = v.reconcile(screen);
    assert(painted(screen.cells, screen.cols, w.preds, 0) == screen.cells);
}

/// Typing does not make predictions visible, and where the server has never
/// echoed anything (as at a password prompt) nothing typed is ever shown.
pub proof fn law_unechoed_input_is_hidden(v: PredictView, bytes: Seq<u8>)
    requires
        v.mode == DisplayMode::Adaptive,
        !v.confirmed_echo,
    ensures
        v.predict_all(bytes).mode == DisplayMode::Adaptive,
        !v.predict_all(bytes).confirmed_echo,
        v.predict_all(bytes).overlay() == v.base,
    decreases bytes.len(),
{
    lemma_typing_keeps(v, bytes);
}

proof fn lemma_typing_keeps(v: PredictView, bytes: Seq<u8>)
    ensures
        v.predict_all(bytes).mode == v.mode,
        v.predict_all(bytes).confirmed_echo == v.confirmed_echo,
        v.predict_all(bytes).glitch == v.glitch,
        v.predict_all(bytes).base == v.base,
    decreases bytes.len(),
{
    if bytes.len() > 0 {
        lemma_typing_keeps(v, bytes.drop_last());
    }
}

/// A screen on which no prediction has come true does not make predictions
/// visible.
pub proof fn law_no_echo_no_display(v: PredictView, screen: GridView)
    requires
        v.mode == DisplayMode::Adaptive,
        !v.confirmed_echo,
        !v.confirmed_by(screen),
    ensures
        !v.reconcile(screen).confirmed_echo,
        v.reconcile(screen).overlay() == screen,
{
}

/// In adaptive mode a misprediction hides predictions until one comes true.
pub proof fn law_misprediction_suspends(v: PredictView, screen: GridView)
    requires
        v.mode == DisplayMode::Adaptive,
        v.refuted_by(screen),
    ensures
        !v.reconcile(screen).displaying(),
{
}

/// A printable character that is predicted and a backspace after it leave the predictor
/// as it was: the same predictions and the same expected cursor.
pub proof fn law_backspace_takes_back(v: PredictView, b: u8, erase: u8)
    requires
        v.wf(),
        0x20 <= b <= 0x7e,
        erase == 0x7f || erase == 0x08,
        !(v.cursor.0 == v.base.rows - 1 && v.cursor.1 == v.base.cols - 1),
    ensures
        v.predict(b).preds.len() == v.preds.len() + 1,
        v.predict(b).predict(erase) == v,
        v.predict(b).predict(erase).overlay() == v.overlay(),
{
    assert(v.predict(b).preds.drop_last() =~= v.preds);
}

/// A printable character is predicted at the expected cursor, which then stands at the
/// next place in the order of the screen's cells; the earlier predictions stay.
pub proof fn law_character_is_predicted(v: PredictView, b: u8)
    requires
        v.wf(),
        0x20 <= b <= 0x7e,
        !(v.cursor.0 == v.base.rows - 1 && v.cursor.1 == v.base.cols - 1),
    ensures
        ({
            let t = v.predict(b);
            let p = t.preds.last();
            &&& t.preds.drop_last() == v.preds
            &&& (p.row as int, p.col as int) == v.cursor
            &&& p.ch == b as char
            &&& t.cursor.0 * v.base.cols + t.cursor.1 == v.cursor.0 * v.base.cols + v.cursor.1 + 1
            &&& t.wf()
            &&& t.base == v.base
            &&& t.displaying() ==> t.overlay().at(v.cursor.0, v.cursor.1) == (Cell {
                ch: b as char,
                fg: Color::Default,
                bg: Color::Default,
                flags: flags::PREDICTED | flags::UNDERLINE,
            })
        }),
{
    let t = v.predict(b);
    assert(t.preds.drop_last() =~= v.preds);
    let (r, c) = v.cursor;
    crate::grid::lemma_index_bound(r, c, v.base.rows, v.base.cols);
    assert((r + 1) * v.base.cols == r * v.base.cols + v.base.cols) by (nonlinear_arith);
    assert forall|i: int| 0 <= i < t.preds.len() - 1 implies 0 <= (#[trigger] t.preds[i]).row
        * v.base.cols + t.preds[i].col < v.base.cells.len() by {
        assert(t.preds[i] == v.preds[i]);
        crate::grid::lemma_index_bound(
            v.preds[i].row as int,
            v.preds[i].col as int,
            v.base.rows,
            v.base.cols,
        );
    }
    lemma_painted_len(v.base.cells, v.base.cols, t.preds, t.preds.len() - 1);
    assert(r <= r * v.base.cols + c && c <= r * v.base.cols + c) by (nonlinear_arith)
        requires
            v.base.cols >= 1,
            r >= 0,
            c >= 0,
    ;
}

/// Painting predictions changes no number of cells.
proof fn lemma_painted_len(cells: Seq<Cell>, cols: int, preds: Seq<Prediction>, n: int)
    requires
        forall|i: int|
            0 <= i < n ==> 0 <= (#[trigger] preds[i]).row * cols + preds[i].col < cells.len(),
    ensures
        painted(cells, cols, preds, n).len() == cells.len(),
    decreases n,
{
    if n > 0 {
        lemma_painted_len(cells, cols, preds, n - 1);
    }
}

/// On a full screen nothing is predicted. A backspace with nothing predicted changes
/// nothing; any key that is neither a character nor a backspace takes back all
/// predictions, and what is shown is the screen.
pub proof fn law_other_keys(v: PredictView, b: u8)
    requires
        v.wf(),
    ensures
        0x20 <= b <= 0x7e && v.cursor == (v.base.rows - 1, v.base.cols - 1) ==> v.predict(b) == v,
        (b == 0x7f || b == 0x08) && v.preds.len() == 0 ==> v.predict(b) == v,
        b < 0x20 && b != 0x08 || b > 0x7f ==> {
            &&& v.predict(b).preds.len() == 0
            &&& v.predict(b).overlay() == v.base
        },
{
    let t = v.predict(b);
    assert(painted(v.base.cells, v.base.cols, t.preds, 0) == v.base.cells);
}

/// A prediction comes true when the server's screen shows the character and its cursor
/// has passed the place. Then, with no other prediction outstanding, the screen is shown
/// and predictions are displayed from there on.
pub proof fn law_confirmed_prediction(v: PredictView, b: u8, screen: GridView)
    requires
        v.wf(),
        v.preds.len() == 0,
        v.mode == DisplayMode::Adaptive,
        0x20 <= b <= 0x7e,
        !(v.cursor.0 == v.base.rows - 1 && v.cursor.1 == v.base.cols - 1),
        screen.rows == v.base.rows,
        screen.cols == v.base.cols,
        screen.wf(),
        screen.at(v.cursor.0, v.cursor.1).ch == b as char,
        screen.cursor_row > v.cursor.0 || (screen.cursor_row == v.cursor.0 && screen.cursor_col
            > v.cursor.1),
    ensures
        ({
            let t = v.predict(b).reconcile(screen);
            &&& t.preds.len() == 0
            &&& t.displaying()
            &&& t.overlay() == screen
            &&& t.cursor == (screen.cursor_row, screen.cursor_col)
        }),
{
    let w = v.predict(b);
    let (r, c) = v.cursor;
    crate::grid::lemma_index_bound(r, c, v.base.rows, v.base.cols);
    assert(r <= r * v.base.cols + c && c <= r * v.base.cols + c) by (nonlinear_arith)
        requires
            v.base.cols >= 1,
            r >= 0,
            c >= 0,
    ;
    assert(w.preds.len() == 1);
    assert(reached(screen, w.preds[0]));
    assert(echoed(screen, w.preds[0]));
    law_reconciled_without_residue(w, screen);
}

/// A prediction that the screen has neither reached nor refuted stays, in its order, as
/// long as it lies on the screen; and the expected cursor stays with the predictions.
pub proof fn law_outstanding_predictions_stay(v: PredictView, screen: GridView)
    requires
        v.wf(),
        screen.rows == v.base.rows,
        screen.cols == v.base.cols,
        v.preds.len() > 0,
        forall|i: int| 0 <= i < v.preds.len() ==> !reached(screen, #[trigger] v.preds[i]),
    ensures
        v.reconcile(screen).preds == v.preds,
        v.reconcile(screen).cursor == v.cursor,
        v.reconcile(screen).base == screen,
        v.reconcile(screen).confirmed_echo == v.confirmed_echo,
        v.reconcile(screen).glitch == v.glitch,
        v.reconcile(screen).mode == v.mode,
{
    lemma_all_pending(screen, v.preds, v.preds.len() as int);
    assert(v.preds.take(v.preds.len() as int) =~= v.preds);
}

proof fn lemma_all_pending(screen: GridView, preds: Seq<Prediction>, n: int)
    requires
        0 <= n <= preds.len(),
        forall|i: int|
            0 <= i < n ==> !reached(screen, #[trigger] preds[i]) && preds[i].row < screen.rows
                && preds[i].col < screen.cols,
    ensures
        pending(screen, preds, n) == preds.take(n),
    decreases n,
{
    if n > 0 {
        lemma_all_pending(screen, preds, n - 1);
        assert(preds.take(n) =~= preds.take(n - 1).push(preds[n - 1]));
    } else {
        assert(preds.take(0) =~= Seq::<Prediction>::empty());
    }
}

/// What is shown differs from the server's screen only in the places of predictions and
/// in the cursor, and only while predictions are displayed: always or never, if so told,
/// or once the server was seen to echo and until a prediction fails.
pub proof fn law_overlay_covers_predictions_only(v: PredictView, r: int, c: int)
    requires
        v.wf(),
        0 <= r < v.base.rows,
        0 <= c < v.base.cols,
        forall|i: int|
            0 <= i < v.preds.len() ==> (#[trigger] v.preds[i]).row != r || v.preds[i].col != c,
    ensures
        v.overlay().at(r, c) == v.base.at(r, c),
        v.mode == DisplayMode::Never ==> v.overlay() == v.base,
        v.mode == DisplayMode::Always || (v.mode == DisplayMode::Adaptive && v.confirmed_echo
            && !v.glitch) ==> (v.overlay().cursor_row, v.overlay().cursor_col) == v.cursor,
        v.mode == DisplayMode::Adaptive && !(v.confirmed_echo && !v.glitch) ==> v.overlay()
            == v.base,
        v.overlay().cursor_visible == v.base.cursor_visible,
        v.overlay().rows == v.base.rows,
        v.overlay().cols == v.base.cols,
{
    lemma_unpainted(v, r, c, v.preds.len() as int);
}

proof fn lemma_unpainted(v: PredictView, r: int, c: int, n: int)
    requires
        v.wf(),
        0 <= r < v.base.rows,
        0 <= c < v.base.cols,
        0 <= n <= v.preds.len(),
        forall|i: int|
            0 <= i < v.preds.len() ==> (#[trigger] v.preds[i]).row != r || v.preds[i].col != c,
    ensures
        painted(v.base.cells, v.base.cols, v.preds, n).len() == v.base.cells.len(),
        painted(v.base.cells, v.base.cols, v.preds, n)[r * v.base.cols + c] == v.base.cells[r
            * v.base.cols + c],
    decreases n,
{
    crate::grid::lemma_index_bound(r, c, v.base.rows, v.base.cols);
    if n > 0 {
        lemma_unpainted(v, r, c, n - 1);
        let p = v.preds[n - 1];
        crate::grid::lemma_index_bound(p.row as int, p.col as int, v.base.rows, v.base.cols);
        crate::screen_laws::lemma_place_order(r, c, p.row as int, p.col as int, v.base.cols);
        crate::screen_laws::lemma_place_order(p.row as int, p.col as int, r, c, v.base.cols);
    }
}

} // verus!
