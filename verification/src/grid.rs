//! Authoritative screen grid: what terminal actions do to the screen.

use crate::cell::{cells_of, Cell, Color, TAIL};
use crate::flags;
use crate::text::{string_of, trim_end};
use vstd::arithmetic::div_mod::*;
use vstd::arithmetic::mul::*;
use vstd::prelude::*;

verus! {

/// A terminal action, as an escape-sequence parser recognises it.
#[derive(Debug, Clone, PartialEq, Eq)]
pub enum Action {
    /// Show a character.
    Print(char),
    /// A control character.
    Execute(u8),
    /// A control sequence: parameters with their subparameters, intermediate
    /// bytes, whether some were dropped, and the final character.
    Csi { params: Vec<Vec<u16>>, intermediates: Vec<u8>, ignore: bool, action: char },
    /// An escape sequence.
    Esc { intermediates: Vec<u8>, ignore: bool, byte: u8 },
}

/// What an action says.
pub enum ActionView {
    Print(char),
    Execute(u8),
    Csi { params: Seq<Seq<u16>>, intermediates: Seq<u8>, ignore: bool, action: char },
    Esc { intermediates: Seq<u8>, ignore: bool, byte: u8 },
}

/// Parameters with their subparameters.
pub open spec fn param_views(params: Seq<Vec<u16>>) -> Seq<Seq<u16>> {
    Seq::new(params.len(), |i: int| params[i]@)
}

impl View for Action {
    type V = ActionView;

    open spec fn view(&self) -> ActionView {
        match *self {
            Action::Print(c) => ActionView::Print(c),
            Action::Execute(b) => ActionView::Execute(b),
            Action::Csi { params, intermediates, ignore, action } => ActionView::Csi {
                params: param_views(params@),
                intermediates: intermediates@,
                ignore,
                action,
            },
            Action::Esc { intermediates, ignore, byte } => ActionView::Esc {
                intermediates: intermediates@,
                ignore,
                byte,
            },
        }
    }
}

/// What a run of actions says.
pub open spec fn action_views(actions: Seq<Action>) -> Seq<ActionView> {
    Seq::new(actions.len(), |i: int| actions[i]@)
}

// ---------------------------------------------------------------------------
// Cells
// ---------------------------------------------------------------------------

/// With the cells `lo..hi` blanked.
pub open spec fn blanked(cells: Seq<Cell>, lo: int, hi: int) -> Seq<Cell> {
    Seq::new(
        cells.len(),
        |i: int|
            if lo <= i < hi {
                crate::cell::blank_cell()
            } else {
                cells[i]
            },
    )
}

/// With the cells `lo..hi` moved `k` places towards `lo`; what is vacated at
/// `hi` is blank.
pub open spec fn moved_down(cells: Seq<Cell>, lo: int, hi: int, k: int) -> Seq<Cell> {
    Seq::new(
        cells.len(),
        |i: int|
            if lo <= i < hi {
                if i + k < hi {
                    cells[i + k]
                } else {
                    crate::cell::blank_cell()
                }
            } else {
                cells[i]
            },
    )
}

/// With the cells `lo..hi` moved `k` places towards `hi`; what is vacated at
/// `lo` is blank.
pub open spec fn moved_up(cells: Seq<Cell>, lo: int, hi: int, k: int) -> Seq<Cell> {
    Seq::new(
        cells.len(),
        |i: int|
            if lo <= i < hi {
                if i - k >= lo {
                    cells[i - k]
                } else {
                    crate::cell::blank_cell()
                }
            } else {
                cells[i]
            },
    )
}

/// The cells of a `rows` by `cols` grid that shows, from the top left, what a
/// grid of `old_rows` by `old_cols` showed.
pub open spec fn refitted(cells: Seq<Cell>, old_rows: int, old_cols: int, rows: int, cols: int) -> Seq<
    Cell,
> {
    Seq::new(
        (rows * cols) as nat,
        |i: int|
            if i / cols < old_rows && i % cols < old_cols {
                cells[(i / cols) * old_cols + i % cols]
            } else {
                crate::cell::blank_cell()
            },
    )
}

/// Blank the cells `lo..hi`.
fn blank_range(cells: &mut Vec<Cell>, lo: usize, hi: usize)
    requires
        lo <= hi <= old(cells)@.len(),
    ensures
        final(cells)@ == blanked(old(cells)@, lo as int, hi as int),
{
    let ghost before = cells@;
    let mut i: usize = lo;
    while i < hi
        invariant
            lo <= i <= hi <= cells@.len(),
            cells@ == blanked(before, lo as int, i as int),
        decreases hi - i,
    {
        cells[i] = Cell::blank();
        i += 1;
        assert(cells@ =~= blanked(before, lo as int, i as int));
    }
    assert(cells@ =~= blanked(before, lo as int, hi as int));
}

/// Move the cells `lo..hi` towards `lo`.
fn move_down(cells: &mut Vec<Cell>, lo: usize, hi: usize, k: usize)
    requires
        lo <= hi <= old(cells)@.len(),
    ensures
        final(cells)@ == moved_down(old(cells)@, lo as int, hi as int, k as int),
{
    let ghost before = cells@;
    let mut i: usize = lo;
    while i < hi
        invariant
            lo <= i <= hi <= cells@.len(),
            cells@.len() == before.len(),
            forall|j: int| lo <= j < i ==> #[trigger] cells@[j] == moved_down(
                before,
                lo as int,
                hi as int,
                k as int,
            )[j],
            forall|j: int| 0 <= j < before.len() && !(lo <= j < i) ==> #[trigger] cells@[j] == before[j],
        decreases hi - i,
    {
        if k < hi - i {
            let c: Cell = cells[i + k];
            cells[i] = c;
        } else {
            cells[i] = Cell::blank();
        }
        i += 1;
    }
    assert(cells@ =~= moved_down(before, lo as int, hi as int, k as int));
}

/// Move the cells `lo..hi` towards `hi`.
fn move_up(cells: &mut Vec<Cell>, lo: usize, hi: usize, k: usize)
    requires
        lo <= hi <= old(cells)@.len(),
    ensures
        final(cells)@ == moved_up(old(cells)@, lo as int, hi as int, k as int),
{
    let ghost before = cells@;
    let mut i: usize = hi;
    while i > lo
        invariant
            lo <= i <= hi <= cells@.len(),
            cells@.len() == before.len(),
            forall|j: int| i <= j < hi ==> #[trigger] cells@[j] == moved_up(
                before,
                lo as int,
                hi as int,
                k as int,
            )[j],
            forall|j: int| 0 <= j < before.len() && !(i <= j < hi) ==> #[trigger] cells@[j] == before[j],
        decreases i,
    {
        i -= 1;
        if k <= i - lo {
            let c: Cell = cells[i - k];
            cells[i] = c;
        } else {
            cells[i] = Cell::blank();
        }
    }
    assert(cells@ =~= moved_up(before, lo as int, hi as int, k as int));
}

/// Fit cells to other dimensions.
fn refit(cells: &Vec<Cell>, old_rows: usize, old_cols: usize, rows: usize, cols: usize) -> (r: Vec<Cell>)
    requires
        cells@.len() == old_rows * old_cols,
        rows * cols <= usize::MAX,
        rows > 0,
        cols > 0,
    ensures
        r@ == refitted(cells@, old_rows as int, old_cols as int, rows as int, cols as int),
{
    let ghost goal = refitted(cells@, old_rows as int, old_cols as int, rows as int, cols as int);
    let mut out: Vec<Cell> = Vec::new();
    let mut r: usize = 0;
    while r < rows
        invariant
            cells@.len() == old_rows * old_cols,
            rows * cols <= usize::MAX,
            cols > 0,
            r <= rows,
            goal == refitted(cells@, old_rows as int, old_cols as int, rows as int, cols as int),
            out@.len() == r * cols,
            out@ == goal.take(r * cols),
        decreases rows - r,
    {
        let mut c: usize = 0;
        assert(r * cols + cols == (r + 1) * cols) by (nonlinear_arith);
        assert((r + 1) * cols <= rows * cols) by (nonlinear_arith)
            requires
                r < rows,
        ;
        while c < cols
            invariant
                cells@.len() == old_rows * old_cols,
                rows * cols <= usize::MAX,
                cols > 0,
                r < rows,
                c <= cols,
                r * cols + cols <= rows * cols,
                goal == refitted(cells@, old_rows as int, old_cols as int, rows as int, cols as int),
                out@.len() == r * cols + c,
                out@ == goal.take(r * cols + c),
            decreases cols - c,
        {
            proof {
                lemma_fundamental_div_mod_converse(r * cols + c, cols as int, r as int, c as int);
            }
            let cell: Cell = if r < old_rows && c < old_cols {
                proof {
                    lemma_index_bound(r as int, c as int, old_rows as int, old_cols as int);
                    assert(cells.len() == old_rows * old_cols);
                }
                cells[r * old_cols + c]
            } else {
                Cell::blank()
            };
            out.push(cell);
            assert(goal.take(r * cols + c + 1) =~= goal.take(r * cols + c).push(cell));
            c += 1;
        }
        r += 1;
    }
    assert(out@ =~= goal);
    out
}

/// A row and a column within a grid name a cell of it.
pub proof fn lemma_index_bound(row: int, col: int, rows: int, cols: int)
    requires
        0 <= row < rows,
        0 <= col < cols,
    ensures
        0 <= row * cols,
        row * cols + col < rows * cols,
        row * cols + cols <= rows * cols,
{
    assert(0 <= row * cols && row * cols + cols <= rows * cols) by (nonlinear_arith)
        requires
            0 <= row < rows,
            0 <= cols,
    ;
}

// ---------------------------------------------------------------------------
// Parameters
// ---------------------------------------------------------------------------

/// The first number of parameter `i`, if there is one.
pub open spec fn param_at(params: Seq<Seq<u16>>, i: int) -> Option<u16> {
    if 0 <= i < params.len() && params[i].len() > 0 {
        Some(params[i][0])
    } else {
        None
    }
}

/// Parameter `i`, or `default` where it is missing.
pub open spec fn raw_param(params: Seq<Seq<u16>>, i: int, default: u16) -> u16 {
    match param_at(params, i) {
        Some(v) => v,
        None => default,
    }
}

/// Parameter `i`, or `default` where it is missing or zero.
pub open spec fn count_param(params: Seq<Seq<u16>>, i: int, default: u16) -> u16 {
    match param_at(params, i) {
        Some(v) if v != 0 => v,
        _ => default,
    }
}

fn get_param(params: &Vec<Vec<u16>>, i: usize) -> (r: Option<u16>)
    ensures
        r == param_at(param_views(params@), i as int),
{
    if i < params.len() && params[i].len() > 0 {
        Some(params[i][0])
    } else {
        None
    }
}

/// Extract CSI param at `idx`, substituting `default` for missing/zero.
fn arg(params: &Vec<Vec<u16>>, idx: usize, default: u16) -> (r: u16)
    ensures
        r == count_param(param_views(params@), idx as int, default),
{
    match get_param(params, idx) {
        Some(v) => if v == 0 { default } else { v },
        None => default,
    }
}

/// Extract CSI param at `idx` allowing zero (for ED/EL/SGR-like modes).
fn arg_raw(params: &Vec<Vec<u16>>, idx: usize, default: u16) -> (r: u16)
    ensures
        r == raw_param(param_views(params@), idx as int, default),
{
    match get_param(params, idx) {
        Some(v) => v,
        None => default,
    }
}

/// The low byte of a parameter.
fn low_byte(n: u16) -> (r: u8)
    ensures
        r == n % 256,
{
    assert(n as u8 == n % 256) by (bit_vector);
    n as u8
}

// ---------------------------------------------------------------------------
// Graphic rendition
// ---------------------------------------------------------------------------

pub open spec fn byte_of(n: u16) -> u8 {
    (n % 256) as u8
}

/// The color that subparameters `5:n`, `2:r:g:b` or `2:space:r:g:b` name.
pub open spec fn ext_color(sub: Seq<u16>) -> Option<Color> {
    if sub.len() >= 2 && sub[0] == 5 {
        Some(Color::Indexed(byte_of(sub[1])))
    } else if sub.len() >= 4 && sub[0] == 2 {
        let n = sub.len();
        Some(Color::Rgb(byte_of(sub[n - 3]), byte_of(sub[n - 2]), byte_of(sub[n - 1])))
    } else {
        None
    }
}

/// The color that the parameters behind number `i` name, and how many of them
/// it takes: `5;n` or `2;r;g;b`.
pub open spec fn following_color(params: Seq<Seq<u16>>, i: int) -> (Option<Color>, int) {
    if param_at(params, i + 1) == Some(5u16) {
        (
            match param_at(params, i + 2) {
                Some(n) => Some(Color::Indexed(byte_of(n))),
                None => None,
            },
            2,
        )
    } else if param_at(params, i + 1) == Some(2u16) {
        (
            Some(
                Color::Rgb(
                    byte_of(raw_param(params, i + 2, 0)),
                    byte_of(raw_param(params, i + 3, 0)),
                    byte_of(raw_param(params, i + 4, 0)),
                ),
            ),
            4,
        )
    } else {
        (None, 0)
    }
}

/// The pen with its foreground or background set, if a color is given.
pub open spec fn colored(pen: Cell, fg: bool, color: Option<Color>) -> Cell {
    match color {
        Some(c) => if fg {
            Cell { fg: c, ..pen }
        } else {
            Cell { bg: c, ..pen }
        },
        None => pen,
    }
}

/// The pen after one simple rendition code.
pub open spec fn simple_sgr(pen: Cell, code: u16) -> Cell {
    if code == 0 {
        crate::cell::blank_cell()
    } else if code == 1 {
        Cell { flags: pen.flags | flags::BOLD, ..pen }
    } else if code == 2 {
        Cell { flags: pen.flags | flags::DIM, ..pen }
    } else if code == 3 {
        Cell { flags: pen.flags | flags::ITALIC, ..pen }
    } else if code == 4 {
        Cell { flags: pen.flags | flags::UNDERLINE, ..pen }
    } else if code == 7 {
        Cell { flags: pen.flags | flags::REVERSE, ..pen }
    } else if code == 8 {
        Cell { flags: pen.flags | flags::HIDDEN, ..pen }
    } else if code == 9 {
        Cell { flags: pen.flags | flags::STRIKE, ..pen }
    } else if code == 22 {
        Cell { flags: pen.flags & !(flags::BOLD | flags::DIM), ..pen }
    } else if code == 23 {
        Cell { flags: pen.flags & !flags::ITALIC, ..pen }
    } else if code == 24 {
        Cell { flags: pen.flags & !flags::UNDERLINE, ..pen }
    } else if code == 27 {
        Cell { flags: pen.flags & !flags::REVERSE, ..pen }
    } else if code == 28 {
        Cell { flags: pen.flags & !flags::HIDDEN, ..pen }
    } else if code == 29 {
        Cell { flags: pen.flags & !flags::STRIKE, ..pen }
    } else if 30 <= code <= 37 {
        Cell { fg: Color::Indexed((code - 30) as u8), ..pen }
    } else if 90 <= code <= 97 {
        Cell { fg: Color::Indexed((code - 82) as u8), ..pen }
    } else if code == 39 {
        Cell { fg: Color::Default, ..pen }
    } else if 40 <= code <= 47 {
        Cell { bg: Color::Indexed((code - 40) as u8), ..pen }
    } else if 100 <= code <= 107 {
        Cell { bg: Color::Indexed((code - 92) as u8), ..pen }
    } else if code == 49 {
        Cell { bg: Color::Default, ..pen }
    } else {
        pen
    }
}

/// The pen after the rendition parameters from number `i` on.
pub open spec fn sgr_from(pen: Cell, params: Seq<Seq<u16>>, i: int) -> Cell
    decreases
            (if i < params.len() {
                params.len() - i
            } else {
                0
            }),
{
    if i >= params.len() {
        pen
    } else {
        let code = raw_param(params, i, 0);
        if code == 38 || code == 48 {
            if params[i].len() >= 2 {
                sgr_from(colored(pen, code == 38, ext_color(params[i].skip(1))), params, i + 1)
            } else {
                let (color, used) = following_color(params, i);
                sgr_from(colored(pen, code == 38, color), params, i + used + 1)
            }
        } else {
            sgr_from(simple_sgr(pen, code), params, i + 1)
        }
    }
}

/// The pen after a rendition sequence; without parameters it is reset.
pub open spec fn sgr(pen: Cell, params: Seq<Seq<u16>>) -> Cell {
    if params.len() == 0 {
        crate::cell::blank_cell()
    } else {
        sgr_from(pen, params, 0)
    }
}

fn parse_ext_color(group: &Vec<u16>) -> (r: Option<Color>)
    requires
        group@.len() >= 1,
    ensures
        r == ext_color(group@.skip(1)),
{
    let n: usize = group.len();
    if n >= 3 && group[1] == 5 {
        Some(Color::Indexed(low_byte(group[2])))
    } else if n >= 5 && group[1] == 2 {
        Some(Color::Rgb(low_byte(group[n - 3]), low_byte(group[n - 2]), low_byte(group[n - 1])))
    } else {
        None
    }
}

fn parse_following_color(params: &Vec<Vec<u16>>, i: usize) -> (r: (Option<Color>, usize))
    requires
        i < params@.len(),
    ensures
        r.0 == following_color(param_views(params@), i as int).0,
        r.1 == following_color(param_views(params@), i as int).1,
{
    let n: usize = params.len();
    let rest: usize = n - i;
    let kind: Option<u16> = if rest > 1 { get_param(params, i + 1) } else { None };
    match kind {
        Some(5) => {
            let color: Option<Color> = if rest > 2 {
                match get_param(params, i + 2) {
                    Some(v) => Some(Color::Indexed(low_byte(v))),
                    None => None,
                }
            } else {
                None
            };
            (color, 2)
        },
        Some(2) => {
            let r: u16 = if rest > 2 { arg_raw(params, i + 2, 0) } else { 0 };
            let g: u16 = if rest > 3 { arg_raw(params, i + 3, 0) } else { 0 };
            let b: u16 = if rest > 4 { arg_raw(params, i + 4, 0) } else { 0 };
            (Some(Color::Rgb(low_byte(r), low_byte(g), low_byte(b))), 4)
        },
        _ => (None, 0),
    }
}

fn set_color(pen: &mut Cell, fg: bool, color: Option<Color>)
    ensures
        *final(pen) == colored(*old(pen), fg, color),
{
    if let Some(c) = color {
        if fg {
            pen.fg = c;
        } else {
            pen.bg = c;
        }
    }
}

fn set_simple(pen: &mut Cell, code: u16)
    requires
        code != 38,
        code != 48,
    ensures
        *final(pen) == simple_sgr(*old(pen), code),
{
    match code {
        0 => {
            *pen = Cell::blank();
        },
        1 => pen.flags |= flags::BOLD,
        2 => pen.flags |= flags::DIM,
        3 => pen.flags |= flags::ITALIC,
        4 => pen.flags |= flags::UNDERLINE,
        7 => pen.flags |= flags::REVERSE,
        8 => pen.flags |= flags::HIDDEN,
        9 => pen.flags |= flags::STRIKE,
        22 => pen.flags &= !(flags::BOLD | flags::DIM),
        23 => pen.flags &= !flags::ITALIC,
        24 => pen.flags &= !flags::UNDERLINE,
        27 => pen.flags &= !flags::REVERSE,
        28 => pen.flags &= !flags::HIDDEN,
        29 => pen.flags &= !flags::STRIKE,
        30..=37 => pen.fg = Color::Indexed((code - 30) as u8),
        90..=97 => pen.fg = Color::Indexed((code - 90 + 8) as u8),
        39 => pen.fg = Color::Default,
        40..=47 => pen.bg = Color::Indexed((code - 40) as u8),
        100..=107 => pen.bg = Color::Indexed((code - 100 + 8) as u8),
        49 => pen.bg = Color::Default,
        _ => {},
    }
}

/// Apply a rendition sequence to the pen.
fn apply_sgr(pen: &mut Cell, params: &Vec<Vec<u16>>)
    ensures
        *final(pen) == sgr(*old(pen), param_views(params@)),
{
    let ghost ps = param_views(params@);
    let ghost goal = sgr(*pen, ps);
    if params.len() == 0 {
        *pen = Cell::blank();
        return;
    }
    let mut i: usize = 0;
    while i < params.len()
        invariant
            ps == param_views(params@),
            sgr_from(*pen, ps, i as int) == goal,
        decreases params.len() - i,
    {
        let code: u16 = arg_raw(params, i, 0);
        if code == 38 || code == 48 {
            if params[i].len() >= 2 {
                let color: Option<Color> = parse_ext_color(&params[i]);
                set_color(pen, code == 38, color);
                i += 1;
            } else {
                let (color, used): (Option<Color>, usize) = parse_following_color(params, i);
                set_color(pen, code == 38, color);
                let left: usize = params.len() - i;
                assert(used + 1 > left ==> sgr_from(*pen, ps, i + used + 1) == *pen);
                if used + 1 > left {
                    i = params.len();
                } else {
                    i += used + 1;
                }
            }
        } else {
            set_simple(pen, code);
            i += 1;
        }
    }
}

// ---------------------------------------------------------------------------
// Grid
// ---------------------------------------------------------------------------

/// The state of a screen.
pub struct GridView {
    pub rows: int,
    pub cols: int,
    /// The cells, row by row.
    pub cells: Seq<Cell>,
    pub cursor_row: int,
    pub cursor_col: int,
    pub cursor_visible: bool,
    /// What the next character is drawn with.
    pub pen: Cell,
    /// Whether text runs on in the next line.
    pub autowrap: bool,
    /// The last column has been filled; the next character goes to a new line.
    pub wrap_pending: bool,
    /// First and last row of the scroll region.
    pub scroll_top: int,
    pub scroll_bottom: int,
    /// Saved cursor position and pen.
    pub saved: Option<(usize, usize, Cell)>,
    pub alt_screen: bool,
    /// The main screen's cells while the alternate screen shows.
    pub alt_saved: Option<Seq<Cell>>,
}

/// What of a screen is rendered.
pub struct RenderView {
    pub rows: int,
    pub cols: int,
    pub cells: Seq<Cell>,
    pub cursor_row: int,
    pub cursor_col: int,
    pub cursor_visible: bool,
}

pub open spec fn min(a: int, b: int) -> int {
    if a <= b {
        a
    } else {
        b
    }
}

pub open spec fn at_least_one(n: int) -> int {
    if n < 1 {
        1
    } else {
        n
    }
}

impl GridView {
    /// A blank screen.
    pub open spec fn fresh(rows: int, cols: int) -> GridView {
        GridView {
            rows,
            cols,
            cells: Seq::new((rows * cols) as nat, |i: int| crate::cell::blank_cell()),
            cursor_row: 0,
            cursor_col: 0,
            cursor_visible: true,
            pen: crate::cell::blank_cell(),
            autowrap: true,
            wrap_pending: false,
            scroll_top: 0,
            scroll_bottom: rows - 1,
            saved: None,
            alt_screen: false,
            alt_saved: None,
        }
    }

    /// The cursor lies on the screen, the scroll region is a range of its rows,
    /// and there is a cell for each place.
    pub open spec fn wf(self) -> bool {
        &&& self.rows >= 1
        &&& self.cols >= 1
        &&& self.cells.len() == self.rows * self.cols
        &&& self.rows * self.cols <= usize::MAX
        &&& 0 <= self.cursor_row < self.rows
        &&& 0 <= self.cursor_col < self.cols
        &&& 0 <= self.scroll_top <= self.scroll_bottom < self.rows
        &&& self.alt_saved matches Some(cells) ==> cells.len() == self.rows * self.cols
    }

    pub open spec fn render(self) -> RenderView {
        RenderView {
            rows: self.rows,
            cols: self.cols,
            cells: self.cells,
            cursor_row: self.cursor_row,
            cursor_col: self.cursor_col,
            cursor_visible: self.cursor_visible,
        }
    }

    /// The index of the cursor's cell.
    pub open spec fn cursor(self) -> int {
        self.cursor_row * self.cols + self.cursor_col
    }

    /// The cell at a place; blank outside the screen.
    pub open spec fn at(self, row: int, col: int) -> Cell {
        if 0 <= row < self.rows && 0 <= col < self.cols {
            self.cells[row * self.cols + col]
        } else {
            crate::cell::blank_cell()
        }
    }

    /// What the cells of a row hold.
    pub open spec fn row_cells(self, row: int) -> Seq<char> {
        if 0 <= row < self.rows {
            Seq::new(self.cols as nat, |c: int| self.cells[row * self.cols + c].ch)
        } else {
            Seq::empty()
        }
    }

    /// The characters of a row, those of two cells once.
    pub open spec fn row_chars(self, row: int) -> Seq<char> {
        self.row_cells(row).filter(|c: char| c != crate::cell::TAIL)
    }

    /// With the rows `top..=bottom` moved up by `n`.
    pub open spec fn scrolled_up(self, top: int, bottom: int, n: int) -> GridView {
        GridView {
            cells: moved_down(
                self.cells,
                top * self.cols,
                (bottom + 1) * self.cols,
                min(n, bottom - top + 1) * self.cols,
            ),
            ..self
        }
    }

    /// With the rows `top..=bottom` moved down by `n`.
    pub open spec fn scrolled_down(self, top: int, bottom: int, n: int) -> GridView {
        GridView {
            cells: moved_up(
                self.cells,
                top * self.cols,
                (bottom + 1) * self.cols,
                min(n, bottom - top + 1) * self.cols,
            ),
            ..self
        }
    }

    /// Down one line; at the bottom of the scroll region the region scrolls.
    pub open spec fn line_feed(self) -> GridView {
        if self.cursor_row == self.scroll_bottom {
            self.scrolled_up(self.scroll_top, self.scroll_bottom, 1)
        } else {
            GridView { cursor_row: min(self.cursor_row + 1, self.rows - 1), ..self }
        }
    }

    /// Up one line; at the top of the scroll region the region scrolls.
    pub open spec fn reverse_index(self) -> GridView {
        if self.cursor_row == self.scroll_top {
            self.scrolled_down(self.scroll_top, self.scroll_bottom, 1)
        } else if self.cursor_row > 0 {
            GridView { cursor_row: self.cursor_row - 1, ..self }
        } else {
            self
        }
    }

    /// The state in which a pending wrap has been carried out.
    pub open spec fn wrapped(self) -> GridView {
        if self.wrap_pending && self.autowrap {
            GridView { wrap_pending: false, ..GridView { cursor_col: 0, ..self }.line_feed() }
        } else {
            self
        }
    }

    /// Show a character at the cursor and move on by as many cells as it takes.
    pub open spec fn put_char(self, c: char) -> GridView {
        self.put(c, crate::cell::cells_for(c))
    }

    /// Show a character that takes this many cells. One that takes none is not
    /// shown; where the screen has one column only, all that are shown take one.
    pub open spec fn put(self, c: char, cells: int) -> GridView {
        if cells == 0 {
            self
        } else if cells == 1 || self.cols < 2 {
            self.put_narrow(c)
        } else {
            self.put_wide(c)
        }
    }

    /// The state in which two cells are left in the line from the cursor on.
    pub open spec fn with_room(self) -> GridView {
        let g = self.wrapped();
        if g.cursor_col + 1 < g.cols {
            g
        } else if g.autowrap {
            GridView { wrap_pending: false, ..GridView { cursor_col: 0, ..g }.line_feed() }
        } else {
            GridView { cursor_col: g.cols - 2, ..g }
        }
    }

    /// Show a character in two cells and move on.
    pub open spec fn put_wide(self, c: char) -> GridView {
        let g = self.with_room();
        let h = GridView {
            cells: g.cells.update(g.cursor(), Cell { ch: c, ..g.pen }).update(
                g.cursor() + 1,
                Cell { ch: crate::cell::TAIL, ..g.pen },
            ),
            ..g
        };
        if h.cursor_col + 2 < h.cols {
            GridView { cursor_col: h.cursor_col + 2, ..h }
        } else {
            GridView {
                cursor_col: h.cols - 1,
                wrap_pending: h.autowrap || h.wrap_pending,
                ..h
            }
        }
    }

    /// Show a character in one cell and move on.
    pub open spec fn put_narrow(self, c: char) -> GridView {
        let g = self.wrapped();
        let h = GridView { cells: g.cells.update(g.cursor(), Cell { ch: c, ..g.pen }), ..g };
        if h.cursor_col + 1 < h.cols {
            GridView { cursor_col: h.cursor_col + 1, ..h }
        } else if h.autowrap {
            GridView { wrap_pending: true, ..h }
        } else {
            h
        }
    }

    /// With the cursor at a place, or at the nearest on the screen.
    pub open spec fn move_to(self, row: int, col: int) -> GridView {
        GridView {
            cursor_row: min(row, self.rows - 1),
            cursor_col: min(col, self.cols - 1),
            wrap_pending: false,
            ..self
        }
    }

    /// With the screen blank from the cursor on (0), up to the cursor (1), or
    /// all of it.
    pub open spec fn erase_in_display(self, mode: u16) -> GridView {
        let (lo, hi) = if mode == 0 {
            (self.cursor(), self.cells.len() as int)
        } else if mode == 1 {
            (0, self.cursor() + 1)
        } else {
            (0, self.cells.len() as int)
        };
        GridView { cells: blanked(self.cells, lo, hi), ..self }
    }

    /// With the cursor's line blank from the cursor on (0), up to the cursor
    /// (1), or all of it.
    pub open spec fn erase_in_line(self, mode: u16) -> GridView {
        let start = self.cursor_row * self.cols;
        let (lo, hi) = if mode == 0 {
            (start + self.cursor_col, start + self.cols)
        } else if mode == 1 {
            (start, start + self.cursor_col + 1)
        } else {
            (start, start + self.cols)
        };
        GridView { cells: blanked(self.cells, lo, hi), ..self }
    }

    /// With `n` blanks inserted at the cursor.
    pub open spec fn insert_blank_chars(self, n: int) -> GridView {
        GridView {
            cells: moved_up(
                self.cells,
                self.cursor(),
                self.cursor_row * self.cols + self.cols,
                min(n, self.cols - self.cursor_col),
            ),
            ..self
        }
    }

    /// With `n` characters deleted at the cursor.
    pub open spec fn delete_chars(self, n: int) -> GridView {
        GridView {
            cells: moved_down(
                self.cells,
                self.cursor(),
                self.cursor_row * self.cols + self.cols,
                min(n, self.cols - self.cursor_col),
            ),
            ..self
        }
    }

    /// With `n` blank lines inserted at the cursor's, within the scroll region.
    pub open spec fn insert_lines(self, n: int) -> GridView {
        if self.scroll_top <= self.cursor_row <= self.scroll_bottom {
            self.scrolled_down(self.cursor_row, self.scroll_bottom, n)
        } else {
            self
        }
    }

    /// With `n` lines deleted from the cursor's on, within the scroll region.
    pub open spec fn delete_lines(self, n: int) -> GridView {
        if self.scroll_top <= self.cursor_row <= self.scroll_bottom {
            self.scrolled_up(self.cursor_row, self.scroll_bottom, n)
        } else {
            self
        }
    }

    /// Set the main screen aside and show a blank one.
    pub open spec fn enter_alt_screen(self) -> GridView {
        if self.alt_screen {
            self
        } else {
            GridView {
                alt_screen: true,
                alt_saved: Some(self.cells),
                cells: Seq::new((self.rows * self.cols) as nat, |i: int| crate::cell::blank_cell()),
                ..self
            }.move_to(0, 0)
        }
    }

    /// Show the main screen again.
    pub open spec fn leave_alt_screen(self) -> GridView {
        if self.alt_screen {
            match self.alt_saved {
                Some(main) => GridView {
                    alt_screen: false,
                    alt_saved: None,
                    cells: main,
                    ..self
                },
                None => GridView { alt_screen: false, ..self },
            }
        } else {
            self
        }
    }

    /// Switch a private mode.
    pub open spec fn set_private_mode(self, mode: u16, enable: bool) -> GridView {
        if mode == 7 {
            GridView { autowrap: enable, ..self }
        } else if mode == 25 {
            GridView { cursor_visible: enable, ..self }
        } else if mode == 1049 || mode == 47 || mode == 1047 {
            if enable {
                self.enter_alt_screen()
            } else {
                self.leave_alt_screen()
            }
        } else {
            self
        }
    }

    /// Set the scroll region from one-based row numbers, if they name one.
    pub open spec fn set_region(self, params: Seq<Seq<u16>>) -> GridView {
        let top = count_param(params, 0, 1) - 1;
        let bottom = count_param(params, 1, (self.rows % 0x1_0000) as u16) - 1;
        if top < bottom && bottom < self.rows {
            GridView { scroll_top: top, scroll_bottom: bottom, ..self }.move_to(0, 0)
        } else {
            self
        }
    }

    /// A control character.
    pub open spec fn execute(self, byte: u8) -> GridView {
        if byte == 0x0a || byte == 0x0b || byte == 0x0c {
            self.line_feed()
        } else if byte == 0x0d {
            GridView { cursor_col: 0, wrap_pending: false, ..self }
        } else if byte == 0x08 {
            GridView {
                cursor_col: if self.cursor_col > 0 {
                    self.cursor_col - 1
                } else {
                    0
                },
                wrap_pending: false,
                ..self
            }
        } else if byte == 0x09 {
            GridView { cursor_col: min((self.cursor_col / 8 + 1) * 8, self.cols - 1), ..self }
        } else {
            self
        }
    }

    /// A control sequence.
    pub open spec fn csi_dispatch(
        self,
        params: Seq<Seq<u16>>,
        intermediates: Seq<u8>,
        action: char,
    ) -> GridView {
        let n = count_param(params, 0, 1) as int;
        let m = count_param(params, 1, 1) as int;
        let private = intermediates.len() > 0 && intermediates[0] == 0x3f;
        if action == 'A' {
            GridView {
                cursor_row: if self.cursor_row >= n {
                    self.cursor_row - n
                } else {
                    0
                },
                wrap_pending: false,
                ..self
            }
        } else if action == 'B' {
            GridView {
                cursor_row: min(self.cursor_row + n, self.rows - 1),
                wrap_pending: false,
                ..self
            }
        } else if action == 'C' {
            GridView {
                cursor_col: min(self.cursor_col + n, self.cols - 1),
                wrap_pending: false,
                ..self
            }
        } else if action == 'D' {
            GridView {
                cursor_col: if self.cursor_col >= n {
                    self.cursor_col - n
                } else {
                    0
                },
                wrap_pending: false,
                ..self
            }
        } else if action == 'G' {
            GridView { cursor_col: min(n - 1, self.cols - 1), wrap_pending: false, ..self }
        } else if action == 'd' {
            GridView { cursor_row: min(n - 1, self.rows - 1), wrap_pending: false, ..self }
        } else if action == 'H' || action == 'f' {
            self.move_to(n - 1, m - 1)
        } else if action == 'J' {
            self.erase_in_display(raw_param(params, 0, 0))
        } else if action == 'K' {
            self.erase_in_line(raw_param(params, 0, 0))
        } else if action == '@' {
            self.insert_blank_chars(n)
        } else if action == 'P' {
            self.delete_chars(n)
        } else if action == 'L' {
            self.insert_lines(n)
        } else if action == 'M' {
            self.delete_lines(n)
        } else if action == 'S' {
            self.scrolled_up(self.scroll_top, self.scroll_bottom, n)
        } else if action == 'T' {
            self.scrolled_down(self.scroll_top, self.scroll_bottom, n)
        } else if action == 'r' {
            self.set_region(params)
        } else if action == 'm' {
            GridView { pen: sgr(self.pen, params), ..self }
        } else if action == 'h' && private {
            self.set_private_mode(raw_param(params, 0, 0), true)
        } else if action == 'l' && private {
            self.set_private_mode(raw_param(params, 0, 0), false)
        } else {
            self
        }
    }

    /// An escape sequence.
    pub open spec fn esc_dispatch(self, byte: u8) -> GridView {
        if byte == 0x44 {
            self.line_feed()
        } else if byte == 0x4d {
            self.reverse_index()
        } else if byte == 0x45 {
            GridView { cursor_col: 0, ..self }.line_feed()
        } else if byte == 0x37 {
            GridView {
                saved: Some((self.cursor_row as usize, self.cursor_col as usize, self.pen)),
                ..self
            }
        } else if byte == 0x38 {
            match self.saved {
                Some((r, c, pen)) => GridView {
                    cursor_row: min(r as int, self.rows - 1),
                    cursor_col: min(c as int, self.cols - 1),
                    pen,
                    ..self
                },
                None => self,
            }
        } else if byte == 0x63 {
            GridView::fresh(self.rows, self.cols)
        } else {
            self
        }
    }

    /// One terminal action.
    pub open spec fn perform(self, a: ActionView) -> GridView {
        match a {
            ActionView::Print(c) => self.put_char(c),
            ActionView::Execute(b) => self.execute(b),
            ActionView::Csi { params, intermediates, ignore: _, action } => self.csi_dispatch(
                params,
                intermediates,
                action,
            ),
            ActionView::Esc { intermediates: _, ignore: _, byte } => self.esc_dispatch(byte),
        }
    }

    /// A run of terminal actions.
    pub open spec fn perform_all(self, actions: Seq<ActionView>) -> GridView
        decreases actions.len(),
    {
        if actions.len() == 0 {
            self
        } else {
            self.perform_all(actions.drop_last()).perform(actions.last())
        }
    }

    /// With other dimensions; what overlaps is kept from the top left.
    pub open spec fn resized(self, rows: int, cols: int) -> GridView {
        GridView {
            rows,
            cols,
            cells: refitted(self.cells, self.rows, self.cols, rows, cols),
            alt_saved: match self.alt_saved {
                Some(cells) => Some(refitted(cells, self.rows, self.cols, rows, cols)),
                None => None,
            },
            scroll_top: 0,
            scroll_bottom: rows - 1,
            cursor_row: min(self.cursor_row, rows - 1),
            cursor_col: min(self.cursor_col, cols - 1),
            wrap_pending: false,
            ..self
        }
    }
}

/// The authoritative screen state: a grid of cells plus cursor and modes.
#[derive(Debug, PartialEq, Eq)]
pub struct Grid {
    pub rows: usize,
    pub cols: usize,
    pub cells: Vec<Cell>,
    pub cursor_row: usize,
    pub cursor_col: usize,
    pub cursor_visible: bool,
    /// What the next character is drawn with.
    pub pen: Cell,
    /// Whether text runs on in the next line.
    pub autowrap: bool,
    /// The last column has been filled; the next character goes to a new line.
    pub wrap_pending: bool,
    /// First and last row of the scroll region.
    pub scroll_top: usize,
    pub scroll_bottom: usize,
    /// Saved cursor position and pen.
    pub saved: Option<(usize, usize, Cell)>,
    pub alt_screen: bool,
    /// The main screen's cells while the alternate screen shows.
    pub alt_saved: Option<Vec<Cell>>,
}

impl View for Grid {
    type V = GridView;

    open spec fn view(&self) -> GridView {
        GridView {
            rows: self.rows as int,
            cols: self.cols as int,
            cells: self.cells@,
            cursor_row: self.cursor_row as int,
            cursor_col: self.cursor_col as int,
            cursor_visible: self.cursor_visible,
            pen: self.pen,
            autowrap: self.autowrap,
            wrap_pending: self.wrap_pending,
            scroll_top: self.scroll_top as int,
            scroll_bottom: self.scroll_bottom as int,
            saved: self.saved,
            alt_screen: self.alt_screen,
            alt_saved: match self.alt_saved {
                Some(cells) => Some(cells@),
                None => None,
            },
        }
    }
}

/// A vector of `n` blank cells.
fn blank_cells(n: usize) -> (r: Vec<Cell>)
    ensures
        r@ == Seq::new(n as nat, |i: int| crate::cell::blank_cell()),
{
    let r: Vec<Cell> = vec![Cell::blank(); n];
    assert(r@ =~= Seq::new(n as nat, |i: int| crate::cell::blank_cell()));
    r
}

/// A copy of cells.
fn copy_cells(cells: &Vec<Cell>) -> (r: Vec<Cell>)
    ensures
        r@ == cells@,
{
    let r: Vec<Cell> = cells.clone();
    assert(r@ =~= cells@);
    r
}

impl Clone for Grid {
    fn clone(&self) -> (r: Grid)
        ensures
            r@ == self@,
    {
        Grid {
            rows: self.rows,
            cols: self.cols,
            cells: copy_cells(&self.cells),
            cursor_row: self.cursor_row,
            cursor_col: self.cursor_col,
            cursor_visible: self.cursor_visible,
            pen: self.pen,
            autowrap: self.autowrap,
            wrap_pending: self.wrap_pending,
            scroll_top: self.scroll_top,
            scroll_bottom: self.scroll_bottom,
            saved: self.saved,
            alt_screen: self.alt_screen,
            alt_saved: match &self.alt_saved {
                Some(cells) => Some(copy_cells(cells)),
                None => None,
            },
        }
    }
}

impl Grid {
    /// The cursor lies on the screen, the scroll region is a range of its rows,
    /// and there is a cell for each place.
    pub open spec fn wf(&self) -> bool {
        self@.wf()
    }

    /// A blank screen of at least one row and one column.
    pub fn new(rows: usize, cols: usize) -> (r: Grid)
        requires
            at_least_one(rows as int) * at_least_one(cols as int) <= usize::MAX,
        ensures
            r.wf(),
            r@ == GridView::fresh(at_least_one(rows as int), at_least_one(cols as int)),
    {
        let rows: usize = if rows < 1 { 1 } else { rows };
        let cols: usize = if cols < 1 { 1 } else { cols };
        Grid {
            rows,
            cols,
            cells: blank_cells(rows * cols),
            cursor_row: 0,
            cursor_col: 0,
            cursor_visible: true,
            pen: Cell::blank(),
            autowrap: true,
            wrap_pending: false,
            scroll_top: 0,
            scroll_bottom: rows - 1,
            saved: None,
            alt_screen: false,
            alt_saved: None,
        }
    }

    /// The index of a place on the screen.
    fn idx(&self, row: usize, col: usize) -> (i: usize)
        requires
            self.wf(),
            row < self@.rows,
            col < self@.cols,
        ensures
            i == row * self@.cols + col,
            i < self@.cells.len(),
            i - col + self@.cols <= self@.cells.len(),
    {
        proof {
            lemma_index_bound(row as int, col as int, self.rows as int, self.cols as int);
        }
        row * self.cols + col
    }

    /// Read a cell (row, col). Returns blank for out-of-range.
    pub fn cell(&self, row: usize, col: usize) -> (r: Cell)
        requires
            self.wf(),
        ensures
            r == self@.at(row as int, col as int),
    {
        if row < self.rows && col < self.cols {
            self.cells[self.idx(row, col)]
        } else {
            Cell::blank()
        }
    }

    /// Compare only the render-relevant state (cells, cursor, visibility).
    pub fn render_eq(&self, other: &Grid) -> (r: bool)
        ensures
            r == (self@.render() == other@.render()),
    {
        if !(self.rows == other.rows && self.cols == other.cols && self.cells.len()
            == other.cells.len() && self.cursor_row == other.cursor_row && self.cursor_col
            == other.cursor_col && self.cursor_visible == other.cursor_visible) {
            return false;
        }
        let mut i: usize = 0;
        while i < self.cells.len()
            invariant
                i <= self.cells@.len(),
                self.cells@.len() == other.cells@.len(),
                forall|j: int| 0 <= j < i ==> self.cells@[j] == other.cells@[j],
            decreases self.cells@.len() - i,
        {
            if self.cells[i] != other.cells[i] {
                return false;
            }
            i += 1;
        }
        assert(self.cells@ =~= other.cells@);
        true
    }

    /// The text content of a row (trailing blanks trimmed).
    pub fn row_text(&self, row: usize) -> (r: String)
        requires
            self.wf(),
        ensures
            r@ == crate::text::trimmed_end(self@.row_chars(row as int)),
    {
        let mut chars: Vec<char> = Vec::new();
        let ghost all = self@.row_cells(row as int);
        proof {
            reveal(Seq::filter);
            assert(all.take(0) =~= Seq::<char>::empty());
        }
        if row < self.rows {
            let start: usize = self.idx(row, 0);
            let mut c: usize = 0;
            while c < self.cols
                invariant
                    self.wf(),
                    row < self@.rows,
                    c <= self.cols,
                    start == row * self@.cols,
                    start + self.cols <= self.cells@.len(),
                    all == self@.row_cells(row as int),
                    chars@ == all.take(c as int).filter(|c: char| c != TAIL),
                decreases self.cols - c,
            {
                let ch: char = self.cells[start + c].ch;
                proof {
                    reveal(Seq::filter);
                    assert(all.take(c + 1).drop_last() =~= all.take(c as int));
                    assert(all.take(c + 1).last() == ch);
                }
                if ch != TAIL {
                    chars.push(ch);
                }
                c += 1;
            }
            assert(all.take(c as int) =~= all);
        } else {
            assert(all =~= Seq::<char>::empty());
        }
        trim_end(&mut chars);
        string_of(&chars)
    }

    fn put_char(&mut self, c: char)
        requires
            old(self).wf(),
        ensures
            final(self).wf(),
            final(self)@ == old(self)@.put_char(c),
    {
        self.put(c, cells_of(c));
    }

    /// Show a character that takes `cells` cells at the cursor, and move on.
    pub fn put(&mut self, c: char, cells: usize)
        requires
            old(self).wf(),
        ensures
            final(self).wf(),
            final(self)@ == old(self)@.put(c, cells as int),
    {
        if cells == 0 {
            return ;
        }
        if cells == 1 || self.cols < 2 {
            self.put_narrow(c);
        } else {
            self.put_wide(c);
        }
    }

    fn put_wide(&mut self, c: char)
        requires
            old(self).wf(),
            old(self)@.cols >= 2,
        ensures
            final(self).wf(),
            final(self)@ == old(self)@.put_wide(c),
    {
        if self.wrap_pending && self.autowrap {
            self.cursor_col = 0;
            self.line_feed();
            self.wrap_pending = false;
        }
        if self.cursor_col >= self.cols - 1 {
            if self.autowrap {
                self.cursor_col = 0;
                self.line_feed();
                self.wrap_pending = false;
            } else {
                self.cursor_col = self.cols - 2;
            }
        }
        let i: usize = self.idx(self.cursor_row, self.cursor_col);
        let mut cell: Cell = self.pen;
        cell.ch = c;
        self.cells[i] = cell;
        cell.ch = TAIL;
        self.cells[i + 1] = cell;
        if self.cursor_col < self.cols - 2 {
            self.cursor_col += 2;
        } else {
            self.cursor_col = self.cols - 1;
            if self.autowrap {
                self.wrap_pending = true;
            }
        }
    }

    fn put_narrow(&mut self, c: char)
        requires
            old(self).wf(),
        ensures
            final(self).wf(),
            final(self)@ == old(self)@.put_narrow(c),
    {
        if self.wrap_pending && self.autowrap {
            self.cursor_col = 0;
            self.line_feed();
            self.wrap_pending = false;
        }
        let i: usize = self.idx(self.cursor_row, self.cursor_col);
        let mut cell: Cell = self.pen;
        cell.ch = c;
        self.cells[i] = cell;
        if self.cursor_col < self.cols - 1 {
            self.cursor_col += 1;
        } else if self.autowrap {
            self.wrap_pending = true;
        }
    }

    fn line_feed(&mut self)
        requires
            old(self).wf(),
        ensures
            final(self).wf(),
            final(self)@ == old(self)@.line_feed(),
    {
        if self.cursor_row == self.scroll_bottom {
            let (top, bottom): (usize, usize) = (self.scroll_top, self.scroll_bottom);
            self.scroll_up(top, bottom, 1);
        } else if self.cursor_row < self.rows - 1 {
            self.cursor_row += 1;
        }
    }

    fn reverse_index(&mut self)
        requires
            old(self).wf(),
        ensures
            final(self).wf(),
            final(self)@ == old(self)@.reverse_index(),
    {
        if self.cursor_row == self.scroll_top {
            let (top, bottom): (usize, usize) = (self.scroll_top, self.scroll_bottom);
            self.scroll_down(top, bottom, 1);
        } else if self.cursor_row > 0 {
            self.cursor_row -= 1;
        }
    }

    /// Scroll the rows `top..=bottom` up.
    fn scroll_up(&mut self, top: usize, bottom: usize, n: usize)
        requires
            old(self).wf(),
            top <= bottom < old(self)@.rows,
        ensures
            final(self).wf(),
            final(self)@ == old(self)@.scrolled_up(top as int, bottom as int, n as int),
    {
        proof {
            lemma_region(top as int, bottom as int, n as int, self.rows as int, self.cols as int);
        }
        let n: usize = if n < bottom - top + 1 { n } else { bottom - top + 1 };
        move_down(&mut self.cells, top * self.cols, (bottom + 1) * self.cols, n * self.cols);
    }

    /// Scroll the rows `top..=bottom` down.
    fn scroll_down(&mut self, top: usize, bottom: usize, n: usize)
        requires
            old(self).wf(),
            top <= bottom < old(self)@.rows,
        ensures
            final(self).wf(),
            final(self)@ == old(self)@.scrolled_down(top as int, bottom as int, n as int),
    {
        proof {
            lemma_region(top as int, bottom as int, n as int, self.rows as int, self.cols as int);
        }
        let n: usize = if n < bottom - top + 1 { n } else { bottom - top + 1 };
        move_up(&mut self.cells, top * self.cols, (bottom + 1) * self.cols, n * self.cols);
    }

    fn move_to(&mut self, row: usize, col: usize)
        requires
            old(self).wf(),
        ensures
            final(self).wf(),
            final(self)@ == old(self)@.move_to(row as int, col as int),
    {
        self.cursor_row = if row < self.rows - 1 { row } else { self.rows - 1 };
        self.cursor_col = if col < self.cols - 1 { col } else { self.cols - 1 };
        self.wrap_pending = false;
    }

    fn erase_in_display(&mut self, mode: u16)
        requires
            old(self).wf(),
        ensures
            final(self).wf(),
            final(self)@ == old(self)@.erase_in_display(mode),
    {
        let cursor: usize = self.idx(self.cursor_row, self.cursor_col);
        let len: usize = self.cells.len();
        match mode {
            0 => blank_range(&mut self.cells, cursor, len),
            1 => blank_range(&mut self.cells, 0, cursor + 1),
            _ => blank_range(&mut self.cells, 0, len),
        }
    }

    fn erase_in_line(&mut self, mode: u16)
        requires
            old(self).wf(),
        ensures
            final(self).wf(),
            final(self)@ == old(self)@.erase_in_line(mode),
    {
        let start: usize = self.idx(self.cursor_row, 0);
        let col: usize = self.cursor_col;
        let cols: usize = self.cols;
        match mode {
            0 => blank_range(&mut self.cells, start + col, start + cols),
            1 => blank_range(&mut self.cells, start, start + col + 1),
            _ => blank_range(&mut self.cells, start, start + cols),
        }
    }

    fn insert_blank_chars(&mut self, n: usize)
        requires
            old(self).wf(),
        ensures
            final(self).wf(),
            final(self)@ == old(self)@.insert_blank_chars(n as int),
    {
        let start: usize = self.idx(self.cursor_row, 0);
        let col: usize = self.cursor_col;
        let cols: usize = self.cols;
        let n: usize = if n < cols - col { n } else { cols - col };
        move_up(&mut self.cells, start + col, start + cols, n);
    }

    fn delete_chars(&mut self, n: usize)
        requires
            old(self).wf(),
        ensures
            final(self).wf(),
            final(self)@ == old(self)@.delete_chars(n as int),
    {
        let start: usize = self.idx(self.cursor_row, 0);
        let col: usize = self.cursor_col;
        let cols: usize = self.cols;
        let n: usize = if n < cols - col { n } else { cols - col };
        move_down(&mut self.cells, start + col, start + cols, n);
    }

    fn insert_lines(&mut self, n: usize)
        requires
            old(self).wf(),
        ensures
            final(self).wf(),
            final(self)@ == old(self)@.insert_lines(n as int),
    {
        if self.cursor_row < self.scroll_top || self.cursor_row > self.scroll_bottom {
            return;
        }
        let (top, bottom): (usize, usize) = (self.cursor_row, self.scroll_bottom);
        self.scroll_down(top, bottom, n);
    }

    fn delete_lines(&mut self, n: usize)
        requires
            old(self).wf(),
        ensures
            final(self).wf(),
            final(self)@ == old(self)@.delete_lines(n as int),
    {
        if self.cursor_row < self.scroll_top || self.cursor_row > self.scroll_bottom {
            return;
        }
        let (top, bottom): (usize, usize) = (self.cursor_row, self.scroll_bottom);
        self.scroll_up(top, bottom, n);
    }

    fn enter_alt_screen(&mut self)
        requires
            old(self).wf(),
        ensures
            final(self).wf(),
            final(self)@ == old(self)@.enter_alt_screen(),
    {
        if !self.alt_screen {
            self.alt_screen = true;
            let mut other: Vec<Cell> = blank_cells(self.rows * self.cols);
            std::mem::swap(&mut other, &mut self.cells);
            self.alt_saved = Some(other);
            self.move_to(0, 0);
        }
    }

    fn leave_alt_screen(&mut self)
        requires
            old(self).wf(),
        ensures
            final(self).wf(),
            final(self)@ == old(self)@.leave_alt_screen(),
    {
        if self.alt_screen {
            self.alt_screen = false;
            if let Some(main) = self.alt_saved.take() {
                self.cells = main;
            }
        }
    }

    fn set_private_mode(&mut self, mode: u16, enable: bool)
        requires
            old(self).wf(),
        ensures
            final(self).wf(),
            final(self)@ == old(self)@.set_private_mode(mode, enable),
    {
        match mode {
            7 => {
                self.autowrap = enable;
            },
            25 => {
                self.cursor_visible = enable;
            },
            1049 | 47 | 1047 => {
                if enable {
                    self.enter_alt_screen();
                } else {
                    self.leave_alt_screen();
                }
            },
            _ => {},
        }
    }

    fn set_sgr(&mut self, params: &Vec<Vec<u16>>)
        requires
            old(self).wf(),
        ensures
            final(self).wf(),
            final(self)@ == (GridView {
                pen: sgr(old(self)@.pen, param_views(params@)),
                ..old(self)@
            }),
    {
        apply_sgr(&mut self.pen, params);
    }

    fn set_region(&mut self, params: &Vec<Vec<u16>>)
        requires
            old(self).wf(),
        ensures
            final(self).wf(),
            final(self)@ == old(self)@.set_region(param_views(params@)),
    {
        let top: usize = arg(params, 0, 1) as usize - 1;
        let rows: usize = self.rows;
        assert(rows as u16 == rows % 0x1_0000) by (bit_vector);
        let last: usize = arg(params, 1, rows as u16) as usize;
        if last > 0 && top < last - 1 && last - 1 < self.rows {
            self.scroll_top = top;
            self.scroll_bottom = last - 1;
            self.move_to(0, 0);
        }
    }

    /// A control character.
    pub fn execute(&mut self, byte: u8)
        requires
            old(self).wf(),
        ensures
            final(self).wf(),
            final(self)@ == old(self)@.execute(byte),
    {
        match byte {
            0x0a | 0x0b | 0x0c => self.line_feed(),
            0x0d => {
                self.cursor_col = 0;
                self.wrap_pending = false;
            },
            0x08 => {
                if self.cursor_col > 0 {
                    self.cursor_col -= 1;
                }
                self.wrap_pending = false;
            },
            0x09 => {
                let last: usize = self.cols - 1;
                let stop: usize = (self.cursor_col / 8) * 8;
                self.cursor_col = if last - stop > 8 { stop + 8 } else { last };
            },
            _ => {},
        }
    }

    /// A control sequence that moves the cursor; false if it is none.
    fn csi_move(&mut self, params: &Vec<Vec<u16>>, action: char) -> (known: bool)
        requires
            old(self).wf(),
        ensures
            final(self).wf(),
            known == (action == 'A' || action == 'B' || action == 'C' || action == 'D' || action == 'G'
                || action == 'd' || action == 'H' || action == 'f'),
            known ==> final(self)@ == old(self)@.csi_dispatch(
                param_views(params@),
                Seq::empty(),
                action,
            ),
            !known ==> *final(self) == *old(self),
    {
        let n: usize = arg(params, 0, 1) as usize;
        match action {
            'A' => {
                self.cursor_row = self.cursor_row.saturating_sub(n);
                self.wrap_pending = false;
            },
            'B' => {
                let last: usize = self.rows - 1;
                self.cursor_row = if n < last - self.cursor_row { self.cursor_row + n } else { last };
                self.wrap_pending = false;
            },
            'C' => {
                let last: usize = self.cols - 1;
                self.cursor_col = if n < last - self.cursor_col { self.cursor_col + n } else { last };
                self.wrap_pending = false;
            },
            'D' => {
                self.cursor_col = self.cursor_col.saturating_sub(n);
                self.wrap_pending = false;
            },
            'G' => {
                let last: usize = self.cols - 1;
                self.cursor_col = if n - 1 < last { n - 1 } else { last };
                self.wrap_pending = false;
            },
            'd' => {
                let last: usize = self.rows - 1;
                self.cursor_row = if n - 1 < last { n - 1 } else { last };
                self.wrap_pending = false;
            },
            'H' | 'f' => {
                let m: usize = arg(params, 1, 1) as usize;
                self.move_to(n - 1, m - 1);
            },
            _ => return false,
        }
        true
    }

    /// A control sequence.
    pub fn csi_dispatch(
        &mut self,
        params: &Vec<Vec<u16>>,
        intermediates: &[u8],
        ignore: bool,
        action: char,
    )
        requires
            old(self).wf(),
        ensures
            final(self).wf(),
            final(self)@ == old(self)@.csi_dispatch(param_views(params@), intermediates@, action),
    {
        if self.csi_move(params, action) {
            return;
        }
        let private: bool = intermediates.len() > 0 && intermediates[0] == 0x3f;
        let n: usize = arg(params, 0, 1) as usize;
        match action {
            'J' => self.erase_in_display(arg_raw(params, 0, 0)),
            'K' => self.erase_in_line(arg_raw(params, 0, 0)),
            '@' => self.insert_blank_chars(n),
            'P' => self.delete_chars(n),
            'L' => self.insert_lines(n),
            'M' => self.delete_lines(n),
            'S' => {
                let (top, bottom): (usize, usize) = (self.scroll_top, self.scroll_bottom);
                self.scroll_up(top, bottom, n)
            },
            'T' => {
                let (top, bottom): (usize, usize) = (self.scroll_top, self.scroll_bottom);
                self.scroll_down(top, bottom, n)
            },
            'r' => self.set_region(params),
            'm' => self.set_sgr(params),
            'h' => {
                if private {
                    self.set_private_mode(arg_raw(params, 0, 0), true)
                }
            },
            'l' => {
                if private {
                    self.set_private_mode(arg_raw(params, 0, 0), false)
                }
            },
            _ => {},
        }
    }

    /// An escape sequence.
    pub fn esc_dispatch(&mut self, intermediates: &[u8], ignore: bool, byte: u8)
        requires
            old(self).wf(),
        ensures
            final(self).wf(),
            final(self)@ == old(self)@.esc_dispatch(byte),
    {
        match byte {
            0x44 => self.line_feed(),
            0x4d => self.reverse_index(),
            0x45 => {
                self.cursor_col = 0;
                self.line_feed();
            },
            0x37 => {
                self.saved = Some((self.cursor_row, self.cursor_col, self.pen));
            },
            0x38 => {
                if let Some((r, c, pen)) = self.saved {
                    self.cursor_row = if r < self.rows - 1 { r } else { self.rows - 1 };
                    self.cursor_col = if c < self.cols - 1 { c } else { self.cols - 1 };
                    self.pen = pen;
                }
            },
            0x63 => {
                let (rows, cols): (usize, usize) = (self.rows, self.cols);
                *self = Grid::new(rows, cols);
            },
            _ => {},
        }
    }

    /// Carry out one terminal action.
    pub fn perform(&mut self, action: &Action)
        requires
            old(self).wf(),
        ensures
            final(self).wf(),
            final(self)@ == old(self)@.perform(action@),
    {
        match action {
            Action::Print(c) => self.put_char(*c),
            Action::Execute(b) => self.execute(*b),
            Action::Csi { params, intermediates, ignore, action } => self.csi_dispatch(
                params,
                intermediates,
                *ignore,
                *action,
            ),
            Action::Esc { intermediates, ignore, byte } => self.esc_dispatch(
                intermediates,
                *ignore,
                *byte,
            ),
        }
    }

    /// Resize the grid, preserving overlapping content from the top-left.
    pub fn resize(&mut self, rows: usize, cols: usize)
        requires
            old(self).wf(),
            at_least_one(rows as int) * at_least_one(cols as int) <= usize::MAX,
        ensures
            final(self).wf(),
            final(self)@ == old(self)@.resized(at_least_one(rows as int), at_least_one(cols as int)),
    {
        let rows: usize = if rows < 1 { 1 } else { rows };
        let cols: usize = if cols < 1 { 1 } else { cols };
        let cells: Vec<Cell> = refit(&self.cells, self.rows, self.cols, rows, cols);
        let alt_saved: Option<Vec<Cell>> = match &self.alt_saved {
            Some(alt) => Some(refit(alt, self.rows, self.cols, rows, cols)),
            None => None,
        };
        self.alt_saved = alt_saved;
        self.cells = cells;
        self.rows = rows;
        self.cols = cols;
        self.scroll_top = 0;
        self.scroll_bottom = rows - 1;
        self.cursor_row = if self.cursor_row < rows - 1 { self.cursor_row } else { rows - 1 };
        self.cursor_col = if self.cursor_col < cols - 1 { self.cursor_col } else { cols - 1 };
        self.wrap_pending = false;
    }
}

proof fn lemma_region(top: int, bottom: int, n: int, rows: int, cols: int)
    requires
        0 <= top <= bottom < rows,
        1 <= cols,
        0 <= n,
        rows * cols <= usize::MAX,
    ensures
        0 <= top * cols <= (bottom + 1) * cols <= rows * cols,
        0 <= min(n, bottom - top + 1) * cols <= rows * cols,
{
    let m = min(n, bottom - top + 1);
    assert(0 <= top * cols <= (bottom + 1) * cols <= rows * cols && 0 <= m * cols <= rows * cols)
        by (nonlinear_arith)
        requires
            0 <= top <= bottom < rows,
            1 <= cols,
            0 <= m <= bottom - top + 1,
    ;
}

// ---------------------------------------------------------------------------
// Laws
// ---------------------------------------------------------------------------

/// Scrolling up by `n` shows in each row of the region what stood `n` rows
/// below, blank rows where nothing did, and leaves the rest of the screen.
pub proof fn law_scroll_up_by_rows(g: GridView, top: int, bottom: int, n: int, r: int, c: int)
    requires
        g.wf(),
        0 <= top <= bottom < g.rows,
        0 <= n,
        0 <= r < g.rows,
        0 <= c < g.cols,
    ensures
        g.scrolled_up(top, bottom, n).at(r, c) == if top <= r <= bottom {
            if r + n <= bottom {
                g.at(r + n, c)
            } else {
                crate::cell::blank_cell()
            }
        } else {
            g.at(r, c)
        },
{
    let k = min(n, bottom - top + 1);
    lemma_index_bound(r, c, g.rows, g.cols);
    let i = r * g.cols + c;
    lemma_row_order(r, c, top, g.cols);
    lemma_row_order(r, c, bottom + 1, g.cols);
    lemma_row_order(r + k, c, bottom + 1, g.cols);
    assert((r + k) * g.cols == r * g.cols + k * g.cols) by (nonlinear_arith);
}

/// Scrolling down by `n` shows in each row of the region what stood `n` rows
/// above, blank rows where nothing did, and leaves the rest of the screen.
pub proof fn law_scroll_down_by_rows(g: GridView, top: int, bottom: int, n: int, r: int, c: int)
    requires
        g.wf(),
        0 <= top <= bottom < g.rows,
        0 <= n,
        0 <= r < g.rows,
        0 <= c < g.cols,
    ensures
        g.scrolled_down(top, bottom, n).at(r, c) == if top <= r <= bottom {
            if r - n >= top {
                g.at(r - n, c)
            } else {
                crate::cell::blank_cell()
            }
        } else {
            g.at(r, c)
        },
{
    let k = min(n, bottom - top + 1);
    lemma_index_bound(r, c, g.rows, g.cols);
    lemma_row_order(r, c, top, g.cols);
    lemma_row_order(r, c, bottom + 1, g.cols);
    lemma_row_order(r - k, c, top, g.cols);
    assert((r - k) * g.cols == r * g.cols - k * g.cols) by (nonlinear_arith);
}

/// A place lies before a row's start exactly if its row does.
proof fn lemma_row_order(r: int, c: int, row: int, cols: int)
    requires
        0 <= c < cols,
    ensures
        r * cols + c < row * cols <==> r < row,
{
    if r < row {
        assert(r * cols + cols <= row * cols) by (nonlinear_arith)
            requires
                r < row,
                cols > 0,
        ;
    } else {
        assert(row * cols <= r * cols) by (nonlinear_arith)
            requires
                row <= r,
                cols > 0,
        ;
    }
}

/// Resizing keeps what the old and the new screen have in common, from the top
/// left, and the rest is blank.
pub proof fn law_resize_keeps_overlap(g: GridView, rows: int, cols: int, r: int, c: int)
    requires
        g.wf(),
        0 <= r < rows,
        0 <= c < cols,
    ensures
        g.resized(rows, cols).at(r, c) == g.at(r, c),
{
    lemma_index_bound(r, c, rows, cols);
    lemma_fundamental_div_mod_converse(r * cols + c, cols, r, c);
}

/// A character that takes no cell leaves the screen as it was. One that takes two is
/// shown in a cell, with the mark of its second half in the next, and every other cell
/// is as it is once there is room in the line.
pub proof fn law_cells_by_width(g: GridView, c: char, cells: int, r: int, k: int)
    requires
        g.wf(),
        g.cols >= 2,
        0 <= r < g.rows,
        0 <= k < g.cols,
    ensures
        g.put(c, 0) == g,
        cells >= 2 ==> {
            let room = g.with_room();
            let after = g.put(c, cells);
            &&& room.cursor_col + 1 < g.cols
            &&& after.at(r, k) == if r == room.cursor_row && k == room.cursor_col {
                Cell { ch: c, ..g.pen }
            } else if r == room.cursor_row && k == room.cursor_col + 1 {
                Cell { ch: crate::cell::TAIL, ..g.pen }
            } else {
                room.at(r, k)
            }
        },
{
    let room = g.with_room();
    lemma_index_bound(r, k, g.rows, g.cols);
    lemma_index_bound(room.cursor_row, room.cursor_col + 1, g.rows, g.cols);
    let i = r * g.cols + k;
    let j = room.cursor_row * g.cols + room.cursor_col;
    lemma_fundamental_div_mod_converse(i, g.cols, r, k);
    lemma_fundamental_div_mod_converse(j, g.cols, room.cursor_row, room.cursor_col);
    lemma_fundamental_div_mod_converse(j + 1, g.cols, room.cursor_row, room.cursor_col + 1);
}

/// Leaving the alternate screen brings back the main screen as it was entered
/// from, whatever was shown in between.
pub proof fn law_alt_screen_restores(g: GridView, shown: Seq<Cell>)
    requires
        g.wf(),
        !g.alt_screen,
    ensures
        (GridView { cells: shown, ..g.enter_alt_screen() }).leave_alt_screen().cells == g.cells,
{
}

} // verus!
