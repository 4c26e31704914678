//! An incremental grid renderer for the local terminal of the interactive
//! client.

use crate::cell::{cells_of, Cell, Color, TAIL};
use crate::flags;
use crate::grid::{Grid, RenderView};
use crate::text::push_decimal;
use vstd::prelude::*;

verus! {

/// The part of a color sequence for a color; `kind` is "38" for the foreground
/// and "48" for the background.
pub open spec fn color_text(kind: Seq<char>, c: Color) -> Seq<char> {
    match c {
        Color::Default => Seq::empty(),
        Color::Indexed(n) => ";"@ + kind + ";5;"@ + crate::text::decimal(n as nat),
        Color::Rgb(r, g, b) => ";"@ + kind + ";2;"@ + crate::text::decimal(r as nat) + ";"@
            + crate::text::decimal(g as nat) + ";"@ + crate::text::decimal(b as nat),
    }
}

/// `text` if any of the attributes `mask` is set.
pub open spec fn attribute(set: u8, mask: u8, text: Seq<char>) -> Seq<char> {
    if set & mask != 0 {
        text
    } else {
        Seq::empty()
    }
}

/// The sequence that selects attributes and colors. Predicted glyphs are
/// underlined.
pub open spec fn sgr(set: u8, fg: Color, bg: Color) -> Seq<char> {
    "\x1b[0"@ + attribute(set, flags::BOLD, ";1"@) + attribute(set, flags::DIM, ";2"@) + attribute(
        set,
        flags::ITALIC,
        ";3"@,
    ) + attribute(set, flags::UNDERLINE | flags::PREDICTED, ";4"@) + attribute(
        set,
        flags::REVERSE,
        ";7"@,
    ) + color_text("38"@, fg) + color_text("48"@, bg) + "m"@
}

/// Two cells are drawn with the same attributes and colors.
pub open spec fn same_style(a: Cell, b: Cell) -> bool {
    a.flags == b.flags && a.fg == b.fg && a.bg == b.bg
}

/// What is written for a cell. The second half of a character that takes two cells
/// comes with the first; a half without the other is written as a blank, and so is what
/// takes no cell, so that every cell keeps its place.
pub open spec fn glyph(row: Seq<Cell>, i: int) -> Seq<char> {
    let c = row[i].ch;
    if c == TAIL {
        if i > 0 && row[i - 1].ch != TAIL && crate::cell::cells_for(row[i - 1].ch) == 2 {
            Seq::empty()
        } else {
            seq![' ']
        }
    } else if crate::cell::cells_for(c) == 1 || (crate::cell::cells_for(c) == 2 && i + 1 < row.len()
        && row[i + 1].ch == TAIL) {
        seq![c]
    } else {
        seq![' ']
    }
}

/// The first `n` cells of a row, each with what is written for it, and a new selection
/// of attributes and colors where they change.
pub open spec fn cells_text(row: Seq<Cell>, n: int) -> Seq<char>
    decreases n,
{
    if n <= 0 {
        Seq::empty()
    } else {
        let c = row[n - 1];
        let before = cells_text(row, n - 1);
        if n > 1 && same_style(c, row[n - 2]) {
            before + glyph(row, n - 1)
        } else {
            before + sgr(c.flags, c.fg, c.bg) + glyph(row, n - 1)
        }
    }
}

/// The cells of a row.
pub open spec fn row_of(g: RenderView, row: int) -> Seq<Cell> {
    Seq::new(g.cols as nat, |c: int| g.cells[row * g.cols + c])
}

/// A row drawn afresh: to its start, cleared, its cells, back to no attributes.
pub open spec fn row_text(g: RenderView, row: int) -> Seq<char> {
    "\x1b["@ + crate::text::decimal((row + 1) as nat) + ";1H\x1b[2K"@ + cells_text(
        row_of(g, row),
        g.cols,
    ) + "\x1b[0m"@
}

/// The row has to be drawn: it is not what was drawn last, or there is nothing
/// to go by.
pub open spec fn row_changed(last: Option<RenderView>, g: RenderView, row: int) -> bool {
    match last {
        None => true,
        Some(p) => p.rows != g.rows || p.cols != g.cols || row_of(p, row) != row_of(g, row),
    }
}

/// One of the first `n` rows has to be drawn.
pub open spec fn any_changed(last: Option<RenderView>, g: RenderView, n: int) -> bool {
    exists|row: int| 0 <= row < n && #[trigger] row_changed(last, g, row)
}

/// Those of the first `n` rows that have to be drawn.
pub open spec fn rows_text(last: Option<RenderView>, g: RenderView, n: int) -> Seq<char>
    decreases n,
{
    if n <= 0 {
        Seq::empty()
    } else if row_changed(last, g, n - 1) {
        rows_text(last, g, n - 1) + row_text(g, n - 1)
    } else {
        rows_text(last, g, n - 1)
    }
}

/// The cursor is elsewhere than it was last.
pub open spec fn cursor_moved(last: Option<RenderView>, g: RenderView) -> bool {
    match last {
        None => true,
        Some(p) => p.cursor_row != g.cursor_row || p.cursor_col != g.cursor_col,
    }
}

/// The cursor was shown last and is hidden, or the other way round.
pub open spec fn visibility_changed(last: Option<RenderView>, g: RenderView) -> bool {
    match last {
        None => true,
        Some(p) => p.cursor_visible != g.cursor_visible,
    }
}

/// The sequence that shows or hides the cursor.
pub open spec fn visibility_text(visible: bool) -> Seq<char> {
    if visible {
        "\x1b[?25h"@
    } else {
        "\x1b[?25l"@
    }
}

/// To the cursor.
pub open spec fn cursor_text(g: RenderView) -> Seq<char> {
    "\x1b["@ + crate::text::decimal((g.cursor_row + 1) as nat) + ";"@ + crate::text::decimal(
        (g.cursor_col + 1) as nat,
    ) + "H"@
}

/// What is written to go from the last frame to this one: the rows that
/// changed, with the cursor hidden meanwhile; the cursor where it belongs, if
/// it was moved; and whether it shows, if that changed.
pub open spec fn frame(last: Option<RenderView>, g: RenderView) -> Seq<char> {
    if any_changed(last, g, g.rows) {
        "\x1b[?25l"@ + rows_text(last, g, g.rows) + cursor_text(g) + if g.cursor_visible {
            "\x1b[?25h"@
        } else {
            Seq::empty()
        }
    } else {
        (if cursor_moved(last, g) {
            cursor_text(g)
        } else {
            Seq::empty()
        }) + if visibility_changed(last, g) {
            visibility_text(g.cursor_visible)
        } else {
            Seq::empty()
        }
    }
}

fn push_color(out: &mut String, foreground: bool, c: Color)
    ensures
        final(out)@ == old(out)@ + color_text(
            if foreground {
                "38"@
            } else {
                "48"@
            },
            c,
        ),
{
    let ghost before = out@;
    let ghost kind = if foreground {
        "38"@
    } else {
        "48"@
    };
    let name: &str = if foreground { "38" } else { "48" };
    match c {
        Color::Default => {
            assert(out@ =~= before + color_text(kind, c));
        },
        Color::Indexed(n) => {
            out.push_str(";");
            out.push_str(name);
            out.push_str(";5;");
            push_decimal(out, n as u64);
            assert(out@ =~= before + color_text(kind, c));
        },
        Color::Rgb(r, g, b) => {
            out.push_str(";");
            out.push_str(name);
            out.push_str(";2;");
            push_decimal(out, r as u64);
            out.push_str(";");
            push_decimal(out, g as u64);
            out.push_str(";");
            push_decimal(out, b as u64);
            assert(out@ =~= before + color_text(kind, c));
        },
    }
}

fn push_attribute(out: &mut String, set: u8, mask: u8, text: &str)
    ensures
        final(out)@ == old(out)@ + attribute(set, mask, text@),
{
    let ghost before = out@;
    if set & mask != 0 {
        out.push_str(text);
    }
    assert(out@ =~= before + attribute(set, mask, text@));
}

fn sgr_for(out: &mut String, set: u8, fg: Color, bg: Color)
    ensures
        final(out)@ == old(out)@ + sgr(set, fg, bg),
{
    let ghost before = out@;
    out.push_str("\x1b[0");
    push_attribute(out, set, flags::BOLD, ";1");
    push_attribute(out, set, flags::DIM, ";2");
    push_attribute(out, set, flags::ITALIC, ";3");
    push_attribute(out, set, flags::UNDERLINE | flags::PREDICTED, ";4");
    push_attribute(out, set, flags::REVERSE, ";7");
    push_color(out, true, fg);
    push_color(out, false, bg);
    out.push_str("m");
    assert(out@ =~= before + sgr(set, fg, bg));
}

fn push_glyph(out: &mut String, grid: &Grid, row: usize, col: usize)
    requires
        grid.wf(),
        row < grid@.rows,
        col < grid@.cols,
    ensures
        final(out)@ == old(out)@ + glyph(row_of(grid@.render(), row as int), col as int),
{
    let ghost before = out@;
    let ghost cells = row_of(grid@.render(), row as int);
    let ch: char = grid.cell(row, col).ch;
    assert(ch == cells[col as int].ch);
    assert(col + 1 < grid@.cols ==> grid@.at(row as int, col + 1) == cells[col + 1]);
    assert(col > 0 ==> grid@.at(row as int, col - 1) == cells[col - 1]);
    if ch == TAIL {
        let follows: bool = if col > 0 {
            let first: char = grid.cell(row, col - 1).ch;
            first != TAIL && cells_of(first) == 2
        } else {
            false
        };
        if !follows {
            out.push(' ');
        }
    } else {
        let n: usize = cells_of(ch);
        if n == 1 || (n == 2 && col < grid.cols - 1 && grid.cell(row, col + 1).ch == TAIL) {
            out.push(ch);
        } else {
            out.push(' ');
        }
    }
    assert(out@ =~= before + glyph(cells, col as int));
}

fn push_row(out: &mut String, grid: &Grid, row: usize)
    requires
        grid.wf(),
        row < grid@.rows,
    ensures
        final(out)@ == old(out)@ + row_text(grid@.render(), row as int),
{
    let ghost before = out@;
    let ghost cells = row_of(grid@.render(), row as int);
    out.push_str("\x1b[");
    push_decimal(out, row as u64 + 1);
    out.push_str(";1H\x1b[2K");
    let ghost start = out@;
    let mut col: usize = 0;
    let mut previous: Cell = Cell::blank();
    assert(start + cells_text(cells, 0) =~= start);
    while col < grid.cols
        invariant
            grid.wf(),
            row < grid@.rows,
            col <= grid@.cols,
            cells == row_of(grid@.render(), row as int),
            col > 0 ==> previous == cells[col - 1],
            out@ == start + cells_text(cells, col as int),
        decreases grid.cols - col,
    {
        let cell: Cell = grid.cell(row, col);
        assert(cell == cells[col as int]);
        let fresh: bool = col == 0 || !(cell.flags == previous.flags && cell.fg == previous.fg
            && cell.bg == previous.bg);
        if fresh {
            sgr_for(out, cell.flags, cell.fg, cell.bg);
        }
        push_glyph(out, grid, row, col);
        assert(out@ =~= start + cells_text(cells, col + 1));
        previous = cell;
        col += 1;
    }
    out.push_str("\x1b[0m");
    assert(out@ =~= before + row_text(grid@.render(), row as int));
}

/// The size of the terminal, columns and rows: what was found, or, where nothing or
/// an empty screen was found, the usual one.
pub fn terminal_size(found: Option<(u16, u16)>) -> (r: (u16, u16))
    ensures
        r == match found {
            Some((w, h)) => if w > 0 && h > 0 {
                (w, h)
            } else {
                (80, 24)
            },
            None => (80, 24),
        },
{
    match found {
        Some((w, h)) => if w > 0 && h > 0 {
            (w, h)
        } else {
            (80, 24)
        },
        None => (80, 24),
    }
}

/// Incremental renderer: repaints only rows that changed since the last frame.
pub struct Renderer {
    last: Option<Grid>,
}

impl Default for Renderer {
    fn default() -> (r: Renderer)
        ensures
            r.wf(),
            r.last() is None,
    {
        Renderer::new()
    }
}

impl Renderer {
    /// The last frame, if there is one to go by.
    pub closed spec fn last(&self) -> Option<RenderView> {
        match self.last {
            Some(g) => Some(g@.render()),
            None => None,
        }
    }

    /// The last frame was a screen.
    pub closed spec fn wf(&self) -> bool {
        self.last matches Some(g) ==> g.wf()
    }

    /// A renderer that has drawn nothing.
    pub fn new() -> (r: Renderer)
        ensures
            r.wf(),
            r.last() is None,
    {
        Renderer { last: None }
    }

    fn is_row_changed(&self, grid: &Grid, row: usize) -> (r: bool)
        requires
            self.wf(),
            grid.wf(),
            row < grid@.rows,
        ensures
            r == row_changed(self.last(), grid@.render(), row as int),
    {
        match &self.last {
            None => true,
            Some(p) => {
                if p.rows != grid.rows || p.cols != grid.cols {
                    return true;
                }
                let ghost a = row_of(p@.render(), row as int);
                let ghost b = row_of(grid@.render(), row as int);
                let mut col: usize = 0;
                while col < grid.cols
                    invariant
                        p.wf(),
                        grid.wf(),
                        self.last() == Some(p@.render()),
                        p@.rows == grid@.rows,
                        p@.cols == grid@.cols,
                        row < grid@.rows,
                        col <= grid@.cols,
                        a == row_of(p@.render(), row as int),
                        b == row_of(grid@.render(), row as int),
                        forall|c: int| 0 <= c < col ==> a[c] == b[c],
                    decreases grid.cols - col,
                {
                    let x: Cell = p.cell(row, col);
                    let y: Cell = grid.cell(row, col);
                    assert(x == a[col as int] && y == b[col as int]);
                    if x != y {
                        assert(a != b);
                        return true;
                    }
                    col += 1;
                }
                assert(a =~= b);
                false
            },
        }
    }

    /// Render `grid`: the minimal ANSI text to write to the terminal.
    ///
    /// This is called once per event-loop wakeup (every inbound packet, ack, and
    /// keepalive), so there is *nothing* to write when the screen is unchanged —
    /// otherwise an idle session emits a hide/move/show cursor cycle on every
    /// tick, which reads as flicker or a "random refresh".
    pub fn paint(&mut self, grid: &Grid) -> (out: String)
        requires
            old(self).wf(),
            grid.wf(),
        ensures
            final(self).wf(),
            out@ == frame(old(self).last(), grid@.render()),
            final(self).last() == Some(grid@.render()),
    {
        let ghost last = self.last();
        let ghost g = grid@.render();
        let mut rows: String = String::new();
        let mut repainting: bool = false;
        let mut row: usize = 0;
        assert(rows@ =~= rows_text(last, g, 0));
        while row < grid.rows
            invariant
                self.wf(),
                grid.wf(),
                last == self.last(),
                g == grid@.render(),
                row <= grid@.rows,
                rows@ == rows_text(last, g, row as int),
                repainting == any_changed(last, g, row as int),
            decreases grid.rows - row,
        {
            if self.is_row_changed(grid, row) {
                push_row(&mut rows, grid, row);
                repainting = true;
            }
            row += 1;
        }
        let (moved, toggled) = match &self.last {
            Some(p) => (
                p.cursor_row != grid.cursor_row || p.cursor_col != grid.cursor_col,
                p.cursor_visible != grid.cursor_visible,
            ),
            None => (true, true),
        };
        let mut buf: String = String::new();
        if repainting {
            buf.push_str("\x1b[?25l");  // hide the cursor only while repainting rows
            buf.push_str(rows.as_str());
        }
        // Reposition the real cursor if we repainted (the writes moved it) or it
        // moved on its own.
        if repainting || moved {
            buf.push_str("\x1b[");
            push_decimal(&mut buf, grid.cursor_row as u64 + 1);
            buf.push_str(";");
            push_decimal(&mut buf, grid.cursor_col as u64 + 1);
            buf.push_str("H");
        }
        // After a repaint we re-show the cursor when it should be visible;
        // otherwise emit a toggle only when visibility actually changed.
        if repainting {
            if grid.cursor_visible {
                buf.push_str("\x1b[?25h");
            }
        } else if toggled {
            if grid.cursor_visible {
                buf.push_str("\x1b[?25h");
            } else {
                buf.push_str("\x1b[?25l");
            }
        }
        assert(buf@ =~= frame(last, g));
        self.last = Some(grid.clone());
        buf
    }

    /// Force a full repaint on the next `paint` (e.g. after a resize).
    pub fn invalidate(&mut self)
        ensures
            final(self).wf(),
            final(self).last() is None,
    {
        self.last = None;
    }
}

// ---------------------------------------------------------------------------
// Laws
// ---------------------------------------------------------------------------

/// Painting a frame again writes nothing: no cursor hidden or shown.
pub proof fn law_idle_frame_writes_nothing(g: RenderView)
    ensures
        frame(Some(g), g) == Seq::<char>::empty(),
{
    assert(frame(Some(g), g) =~= Seq::<char>::empty());
}

/// A frame that differs from the last one in anything that shows is painted.
pub proof fn law_change_is_painted(last: RenderView, g: RenderView)
    requires
        g.rows >= 1,
        g.cols >= 1,
        last.cells.len() == last.rows * last.cols,
        g.cells.len() == g.rows * g.cols,
        last != g,
    ensures
        frame(Some(last), g).len() > 0,
{
    reveal_strlit("\x1b[?25l");
    reveal_strlit("\x1b[?25h");
    reveal_strlit("\x1b[");
    if last.rows != g.rows || last.cols != g.cols {
        assert(row_changed(Some(last), g, 0));
    } else if last.cells != g.cells {
        if forall|i: int| 0 <= i < g.cells.len() ==> last.cells[i] == g.cells[i] {
            assert(last.cells =~= g.cells);
        }
        let i = choose|i: int| 0 <= i < g.cells.len() && last.cells[i] != g.cells[i];
        let row = i / g.cols;
        let col = i % g.cols;
        vstd::arithmetic::div_mod::lemma_fundamental_div_mod(i, g.cols);
        assert(i == row * g.cols + col) by (nonlinear_arith)
            requires
                i == g.cols * row + col,
        ;
        assert(0 <= row < g.rows) by (nonlinear_arith)
            requires
                0 <= i < g.rows * g.cols,
                i == row * g.cols + col,
                0 <= col < g.cols,
                g.cols >= 1,
        ;
        assert(row_of(last, row)[col] == last.cells[i]);
        assert(row_of(g, row)[col] == g.cells[i]);
        assert(row_changed(Some(last), g, row));
    }
}

} // verus!
