//! What control sequences do to a screen, cell by cell and cursor by cursor.

use crate::cell::{Cell, Color};
use crate::flags;
use crate::grid::{ActionView, GridView};
use vstd::arithmetic::div_mod::lemma_fundamental_div_mod_converse;
use vstd::prelude::*;

verus! {

/// The control sequence with these parameters.
pub open spec fn csi(numbers: Seq<u16>, action: char) -> ActionView {
    ActionView::Csi {
        params: Seq::new(numbers.len(), |i: int| seq![numbers[i]]),
        intermediates: Seq::empty(),
        ignore: false,
        action,
    }
}

/// The control sequence that switches a private mode on (`h`) or off (`l`).
pub open spec fn mode(number: u16, action: char) -> ActionView {
    ActionView::Csi {
        params: seq![seq![number]],
        intermediates: seq![0x3fu8],
        ignore: false,
        action,
    }
}

/// The escape sequence with this final byte.
pub open spec fn esc(byte: u8) -> ActionView {
    ActionView::Esc { intermediates: Seq::empty(), ignore: false, byte }
}

/// How often a count asks for something: at least once.
pub open spec fn times(n: u16) -> int {
    if n == 0 {
        1
    } else {
        n as int
    }
}

/// Two screens that differ at most in the cursor's place.
pub open spec fn only_cursor_moved(g: GridView, t: GridView) -> bool {
    t == GridView {
        cursor_row: t.cursor_row,
        cursor_col: t.cursor_col,
        wrap_pending: t.wrap_pending,
        ..g
    }
}

/// Two screens that differ at most in what the cells show.
pub open spec fn only_cells_changed(g: GridView, t: GridView) -> bool {
    t == GridView { cells: t.cells, ..g }
}

// ---------------------------------------------------------------------------
// The cursor
// ---------------------------------------------------------------------------

/// `CSI n A` moves the cursor up by `n`, at least by one and at most to the first row,
/// never down, and leaves its column and all cells. `CSI n B` from there leads back
/// where there was room above.
pub proof fn law_cursor_up(g: GridView, n: u16)
    requires
        g.wf(),
    ensures
        ({
            let t = g.perform(csi(seq![n], 'A'));
            let back = t.perform(csi(seq![n], 'B'));
            &&& t.cursor_row <= g.cursor_row
            &&& t.cursor_row == 0 || g.cursor_row - t.cursor_row == times(n)
            &&& g.cursor_row - t.cursor_row <= times(n)
            &&& 0 <= t.cursor_row
            &&& t.cursor_col == g.cursor_col
            &&& !t.wrap_pending
            &&& only_cursor_moved(g, t)
            &&& g.cursor_row >= times(n) ==> back.cursor_row == g.cursor_row
        }),
{
}

/// `CSI n B` moves the cursor down by `n`, at least by one and at most to the last row,
/// and leaves its column and all cells. `CSI n A` from there leads back where there was
/// room below.
pub proof fn law_cursor_down(g: GridView, n: u16)
    requires
        g.wf(),
    ensures
        ({
            let t = g.perform(csi(seq![n], 'B'));
            let back = t.perform(csi(seq![n], 'A'));
            &&& g.cursor_row <= t.cursor_row < g.rows
            &&& t.cursor_row == g.rows - 1 || t.cursor_row - g.cursor_row == times(n)
            &&& t.cursor_row - g.cursor_row <= times(n)
            &&& t.cursor_col == g.cursor_col
            &&& !t.wrap_pending
            &&& only_cursor_moved(g, t)
            &&& g.cursor_row + times(n) < g.rows ==> back.cursor_row == g.cursor_row
        }),
{
}

/// `CSI n C` moves the cursor to the right by `n`, at least by one and at most to the
/// last column, and leaves its row and all cells. `CSI n D` from there leads back where
/// there was room.
pub proof fn law_cursor_right(g: GridView, n: u16)
    requires
        g.wf(),
    ensures
        ({
            let t = g.perform(csi(seq![n], 'C'));
            let back = t.perform(csi(seq![n], 'D'));
            &&& g.cursor_col <= t.cursor_col < g.cols
            &&& t.cursor_col == g.cols - 1 || t.cursor_col - g.cursor_col == times(n)
            &&& t.cursor_col - g.cursor_col <= times(n)
            &&& t.cursor_row == g.cursor_row
            &&& !t.wrap_pending
            &&& only_cursor_moved(g, t)
            &&& g.cursor_col + times(n) < g.cols ==> back.cursor_col == g.cursor_col
        }),
{
}

/// `CSI n D` moves the cursor to the left by `n`, at least by one and at most to the
/// first column, and leaves its row and all cells. `CSI n C` from there leads back
/// where there was room.
pub proof fn law_cursor_left(g: GridView, n: u16)
    requires
        g.wf(),
    ensures
        ({
            let t = g.perform(csi(seq![n], 'D'));
            let back = t.perform(csi(seq![n], 'C'));
            &&& 0 <= t.cursor_col <= g.cursor_col
            &&& t.cursor_col == 0 || g.cursor_col - t.cursor_col == times(n)
            &&& g.cursor_col - t.cursor_col <= times(n)
            &&& t.cursor_row == g.cursor_row
            &&& !t.wrap_pending
            &&& only_cursor_moved(g, t)
            &&& g.cursor_col >= times(n) ==> back.cursor_col == g.cursor_col
        }),
{
}

/// `CSI row;col H`, and `f` alike, takes the cursor to a place of the screen, counted
/// from one; a place beyond the screen stands for the nearest on it. `CSI row d` sets
/// the row alone and `CSI col G` the column alone, so that the two of them are one `H`.
pub proof fn law_cursor_addressed(g: GridView, row: u16, col: u16)
    requires
        g.wf(),
        row >= 1,
        col >= 1,
    ensures
        ({
            let t = g.perform(csi(seq![row, col], 'H'));
            &&& t.cursor_row == if row <= g.rows {
                row - 1
            } else {
                g.rows - 1
            }
            &&& t.cursor_col == if col <= g.cols {
                col - 1
            } else {
                g.cols - 1
            }
            &&& !t.wrap_pending
            &&& only_cursor_moved(g, t)
            &&& g.perform(csi(seq![row, col], 'f')) == t
            &&& g.perform(csi(seq![row], 'd')).perform(csi(seq![col], 'G')) == t
            &&& g.perform(csi(seq![col], 'G')).perform(csi(seq![row], 'd')) == t
            &&& g.perform(csi(seq![row], 'd')).cursor_col == g.cursor_col
            &&& g.perform(csi(seq![col], 'G')).cursor_row == g.cursor_row
        }),
{
    assert(csi(seq![row, col], 'H')->params[1] == seq![col]);
    assert(csi(seq![row, col], 'f')->params[1] == seq![col]);
}

/// A cursor address without numbers, or with zeros, is the top left corner.
pub proof fn law_cursor_home(g: GridView)
    requires
        g.wf(),
    ensures
        ({
            let t = g.perform(csi(Seq::empty(), 'H'));
            &&& t.cursor_row == 0
            &&& t.cursor_col == 0
            &&& only_cursor_moved(g, t)
            &&& g.perform(csi(seq![0u16, 0u16], 'H')) == t
            &&& g.perform(csi(seq![1u16, 1u16], 'H')) == t
        }),
{
    assert(csi(seq![0u16, 0u16], 'H')->params[1] == seq![0u16]);
    assert(csi(seq![1u16, 1u16], 'H')->params[1] == seq![1u16]);
}

/// A movement without a number is one by one.
pub proof fn law_count_defaults_to_one(g: GridView, action: char)
    requires
        g.wf(),
        "ABCDGdHf@PLMST"@.contains(action),
    ensures
        g.perform(csi(Seq::empty(), action)) == g.perform(csi(seq![1u16], action)),
        g.perform(csi(seq![0u16], action)) == g.perform(csi(seq![1u16], action)),
{
    reveal_strlit("ABCDGdHf@PLMST");
}

/// Carriage return goes to the first column and backspace one column to the left as far
/// as there is one; neither changes the row or a cell.
pub proof fn law_return_and_backspace(g: GridView)
    requires
        g.wf(),
    ensures
        ({
            let cr = g.perform(ActionView::Execute(0x0d));
            let bs = g.perform(ActionView::Execute(0x08));
            &&& cr.cursor_col == 0
            &&& cr.cursor_row == g.cursor_row
            &&& !cr.wrap_pending
            &&& only_cursor_moved(g, cr)
            &&& bs == g.perform(csi(seq![1u16], 'D'))
        }),
{
}

/// A tab goes to the next column that is a multiple of eight, or to the last column
/// where there is none; it never goes back and changes neither the row nor a cell.
pub proof fn law_tab_stops(g: GridView, stop: int)
    requires
        g.wf(),
    ensures
        ({
            let t = g.perform(ActionView::Execute(0x09));
            &&& g.cursor_col <= t.cursor_col < g.cols
            &&& g.cursor_col < t.cursor_col || g.cursor_col == g.cols - 1
            &&& t.cursor_col % 8 == 0 || t.cursor_col == g.cols - 1
            &&& g.cursor_col < stop < t.cursor_col ==> stop % 8 != 0
            &&& t.cursor_row == g.cursor_row
            &&& t.wrap_pending == g.wrap_pending
            &&& only_cursor_moved(g, t)
        }),
{
}

/// The cursor saved by `ESC 7` comes back with `ESC 8`, and its pen with it, whatever
/// was done in between that did not save another; where the screen has become smaller
/// it comes back as near as it can be.
pub proof fn law_saved_cursor_comes_back(g: GridView, t: GridView)
    requires
        g.wf(),
        t.wf(),
        t.saved == g.perform(esc(0x37)).saved,
    ensures
        only_cursor_moved(GridView { saved: g.perform(esc(0x37)).saved, ..g }, g.perform(esc(0x37))),
        t.perform(esc(0x38)).pen == g.pen,
        t.perform(esc(0x38)).cells == t.cells,
        only_cursor_moved(GridView { pen: g.pen, ..t }, t.perform(esc(0x38))),
        g.cursor_row < t.rows ==> t.perform(esc(0x38)).cursor_row == g.cursor_row,
        g.cursor_col < t.cols ==> t.perform(esc(0x38)).cursor_col == g.cursor_col,
        g.cursor_row >= t.rows ==> t.perform(esc(0x38)).cursor_row == t.rows - 1,
        g.cursor_col >= t.cols ==> t.perform(esc(0x38)).cursor_col == t.cols - 1,
{
    assert(g.rows * g.cols >= g.rows && g.rows * g.cols >= g.cols) by (nonlinear_arith)
        requires
            g.rows >= 1,
            g.cols >= 1,
    ;
}

// ---------------------------------------------------------------------------
// The cells
// ---------------------------------------------------------------------------

/// A place lies before another in the order of the cells exactly if its row does, or
/// the rows are the same and its column does.
pub proof fn lemma_place_order(r: int, c: int, row: int, col: int, cols: int)
    requires
        0 <= c < cols,
        0 <= col <= cols,
    ensures
        r * cols + c < row * cols + col <==> r < row || (r == row && c < col),
{
    if r < row {
        assert(r * cols + cols <= row * cols) by (nonlinear_arith)
            requires
                r < row,
                cols > 0,
        ;
    } else if r > row {
        assert(row * cols + cols <= r * cols) by (nonlinear_arith)
            requires
                row < r,
                cols > 0,
        ;
    }
}

/// `CSI K` blanks the cursor's line from the cursor on, `CSI 1 K` up to the cursor and
/// with it, `CSI 2 K` all of it; every other cell, and the cursor, stay.
pub proof fn law_erase_in_line(g: GridView, r: int, c: int)
    requires
        g.wf(),
        0 <= r < g.rows,
        0 <= c < g.cols,
    ensures
        ({
            let rest = g.perform(csi(seq![0u16], 'K'));
            let start = g.perform(csi(seq![1u16], 'K'));
            let all = g.perform(csi(seq![2u16], 'K'));
            let blank = crate::cell::blank_cell();
            &&& only_cells_changed(g, rest) && only_cells_changed(g, start) && only_cells_changed(
                g,
                all,
            )
            &&& rest.at(r, c) == if r == g.cursor_row && c >= g.cursor_col {
                blank
            } else {
                g.at(r, c)
            }
            &&& start.at(r, c) == if r == g.cursor_row && c <= g.cursor_col {
                blank
            } else {
                g.at(r, c)
            }
            &&& all.at(r, c) == if r == g.cursor_row {
                blank
            } else {
                g.at(r, c)
            }
            &&& g.perform(csi(Seq::empty(), 'K')) == rest
        }),
{
    crate::grid::lemma_index_bound(r, c, g.rows, g.cols);
    lemma_place_order(r, c, g.cursor_row, 0, g.cols);
    lemma_place_order(r, c, g.cursor_row, g.cursor_col, g.cols);
    lemma_place_order(r, c, g.cursor_row, g.cursor_col + 1, g.cols);
    lemma_place_order(r, c, g.cursor_row, g.cols, g.cols);
}

/// `CSI J` blanks the screen from the cursor on, `CSI 1 J` up to the cursor and with
/// it, `CSI 2 J` all of it; every other cell, and the cursor, stay.
pub proof fn law_erase_in_display(g: GridView, r: int, c: int)
    requires
        g.wf(),
        0 <= r < g.rows,
        0 <= c < g.cols,
    ensures
        ({
            let rest = g.perform(csi(seq![0u16], 'J'));
            let start = g.perform(csi(seq![1u16], 'J'));
            let all = g.perform(csi(seq![2u16], 'J'));
            let blank = crate::cell::blank_cell();
            &&& only_cells_changed(g, rest) && only_cells_changed(g, start) && only_cells_changed(
                g,
                all,
            )
            &&& rest.at(r, c) == if r > g.cursor_row || (r == g.cursor_row && c >= g.cursor_col) {
                blank
            } else {
                g.at(r, c)
            }
            &&& start.at(r, c) == if r < g.cursor_row || (r == g.cursor_row && c <= g.cursor_col) {
                blank
            } else {
                g.at(r, c)
            }
            &&& all.at(r, c) == blank
            &&& g.perform(csi(Seq::empty(), 'J')) == rest
        }),
{
    crate::grid::lemma_index_bound(r, c, g.rows, g.cols);
    lemma_place_order(r, c, g.cursor_row, g.cursor_col, g.cols);
    lemma_place_order(r, c, g.cursor_row, g.cursor_col + 1, g.cols);
}

/// `CSI n @` moves what stands from the cursor on in its line to the right by `n` cells
/// and leaves blanks; what is moved past the last column is lost.
pub proof fn law_insert_blanks(g: GridView, n: u16, r: int, c: int)
    requires
        g.wf(),
        0 <= r < g.rows,
        0 <= c < g.cols,
    ensures
        ({
            let t = g.perform(csi(seq![n], '@'));
            &&& only_cells_changed(g, t)
            &&& t.at(r, c) == if r != g.cursor_row || c < g.cursor_col {
                g.at(r, c)
            } else if c < g.cursor_col + times(n) {
                crate::cell::blank_cell()
            } else {
                g.at(r, c - times(n))
            }
        }),
{
    crate::grid::lemma_index_bound(r, c, g.rows, g.cols);
    lemma_place_order(r, c, g.cursor_row, g.cursor_col, g.cols);
    lemma_place_order(r, c, g.cursor_row, g.cols, g.cols);
}

/// `CSI n P` moves what stands `n` cells behind the cursor, and further on in its line,
/// to the left by `n` cells, over what stood there, and leaves blanks at the end.
pub proof fn law_delete_chars(g: GridView, n: u16, r: int, c: int)
    requires
        g.wf(),
        0 <= r < g.rows,
        0 <= c < g.cols,
    ensures
        ({
            let t = g.perform(csi(seq![n], 'P'));
            &&& only_cells_changed(g, t)
            &&& t.at(r, c) == if r != g.cursor_row || c < g.cursor_col {
                g.at(r, c)
            } else if c + times(n) < g.cols {
                g.at(r, c + times(n))
            } else {
                crate::cell::blank_cell()
            }
        }),
{
    crate::grid::lemma_index_bound(r, c, g.rows, g.cols);
    lemma_place_order(r, c, g.cursor_row, g.cursor_col, g.cols);
    lemma_place_order(r, c, g.cursor_row, g.cols, g.cols);
}

/// Deleting as many characters as were inserted brings the line back but for what was
/// moved past its end.
pub proof fn law_delete_undoes_insert(g: GridView, n: u16, r: int, c: int)
    requires
        g.wf(),
        0 <= r < g.rows,
        0 <= c < g.cols,
    ensures
        ({
            let t = g.perform(csi(seq![n], '@')).perform(csi(seq![n], 'P'));
            &&& only_cells_changed(g, t)
            &&& t.at(r, c) == if r == g.cursor_row && c >= g.cursor_col && c + times(n) >= g.cols {
                crate::cell::blank_cell()
            } else {
                g.at(r, c)
            }
        }),
{
    let i = g.perform(csi(seq![n], '@'));
    law_insert_blanks(g, n, r, c);
    assert(i.wf());
    law_delete_chars(i, n, r, c);
    if c + times(n) < g.cols {
        law_insert_blanks(g, n, r, c + times(n));
    }
}

/// `CSI n L` inserts `n` blank lines at the cursor's and moves those below down, as far
/// as the scroll region goes; with the cursor outside the region nothing happens.
pub proof fn law_insert_lines(g: GridView, n: u16, r: int, c: int)
    requires
        g.wf(),
        0 <= r < g.rows,
        0 <= c < g.cols,
    ensures
        ({
            let t = g.perform(csi(seq![n], 'L'));
            let within = g.scroll_top <= g.cursor_row <= g.scroll_bottom;
            &&& only_cells_changed(g, t)
            &&& t.at(r, c) == if !within || r < g.cursor_row || r > g.scroll_bottom {
                g.at(r, c)
            } else if r < g.cursor_row + times(n) {
                crate::cell::blank_cell()
            } else {
                g.at(r - times(n), c)
            }
        }),
{
    if g.scroll_top <= g.cursor_row <= g.scroll_bottom {
        crate::grid::law_scroll_down_by_rows(g, g.cursor_row, g.scroll_bottom, times(n), r, c);
    }
}

/// `CSI n M` deletes `n` lines from the cursor's on and moves those below up, with
/// blank lines at the end of the scroll region; with the cursor outside the region
/// nothing happens.
pub proof fn law_delete_lines(g: GridView, n: u16, r: int, c: int)
    requires
        g.wf(),
        0 <= r < g.rows,
        0 <= c < g.cols,
    ensures
        ({
            let t = g.perform(csi(seq![n], 'M'));
            let within = g.scroll_top <= g.cursor_row <= g.scroll_bottom;
            &&& only_cells_changed(g, t)
            &&& t.at(r, c) == if !within || r < g.cursor_row || r > g.scroll_bottom {
                g.at(r, c)
            } else if r + times(n) <= g.scroll_bottom {
                g.at(r + times(n), c)
            } else {
                crate::cell::blank_cell()
            }
        }),
{
    if g.scroll_top <= g.cursor_row <= g.scroll_bottom {
        crate::grid::law_scroll_up_by_rows(g, g.cursor_row, g.scroll_bottom, times(n), r, c);
    }
}

/// `CSI n S` moves the lines of the scroll region up by `n`, `CSI n T` down by `n`;
/// neither moves the cursor, and lines outside the region stay.
pub proof fn law_scroll(g: GridView, n: u16, r: int, c: int)
    requires
        g.wf(),
        0 <= r < g.rows,
        0 <= c < g.cols,
    ensures
        ({
            let up = g.perform(csi(seq![n], 'S'));
            let down = g.perform(csi(seq![n], 'T'));
            let blank = crate::cell::blank_cell();
            &&& only_cells_changed(g, up) && only_cells_changed(g, down)
            &&& r < g.scroll_top || r > g.scroll_bottom ==> up.at(r, c) == g.at(r, c) && down.at(
                r,
                c,
            ) == g.at(r, c)
            &&& g.scroll_top <= r <= g.scroll_bottom ==> up.at(r, c) == (if r + times(n)
                <= g.scroll_bottom {
                g.at(r + times(n), c)
            } else {
                blank
            }) && down.at(r, c) == (if r - times(n) >= g.scroll_top {
                g.at(r - times(n), c)
            } else {
                blank
            })
        }),
{
    crate::grid::law_scroll_up_by_rows(g, g.scroll_top, g.scroll_bottom, times(n), r, c);
    crate::grid::law_scroll_down_by_rows(g, g.scroll_top, g.scroll_bottom, times(n), r, c);
}

/// `CSI top;bottom r` sets the scroll region, counted from one, and takes the cursor to
/// the top left corner, if the two name a range of two rows or more of the screen;
/// otherwise nothing happens. It changes no cell.
pub proof fn law_scroll_region(g: GridView, top: u16, bottom: u16)
    requires
        g.wf(),
        top >= 1,
        bottom >= 1,
    ensures
        ({
            let t = g.perform(csi(seq![top, bottom], 'r'));
            &&& t.cells == g.cells
            &&& top < bottom <= g.rows ==> {
                &&& t.scroll_top + 1 == top
                &&& t.scroll_bottom + 1 == bottom
                &&& t.cursor_row == 0
                &&& t.cursor_col == 0
            }
            &&& !(top < bottom <= g.rows) ==> t == g
        }),
{
    assert(csi(seq![top, bottom], 'r')->params[1] == seq![bottom]);
}

/// `CSI r` makes the scroll region the whole screen.
pub proof fn law_scroll_region_reset(g: GridView)
    requires
        g.wf(),
        2 <= g.rows <= u16::MAX,
    ensures
        ({
            let t = g.perform(csi(Seq::empty(), 'r'));
            &&& t.scroll_top == 0
            &&& t.scroll_bottom == g.rows - 1
            &&& t.cells == g.cells
            &&& t.cursor_row == 0
            &&& t.cursor_col == 0
        }),
{
}

/// A line feed, which vertical tab, form feed and `ESC D` are too, goes down one row in
/// the same column. At the bottom of the scroll region the cursor stays, and the lines
/// of the region move up by one.
pub proof fn law_line_feed(g: GridView, r: int, c: int)
    requires
        g.wf(),
        0 <= r < g.rows,
        0 <= c < g.cols,
    ensures
        ({
            let t = g.perform(ActionView::Execute(0x0a));
            &&& t.cursor_col == g.cursor_col
            &&& t == g.perform(ActionView::Execute(0x0b))
            &&& t == g.perform(ActionView::Execute(0x0c))
            &&& t == g.perform(esc(0x44))
            &&& t.wrap_pending == g.wrap_pending
            &&& g.cursor_row != g.scroll_bottom ==> {
                &&& only_cursor_moved(g, t)
                &&& t.cursor_row == if g.cursor_row + 1 < g.rows {
                    g.cursor_row + 1
                } else {
                    g.cursor_row
                }
            }
            &&& g.cursor_row == g.scroll_bottom ==> {
                &&& only_cells_changed(g, t)
                &&& t.at(r, c) == if r < g.scroll_top || r > g.scroll_bottom {
                    g.at(r, c)
                } else if r < g.scroll_bottom {
                    g.at(r + 1, c)
                } else {
                    crate::cell::blank_cell()
                }
            }
        }),
{
    crate::grid::law_scroll_up_by_rows(g, g.scroll_top, g.scroll_bottom, 1, r, c);
}

/// `ESC M` goes up one row in the same column. At the top of the scroll region the
/// cursor stays, and the lines of the region move down by one. Away from the ends of
/// the region it takes back a line feed.
pub proof fn law_reverse_index(g: GridView, r: int, c: int)
    requires
        g.wf(),
        0 <= r < g.rows,
        0 <= c < g.cols,
    ensures
        ({
            let t = g.perform(esc(0x4d));
            &&& t.cursor_col == g.cursor_col
            &&& g.cursor_row != g.scroll_top ==> {
                &&& only_cursor_moved(g, t)
                &&& t.cursor_row == if g.cursor_row > 0 {
                    g.cursor_row - 1
                } else {
                    0
                }
            }
            &&& g.cursor_row == g.scroll_top ==> {
                &&& only_cells_changed(g, t)
                &&& t.at(r, c) == if r < g.scroll_top || r > g.scroll_bottom {
                    g.at(r, c)
                } else if r > g.scroll_top {
                    g.at(r - 1, c)
                } else {
                    crate::cell::blank_cell()
                }
            }
            &&& g.scroll_top <= g.cursor_row < g.scroll_bottom ==> g.perform(
                ActionView::Execute(0x0a),
            ).perform(esc(0x4d)) == g
        }),
{
    crate::grid::law_scroll_down_by_rows(g, g.scroll_top, g.scroll_bottom, 1, r, c);
}

/// `ESC E` is a line feed that starts in the first column.
pub proof fn law_next_line(g: GridView)
    requires
        g.wf(),
    ensures
        ({
            let t = g.perform(esc(0x45));
            let fed = g.perform(ActionView::Execute(0x0a));
            &&& t.cursor_col == 0
            &&& t.cursor_row == fed.cursor_row
            &&& t.cells == fed.cells
        }),
{
}

/// `ESC c` blanks the screen, takes the cursor to its corner, shows it and forgets pen,
/// scroll region and saved state; only the size stays.
pub proof fn law_reset(g: GridView, r: int, c: int)
    requires
        g.wf(),
        0 <= r < g.rows,
        0 <= c < g.cols,
    ensures
        ({
            let t = g.perform(esc(0x63));
            &&& t.rows == g.rows
            &&& t.cols == g.cols
            &&& t.at(r, c) == crate::cell::blank_cell()
            &&& t.cursor_row == 0
            &&& t.cursor_col == 0
            &&& t.cursor_visible
            &&& t.autowrap
            &&& !t.wrap_pending
            &&& t.pen == crate::cell::blank_cell()
            &&& t.scroll_top == 0
            &&& t.scroll_bottom == g.rows - 1
            &&& t.saved is None
            &&& !t.alt_screen
        }),
{
    crate::grid::lemma_index_bound(r, c, g.rows, g.cols);
}

/// `CSI ?25 l` hides the cursor and `h` shows it, `CSI ?7 l` stops the wrapping of
/// lines and `h` allows it; each leaves all else. Without the question mark neither
/// means anything.
pub proof fn law_modes(g: GridView, number: u16)
    ensures
        g.perform(mode(25, 'l')) == (GridView { cursor_visible: false, ..g }),
        g.perform(mode(25, 'h')) == (GridView { cursor_visible: true, ..g }),
        g.perform(mode(7, 'l')) == (GridView { autowrap: false, ..g }),
        g.perform(mode(7, 'h')) == (GridView { autowrap: true, ..g }),
        g.perform(csi(seq![number], 'h')) == g,
        g.perform(csi(seq![number], 'l')) == g,
{
}

/// Switching to the alternate screen shows a blank one with the cursor in its corner.
/// Whatever is drawn there, switching back shows the cells of the main screen as they
/// were. Three mode numbers do the same, and switching to where one is does nothing.
pub proof fn law_alternate_screen(g: GridView, number: u16, drawn: Seq<Cell>, r: int, c: int)
    requires
        g.wf(),
        number == 1049 || number == 47 || number == 1047,
        0 <= r < g.rows,
        0 <= c < g.cols,
    ensures
        ({
            let alt = g.perform(mode(number, 'h'));
            let back = (GridView { cells: drawn, ..alt }).perform(mode(number, 'l'));
            &&& alt.alt_screen
            &&& !back.alt_screen
            &&& alt.perform(mode(number, 'h')) == alt
            &&& !g.alt_screen ==> {
                &&& alt.at(r, c) == crate::cell::blank_cell()
                &&& alt.cursor_row == 0
                &&& alt.cursor_col == 0
                &&& back.at(r, c) == g.at(r, c)
                &&& back.cursor_row == alt.cursor_row
                &&& back.cursor_col == alt.cursor_col
                &&& back.alt_saved is None
                &&& g.perform(mode(number, 'l')) == g
            }
        }),
{
    crate::grid::lemma_index_bound(r, c, g.rows, g.cols);
}

/// A character of one cell replaces the cell at the cursor, drawn with the pen, and the
/// cursor moves on by one. In the last column it stays, and the next character is to
/// begin a new line. No other cell changes, unless a new line was due: then it is begun
/// first, by a carriage return and a line feed.
pub proof fn law_print(g: GridView, ch: char, r: int, c: int)
    requires
        g.wf(),
        crate::cell::cells_for(ch) == 1,
        0 <= r < g.rows,
        0 <= c < g.cols,
    ensures
        ({
            let due = g.wrap_pending && g.autowrap;
            let from = g.perform(ActionView::Execute(0x0d)).perform(ActionView::Execute(0x0a));
            let t = g.perform(ActionView::Print(ch));
            &&& due ==> t == from.perform(ActionView::Print(ch)) && !from.wrap_pending
            &&& !due ==> {
                &&& t.at(r, c) == if r == g.cursor_row && c == g.cursor_col {
                    Cell { ch, fg: g.pen.fg, bg: g.pen.bg, flags: g.pen.flags }
                } else {
                    g.at(r, c)
                }
                &&& t.cursor_row == g.cursor_row
                &&& t.pen == g.pen
                &&& g.cursor_col + 1 < g.cols ==> t.cursor_col == g.cursor_col + 1 && t.wrap_pending
                    == g.wrap_pending
                &&& g.cursor_col + 1 == g.cols ==> t.cursor_col == g.cursor_col && t.wrap_pending
                    == (g.autowrap || g.wrap_pending)
            }
        }),
{
    crate::grid::lemma_index_bound(r, c, g.rows, g.cols);
    crate::grid::lemma_index_bound(g.cursor_row, g.cursor_col, g.rows, g.cols);
    lemma_fundamental_div_mod_converse(r * g.cols + c, g.cols, r, c);
    lemma_fundamental_div_mod_converse(
        g.cursor_row * g.cols + g.cursor_col,
        g.cols,
        g.cursor_row,
        g.cursor_col,
    );
}

// ---------------------------------------------------------------------------
// The pen
// ---------------------------------------------------------------------------

/// The attribute that a rendition code stands for.
pub open spec fn attribute_of(code: u16) -> u8 {
    match code {
        1 => flags::BOLD,
        2 => flags::DIM,
        3 => flags::ITALIC,
        4 => flags::UNDERLINE,
        7 => flags::REVERSE,
        8 => flags::HIDDEN,
        _ => flags::STRIKE,
    }
}

/// `CSI n m` with the number of an attribute sets it and no other; with twenty more,
/// the attribute is cleared again and the others stay, but that bold and dim are
/// cleared together. The cells, the colors and the cursor stay.
pub proof fn law_attributes(g: GridView, code: u16, other: u8)
    requires
        code == 1 || code == 2 || code == 3 || code == 4 || code == 7 || code == 8 || code == 9,
        other & attribute_of(code) == 0,
        code <= 2 ==> other & (flags::BOLD | flags::DIM) == 0,
    ensures
        ({
            let on = g.perform(csi(seq![code], 'm'));
            let off = g.perform(
                csi(
                    seq![
                        if code == 1 {
                            22u16
                        } else {
                            (code + 20) as u16
                        },
                    ],
                    'm',
                ),
            );
            &&& on == (GridView { pen: Cell { flags: on.pen.flags, ..g.pen }, ..g })
            &&& off == (GridView { pen: Cell { flags: off.pen.flags, ..g.pen }, ..g })
            &&& on.pen.flags & attribute_of(code) == attribute_of(code)
            &&& off.pen.flags & attribute_of(code) == 0
            &&& on.pen.flags & other == g.pen.flags & other
            &&& off.pen.flags & other == g.pen.flags & other
        }),
{
    let f = g.pen.flags;
    let a = attribute_of(code);
    reveal_with_fuel(crate::grid::sgr_from, 2);
    assert((f | a) & a == a && (f & !a) & a == 0 && (other & a == 0 ==> (f | a) & other == f
        & other && (f & !a) & other == f & other)) by (bit_vector);
    assert((f & !(0x01u8 | 0x10u8)) & 0x01 == 0 && (f & !(0x01u8 | 0x10u8)) & 0x10 == 0 && (other
        & (0x01u8 | 0x10u8) == 0 ==> (f & !(0x01u8 | 0x10u8)) & other == f & other)) by (bit_vector);
}

/// The eight colors of `CSI 30 m` to `CSI 37 m` are the first of the palette, those of
/// `CSI 90 m` to `CSI 97 m` the next eight; `CSI 38;5;n m` names any of the palette and
/// `CSI 38;2;r;g;b m` any color by its parts, `CSI 39 m` the default. With ten more they
/// are the background's. Nothing but the color named changes.
pub proof fn law_colors(g: GridView, k: u16, red: u8, green: u8, blue: u8)
    requires
        k < 8,
    ensures
        ({
            let fg = |color: Color| GridView { pen: Cell { fg: color, ..g.pen }, ..g };
            let bg = |color: Color| GridView { pen: Cell { bg: color, ..g.pen }, ..g };
            &&& g.perform(csi(seq![(30 + k) as u16], 'm')) == fg(Color::Indexed(k as u8))
            &&& g.perform(csi(seq![(40 + k) as u16], 'm')) == bg(Color::Indexed(k as u8))
            &&& g.perform(csi(seq![(90 + k) as u16], 'm')) == fg(Color::Indexed((8 + k) as u8))
            &&& g.perform(csi(seq![(100 + k) as u16], 'm')) == bg(Color::Indexed((8 + k) as u8))
            &&& g.perform(csi(seq![39u16], 'm')) == fg(Color::Default)
            &&& g.perform(csi(seq![49u16], 'm')) == bg(Color::Default)
            &&& g.perform(csi(seq![38u16, 5u16, red as u16], 'm')) == fg(Color::Indexed(red))
            &&& g.perform(csi(seq![48u16, 5u16, red as u16], 'm')) == bg(Color::Indexed(red))
            &&& g.perform(csi(seq![38u16, 2u16, red as u16, green as u16, blue as u16], 'm')) == fg(
                Color::Rgb(red, green, blue),
            )
            &&& g.perform(csi(seq![48u16, 2u16, red as u16, green as u16, blue as u16], 'm')) == bg(
                Color::Rgb(red, green, blue),
            )
        }),
{
    reveal_with_fuel(crate::grid::sgr_from, 2);
    let five = csi(seq![38u16, 5u16, red as u16], 'm')->params;
    let six = csi(seq![48u16, 5u16, red as u16], 'm')->params;
    let rgb = csi(seq![38u16, 2u16, red as u16, green as u16, blue as u16], 'm')->params;
    let bgb = csi(seq![48u16, 2u16, red as u16, green as u16, blue as u16], 'm')->params;
    assert(five[0] == seq![38u16] && five[1] == seq![5u16] && five[2] == seq![red as u16]);
    assert(six[0] == seq![48u16] && six[1] == seq![5u16] && six[2] == seq![red as u16]);
    assert(rgb[1] == seq![2u16] && rgb[2] == seq![red as u16] && rgb[3] == seq![green as u16]
        && rgb[4] == seq![blue as u16]);
    assert(bgb[1] == seq![2u16] && bgb[2] == seq![red as u16] && bgb[3] == seq![green as u16]
        && bgb[4] == seq![blue as u16]);
}

/// `CSI 0 m`, and `CSI m` alike, brings back the default pen. Several codes in one
/// sequence do what each does in a sequence of its own, in their order.
pub proof fn law_rendition_in_order(g: GridView, a: u16, b: u16)
    requires
        a != 38,
        a != 48,
    ensures
        g.perform(csi(seq![0u16], 'm')) == (GridView { pen: crate::cell::blank_cell(), ..g }),
        g.perform(csi(Seq::empty(), 'm')) == g.perform(csi(seq![0u16], 'm')),
        b != 38 && b != 48 ==> g.perform(csi(seq![a, b], 'm')) == g.perform(
            csi(seq![a], 'm'),
        ).perform(csi(seq![b], 'm')),
{
    reveal_with_fuel(crate::grid::sgr_from, 3);
    assert(csi(seq![a, b], 'm')->params[0] == seq![a]);
    assert(csi(seq![a, b], 'm')->params[1] == seq![b]);
}

/// A color in one parameter, its parts after colons, is the color of those parts; a color
/// space before them makes no difference.
pub proof fn law_color_parts(red: u8, green: u8, blue: u8, space: u16)
    ensures
        crate::grid::ext_color(seq![5u16, red as u16]) == Some(Color::Indexed(red)),
        crate::grid::ext_color(seq![2u16, red as u16, green as u16, blue as u16]) == Some(
            Color::Rgb(red, green, blue),
        ),
        crate::grid::ext_color(seq![2u16, space, red as u16, green as u16, blue as u16]) == Some(
            Color::Rgb(red, green, blue),
        ),
{
}

/// Where a line has no room for a character of two cells, it goes to the next line if
/// lines wrap, and else to the last two cells. Then the cursor moves on by two, or stays
/// in the last column with a new line due.
pub proof fn law_wide_character_placed(g: GridView, c: char)
    requires
        g.wf(),
        g.cols >= 2,
        !(g.wrap_pending && g.autowrap),
    ensures
        ({
            let t = g.put(c, 2);
            let fed = g.perform(ActionView::Execute(0x0d)).perform(ActionView::Execute(0x0a));
            &&& g.cursor_col + 2 < g.cols ==> t.cursor_row == g.cursor_row && t.cursor_col
                == g.cursor_col + 2
            &&& g.cursor_col + 2 == g.cols ==> t.cursor_row == g.cursor_row && t.cursor_col
                == g.cols - 1 && (g.autowrap ==> t.wrap_pending)
            &&& g.cursor_col + 1 == g.cols && g.autowrap ==> t == fed.put(c, 2) && fed.cursor_col
                == 0
            &&& g.cursor_col + 1 == g.cols && !g.autowrap ==> t.cursor_row == g.cursor_row && t.at(
                g.cursor_row,
                g.cols - 2,
            ).ch == c
        }),
{
    crate::grid::lemma_index_bound(g.cursor_row, g.cols - 2, g.rows, g.cols);
    crate::grid::lemma_index_bound(g.cursor_row, g.cols - 1, g.rows, g.cols);
}

/// A resize keeps the cursor as near to its place as the new size allows, makes the
/// scroll region the whole screen, and leaves pen and modes; what the main screen held
/// while another is shown is kept like what is shown.
pub proof fn law_resize(g: GridView, rows: int, cols: int, r: int, c: int)
    requires
        g.wf(),
        0 <= r < rows,
        0 <= c < cols,
    ensures
        ({
            let t = g.resized(rows, cols);
            &&& t.cursor_row == if g.cursor_row < rows {
                g.cursor_row
            } else {
                rows - 1
            }
            &&& t.cursor_col == if g.cursor_col < cols {
                g.cursor_col
            } else {
                cols - 1
            }
            &&& t.scroll_top == 0
            &&& t.scroll_bottom == rows - 1
            &&& !t.wrap_pending
            &&& t.pen == g.pen
            &&& t.autowrap == g.autowrap
            &&& t.cursor_visible == g.cursor_visible
            &&& t.saved == g.saved
            &&& t.alt_screen == g.alt_screen
            &&& t.at(r, c) == if r < g.rows && c < g.cols {
                g.at(r, c)
            } else {
                crate::cell::blank_cell()
            }
            &&& g.alt_saved matches Some(main) ==> (t.alt_saved matches Some(kept)
                && kept[r * cols + c] == if r < g.rows && c < g.cols {
                main[r * g.cols + c]
            } else {
                crate::cell::blank_cell()
            })
        }),
{
    crate::grid::law_resize_keeps_overlap(g, rows, cols, r, c);
    crate::grid::lemma_index_bound(r, c, rows, cols);
    lemma_fundamental_div_mod_converse(r * cols + c, cols, r, c);
}

/// Sequences that mean nothing here leave the screen as it was.
pub proof fn law_unknown_is_ignored(g: GridView, n: u16, byte: u8, ch: char)
    ensures
        byte < 0x08 || 0x0d < byte ==> g.perform(ActionView::Execute(byte)) == g,
        byte != 0x44 && byte != 0x4d && byte != 0x45 && byte != 0x37 && byte != 0x38 && byte != 0x63
            ==> g.perform(esc(byte)) == g,
        !"ABCDGdHfJK@PLMSTrmhl"@.contains(ch) ==> g.perform(csi(seq![n], ch)) == g,
        n != 7 && n != 25 && n != 47 && n != 1047 && n != 1049 ==> g.perform(mode(n, 'h')) == g
            && g.perform(mode(n, 'l')) == g,
{
    reveal_strlit("ABCDGdHfJK@PLMSTrmhl");
    let s = "ABCDGdHfJK@PLMSTrmhl"@;
    assert(s[0] == 'A' && s[1] == 'B' && s[2] == 'C' && s[3] == 'D' && s[4] == 'G' && s[5] == 'd'
        && s[6] == 'H' && s[7] == 'f' && s[8] == 'J' && s[9] == 'K' && s[10] == '@' && s[11] == 'P'
        && s[12] == 'L' && s[13] == 'M' && s[14] == 'S' && s[15] == 'T' && s[16] == 'r' && s[17]
        == 'm' && s[18] == 'h' && s[19] == 'l');
}

} // verus!
