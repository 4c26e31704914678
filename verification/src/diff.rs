//! Latest-wins screen-state diff encoder/decoder.
//!
//! The server emits diffs of the render-relevant screen state (cells, cursor,
//! visibility). A diff is either a full snapshot (when dimensions change or no
//! base is known) or a delta listing only changed cells. The client applies
//! them to its render grid: applying the diff from `a` to `b` to a screen that
//! renders as `a` gives one that renders as `b`.

use crate::cell::{Cell, Color};
use crate::grid::{Grid, GridView, RenderView};
use crate::wire::{get_varint, put_varint, WireError};
use vstd::prelude::*;

verus! {

/// `char::from_u32`: the character with that code, if there is one.
pub assume_specification[ char::from_u32 ](i: u32) -> (r: Option<char>)
    ensures
        r == if vstd::utf8::is_scalar(i) {
            Some(i as char)
        } else {
            None::<char>
        },
;

/// Why a diff could not be applied.
#[derive(Debug, PartialEq, Eq, Structural, Clone, Copy)]
pub enum DiffError {
    /// A malformed number.
    Wire(WireError),
    /// The diff ended inside a field.
    Eof,
    /// An unassigned diff or color tag.
    BadTag(u8),
    /// The dimensions are not those of the base grid, or none that a grid can
    /// have.
    DimMismatch,
}

pub const TAG_FULL: u8 = 0;

pub const TAG_DELTA: u8 = 1;

// ---------------------------------------------------------------------------
// Format
// ---------------------------------------------------------------------------

/// The bytes of a color.
pub open spec fn color_bytes(c: Color) -> Seq<u8> {
    match c {
        Color::Default => seq![0u8],
        Color::Indexed(n) => seq![1u8, n],
        Color::Rgb(r, g, b) => seq![2u8, r, g, b],
    }
}

/// The bytes of a cell.
pub open spec fn cell_bytes(cell: Cell) -> Seq<u8> {
    crate::wire::varint((cell.ch as u32) as nat) + color_bytes(cell.fg) + color_bytes(cell.bg) + seq![
        cell.flags,
    ]
}

/// The bytes that describe dimensions and cursor.
pub open spec fn header_bytes(g: RenderView) -> Seq<u8> {
    crate::wire::varint(g.rows as nat) + crate::wire::varint(g.cols as nat) + crate::wire::varint(
        g.cursor_row as nat,
    ) + crate::wire::varint(g.cursor_col as nat) + seq![
        if g.cursor_visible {
            1u8
        } else {
            0u8
        },
    ]
}

/// The bytes of the first `n` cells.
pub open spec fn cells_bytes(cells: Seq<Cell>, n: int) -> Seq<u8>
    decreases n,
{
    if n <= 0 {
        Seq::empty()
    } else {
        cells_bytes(cells, n - 1) + cell_bytes(cells[n - 1])
    }
}

/// Which of the first `n` cells differ.
pub open spec fn changed(base: Seq<Cell>, target: Seq<Cell>, n: int) -> Seq<int>
    decreases n,
{
    if n <= 0 {
        Seq::empty()
    } else if base[n - 1] != target[n - 1] {
        changed(base, target, n - 1).push(n - 1)
    } else {
        changed(base, target, n - 1)
    }
}

/// The bytes of the first `n` of the cells listed in `at`, each with its index.
pub open spec fn patches_bytes(target: Seq<Cell>, at: Seq<int>, n: int) -> Seq<u8>
    decreases n,
{
    if n <= 0 {
        Seq::empty()
    } else {
        patches_bytes(target, at, n - 1) + crate::wire::varint(at[n - 1] as nat) + cell_bytes(
            target[at[n - 1]],
        )
    }
}

/// A full snapshot.
pub open spec fn full_bytes(target: RenderView) -> Seq<u8> {
    seq![TAG_FULL] + header_bytes(target) + cells_bytes(target.cells, target.cells.len() as int)
}

/// A delta that lists the cells that changed.
pub open spec fn delta_bytes(base: RenderView, target: RenderView) -> Seq<u8> {
    let at = changed(base.cells, target.cells, target.cells.len() as int);
    seq![TAG_DELTA] + header_bytes(target) + crate::wire::varint(at.len()) + patches_bytes(
        target.cells,
        at,
        at.len() as int,
    )
}

/// The diff from `base` (if any) to `target`: a delta if the dimensions are the
/// same, else a full snapshot.
pub open spec fn diff_bytes(base: Option<RenderView>, target: RenderView) -> Seq<u8> {
    match base {
        Some(b) if b.rows == target.rows && b.cols == target.cols => delta_bytes(b, target),
        _ => full_bytes(target),
    }
}

// ---------------------------------------------------------------------------
// Encoding
// ---------------------------------------------------------------------------

fn put_color(out: &mut Vec<u8>, c: Color)
    ensures
        final(out)@ == old(out)@ + color_bytes(c),
{
    let ghost before = out@;
    match c {
        Color::Default => out.push(0),
        Color::Indexed(n) => {
            out.push(1);
            out.push(n);
        },
        Color::Rgb(r, g, b) => {
            out.push(2);
            out.push(r);
            out.push(g);
            out.push(b);
        },
    }
    assert(out@ =~= before + color_bytes(c));
}

fn put_cell(out: &mut Vec<u8>, cell: &Cell)
    ensures
        final(out)@ == old(out)@ + cell_bytes(*cell),
{
    let ghost before = out@;
    put_varint(out, cell.ch as u32 as u64);
    put_color(out, cell.fg);
    put_color(out, cell.bg);
    out.push(cell.flags);
    assert(out@ =~= before + cell_bytes(*cell));
}

fn put_header(out: &mut Vec<u8>, g: &Grid)
    ensures
        final(out)@ == old(out)@ + header_bytes(g@.render()),
{
    let ghost before = out@;
    put_varint(out, g.rows as u64);
    put_varint(out, g.cols as u64);
    put_varint(out, g.cursor_row as u64);
    put_varint(out, g.cursor_col as u64);
    out.push(if g.cursor_visible { 1 } else { 0 });
    assert(out@ =~= before + header_bytes(g@.render()));
}

fn changed_cells(base: &Grid, target: &Grid) -> (r: Vec<usize>)
    requires
        base.cells@.len() == target.cells@.len(),
    ensures
        Seq::new(r@.len(), |i: int| r@[i] as int) == changed(
            base.cells@,
            target.cells@,
            target.cells@.len() as int,
        ),
        forall|i: int| 0 <= i < r@.len() ==> (#[trigger] r@[i]) < target.cells@.len(),
{
    let mut out: Vec<usize> = Vec::new();
    let mut i: usize = 0;
    assert(Seq::new(out@.len(), |i: int| out@[i] as int) =~= Seq::<int>::empty());
    while i < target.cells.len()
        invariant
            i <= target.cells@.len(),
            base.cells@.len() == target.cells@.len(),
            Seq::new(out@.len(), |k: int| out@[k] as int) == changed(
                base.cells@,
                target.cells@,
                i as int,
            ),
            forall|k: int| 0 <= k < out@.len() ==> (#[trigger] out@[k]) < target.cells@.len(),
        decreases target.cells@.len() - i,
    {
        if target.cells[i] != base.cells[i] {
            let ghost before = Seq::new(out@.len(), |k: int| out@[k] as int);
            out.push(i);
            assert(Seq::new(out@.len(), |k: int| out@[k] as int) =~= before.push(i as int));
        }
        i += 1;
    }
    out
}

/// Encode a diff from `base` (if any) to `target`.
pub fn encode_diff(base: Option<&Grid>, target: &Grid) -> (out: Vec<u8>)
    requires
        target.wf(),
        base matches Some(b) ==> b.wf(),
    ensures
        out@ == diff_bytes(
            match base {
                Some(b) => Some(b@.render()),
                None => None,
            },
            target@.render(),
        ),
{
    let mut out: Vec<u8> = Vec::new();
    match base {
        Some(base) if base.rows == target.rows && base.cols == target.cols => {
            out.push(TAG_DELTA);
            put_header(&mut out, target);
            let changes: Vec<usize> = changed_cells(base, target);
            let ghost at = Seq::new(changes@.len(), |i: int| changes@[i] as int);
            put_varint(&mut out, changes.len() as u64);
            let ghost head = out@;
            let mut k: usize = 0;
            assert(out@ =~= head + patches_bytes(target.cells@, at, 0));
            while k < changes.len()
                invariant
                    k <= changes@.len(),
                    at == Seq::new(changes@.len(), |i: int| changes@[i] as int),
                    forall|i: int|
                        0 <= i < changes@.len() ==> (#[trigger] changes@[i]) < target.cells@.len(),
                    out@ == head + patches_bytes(target.cells@, at, k as int),
                decreases changes@.len() - k,
            {
                let i: usize = changes[k];
                put_varint(&mut out, i as u64);
                put_cell(&mut out, &target.cells[i]);
                k += 1;
                assert(out@ =~= head + patches_bytes(target.cells@, at, k as int));
            }
            assert(out@ =~= delta_bytes(base@.render(), target@.render()));
            out
        },
        _ => {
            out.push(TAG_FULL);
            put_header(&mut out, target);
            let ghost head = out@;
            let mut i: usize = 0;
            assert(out@ =~= head + cells_bytes(target.cells@, 0));
            while i < target.cells.len()
                invariant
                    i <= target.cells@.len(),
                    out@ == head + cells_bytes(target.cells@, i as int),
                decreases target.cells@.len() - i,
            {
                put_cell(&mut out, &target.cells[i]);
                i += 1;
                assert(out@ =~= head + cells_bytes(target.cells@, i as int));
            }
            assert(out@ =~= full_bytes(target@.render()));
            out
        },
    }
}

/// Whether an encoded diff is a full snapshot (applicable regardless of base).
pub fn is_full(bytes: &[u8]) -> (r: bool)
    ensures
        r == (bytes@.len() > 0 && bytes@[0] == TAG_FULL),
{
    bytes.len() > 0 && bytes[0] == TAG_FULL
}

// ---------------------------------------------------------------------------
// Decoding
// ---------------------------------------------------------------------------

/// Reading a field at a position: its value and the position behind it.
pub type Read<T> = Result<(T, int), DiffError>;

/// Reading one byte.
pub open spec fn byte_at(buf: Seq<u8>, pos: int) -> Read<u8> {
    if 0 <= pos < buf.len() {
        Ok((buf[pos], pos + 1))
    } else {
        Err(DiffError::Eof)
    }
}

/// Reading a number.
pub open spec fn number_at(buf: Seq<u8>, pos: int) -> Read<nat> {
    match crate::wire::number_at(buf, pos) {
        Ok(r) => Ok(r),
        Err(e) => Err(DiffError::Wire(e)),
    }
}

/// Reading a color.
pub open spec fn color_at(buf: Seq<u8>, pos: int) -> Read<Color> {
    match byte_at(buf, pos) {
        Err(e) => Err(e),
        Ok((tag, p)) => if tag == 0 {
            Ok((Color::Default, p))
        } else if tag == 1 {
            match byte_at(buf, p) {
                Err(e) => Err(e),
                Ok((n, p)) => Ok((Color::Indexed(n), p)),
            }
        } else if tag == 2 {
            if p + 3 <= buf.len() {
                Ok((Color::Rgb(buf[p], buf[p + 1], buf[p + 2]), p + 3))
            } else {
                Err(DiffError::Eof)
            }
        } else {
            Err(DiffError::BadTag(tag))
        },
    }
}

/// The character with the code `n`, taken modulo 2^32, or the replacement
/// character.
pub open spec fn char_of(n: nat) -> char {
    let code = (n % 0x1_0000_0000) as u32;
    if vstd::utf8::is_scalar(code) {
        code as char
    } else {
        '\u{fffd}'
    }
}

/// Reading a cell.
pub open spec fn cell_at(buf: Seq<u8>, pos: int) -> Read<Cell> {
    match number_at(buf, pos) {
        Err(e) => Err(e),
        Ok((ch, p)) => match color_at(buf, p) {
            Err(e) => Err(e),
            Ok((fg, p)) => match color_at(buf, p) {
                Err(e) => Err(e),
                Ok((bg, p)) => match byte_at(buf, p) {
                    Err(e) => Err(e),
                    Ok((flags, p)) => Ok((Cell { ch: char_of(ch), fg, bg, flags }, p)),
                },
            },
        },
    }
}

/// What stands in front of the cells of a diff.
pub struct Header {
    pub tag: u8,
    pub rows: nat,
    pub cols: nat,
    pub cursor_row: nat,
    pub cursor_col: nat,
    pub visible: bool,
}

/// Reading the head of a diff.
pub open spec fn header_at(buf: Seq<u8>) -> Read<Header> {
    match byte_at(buf, 0) {
        Err(e) => Err(e),
        Ok((tag, p)) => match number_at(buf, p) {
            Err(e) => Err(e),
            Ok((rows, p)) => match number_at(buf, p) {
                Err(e) => Err(e),
                Ok((cols, p)) => match number_at(buf, p) {
                    Err(e) => Err(e),
                    Ok((cursor_row, p)) => match number_at(buf, p) {
                        Err(e) => Err(e),
                        Ok((cursor_col, p)) => match byte_at(buf, p) {
                            Err(e) => Err(e),
                            Ok((visible, p)) => Ok(
                                (
                                    Header {
                                        tag,
                                        rows,
                                        cols,
                                        cursor_row,
                                        cursor_col,
                                        visible: visible != 0,
                                    },
                                    p,
                                ),
                            ),
                        },
                    },
                },
            },
        },
    }
}

/// Filling the cells from number `i` on with those read from `pos`: the cells
/// after that, and whether all could be read.
pub open spec fn filled(buf: Seq<u8>, pos: int, cells: Seq<Cell>, i: nat) -> (
    Result<(), DiffError>,
    Seq<Cell>,
)
    decreases cells.len() - i,
{
    if i >= cells.len() {
        (Ok(()), cells)
    } else {
        match cell_at(buf, pos) {
            Err(e) => (Err(e), cells),
            Ok((cell, p)) => filled(buf, p, cells.update(i as int, cell), i + 1),
        }
    }
}

/// Applying `count` patches read from `pos`: the cells after that, and whether
/// all could be read. A patch beyond the cells has no effect.
pub open spec fn patched(buf: Seq<u8>, pos: int, cells: Seq<Cell>, count: nat) -> (
    Result<(), DiffError>,
    Seq<Cell>,
)
    decreases count,
{
    if count == 0 {
        (Ok(()), cells)
    } else {
        match number_at(buf, pos) {
            Err(e) => (Err(e), cells),
            Ok((i, p)) => match cell_at(buf, p) {
                Err(e) => (Err(e), cells),
                Ok((cell, p)) => patched(
                    buf,
                    p,
                    if i < cells.len() {
                        cells.update(i as int, cell)
                    } else {
                        cells
                    },
                    (count - 1) as nat,
                ),
            },
        }
    }
}

/// The screen with cells and cursor set.
pub open spec fn settled(g: GridView, cells: Seq<Cell>, h: Header) -> GridView {
    GridView {
        cells,
        cursor_row: crate::grid::min(h.cursor_row as int, g.rows - 1),
        cursor_col: crate::grid::min(h.cursor_col as int, g.cols - 1),
        cursor_visible: h.visible,
        ..g
    }
}

/// The screen whose cells a full snapshot replaces: the given one if it has the
/// snapshot's dimensions, else a blank one.
pub open spec fn refilled(g: GridView, h: Header) -> GridView {
    if g.rows == h.rows && g.cols == h.cols {
        g
    } else {
        GridView::fresh(h.rows as int, h.cols as int)
    }
}

/// Applying a diff: what comes of it and the screen after that. Where the cells
/// are cut short, those read before stay applied.
pub open spec fn applied(g: GridView, buf: Seq<u8>) -> (Result<(), DiffError>, GridView) {
    match header_at(buf) {
        Err(e) => (Err(e), g),
        Ok((h, p)) => if h.tag == TAG_FULL {
            if h.rows == 0 || h.cols == 0 || h.rows * h.cols > usize::MAX {
                (Err(DiffError::DimMismatch), g)
            } else {
                let g = refilled(g, h);
                match filled(buf, p, g.cells, 0) {
                    (Ok(()), cells) => (Ok(()), settled(g, cells, h)),
                    (Err(e), cells) => (Err(e), GridView { cells, ..g }),
                }
            }
        } else if h.tag == TAG_DELTA {
            if g.rows != h.rows || g.cols != h.cols {
                (Err(DiffError::DimMismatch), g)
            } else {
                match number_at(buf, p) {
                    Err(e) => (Err(e), g),
                    Ok((count, p)) => match patched(buf, p, g.cells, count) {
                        (Ok(()), cells) => (Ok(()), settled(g, cells, h)),
                        (Err(e), cells) => (Err(e), GridView { cells, ..g }),
                    },
                }
            }
        } else {
            (Err(DiffError::BadTag(h.tag)), g)
        },
    }
}

fn get_u8(buf: &[u8], pos: &mut usize) -> (r: Result<u8, DiffError>)
    ensures
        match byte_at(buf@, *old(pos) as int) {
            Ok((b, end)) => r == Ok::<u8, DiffError>(b) && *final(pos) == end,
            Err(e) => r == Err::<u8, DiffError>(e),
        },
{
    if *pos >= buf.len() {
        return Err(DiffError::Eof);
    }
    let b: u8 = buf[*pos];
    *pos += 1;
    Ok(b)
}

fn get_number(buf: &[u8], pos: &mut usize) -> (r: Result<u64, DiffError>)
    ensures
        match number_at(buf@, *old(pos) as int) {
            Ok((v, end)) => r matches Ok(x) && x == v && *final(pos) == end,
            Err(e) => r == Err::<u64, DiffError>(e),
        },
{
    match get_varint(buf, pos) {
        Ok(v) => Ok(v),
        Err(e) => Err(DiffError::Wire(e)),
    }
}

fn get_color(buf: &[u8], pos: &mut usize) -> (r: Result<Color, DiffError>)
    ensures
        match color_at(buf@, *old(pos) as int) {
            Ok((c, end)) => r == Ok::<Color, DiffError>(c) && *final(pos) == end,
            Err(e) => r == Err::<Color, DiffError>(e),
        },
{
    match get_u8(buf, pos)? {
        0 => Ok(Color::Default),
        1 => Ok(Color::Indexed(get_u8(buf, pos)?)),
        2 => {
            let r: u8 = get_u8(buf, pos)?;
            let g: u8 = get_u8(buf, pos)?;
            let b: u8 = get_u8(buf, pos)?;
            Ok(Color::Rgb(r, g, b))
        },
        other => Err(DiffError::BadTag(other)),
    }
}

fn get_cell(buf: &[u8], pos: &mut usize) -> (r: Result<Cell, DiffError>)
    ensures
        match cell_at(buf@, *old(pos) as int) {
            Ok((c, end)) => r == Ok::<Cell, DiffError>(c) && *final(pos) == end,
            Err(e) => r == Err::<Cell, DiffError>(e),
        },
{
    let code: u64 = get_number(buf, pos)?;
    assert(code as u32 == code % 0x1_0000_0000) by (bit_vector);
    let ch: char = match char::from_u32(code as u32) {
        Some(c) => c,
        None => '\u{fffd}',
    };
    let fg: Color = get_color(buf, pos)?;
    let bg: Color = get_color(buf, pos)?;
    let flags: u8 = get_u8(buf, pos)?;
    Ok(Cell { ch, fg, bg, flags })
}

fn fill(cells: &mut Vec<Cell>, buf: &[u8], from: usize) -> (r: Result<(), DiffError>)
    ensures
        r == filled(buf@, from as int, old(cells)@, 0).0,
        final(cells)@ == filled(buf@, from as int, old(cells)@, 0).1,
        final(cells)@.len() == old(cells)@.len(),
{
    let ghost goal = filled(buf@, from as int, cells@, 0);
    let mut pos: usize = from;
    let mut i: usize = 0;
    while i < cells.len()
        invariant
            i <= cells@.len() == old(cells)@.len(),
            filled(buf@, pos as int, cells@, i as nat) == goal,
            goal == filled(buf@, from as int, old(cells)@, 0),
        decreases cells@.len() - i,
    {
        let cell: Cell = get_cell(buf, &mut pos)?;
        cells[i] = cell;
        i += 1;
    }
    Ok(())
}

fn patch(cells: &mut Vec<Cell>, buf: &[u8], from: usize, count: u64) -> (r: Result<(), DiffError>)
    ensures
        r == patched(buf@, from as int, old(cells)@, count as nat).0,
        final(cells)@ == patched(buf@, from as int, old(cells)@, count as nat).1,
        final(cells)@.len() == old(cells)@.len(),
{
    let ghost goal = patched(buf@, from as int, cells@, count as nat);
    let mut pos: usize = from;
    let mut left: u64 = count;
    while left > 0
        invariant
            cells@.len() == old(cells)@.len(),
            patched(buf@, pos as int, cells@, left as nat) == goal,
            goal == patched(buf@, from as int, old(cells)@, count as nat),
        decreases left,
    {
        let i: u64 = get_number(buf, &mut pos)?;
        let cell: Cell = get_cell(buf, &mut pos)?;
        if i < cells.len() as u64 {
            cells[i as usize] = cell;
        }
        left -= 1;
    }
    Ok(())
}

fn settle(grid: &mut Grid, cursor_row: u64, cursor_col: u64, visible: bool)
    requires
        old(grid).wf(),
    ensures
        final(grid).wf(),
        final(grid)@ == (GridView {
            cursor_row: crate::grid::min(cursor_row as int, old(grid)@.rows - 1),
            cursor_col: crate::grid::min(cursor_col as int, old(grid)@.cols - 1),
            cursor_visible: visible,
            ..old(grid)@
        }),
{
    let last_row: usize = grid.rows - 1;
    let last_col: usize = grid.cols - 1;
    grid.cursor_row = if cursor_row < last_row as u64 { cursor_row as usize } else { last_row };
    grid.cursor_col = if cursor_col < last_col as u64 { cursor_col as usize } else { last_col };
    grid.cursor_visible = visible;
}

/// Apply an encoded diff to `grid`, mutating it to the target state.
pub fn apply_diff(grid: &mut Grid, bytes: &[u8]) -> (r: Result<(), DiffError>)
    requires
        old(grid).wf(),
    ensures
        final(grid).wf(),
        r == applied(old(grid)@, bytes@).0,
        final(grid)@ == applied(old(grid)@, bytes@).1,
{
    let mut pos: usize = 0;
    let tag: u8 = get_u8(bytes, &mut pos)?;
    let rows: u64 = get_number(bytes, &mut pos)?;
    let cols: u64 = get_number(bytes, &mut pos)?;
    let cursor_row: u64 = get_number(bytes, &mut pos)?;
    let cursor_col: u64 = get_number(bytes, &mut pos)?;
    let visible: bool = get_u8(bytes, &mut pos)? != 0;
    match tag {
        TAG_FULL => {
            assert(rows * cols <= u64::MAX * u64::MAX) by (nonlinear_arith)
                requires
                    rows <= u64::MAX,
                    cols <= u64::MAX,
            ;
            let total: u128 = rows as u128 * cols as u128;
            if rows == 0 || cols == 0 || total > usize::MAX as u128 {
                return Err(DiffError::DimMismatch);
            }
            assert(rows <= rows * cols && cols <= rows * cols) by (nonlinear_arith)
                requires
                    rows >= 1,
                    cols >= 1,
            ;
            if grid.rows as u64 != rows || grid.cols as u64 != cols {
                *grid = Grid::new(rows as usize, cols as usize);
            }
            fill(&mut grid.cells, bytes, pos)?;
        },
        TAG_DELTA => {
            if grid.rows as u64 != rows || grid.cols as u64 != cols {
                return Err(DiffError::DimMismatch);
            }
            let count: u64 = get_number(bytes, &mut pos)?;
            patch(&mut grid.cells, bytes, pos, count)?;
        },
        other => return Err(DiffError::BadTag(other)),
    }
    settle(grid, cursor_row, cursor_col, visible);
    Ok(())
}

// ---------------------------------------------------------------------------
// Round trip
// ---------------------------------------------------------------------------

proof fn lemma_byte(b: u8, buf: Seq<u8>, pos: int)
    requires
        crate::wire::stands_at(buf, pos, seq![b]),
    ensures
        byte_at(buf, pos) == Ok::<(u8, int), DiffError>((b, pos + 1)),
{
    crate::wire::lemma_byte_roundtrip(b, buf, pos);
}

proof fn lemma_number(v: nat, buf: Seq<u8>, pos: int)
    requires
        v <= u64::MAX,
        crate::wire::stands_at(buf, pos, crate::wire::varint(v)),
    ensures
        number_at(buf, pos) == Ok::<(nat, int), DiffError>(
            (v, pos + crate::wire::varint(v).len()),
        ),
{
    crate::wire::law_varint_roundtrip(v as u64, buf, pos);
}

proof fn lemma_color(c: Color, buf: Seq<u8>, pos: int)
    requires
        crate::wire::stands_at(buf, pos, color_bytes(c)),
    ensures
        color_at(buf, pos) == Ok::<(Color, int), DiffError>((c, pos + color_bytes(c).len())),
{
    reveal(crate::wire::stands_at);
    let part = buf.subrange(pos, pos + color_bytes(c).len());
    match c {
        Color::Default => {
            assert(part[0] == 0);
        },
        Color::Indexed(n) => {
            assert(part[0] == 1 && part[1] == n);
        },
        Color::Rgb(r, g, b) => {
            assert(part[0] == 2 && part[1] == r && part[2] == g && part[3] == b);
        },
    }
}

/// A cell read back where it was written is the same cell.
pub proof fn law_cell_roundtrip(cell: Cell, buf: Seq<u8>, pos: int)
    requires
        crate::wire::stands_at(buf, pos, cell_bytes(cell)),
    ensures
        cell_at(buf, pos) == Ok::<(Cell, int), DiffError>((cell, pos + cell_bytes(cell).len())),
{
    let code = (cell.ch as u32) as nat;
    let a = crate::wire::varint(code);
    let b = a + color_bytes(cell.fg);
    let c = b + color_bytes(cell.bg);
    crate::wire::lemma_stands_at_split(buf, pos, c, seq![cell.flags]);
    crate::wire::lemma_stands_at_split(buf, pos, b, color_bytes(cell.bg));
    crate::wire::lemma_stands_at_split(buf, pos, a, color_bytes(cell.fg));
    lemma_number(code, buf, pos);
    lemma_color(cell.fg, buf, pos + a.len());
    lemma_color(cell.bg, buf, pos + b.len());
    lemma_byte(cell.flags, buf, pos + c.len());
    vstd::utf8::char_is_scalar(cell.ch);
    assert(char_of(code) == cell.ch);
}

/// A screen as it can be rendered: its numbers fit in a machine word and the
/// cursor lies on it.
pub open spec fn renderable(g: RenderView) -> bool {
    &&& g.rows >= 1
    &&& g.cols >= 1
    &&& g.cells.len() == g.rows * g.cols
    &&& g.rows * g.cols <= usize::MAX
    &&& 0 <= g.cursor_row < g.rows
    &&& 0 <= g.cursor_col < g.cols
}

spec fn header_of(tag: u8, g: RenderView) -> Header {
    Header {
        tag,
        rows: g.rows as nat,
        cols: g.cols as nat,
        cursor_row: g.cursor_row as nat,
        cursor_col: g.cursor_col as nat,
        visible: g.cursor_visible,
    }
}

proof fn lemma_header(tag: u8, g: RenderView, buf: Seq<u8>)
    requires
        renderable(g),
        crate::wire::stands_at(buf, 0, seq![tag] + header_bytes(g)),
    ensures
        header_at(buf) == Ok::<(Header, int), DiffError>(
            (header_of(tag, g), 1int + header_bytes(g).len()),
        ),
{
    assert(g.rows <= g.rows * g.cols && g.cols <= g.rows * g.cols) by (nonlinear_arith)
        requires
            g.rows >= 1,
            g.cols >= 1,
    ;
    let bit: u8 = if g.cursor_visible {
        1
    } else {
        0
    };
    let a = crate::wire::varint(g.rows as nat);
    let b = a + crate::wire::varint(g.cols as nat);
    let c = b + crate::wire::varint(g.cursor_row as nat);
    let d = c + crate::wire::varint(g.cursor_col as nat);
    crate::wire::lemma_stands_at_split(buf, 0, seq![tag], header_bytes(g));
    crate::wire::lemma_stands_at_split(buf, 1, d, seq![bit]);
    crate::wire::lemma_stands_at_split(buf, 1, c, crate::wire::varint(g.cursor_col as nat));
    crate::wire::lemma_stands_at_split(buf, 1, b, crate::wire::varint(g.cursor_row as nat));
    crate::wire::lemma_stands_at_split(buf, 1, a, crate::wire::varint(g.cols as nat));
    lemma_byte(tag, buf, 0);
    lemma_number(g.rows as nat, buf, 1);
    lemma_number(g.cols as nat, buf, 1int + a.len());
    lemma_number(g.cursor_row as nat, buf, 1int + b.len());
    lemma_number(g.cursor_col as nat, buf, 1int + c.len());
    lemma_byte(bit, buf, 1int + d.len());
}

/// Where `n` cells stand, each of them stands behind those before it.
proof fn lemma_cells_stand(target: Seq<Cell>, n: int, i: int, buf: Seq<u8>, pos: int)
    requires
        0 <= i < n <= target.len(),
        crate::wire::stands_at(buf, pos, cells_bytes(target, n)),
    ensures
        crate::wire::stands_at(buf, pos + cells_bytes(target, i).len(), cell_bytes(target[i])),
    decreases n,
{
    crate::wire::lemma_stands_at_split(
        buf,
        pos,
        cells_bytes(target, n - 1),
        cell_bytes(target[n - 1]),
    );
    if i < n - 1 {
        lemma_cells_stand(target, n - 1, i, buf, pos);
    }
}

proof fn lemma_filled(target: Seq<Cell>, cells: Seq<Cell>, i: nat, buf: Seq<u8>, pos: int)
    requires
        i <= target.len() == cells.len(),
        forall|j: int| 0 <= j < i ==> cells[j] == target[j],
        crate::wire::stands_at(buf, pos, cells_bytes(target, target.len() as int)),
    ensures
        filled(buf, pos + cells_bytes(target, i as int).len(), cells, i) == (
            Ok::<(), DiffError>(()),
            target,
        ),
    decreases target.len() - i,
{
    if i == target.len() {
        assert(cells =~= target);
    } else {
        lemma_cells_stand(target, target.len() as int, i as int, buf, pos);
        let at = pos + cells_bytes(target, i as int).len();
        law_cell_roundtrip(target[i as int], buf, at);
        lemma_filled(target, cells.update(i as int, target[i as int]), i + 1, buf, pos);
    }
}

/// A full snapshot applied to any screen gives one that renders as the target.
pub proof fn law_full_renders_as_target(g: GridView, target: RenderView)
    requires
        g.wf(),
        renderable(target),
    ensures
        applied(g, full_bytes(target)).0 == Ok::<(), DiffError>(()),
        applied(g, full_bytes(target)).1.render() == target,
{
    let buf = full_bytes(target);
    let head = seq![TAG_FULL] + header_bytes(target);
    let body = cells_bytes(target.cells, target.cells.len() as int);
    assert(crate::wire::stands_at(buf, 0, buf)) by {
        reveal(crate::wire::stands_at);
        assert(buf.subrange(0, buf.len() as int) =~= buf);
    }
    crate::wire::lemma_stands_at_split(buf, 0, head, body);
    lemma_header(TAG_FULL, target, buf);
    let h = header_of(TAG_FULL, target);
    let base = refilled(g, h);
    assert(h.rows * h.cols == target.rows * target.cols);
    lemma_filled(target.cells, base.cells, 0, buf, head.len() as int);
}

proof fn lemma_patches_stand(target: Seq<Cell>, at: Seq<int>, n: int, k: int, buf: Seq<u8>, pos: int)
    requires
        0 <= k < n <= at.len(),
        crate::wire::stands_at(buf, pos, patches_bytes(target, at, n)),
    ensures
        crate::wire::stands_at(
            buf,
            pos + patches_bytes(target, at, k).len(),
            crate::wire::varint(at[k] as nat),
        ),
        crate::wire::stands_at(
            buf,
            pos + patches_bytes(target, at, k).len() + crate::wire::varint(at[k] as nat).len(),
            cell_bytes(target[at[k]]),
        ),
    decreases n,
{
    let init = patches_bytes(target, at, n - 1);
    let index = crate::wire::varint(at[n - 1] as nat);
    crate::wire::lemma_stands_at_split(buf, pos, init + index, cell_bytes(target[at[n - 1]]));
    crate::wire::lemma_stands_at_split(buf, pos, init, index);
    if k < n - 1 {
        lemma_patches_stand(target, at, n - 1, k, buf, pos);
    }
}

proof fn lemma_changed(base: Seq<Cell>, target: Seq<Cell>, n: int)
    requires
        0 <= n <= target.len() == base.len(),
    ensures
        changed(base, target, n).len() <= n,
        forall|k: int|
            0 <= k < changed(base, target, n).len() ==> 0 <= #[trigger] changed(base, target, n)[k] < n,
        forall|i: int|
            0 <= i < n && base[i] != target[i] ==> #[trigger] changed(base, target, n).contains(i),
    decreases n,
{
    if n > 0 {
        lemma_changed(base, target, n - 1);
        let before = changed(base, target, n - 1);
        let all = changed(base, target, n);
        assert forall|i: int| 0 <= i < n && base[i] != target[i] implies #[trigger] all.contains(i) by {
            if i == n - 1 {
                assert(all[all.len() - 1] == i);
            } else {
                assert(before.contains(i));
                let k = choose|k: int| 0 <= k < before.len() && before[k] == i;
                assert(all[k] == i);
            }
        }
    }
}

proof fn lemma_patched(
    target: Seq<Cell>,
    at: Seq<int>,
    cells: Seq<Cell>,
    k: int,
    buf: Seq<u8>,
    pos: int,
)
    requires
        0 <= k <= at.len(),
        cells.len() == target.len() <= usize::MAX,
        forall|j: int| 0 <= j < at.len() ==> 0 <= #[trigger] at[j] < target.len(),
        forall|i: int| 0 <= i < target.len() && cells[i] != target[i] ==> at.skip(k).contains(i),
        crate::wire::stands_at(buf, pos, patches_bytes(target, at, at.len() as int)),
    ensures
        patched(
            buf,
            pos + patches_bytes(target, at, k).len(),
            cells,
            (at.len() - k) as nat,
        ) == (Ok::<(), DiffError>(()), target),
    decreases at.len() - k,
{
    if k == at.len() {
        assert(at.skip(k) =~= Seq::<int>::empty());
        assert forall|i: int| 0 <= i < target.len() implies cells[i] == target[i] by {
            assert(!at.skip(k).contains(i));
        }
        assert(cells =~= target);
    } else {
        lemma_patches_stand(target, at, at.len() as int, k, buf, pos);
        let start = pos + patches_bytes(target, at, k).len();
        let i = at[k];
        lemma_number(i as nat, buf, start);
        law_cell_roundtrip(target[i], buf, start + crate::wire::varint(i as nat).len());
        let next = cells.update(i, target[i]);
        assert forall|j: int| 0 <= j < target.len() && next[j] != target[j] implies at.skip(
            k + 1,
        ).contains(j) by {
            assert(at.skip(k).contains(j));
            let q = choose|q: int| 0 <= q < at.skip(k).len() && at.skip(k)[q] == j;
            assert(q > 0);
            assert(at.skip(k + 1)[q - 1] == j);
        }
        lemma_patched(target, at, next, k + 1, buf, pos);
        assert(start + crate::wire::varint(i as nat).len() + cell_bytes(target[i]).len() == pos
            + patches_bytes(target, at, k + 1).len());
    }
}

proof fn lemma_delta_body(g: GridView, target: RenderView, at: Seq<int>, buf: Seq<u8>, pos: int)
    requires
        g.wf(),
        renderable(target),
        g.rows == target.rows,
        g.cols == target.cols,
        at == changed(g.cells, target.cells, target.cells.len() as int),
        crate::wire::stands_at(buf, pos, patches_bytes(target.cells, at, at.len() as int)),
    ensures
        patched(buf, pos, g.cells, at.len()) == (Ok::<(), DiffError>(()), target.cells),
{
    lemma_changed(g.cells, target.cells, target.cells.len() as int);
    assert(at.skip(0) =~= at);
    lemma_patched(target.cells, at, g.cells, 0, buf, pos);
}

/// A delta from `base` applied to a screen that renders as `base` gives one
/// that renders as the target.
#[verifier::rlimit(40)]
pub proof fn law_delta_renders_as_target(g: GridView, target: RenderView)
    requires
        g.wf(),
        renderable(target),
        g.rows == target.rows,
        g.cols == target.cols,
    ensures
        applied(g, delta_bytes(g.render(), target)).0 == Ok::<(), DiffError>(()),
        applied(g, delta_bytes(g.render(), target)).1.render() == target,
{
    let base = g.render();
    let buf = delta_bytes(base, target);
    let at = changed(base.cells, target.cells, target.cells.len() as int);
    let head = seq![TAG_DELTA] + header_bytes(target);
    let count = crate::wire::varint(at.len());
    let body = patches_bytes(target.cells, at, at.len() as int);
    assert(crate::wire::stands_at(buf, 0, buf)) by {
        reveal(crate::wire::stands_at);
        assert(buf.subrange(0, buf.len() as int) =~= buf);
    }
    crate::wire::lemma_stands_at_split(buf, 0, head + count, body);
    crate::wire::lemma_stands_at_split(buf, 0, head, count);
    lemma_header(TAG_DELTA, target, buf);
    lemma_changed(base.cells, target.cells, target.cells.len() as int);
    lemma_number(at.len(), buf, head.len() as int);
    lemma_delta_body(g, target, at, buf, (head + count).len() as int);
}

/// Applying the diff from what a screen renders as to a target gives a screen
/// that renders as the target.
pub proof fn law_apply_diff_renders_as_target(g: GridView, target: RenderView)
    requires
        g.wf(),
        renderable(target),
    ensures
        applied(g, diff_bytes(Some(g.render()), target)).0 == Ok::<(), DiffError>(()),
        applied(g, diff_bytes(Some(g.render()), target)).1.render() == target,
{
    if g.rows == target.rows && g.cols == target.cols {
        law_delta_renders_as_target(g, target);
    } else {
        law_full_renders_as_target(g, target);
    }
}

} // verus!
