//! Connection-status overlay and the local detach/escape key.
//!
//! - [`status_banner`] decides whether to show a "last contact N s ago" banner
//!   and what it should say, from the time since the last authenticated packet.
//! - [`stamp_status`] paints that banner onto the top row of a grid.
//! - [`process_input`] is the escape-key state machine: it intercepts the
//!   detach prefix (`Ctrl-^`) and its follow-up command from the local input
//!   stream, forwarding everything else to the remote shell unchanged.

use crate::cell::{Cell, Color};
use crate::flags;
use crate::grid::{Grid, GridView};
use crate::text::{chars_of, push_decimal};
use std::time::Duration;
use vstd::prelude::*;

verus! {

/// The local escape/detach prefix: `Ctrl-^` (byte 0x1e).
pub const ESCAPE_KEY: u8 = 0x1e;

/// How many seconds the link must be silent before the status banner appears.
pub const SHOW_AFTER_SECS: u64 = 4;

/// The whole seconds of a span of time.
pub uninterp spec fn whole_secs(d: Duration) -> u64;

/// `Duration::as_secs`: the whole seconds of a span of time.
pub assume_specification[ Duration::as_secs ](d: &Duration) -> (r: u64)
    ensures
        r == whole_secs(*d),
;

/// The banner for a link that has been silent for `secs` whole seconds.
pub open spec fn banner(secs: u64) -> Option<Seq<char>> {
    if secs < SHOW_AFTER_SECS {
        None
    } else {
        Some(
            "[noissh] last contact "@ + crate::text::decimal(secs as nat)
                + "s ago — reconnecting…  (Ctrl-^ . to quit)"@,
        )
    }
}

/// The banner text for a link silent for `secs` whole seconds, or `None` if it
/// is healthy enough.
pub fn banner_after(secs: u64) -> (r: Option<String>)
    ensures
        match banner(secs) {
            Some(t) => r matches Some(s) && s@ == t,
            None => r is None,
        },
{
    if secs < SHOW_AFTER_SECS {
        return None;
    }
    let mut s: String = String::new();
    s.push_str("[noissh] last contact ");
    push_decimal(&mut s, secs);
    s.push_str("s ago — reconnecting…  (Ctrl-^ . to quit)");
    assert(s@ =~= banner(secs)->0);
    Some(s)
}

/// Build the status-banner text, or `None` if the link is healthy enough that
/// nothing should be shown. `since` is the time since the last authenticated
/// packet from the server.
pub fn status_banner(since: Duration) -> (r: Option<String>)
    ensures
        match banner(whole_secs(since)) {
            Some(t) => r matches Some(s) && s@ == t,
            None => r is None,
        },
{
    banner_after(since.as_secs())
}

/// How a banner character is painted.
pub open spec fn banner_cell(ch: char) -> Cell {
    Cell { ch, fg: Color::Default, bg: Color::Default, flags: flags::REVERSE | flags::BOLD }
}

/// The cells with as much of `text` as fits in the top row, right-aligned.
pub open spec fn stamped(cells: Seq<Cell>, cols: int, text: Seq<char>) -> Seq<Cell> {
    let n = crate::grid::min(text.len() as int, cols);
    Seq::new(
        cells.len(),
        |i: int|
            if cols - n <= i < cols {
                banner_cell(text[i - (cols - n)])
            } else {
                cells[i]
            },
    )
}

/// Stamp a one-line status banner onto the top row of `grid`, right-aligned and
/// in reverse video so it stands out over whatever is on screen.
pub fn stamp_status(grid: &mut Grid, text: &str)
    requires
        old(grid).wf(),
    ensures
        final(grid).wf(),
        final(grid)@ == (GridView {
            cells: stamped(old(grid)@.cells, old(grid)@.cols, text@),
            ..old(grid)@
        }),
{
    let ghost before = grid@;
    let cols: usize = grid.cols;
    let chars: Vec<char> = chars_of(text);
    let n: usize = if chars.len() < cols { chars.len() } else { cols };
    let start: usize = cols - n;
    proof {
        crate::grid::lemma_index_bound(0, before.cols - 1, before.rows, before.cols);
    }
    let mut i: usize = 0;
    while i < n
        invariant
            i <= n <= chars@.len(),
            n <= cols == before.cols,
            start == cols - n,
            chars@ == text@,
            before.cols <= before.cells.len(),
            grid.cells@.len() == before.cells.len(),
            forall|j: int|
                0 <= j < before.cells.len() ==> #[trigger] grid.cells@[j] == if start <= j < start + i {
                    banner_cell(text@[j - start])
                } else {
                    before.cells[j]
                },
            grid@ == (GridView { cells: grid.cells@, ..before }),
        decreases n - i,
    {
        grid.cells[start + i] = Cell {
            ch: chars[i],
            fg: Color::Default,
            bg: Color::Default,
            flags: flags::REVERSE | flags::BOLD,
        };
        i += 1;
    }
    assert(grid.cells@ =~= stamped(before.cells, before.cols, text@));
}

/// What [`process_input`] decided to do with a batch of local input bytes.
#[derive(Debug, PartialEq, Eq)]
pub struct InputOutcome {
    /// Bytes to forward to the remote shell (the escape sequences removed).
    pub forward: Vec<u8>,
    /// The user asked to detach/quit (`Ctrl-^`, then `.` or `q`).
    pub quit: bool,
}

impl Default for InputOutcome {
    fn default() -> (r: InputOutcome)
        ensures
            r.forward@ == Seq::<u8>::empty(),
            !r.quit,
    {
        InputOutcome { forward: Vec::new(), quit: false }
    }
}

/// The escape-key state machine: whether the prefix is waiting for a command,
/// what has been forwarded, and whether the user asked to quit.
pub struct EscapeState {
    pub pending: bool,
    pub forward: Seq<u8>,
    pub quit: bool,
}

impl EscapeState {
    /// Before any input of a batch.
    pub open spec fn start(pending: bool) -> EscapeState {
        EscapeState { pending, forward: Seq::empty(), quit: false }
    }

    /// After one more byte. Behind the prefix `.` and `q` quit, the prefix again
    /// is sent once, and any other key is dropped.
    pub open spec fn step(self, b: u8) -> EscapeState {
        if self.pending {
            EscapeState {
                pending: false,
                quit: self.quit || b == 0x2e || b == 0x71,
                forward: if b == ESCAPE_KEY {
                    self.forward.push(ESCAPE_KEY)
                } else {
                    self.forward
                },
            }
        } else if b == ESCAPE_KEY {
            EscapeState { pending: true, ..self }
        } else {
            EscapeState { forward: self.forward.push(b), ..self }
        }
    }

    /// After a run of bytes.
    pub open spec fn run(self, input: Seq<u8>) -> EscapeState
        decreases input.len(),
    {
        if input.len() == 0 {
            self
        } else {
            self.run(input.drop_last()).step(input.last())
        }
    }
}

/// Filter a batch of locally-typed bytes through the escape-key state machine,
/// stripping the detach prefix and its command while forwarding everything else.
///
/// `pending` carries the "saw the prefix, waiting for a command" state across
/// calls, because the prefix and its follow-up key can arrive in separate reads.
pub fn process_input(pending: &mut bool, input: &[u8]) -> (out: InputOutcome)
    ensures
        ({
            let end = EscapeState::start(*old(pending)).run(input@);
            &&& *final(pending) == end.pending
            &&& out.forward@ == end.forward
            &&& out.quit == end.quit
        }),
{
    let ghost start = EscapeState::start(*pending);
    let mut out: InputOutcome = InputOutcome { forward: Vec::new(), quit: false };
    let mut i: usize = 0;
    assert(input@.take(0) =~= Seq::<u8>::empty());
    while i < input.len()
        invariant
            i <= input@.len(),
            start.run(input@.take(i as int)) == (EscapeState {
                pending: *pending,
                forward: out.forward@,
                quit: out.quit,
            }),
        decreases input@.len() - i,
    {
        let b: u8 = input[i];
        if *pending {
            *pending = false;
            match b {
                0x2e | 0x71 => {
                    out.quit = true;
                },
                ESCAPE_KEY => out.forward.push(ESCAPE_KEY),
                _ => {},
            }
        } else if b == ESCAPE_KEY {
            *pending = true;
        } else {
            out.forward.push(b);
        }
        assert(input@.take(i + 1).drop_last() =~= input@.take(i as int));
        i += 1;
    }
    assert(input@.take(i as int) =~= input@);
    out
}

/// It makes no difference where input is split into batches: a run over the
/// whole is a run over the second part behind a run over the first.
pub proof fn law_batches_add_up(s: EscapeState, a: Seq<u8>, b: Seq<u8>)
    ensures
        s.run(a + b) == s.run(a).run(b),
    decreases b.len(),
{
    if b.len() == 0 {
        assert(a + b =~= a);
    } else {
        law_batches_add_up(s, a, b.drop_last());
        assert((a + b).drop_last() =~= a + b.drop_last());
    }
}

/// Input without the escape key is forwarded unchanged.
pub proof fn law_plain_input_passes(input: Seq<u8>)
    requires
        forall|i: int| 0 <= i < input.len() ==> input[i] != ESCAPE_KEY,
    ensures
        EscapeState::start(false).run(input) == (EscapeState {
            pending: false,
            forward: input,
            quit: false,
        }),
    decreases input.len(),
{
    if input.len() > 0 {
        law_plain_input_passes(input.drop_last());
        assert(input.drop_last().push(input.last()) =~= input);
    } else {
        assert(input =~= Seq::<u8>::empty());
    }
}

/// Behind the escape key, `.` and `q` quit and reach nobody; the escape key itself is
/// sent once; any other key is dropped with it. Nothing else quits.
pub proof fn law_escape_key(before: Seq<u8>, key: u8)
    requires
        forall|i: int| 0 <= i < before.len() ==> before[i] != ESCAPE_KEY,
    ensures
        ({
            let s = EscapeState::start(false).run(before + seq![0x1eu8, key]);
            &&& !s.pending
            &&& s.quit <==> key == 0x2e || key == 0x71
            &&& key == 0x1e ==> s.forward == before.push(0x1e)
            &&& key != 0x1e ==> s.forward == before
        }),
{
    law_plain_input_passes(before);
    let all = before + seq![0x1eu8, key];
    assert(all.drop_last().drop_last() =~= before);
    assert(all.drop_last().last() == 0x1e);
    assert(all.last() == key);
    reveal_with_fuel(EscapeState::run, 3);
}

/// The banner shows once the link was silent for four seconds, and tells how many.
pub proof fn law_banner_tells_seconds(secs: u64)
    ensures
        banner(secs) is None <==> secs < 4,
        banner(secs) matches Some(t) ==> t == "[noissh] last contact "@ + crate::text::decimal(
            secs as nat,
        ) + "s ago — reconnecting…  (Ctrl-^ . to quit)"@,
{
}

/// The banner stands at the right end of the top row, as much of it as fits from its
/// start, and covers nothing else.
pub proof fn law_banner_at_top_right(g: GridView, text: Seq<char>, r: int, c: int)
    requires
        g.wf(),
        0 <= r < g.rows,
        0 <= c < g.cols,
    ensures
        ({
            let t = GridView { cells: stamped(g.cells, g.cols, text), ..g };
            let n = if text.len() <= g.cols {
                text.len() as int
            } else {
                g.cols
            };
            &&& r == 0 && c >= g.cols - n ==> t.at(r, c) == (Cell {
                ch: text[c - (g.cols - n)],
                fg: Color::Default,
                bg: Color::Default,
                flags: flags::REVERSE | flags::BOLD,
            })
            &&& r > 0 || c < g.cols - n ==> t.at(r, c) == g.at(r, c)
        }),
{
    crate::grid::lemma_index_bound(r, c, g.rows, g.cols);
    crate::screen_laws::lemma_place_order(r, c, 0, g.cols, g.cols);
    assert(0 * g.cols == 0);
}

} // verus!
