//! Terminal emulator: an escape-sequence parser feeding a screen grid.

use crate::grid::{Action, ActionView, Grid, GridView};
use crate::text::{chars_of, push_decimal};
use vstd::prelude::*;
use vstd::slice::slice_to_vec;

verus! {

/// The escape-sequence parser of the `vte` crate.
#[verifier::external_type_specification]
#[verifier::external_body]
pub struct ExParser<const OSC_RAW_BUF_SIZE: usize>(vte::Parser<OSC_RAW_BUF_SIZE>);

/// The parameters of a control sequence, as `vte` hands them out.
#[verifier::external_type_specification]
#[verifier::external_body]
pub struct ExParams(vte::Params);

/// The byte strings that a parser has been fed since it was made, in order.
pub uninterp spec fn fed(parser: vte::Parser) -> Seq<Seq<u8>>;

/// The actions that a parser which has been fed `before` recognises in `bytes`.
pub uninterp spec fn recognised(before: Seq<Seq<u8>>, bytes: Seq<u8>) -> Seq<ActionView>;

/// The parameters held, each with its subparameters.
pub uninterp spec fn groups_of(params: vte::Params) -> Seq<Seq<u16>>;

/// `vte::Params::iter`: the parameters in order, each with its subparameters.
#[verifier::external_body]
fn param_groups(params: &vte::Params) -> (r: Vec<Vec<u16>>)
    ensures
        crate::grid::param_views(r@) == groups_of(*params),
{
    params.iter().map(|s| s.to_vec()).collect()
}

/// Notes down the actions that a parser recognises.
pub struct Recorder {
    pub actions: Vec<Action>,
}

impl vte::Perform for Recorder {
    fn print(&mut self, c: char)
        ensures
            crate::grid::action_views(final(self).actions@) == crate::grid::action_views(
                old(self).actions@,
            ).push(ActionView::Print(c)),
    {
        self.note(Action::Print(c));
    }

    fn execute(&mut self, byte: u8)
        ensures
            crate::grid::action_views(final(self).actions@) == crate::grid::action_views(
                old(self).actions@,
            ).push(ActionView::Execute(byte)),
    {
        self.note(Action::Execute(byte));
    }

    fn csi_dispatch(
        &mut self,
        params: &vte::Params,
        intermediates: &[u8],
        ignore: bool,
        action: char,
    )
        ensures
            crate::grid::action_views(final(self).actions@) == crate::grid::action_views(
                old(self).actions@,
            ).push(
                ActionView::Csi {
                    params: groups_of(*params),
                    intermediates: intermediates@,
                    ignore,
                    action,
                },
            ),
    {
        let params: Vec<Vec<u16>> = param_groups(params);
        let intermediates: Vec<u8> = slice_to_vec(intermediates);
        self.note(Action::Csi { params, intermediates, ignore, action });
    }

    fn esc_dispatch(&mut self, intermediates: &[u8], ignore: bool, byte: u8)
        ensures
            crate::grid::action_views(final(self).actions@) == crate::grid::action_views(
                old(self).actions@,
            ).push(ActionView::Esc { intermediates: intermediates@, ignore, byte }),
    {
        let intermediates: Vec<u8> = slice_to_vec(intermediates);
        self.note(Action::Esc { intermediates, ignore, byte });
    }
}

impl Recorder {
    fn note(&mut self, action: Action)
        ensures
            crate::grid::action_views(final(self).actions@) == crate::grid::action_views(
                old(self).actions@,
            ).push(action@),
    {
        let ghost before = self.actions@;
        self.actions.push(action);
        assert(crate::grid::action_views(self.actions@) =~= crate::grid::action_views(before).push(
            action@,
        ));
    }
}

/// `vte::Parser::new`: a parser that has been fed nothing.
#[verifier::external_body]
fn new_parser() -> (r: vte::Parser)
    ensures
        fed(r) == Seq::<Seq<u8>>::empty(),
{
    vte::Parser::new()
}

/// `vte::Parser::advance`: the parser takes the bytes and calls its performer
/// once for each action it recognises in them, in order. What it recognises
/// depends on the bytes and on what it was fed before, and on nothing else.
/// Which actions these are is not stated.
#[verifier::external_body]
fn recognise(parser: &mut vte::Parser, bytes: &[u8]) -> (r: Vec<Action>)
    ensures
        crate::grid::action_views(r@) == recognised(fed(*old(parser)), bytes@),
        fed(*final(parser)) == fed(*old(parser)).push(bytes@),
{
    let mut recorder = Recorder { actions: Vec::new() };
    parser.advance(&mut recorder, bytes);
    recorder.actions
}

/// The bytes of a text of ASCII characters.
pub open spec fn ascii(text: Seq<char>) -> Seq<u8> {
    Seq::new(text.len(), |i: int| text[i] as u8)
}

/// The first parameter of a control sequence, 0 if there is none.
pub open spec fn first_param(params: Seq<Seq<u16>>) -> u16 {
    if params.len() > 0 && params[0].len() > 0 {
        params[0][0]
    } else {
        0
    }
}

/// Where the cursor is, counted from one, as a cursor position report says it.
pub open spec fn position_report(g: GridView) -> Seq<char> {
    "\x1b["@ + crate::text::decimal((g.cursor_row + 1) as nat) + ";"@ + crate::text::decimal(
        (g.cursor_col + 1) as nat,
    ) + "R"@
}

/// What the terminal answers to an action: a line editor asks where the cursor
/// is, or what terminal this is, and waits for the reply.
pub open spec fn answer(g: GridView, action: ActionView) -> Seq<u8> {
    match action {
        ActionView::Csi { params, intermediates, ignore, action } => if ignore
            || intermediates.len() > 0 {
            Seq::empty()
        } else if action == 'n' && first_param(params) == 6 {
            ascii(position_report(g))
        } else if action == 'c' && first_param(params) == 0 {
            ascii("\x1b[?6c"@)
        } else {
            Seq::empty()
        },
        _ => Seq::empty(),
    }
}

/// What the terminal answers to actions, each on the screen that those before
/// it leave.
pub open spec fn answers(g: GridView, actions: Seq<ActionView>) -> Seq<u8>
    decreases actions.len(),
{
    if actions.len() == 0 {
        Seq::empty()
    } else {
        answers(g, actions.drop_last()) + answer(
            g.perform_all(actions.drop_last()),
            actions.last(),
        )
    }
}

fn push_ascii(out: &mut Vec<u8>, text: &str)
    ensures
        final(out)@ == old(out)@ + ascii(text@),
{
    let ghost before = out@;
    let chars: Vec<char> = chars_of(text);
    let mut i: usize = 0;
    assert(before + ascii(chars@.take(0)) =~= before);
    while i < chars.len()
        invariant
            i <= chars@.len(),
            out@ == before + ascii(chars@.take(i as int)),
        decreases chars@.len() - i,
    {
        out.push(chars[i] as u8);
        assert(before + ascii(chars@.take(i + 1)) =~= (before + ascii(chars@.take(i as int))).push(
            chars@[i as int] as u8,
        ));
        i += 1;
    }
    assert(chars@.take(i as int) =~= chars@);
}

fn push_answer(out: &mut Vec<u8>, grid: &Grid, action: &Action)
    requires
        grid.wf(),
    ensures
        final(out)@ == old(out)@ + answer(grid@, action@),
{
    let ghost before = out@;
    assert(before + Seq::<u8>::empty() =~= before);
    if let Action::Csi { params, intermediates, ignore, action: byte } = action {
        if *ignore || intermediates.len() > 0 {
            return ;
        }
        let first: u16 = if params.len() > 0 && params[0].len() > 0 { params[0][0] } else { 0 };
        assert(first == first_param(crate::grid::param_views(params@)));
        if *byte == 'n' && first == 6 {
            let mut text: String = String::new();
            text.push_str("\x1b[");
            push_decimal(&mut text, grid.cursor_row as u64 + 1);
            text.push_str(";");
            push_decimal(&mut text, grid.cursor_col as u64 + 1);
            text.push_str("R");
            assert(text@ =~= position_report(grid@));
            push_ascii(out, text.as_str());
        } else if *byte == 'c' && first == 0 {
            push_ascii(out, "\x1b[?6c");
        }
    }
}

/// Carry out actions in order. Returns what the terminal answers to queries among
/// them.
pub fn carry_out(grid: &mut Grid, actions: &Vec<Action>) -> (reply: Vec<u8>)
    requires
        old(grid).wf(),
    ensures
        final(grid).wf(),
        final(grid)@ == old(grid)@.perform_all(crate::grid::action_views(actions@)),
        reply@ == answers(old(grid)@, crate::grid::action_views(actions@)),
{
    let ghost g = grid@;
    let ghost all = crate::grid::action_views(actions@);
    let mut reply: Vec<u8> = Vec::new();
    let mut i: usize = 0;
    assert(all.take(0) =~= Seq::<ActionView>::empty());
    while i < actions.len()
        invariant
            i <= actions@.len(),
            all == crate::grid::action_views(actions@),
            grid.wf(),
            grid@ == g.perform_all(all.take(i as int)),
            reply@ == answers(g, all.take(i as int)),
        decreases actions@.len() - i,
    {
        assert(all.take(i + 1).drop_last() =~= all.take(i as int));
        push_answer(&mut reply, grid, &actions[i]);
        grid.perform(&actions[i]);
        i += 1;
    }
    assert(all.take(i as int) =~= all);
    reply
}

/// A terminal emulator: a parser feeding an authoritative [`Grid`].
pub struct Terminal {
    parser: vte::Parser,
    pub grid: Grid,
}

impl Terminal {
    /// The byte strings fed so far.
    pub closed spec fn fed(&self) -> Seq<Seq<u8>> {
        fed(self.parser)
    }

    /// What the screen shows.
    pub closed spec fn shown(&self) -> GridView {
        self.grid@
    }

    /// The screen is valid.
    pub open spec fn wf(&self) -> bool {
        self.shown().wf()
    }

    /// An emulator with a blank screen.
    pub fn new(rows: usize, cols: usize) -> (r: Terminal)
        requires
            crate::grid::at_least_one(rows as int) * crate::grid::at_least_one(cols as int)
                <= usize::MAX,
        ensures
            r.wf(),
            r.fed() == Seq::<Seq<u8>>::empty(),
            r.shown() == GridView::fresh(
                crate::grid::at_least_one(rows as int),
                crate::grid::at_least_one(cols as int),
            ),
    {
        Terminal { parser: new_parser(), grid: Grid::new(rows, cols) }
    }

    /// Feed output bytes from the shell/pty into the emulator: the screen after
    /// that is the one that results from the actions recognised in them. Returns
    /// what the terminal answers to queries among them, for the shell to read.
    pub fn advance(&mut self, bytes: &[u8]) -> (reply: Vec<u8>)
        requires
            old(self).wf(),
        ensures
            final(self).wf(),
            final(self).fed() == old(self).fed().push(bytes@),
            final(self).shown() == old(self).shown().perform_all(recognised(old(self).fed(), bytes@)),
            reply@ == answers(old(self).shown(), recognised(old(self).fed(), bytes@)),
    {
        let actions: Vec<Action> = recognise(&mut self.parser, bytes);
        carry_out(&mut self.grid, &actions)
    }

    /// The screen.
    pub fn screen(&self) -> (r: &Grid)
        ensures
            r@ == self.shown(),
    {
        &self.grid
    }

    /// Give the screen other dimensions.
    pub fn resize(&mut self, rows: usize, cols: usize)
        requires
            old(self).wf(),
            crate::grid::at_least_one(rows as int) * crate::grid::at_least_one(cols as int)
                <= usize::MAX,
        ensures
            final(self).wf(),
            final(self).fed() == old(self).fed(),
            final(self).shown() == old(self).shown().resized(
                crate::grid::at_least_one(rows as int),
                crate::grid::at_least_one(cols as int),
            ),
    {
        self.grid.resize(rows, cols);
    }
}

// ---------------------------------------------------------------------------
// Laws
// ---------------------------------------------------------------------------

/// A program that asks where the cursor is is told the row and the column, counted from
/// one: moving to what it was told leads there.
pub proof fn law_position_is_told(g: GridView, h: GridView)
    requires
        g.wf(),
        g.rows <= 0xffff,
        g.cols <= 0xffff,
        h.rows == g.rows,
        h.cols == g.cols,
    ensures
        ({
            let row = (g.cursor_row + 1) as u16;
            let col = (g.cursor_col + 1) as u16;
            let t = h.perform(crate::screen_laws::csi(seq![row, col], 'H'));
            &&& answer(g, crate::screen_laws::csi(seq![6u16], 'n')) == ascii(
                "\x1b["@ + crate::text::decimal(row as nat) + ";"@ + crate::text::decimal(
                    col as nat,
                ) + "R"@,
            )
            &&& t.cursor_row == g.cursor_row
            &&& t.cursor_col == g.cursor_col
        }),
{
    let row = (g.cursor_row + 1) as u16;
    let col = (g.cursor_col + 1) as u16;
    assert(crate::screen_laws::csi(seq![6u16], 'n')->params[0] == seq![6u16]);
    assert(crate::screen_laws::csi(seq![row, col], 'H')->params[0] == seq![row]);
    assert(crate::screen_laws::csi(seq![row, col], 'H')->params[1] == seq![col]);
}

/// Nothing but the question for the cursor and the question for the terminal's kind is
/// answered, and neither changes the screen.
pub proof fn law_only_questions_are_answered(g: GridView, action: ActionView, n: u16)
    ensures
        !(action is Csi) ==> answer(g, action).len() == 0,
        (action matches ActionView::Csi { action: a, .. } && a != 'n' && a != 'c') ==> answer(
            g,
            action,
        ).len() == 0,
        n != 6 ==> answer(g, crate::screen_laws::csi(seq![n], 'n')).len() == 0,
        n != 0 ==> answer(g, crate::screen_laws::csi(seq![n], 'c')).len() == 0,
        answer(g, crate::screen_laws::csi(Seq::empty(), 'c')) == ascii("\x1b[?6c"@),
        g.perform(crate::screen_laws::csi(seq![n], 'n')) == g,
        g.perform(crate::screen_laws::csi(seq![n], 'c')) == g,
{
    assert(crate::screen_laws::csi(seq![n], 'n')->params[0] == seq![n]);
    assert(crate::screen_laws::csi(seq![n], 'c')->params[0] == seq![n]);
}

/// It makes no difference where what a program writes is cut: the actions of the second
/// part act on the screen that those of the first leave, and the answers follow each
/// other.
pub proof fn law_runs_add_up(g: GridView, a: Seq<ActionView>, b: Seq<ActionView>)
    ensures
        g.perform_all(a + b) == g.perform_all(a).perform_all(b),
        answers(g, a + b) == answers(g, a) + answers(g.perform_all(a), b),
    decreases b.len(),
{
    if b.len() == 0 {
        assert(a + b =~= a);
        assert(answers(g, a) + Seq::<u8>::empty() =~= answers(g, a));
    } else {
        law_runs_add_up(g, a, b.drop_last());
        assert((a + b).drop_last() =~= a + b.drop_last());
        assert((a + b).last() == b.last());
        let x = answers(g, a);
        let y = answers(g.perform_all(a), b.drop_last());
        let z = answer(g.perform_all(a).perform_all(b.drop_last()), b.last());
        assert((x + y) + z =~= x + (y + z));
    }
}

} // verus!
