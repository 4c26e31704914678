//! What a terminal shows of what the renderer writes to it.

use crate::cell::{Cell, Color, TAIL};
use crate::flags;
use crate::grid::{ActionView, GridView, RenderView};
use vstd::prelude::*;

verus! {

// ---------------------------------------------------------------------------
// Reading
// ---------------------------------------------------------------------------

/// Where the last number of the first `n` characters begins: behind a semicolon.
pub open spec fn number_start(s: Seq<char>, n: int) -> int
    decreases n,
{
    if n <= 0 || s[n - 1] == ';' {
        n
    } else {
        number_start(s, n - 1)
    }
}

/// The number that digits spell; zero where there are none.
pub open spec fn number(s: Seq<char>) -> u16 {
    match crate::text::parsed_number(s, 0xffff) {
        Some(n) => n as u16,
        None => 0,
    }
}

/// The numbers of a control sequence, which semicolons part.
pub open spec fn numbers(s: Seq<char>) -> Seq<u16>
    decreases s.len(),
{
    let k = number_start(s, s.len() as int);
    if 0 < k <= s.len() {
        numbers(s.take(k - 1)).push(number(s.skip(k)))
    } else {
        seq![number(s)]
    }
}

/// The control sequence with this text between its introducer and its last character.
pub open spec fn sequence(body: Seq<char>, action: char) -> ActionView {
    if body.len() > 0 && body[0] == '?' {
        ActionView::Csi {
            params: Seq::new(
                numbers(body.skip(1)).len(),
                |i: int| seq![numbers(body.skip(1))[i]],
            ),
            intermediates: seq![0x3fu8],
            ignore: false,
            action,
        }
    } else {
        crate::screen_laws::csi(numbers(body), action)
    }
}

/// Where the last character of a control sequence stands, from `from` on.
pub open spec fn sequence_end(t: Seq<char>, from: int) -> int
    decreases t.len() - from,
{
    if from < 0 || from >= t.len() || '@' <= t[from] <= '~' {
        from
    } else {
        sequence_end(t, from + 1)
    }
}

/// What a terminal shows that reads a text: control sequences are carried out and every
/// other character is printed.
pub open spec fn shown(g: GridView, t: Seq<char>) -> GridView
    decreases t.len(),
{
    if t.len() == 0 {
        g
    } else if t.len() >= 2 && t[0] == '\x1b' && t[1] == '[' {
        let n = sequence_end(t, 2);
        if 2 <= n < t.len() {
            shown(g.perform(sequence(t.subrange(2, n), t[n])), t.skip(n + 1))
        } else {
            g
        }
    } else {
        shown(g.perform(ActionView::Print(t[0])), t.skip(1))
    }
}

/// Reading the text takes a terminal from one state to another, whatever follows it.
#[verifier::opaque]
pub open spec fn leads(text: Seq<char>, g: GridView, h: GridView) -> bool {
    forall|rest: Seq<char>| #[trigger] shown(g, text + rest) == shown(h, rest)
}

proof fn lemma_leads_join(a: Seq<char>, b: Seq<char>, g: GridView, h: GridView, k: GridView)
    requires
        leads(a, g, h),
        leads(b, h, k),
    ensures
        leads(a + b, g, k),
{
    reveal(leads);
    assert forall|rest: Seq<char>| #[trigger] shown(g, (a + b) + rest) == shown(k, rest) by {
        assert((a + b) + rest =~= a + (b + rest));
        assert(shown(g, a + (b + rest)) == shown(h, b + rest));
    }
}

proof fn lemma_leads_nowhere(g: GridView)
    ensures
        leads(Seq::empty(), g, g),
{
    reveal(leads);
    assert forall|rest: Seq<char>| #[trigger] shown(g, Seq::<char>::empty() + rest) == shown(g, rest)
        by {
        assert(Seq::<char>::empty() + rest =~= rest);
    }
}

proof fn lemma_leads_whole(a: Seq<char>, g: GridView, h: GridView)
    requires
        leads(a, g, h),
    ensures
        shown(g, a) == h,
{
    reveal(leads);
    assert(a + Seq::<char>::empty() =~= a);
    assert(shown(g, a + Seq::<char>::empty()) == shown(h, Seq::<char>::empty()));
}

/// The characters may stand between the ends of a control sequence.
pub open spec fn inner(s: Seq<char>) -> bool {
    forall|i: int| 0 <= i < s.len() ==> #[trigger] s[i] < '@'
}

proof fn lemma_sequence_end(t: Seq<char>, from: int, end: int)
    requires
        0 <= from <= end < t.len(),
        '@' <= t[end] <= '~',
        forall|i: int| from <= i < end ==> #[trigger] t[i] < '@',
    ensures
        sequence_end(t, from) == end,
    decreases end - from,
{
    if from < end {
        lemma_sequence_end(t, from + 1, end);
    }
}

proof fn lemma_leads_sequence(body: Seq<char>, action: char, g: GridView)
    requires
        inner(body),
        '@' <= action <= '~',
    ensures
        leads("\x1b["@ + body + seq![action], g, g.perform(sequence(body, action))),
{
    reveal(leads);
    reveal_strlit("\x1b[");
    let text = "\x1b["@ + body + seq![action];
    let n = body.len() as int;
    assert forall|rest: Seq<char>| #[trigger]
        shown(g, text + rest) == shown(g.perform(sequence(body, action)), rest) by {
        let t = text + rest;
        assert(t[0] == '\x1b' && t[1] == '[');
        assert forall|i: int| 2 <= i < 2 + n implies #[trigger] t[i] < '@' by {
            assert(t[i] == body[i - 2]);
        }
        assert(t[2 + n] == action);
        lemma_sequence_end(t, 2, 2 + n);
        assert(t.subrange(2, 2 + n) =~= body);
        assert(t.skip(2 + n + 1) =~= rest);
    }
}

proof fn lemma_leads_print(c: char, g: GridView)
    requires
        c != '\x1b',
    ensures
        leads(seq![c], g, g.perform(ActionView::Print(c))),
{
    reveal(leads);
    assert forall|rest: Seq<char>| #[trigger]
        shown(g, seq![c] + rest) == shown(g.perform(ActionView::Print(c)), rest) by {
        let t = seq![c] + rest;
        assert(t[0] == c);
        assert(t.skip(1) =~= rest);
    }
}

proof fn lemma_number_start(s: Seq<char>, k: int, n: int)
    requires
        0 <= k <= n <= s.len(),
        k == 0 || s[k - 1] == ';',
        forall|i: int| k <= i < n ==> #[trigger] s[i] != ';',
    ensures
        number_start(s, n) == k,
    decreases n - k,
{
    if k < n {
        lemma_number_start(s, k, n - 1);
    }
}

/// The digits of a number are a number of a control sequence.
proof fn lemma_one_number(a: u16)
    ensures
        numbers(crate::text::decimal(a as nat)) == seq![a],
        inner(crate::text::decimal(a as nat)),
        crate::text::decimal(a as nat).len() > 0,
        crate::text::decimal(a as nat)[0] != '?',
{
    let d = crate::text::decimal(a as nat);
    crate::text::law_decimal_roundtrip(a as nat, 0xffff);
    lemma_number_start(d, 0, d.len() as int);
}

/// A semicolon and digits add a number.
proof fn lemma_more_numbers(s: Seq<char>, a: u16)
    requires
        inner(s),
        s.len() > 0,
        s[0] != '?',
    ensures
        numbers(s + ";"@ + crate::text::decimal(a as nat)) == numbers(s).push(a),
        inner(s + ";"@ + crate::text::decimal(a as nat)),
        (s + ";"@ + crate::text::decimal(a as nat))[0] != '?',
{
    let d = crate::text::decimal(a as nat);
    reveal_strlit(";");
    crate::text::law_decimal_roundtrip(a as nat, 0xffff);
    let t = s + ";"@ + d;
    let k = s.len() as int + 1;
    assert(t[k - 1] == ';');
    assert forall|i: int| k <= i < t.len() implies #[trigger] t[i] != ';' by {
        assert(t[i] == d[i - k]);
    }
    lemma_number_start(t, k, t.len() as int);
    assert(t.take(k - 1) =~= s);
    assert(t.skip(k) =~= d);
    assert forall|i: int| 0 <= i < t.len() implies #[trigger] t[i] < '@' by {
        if i < s.len() {
            assert(t[i] == s[i]);
        } else if i >= k {
            assert(t[i] == d[i - k]);
        }
    }
}

// ---------------------------------------------------------------------------
// Attributes and colors
// ---------------------------------------------------------------------------

/// The attributes that a terminal is told of: a predicted character is underlined, and
/// neither hidden nor struck-out characters are told apart.
pub open spec fn drawn_flags(f: u8) -> u8 {
    (f & (flags::BOLD | flags::DIM | flags::ITALIC | flags::REVERSE)) | (if f & (flags::UNDERLINE
        | flags::PREDICTED) != 0 {
        flags::UNDERLINE
    } else {
        0
    })
}

/// The pen with which a cell is drawn.
pub open spec fn style(c: Cell) -> Cell {
    Cell { ch: ' ', fg: c.fg, bg: c.bg, flags: drawn_flags(c.flags) }
}

/// The pen after codes that are no colors by number.
spec fn penned(pen: Cell, codes: Seq<u16>) -> Cell
    decreases codes.len(),
{
    if codes.len() == 0 {
        pen
    } else {
        crate::grid::simple_sgr(penned(pen, codes.drop_last()), codes.last())
    }
}

spec fn simple(codes: Seq<u16>) -> bool {
    forall|i: int| 0 <= i < codes.len() ==> #[trigger] codes[i] != 38 && codes[i] != 48
}

spec fn params(codes: Seq<u16>) -> Seq<Seq<u16>> {
    Seq::new(codes.len(), |i: int| seq![codes[i]])
}

/// Simple codes at the front are carried out one by one.
proof fn lemma_simple_first(pen: Cell, codes: Seq<u16>, m: int)
    requires
        0 <= m <= codes.len(),
        simple(codes.take(m)),
    ensures
        crate::grid::sgr_from(pen, params(codes), 0) == crate::grid::sgr_from(
            penned(pen, codes.take(m)),
            params(codes),
            m,
        ),
    decreases m,
{
    if m > 0 {
        assert(codes.take(m).drop_last() =~= codes.take(m - 1));
        assert forall|i: int| 0 <= i < m - 1 implies #[trigger] codes.take(m - 1)[i] != 38 && codes.take(
            m - 1,
        )[i] != 48 by {
            assert(codes.take(m)[i] == codes.take(m - 1)[i]);
        }
        lemma_simple_first(pen, codes, m - 1);
        assert(codes.take(m)[m - 1] == codes[m - 1]);
        assert(params(codes)[m - 1] == seq![codes[m - 1]]);
    }
}

/// The codes that name a color.
spec fn color_codes(kind: u16, c: Color) -> Seq<u16> {
    match c {
        Color::Default => Seq::empty(),
        Color::Indexed(n) => seq![kind, 5u16, n as u16],
        Color::Rgb(r, g, b) => seq![kind, 2u16, r as u16, g as u16, b as u16],
    }
}

spec fn with_color(pen: Cell, kind: u16, c: Color) -> Cell {
    if c == Color::Default {
        pen
    } else if kind == 38 {
        Cell { fg: c, ..pen }
    } else {
        Cell { bg: c, ..pen }
    }
}

/// The codes of a color set it and are passed over.
proof fn lemma_color_codes(pen: Cell, front: Seq<u16>, kind: u16, c: Color, back: Seq<u16>)
    requires
        kind == 38 || kind == 48,
    ensures
        ({
            let codes = front + color_codes(kind, c) + back;
            crate::grid::sgr_from(pen, params(codes), front.len() as int)
                == crate::grid::sgr_from(
                with_color(pen, kind, c),
                params(codes),
                (front.len() + color_codes(kind, c).len()) as int,
            )
        }),
{
    let codes = front + color_codes(kind, c) + back;
    let m = front.len() as int;
    match c {
        Color::Default => {},
        Color::Indexed(n) => {
            assert(params(codes)[m] == seq![kind]);
            assert(params(codes)[m + 1] == seq![5u16]);
            assert(params(codes)[m + 2] == seq![n as u16]);
            assert(crate::grid::byte_of(n as u16) == n);
        },
        Color::Rgb(r, g, b) => {
            assert(params(codes)[m] == seq![kind]);
            assert(params(codes)[m + 1] == seq![2u16]);
            assert(params(codes)[m + 2] == seq![r as u16]);
            assert(params(codes)[m + 3] == seq![g as u16]);
            assert(params(codes)[m + 4] == seq![b as u16]);
        },
    }
}

/// A code, if any of the attributes `mask` is set.
spec fn if_set(f: u8, mask: u8, code: u16) -> Seq<u16> {
    if f & mask != 0 {
        seq![code]
    } else {
        Seq::empty()
    }
}

spec fn head_codes(f: u8) -> Seq<u16> {
    seq![0u16] + if_set(f, flags::BOLD, 1) + if_set(f, flags::DIM, 2) + if_set(f, flags::ITALIC, 3)
        + if_set(f, flags::UNDERLINE | flags::PREDICTED, 4) + if_set(f, flags::REVERSE, 7)
}

proof fn lemma_penned_more(pen: Cell, codes: Seq<u16>, f: u8, mask: u8, code: u16)
    requires
        simple(codes),
        code != 38,
        code != 48,
    ensures
        simple(codes + if_set(f, mask, code)),
        penned(pen, codes + if_set(f, mask, code)) == if f & mask != 0 {
            crate::grid::simple_sgr(penned(pen, codes), code)
        } else {
            penned(pen, codes)
        },
{
    let more = codes + if_set(f, mask, code);
    if f & mask != 0 {
        assert(more.drop_last() =~= codes);
        assert(more.last() == code);
        assert forall|i: int| 0 <= i < more.len() implies #[trigger] more[i] != 38 && more[i] != 48 by {
            if i < codes.len() {
                assert(more[i] == codes[i]);
            }
        }
    } else {
        assert(more =~= codes);
    }
}

proof fn lemma_head_codes(pen: Cell, f: u8)
    ensures
        simple(head_codes(f)),
        penned(pen, head_codes(f)) == (Cell {
            flags: drawn_flags(f),
            ..crate::cell::blank_cell()
        }),
{
    let c0 = seq![0u16];
    let c1 = c0 + if_set(f, flags::BOLD, 1);
    let c2 = c1 + if_set(f, flags::DIM, 2);
    let c3 = c2 + if_set(f, flags::ITALIC, 3);
    let c4 = c3 + if_set(f, flags::UNDERLINE | flags::PREDICTED, 4);
    assert(c0.drop_last() =~= Seq::<u16>::empty());
    assert(penned(pen, c0.drop_last()) == pen);
    lemma_penned_more(pen, c0, f, flags::BOLD, 1);
    lemma_penned_more(pen, c1, f, flags::DIM, 2);
    lemma_penned_more(pen, c2, f, flags::ITALIC, 3);
    lemma_penned_more(pen, c3, f, flags::UNDERLINE | flags::PREDICTED, 4);
    lemma_penned_more(pen, c4, f, flags::REVERSE, 7);
    let f1: u8 = if f & 0x01u8 != 0 { 0u8 | 0x01u8 } else { 0u8 };
    let f2: u8 = if f & 0x10u8 != 0 { f1 | 0x10u8 } else { f1 };
    let f3: u8 = if f & 0x08u8 != 0 { f2 | 0x08u8 } else { f2 };
    let f4: u8 = if f & (0x02u8 | 0x80u8) != 0 { f3 | 0x02u8 } else { f3 };
    let f5: u8 = if f & 0x04u8 != 0 { f4 | 0x04u8 } else { f4 };
    assert(f5 == ((f & (0x01u8 | 0x10u8 | 0x08u8 | 0x04u8)) | (if f & (0x02u8 | 0x80u8) != 0 {
        0x02u8
    } else {
        0u8
    }))) by (bit_vector)
        requires
            f1 == if f & 0x01u8 != 0 { 0u8 | 0x01u8 } else { 0u8 },
            f2 == if f & 0x10u8 != 0 { f1 | 0x10u8 } else { f1 },
            f3 == if f & 0x08u8 != 0 { f2 | 0x08u8 } else { f2 },
            f4 == if f & (0x02u8 | 0x80u8) != 0 { f3 | 0x02u8 } else { f3 },
            f5 == if f & 0x04u8 != 0 { f4 | 0x04u8 } else { f4 },
    ;
    assert(penned(pen, c1) == (Cell { flags: f1, ..crate::cell::blank_cell() }));
    assert(penned(pen, c2) == (Cell { flags: f2, ..crate::cell::blank_cell() }));
    assert(penned(pen, c3) == (Cell { flags: f3, ..crate::cell::blank_cell() }));
    assert(penned(pen, c4) == (Cell { flags: f4, ..crate::cell::blank_cell() }));
}

/// The codes of a selection select the style.
proof fn lemma_style_codes(pen: Cell, c: Cell)
    ensures
        crate::grid::sgr(
            pen,
            params(head_codes(c.flags) + color_codes(38, c.fg) + color_codes(48, c.bg)),
        ) == style(c),
{
    let h = head_codes(c.flags);
    let fg = color_codes(38, c.fg);
    let bg = color_codes(48, c.bg);
    let codes = h + fg + bg;
    let m = h.len() as int;
    lemma_head_codes(pen, c.flags);
    assert(codes.take(m) =~= h);
    lemma_simple_first(pen, codes, m);
    lemma_color_codes(penned(pen, h), h, 38, c.fg, bg);
    assert(codes =~= (h + fg) + bg + Seq::<u16>::empty());
    let half = with_color(penned(pen, h), 38, c.fg);
    lemma_color_codes(half, h + fg, 48, c.bg, Seq::empty());
    assert(params(codes).len() == codes.len());
}

/// The text spells these numbers.
#[verifier::opaque]
spec fn spells(s: Seq<char>, codes: Seq<u16>) -> bool {
    inner(s) && s.len() > 0 && s[0] != '?' && numbers(s) == codes
}

proof fn lemma_spells_more(s: Seq<char>, codes: Seq<u16>, a: u16)
    requires
        spells(s, codes),
    ensures
        spells(s + ";"@ + crate::text::decimal(a as nat), codes.push(a)),
{
    reveal(spells);
    lemma_more_numbers(s, a);
}

/// The numbers that stand in the renderer's texts.
proof fn lemma_small_numbers()
    ensures
        "0"@ == crate::text::decimal(0),
        ";1"@ == ";"@ + crate::text::decimal(1),
        ";2"@ == ";"@ + crate::text::decimal(2),
        ";3"@ == ";"@ + crate::text::decimal(3),
        ";4"@ == ";"@ + crate::text::decimal(4),
        ";7"@ == ";"@ + crate::text::decimal(7),
        ";5;"@ == ";"@ + crate::text::decimal(5) + ";"@,
        ";2;"@ == ";"@ + crate::text::decimal(2) + ";"@,
        "38"@ == crate::text::decimal(38),
        "48"@ == crate::text::decimal(48),
        "\x1b[0"@ == "\x1b["@ + crate::text::decimal(0),
        "m"@ == seq!['m'],
{
    reveal_strlit("0");
    reveal_strlit("\x1b[");
    reveal_strlit("\x1b[0");
    reveal_strlit(";");
    reveal_strlit(";1");
    reveal_strlit(";2");
    reveal_strlit(";3");
    reveal_strlit(";4");
    reveal_strlit(";7");
    reveal_strlit(";5;");
    reveal_strlit(";2;");
    reveal_strlit("38");
    reveal_strlit("48");
    reveal_strlit("m");
    reveal_with_fuel(crate::text::decimal, 2);
    assert("0"@ =~= crate::text::decimal(0));
    assert(";1"@ =~= ";"@ + crate::text::decimal(1));
    assert(";2"@ =~= ";"@ + crate::text::decimal(2));
    assert(";3"@ =~= ";"@ + crate::text::decimal(3));
    assert(";4"@ =~= ";"@ + crate::text::decimal(4));
    assert(";7"@ =~= ";"@ + crate::text::decimal(7));
    assert(";5;"@ =~= ";"@ + crate::text::decimal(5) + ";"@);
    assert(";2;"@ =~= ";"@ + crate::text::decimal(2) + ";"@);
    assert("38"@ =~= crate::text::decimal(38));
    assert("48"@ =~= crate::text::decimal(48));
    assert("\x1b[0"@ =~= "\x1b["@ + crate::text::decimal(0));
    assert("m"@ =~= seq!['m']);
}

proof fn lemma_spells_attribute(
    s: Seq<char>,
    codes: Seq<u16>,
    f: u8,
    mask: u8,
    text: Seq<char>,
    code: u16,
)
    requires
        spells(s, codes),
        text == ";"@ + crate::text::decimal(code as nat),
    ensures
        spells(s + crate::tty::attribute(f, mask, text), codes + if_set(f, mask, code)),
{
    if f & mask != 0 {
        lemma_spells_more(s, codes, code);
        assert(s + text =~= s + ";"@ + crate::text::decimal(code as nat));
        assert(codes.push(code) =~= codes + seq![code]);
    } else {
        assert(s + Seq::<char>::empty() =~= s);
        assert(codes + Seq::<u16>::empty() =~= codes);
    }
}

proof fn lemma_spells_color(s: Seq<char>, codes: Seq<u16>, kind: Seq<char>, code: u16, c: Color)
    requires
        spells(s, codes),
        kind == crate::text::decimal(code as nat),
    ensures
        spells(s + crate::tty::color_text(kind, c), codes + color_codes(code, c)),
{
    lemma_small_numbers();
    match c {
        Color::Default => {
            assert(s + Seq::<char>::empty() =~= s);
            assert(codes + Seq::<u16>::empty() =~= codes);
        },
        Color::Indexed(n) => {
            let d = crate::text::decimal(n as nat);
            let s1 = s + ";"@ + kind;
            let s2 = s1 + ";"@ + crate::text::decimal(5);
            lemma_spells_more(s, codes, code);
            lemma_spells_more(s1, codes.push(code), 5);
            lemma_spells_more(s2, codes.push(code).push(5), n as u16);
            assert(s + (";"@ + kind + ";5;"@ + d) =~= s2 + ";"@ + d);
            assert(codes.push(code).push(5).push(n as u16) =~= codes + color_codes(code, c));
        },
        Color::Rgb(r, g, b) => {
            let dr = crate::text::decimal(r as nat);
            let dg = crate::text::decimal(g as nat);
            let db = crate::text::decimal(b as nat);
            let s1 = s + ";"@ + kind;
            let s2 = s1 + ";"@ + crate::text::decimal(2);
            let s3 = s2 + ";"@ + dr;
            let s4 = s3 + ";"@ + dg;
            lemma_spells_more(s, codes, code);
            lemma_spells_more(s1, codes.push(code), 2);
            lemma_spells_more(s2, codes.push(code).push(2), r as u16);
            lemma_spells_more(s3, codes.push(code).push(2).push(r as u16), g as u16);
            lemma_spells_more(s4, codes.push(code).push(2).push(r as u16).push(g as u16), b as u16);
            assert(s + (";"@ + kind + ";2;"@ + dr + ";"@ + dg + ";"@ + db) =~= s4 + ";"@ + db);
            assert(codes.push(code).push(2).push(r as u16).push(g as u16).push(b as u16) =~= codes
                + color_codes(code, c));
        },
    }
}

proof fn lemma_assoc(a: Seq<char>, b: Seq<char>, c: Seq<char>)
    ensures
        a + (b + c) == (a + b) + c,
{
    assert(a + (b + c) =~= (a + b) + c);
}

/// What stands between the ends of a selection.
spec fn style_body(c: Cell) -> Seq<char> {
    let f = c.flags;
    crate::text::decimal(0) + crate::tty::attribute(f, flags::BOLD, ";1"@) + crate::tty::attribute(
        f,
        flags::DIM,
        ";2"@,
    ) + crate::tty::attribute(f, flags::ITALIC, ";3"@) + crate::tty::attribute(
        f,
        flags::UNDERLINE | flags::PREDICTED,
        ";4"@,
    ) + crate::tty::attribute(f, flags::REVERSE, ";7"@) + crate::tty::color_text("38"@, c.fg)
        + crate::tty::color_text("48"@, c.bg)
}

spec fn style_codes(c: Cell) -> Seq<u16> {
    head_codes(c.flags) + color_codes(38, c.fg) + color_codes(48, c.bg)
}

proof fn lemma_style_spelled(c: Cell)
    ensures
        spells(style_body(c), style_codes(c)),
        "\x1b["@ + style_body(c) + seq!['m'] == crate::tty::sgr(c.flags, c.fg, c.bg),
{
    lemma_small_numbers();
    let f = c.flags;
    let a1 = crate::tty::attribute(f, flags::BOLD, ";1"@);
    let a2 = crate::tty::attribute(f, flags::DIM, ";2"@);
    let a3 = crate::tty::attribute(f, flags::ITALIC, ";3"@);
    let a4 = crate::tty::attribute(f, flags::UNDERLINE | flags::PREDICTED, ";4"@);
    let a5 = crate::tty::attribute(f, flags::REVERSE, ";7"@);
    let a6 = crate::tty::color_text("38"@, c.fg);
    let a7 = crate::tty::color_text("48"@, c.bg);
    let s0 = crate::text::decimal(0);
    let s1 = s0 + a1;
    let s2 = s1 + a2;
    let s3 = s2 + a3;
    let s4 = s3 + a4;
    let s5 = s4 + a5;
    let s6 = s5 + a6;
    let c0 = seq![0u16];
    let c1 = c0 + if_set(f, flags::BOLD, 1);
    let c2 = c1 + if_set(f, flags::DIM, 2);
    let c3 = c2 + if_set(f, flags::ITALIC, 3);
    let c4 = c3 + if_set(f, flags::UNDERLINE | flags::PREDICTED, 4);
    let h = head_codes(f);
    lemma_one_number(0);
    assert(spells(s0, c0)) by {
        reveal(spells);
    }
    lemma_spells_attribute(s0, c0, f, flags::BOLD, ";1"@, 1);
    lemma_spells_attribute(s1, c1, f, flags::DIM, ";2"@, 2);
    lemma_spells_attribute(s2, c2, f, flags::ITALIC, ";3"@, 3);
    lemma_spells_attribute(s3, c3, f, flags::UNDERLINE | flags::PREDICTED, ";4"@, 4);
    lemma_spells_attribute(s4, c4, f, flags::REVERSE, ";7"@, 7);
    lemma_spells_color(s5, h, "38"@, 38, c.fg);
    lemma_spells_color(s6, h + color_codes(38, c.fg), "48"@, 48, c.bg);
    let p = "\x1b["@;
    lemma_assoc(p, s0, a1);
    lemma_assoc(p, s1, a2);
    lemma_assoc(p, s2, a3);
    lemma_assoc(p, s3, a4);
    lemma_assoc(p, s4, a5);
    lemma_assoc(p, s5, a6);
    lemma_assoc(p, s6, a7);
}

/// The selection that is written for a cell gives the terminal the cell's style.
proof fn lemma_leads_style(c: Cell, g: GridView)
    ensures
        leads(crate::tty::sgr(c.flags, c.fg, c.bg), g, GridView { pen: style(c), ..g }),
{
    let body = style_body(c);
    let codes = style_codes(c);
    lemma_style_spelled(c);
    assert(inner(body) && body[0] != '?' && numbers(body) == codes) by {
        reveal(spells);
    }
    lemma_leads_sequence(body, 'm', g);
    lemma_style_codes(g.pen, c);
    assert(crate::screen_laws::csi(codes, 'm')->params =~= params(codes));
}

/// Moving to a place by its numbers, from one.
proof fn lemma_leads_move(row: int, col: int, g: GridView)
    requires
        0 <= row < g.rows <= 0xffff,
        0 <= col < g.cols <= 0xffff,
    ensures
        leads(
            "\x1b["@ + crate::text::decimal((row + 1) as nat) + ";"@ + crate::text::decimal(
                (col + 1) as nat,
            ) + "H"@,
            g,
            GridView { cursor_row: row, cursor_col: col, wrap_pending: false, ..g },
        ),
{
    reveal_strlit("H");
    let r = (row + 1) as u16;
    let c = (col + 1) as u16;
    let s = crate::text::decimal(r as nat);
    let body = s + ";"@ + crate::text::decimal(c as nat);
    lemma_one_number(r);
    lemma_more_numbers(s, c);
    lemma_leads_sequence(body, 'H', g);
    assert("\x1b["@ + body + seq!['H'] =~= "\x1b["@ + crate::text::decimal((row + 1) as nat) + ";"@
        + crate::text::decimal((col + 1) as nat) + "H"@);
    assert(numbers(body) =~= seq![r, c]);
    let p = crate::screen_laws::csi(seq![r, c], 'H')->params;
    assert(p[0] == seq![r] && p[1] == seq![c]);
}

proof fn lemma_leads_clear_line(g: GridView)
    ensures
        leads("\x1b[2K"@, g, g.erase_in_line(2)),
{
    reveal_strlit("\x1b[");
    reveal_strlit("\x1b[2K");
    reveal_with_fuel(crate::text::decimal, 2);
    lemma_one_number(2);
    lemma_leads_sequence(crate::text::decimal(2), 'K', g);
    assert("\x1b["@ + crate::text::decimal(2) + seq!['K'] =~= "\x1b[2K"@);
    assert(crate::screen_laws::csi(seq![2u16], 'K')->params[0] == seq![2u16]);
}

proof fn lemma_leads_plain_pen(g: GridView)
    ensures
        leads("\x1b[0m"@, g, GridView { pen: crate::cell::blank_cell(), ..g }),
{
    reveal_strlit("\x1b[");
    reveal_strlit("\x1b[0m");
    reveal_with_fuel(crate::text::decimal, 2);
    lemma_one_number(0);
    lemma_leads_sequence(crate::text::decimal(0), 'm', g);
    assert("\x1b["@ + crate::text::decimal(0) + seq!['m'] =~= "\x1b[0m"@);
    let p = crate::screen_laws::csi(seq![0u16], 'm')->params;
    assert(p[0] == seq![0u16]);
    reveal_with_fuel(crate::grid::sgr_from, 2);
}

proof fn lemma_leads_visibility(visible: bool, g: GridView)
    ensures
        leads(
            if visible {
                "\x1b[?25h"@
            } else {
                "\x1b[?25l"@
            },
            g,
            GridView { cursor_visible: visible, ..g },
        ),
{
    reveal_strlit("\x1b[");
    reveal_strlit("\x1b[?25h");
    reveal_strlit("\x1b[?25l");
    let d = crate::text::decimal(25);
    assert(d =~= seq!['2', '5']) by {
        reveal_with_fuel(crate::text::decimal, 3);
    }
    lemma_one_number(25);
    let body = seq!['?'] + d;
    assert(body.skip(1) =~= d);
    let action = if visible {
        'h'
    } else {
        'l'
    };
    lemma_leads_sequence(body, action, g);
    assert("\x1b["@ + body + seq![action] =~= if visible {
        "\x1b[?25h"@
    } else {
        "\x1b[?25l"@
    });
    assert(numbers(body.skip(1)) == seq![25u16]);
    assert(sequence(body, action)->params[0] == seq![25u16]);
}

// ---------------------------------------------------------------------------
// Rows
// ---------------------------------------------------------------------------

/// The character can stand in a cell that is painted: it is no control character.
pub open spec fn paintable(c: char) -> bool {
    c == TAIL || (' ' <= c && !('\x7f' <= c <= '\u{9f}'))
}

/// The character takes two cells, and both are there for it.
pub open spec fn whole(row: Seq<Cell>, c: int) -> bool {
    0 <= c && c + 1 < row.len() && row[c].ch != TAIL && crate::cell::cells_for(row[c].ch) == 2
        && row[c + 1].ch == TAIL
}

/// The terminal's cell shows what is painted in column `c` of a row, in its style: the
/// character if it takes one cell, or two that are both there. The second of the two
/// belongs to the first. What else stands there is shown as a blank.
pub open spec fn shows_cell(row: Seq<Cell>, c: int, cell: Cell) -> bool {
    if whole(row, c - 1) {
        cell.ch == TAIL
    } else if row[c].ch != TAIL && (crate::cell::cells_for(row[c].ch) == 1 || whole(row, c)) {
        cell == Cell { ch: row[c].ch, ..style(row[c]) }
    } else {
        cell == style(row[c])
    }
}

/// The column behind the first `n` cells, once both halves of a character are drawn.
spec fn next_column(row: Seq<Cell>, n: int) -> int {
    if whole(row, n - 1) {
        n + 1
    } else {
        n
    }
}

/// The screen `t` is `g` with the first `n` cells of row `r` drawn.
spec fn row_drawn(g: GridView, t: GridView, r: int, row: Seq<Cell>, n: int) -> bool {
    let start = r * g.cols;
    let next = next_column(row, n);
    &&& t == GridView {
        cells: t.cells,
        pen: t.pen,
        cursor_col: t.cursor_col,
        wrap_pending: t.wrap_pending,
        ..g
    }
    &&& t.cells.len() == g.cells.len()
    &&& forall|i: int|
        0 <= i < g.cells.len() && !(start <= i < start + g.cols) ==> #[trigger] t.cells[i]
            == g.cells[i]
    &&& forall|c: int| 0 <= c < n ==> #[trigger] shows_cell(row, c, t.cells[start + c])
    &&& whole(row, n - 1) ==> t.cells[start + n].ch == TAIL
    &&& next < g.cols ==> t.cursor_col == next && !t.wrap_pending
    &&& next >= g.cols ==> t.cursor_col == g.cols - 1
}

/// Printing what is written for the next cell draws it.
proof fn lemma_glyph_drawn(g: GridView, t: GridView, r: int, row: Seq<Cell>, n: int) -> (u: GridView)
    requires
        g.wf(),
        0 <= r < g.rows,
        g.cursor_row == r,
        row.len() == g.cols,
        0 <= n < g.cols,
        paintable(row[n].ch),
        row_drawn(g, t, r, row, n),
        t.pen == style(row[n]),
    ensures
        leads(crate::tty::glyph(row, n), t, u),
        row_drawn(g, u, r, row, n + 1),
        u.pen == t.pen,
{
    let gl = crate::tty::glyph(row, n);
    let start = r * g.cols;
    crate::grid::lemma_index_bound(r, n, g.rows, g.cols);
    if gl.len() == 0 {
        lemma_leads_nowhere(t);
        assert(gl =~= Seq::<char>::empty());
        assert(shows_cell(row, n, t.cells[start + n]));
        t
    } else {
        let ch = gl[0];
        let u = t.perform(ActionView::Print(ch));
        assert(gl =~= seq![ch]);
        lemma_leads_print(ch, t);
        assert(t.cursor() == start + n);
        if ch == row[n].ch && crate::cell::cells_for(ch) == 2 {
            crate::grid::lemma_index_bound(r, n + 1, g.rows, g.cols);
            assert(u.cells == t.cells.update(start + n, Cell { ch, ..t.pen }).update(
                start + n + 1,
                Cell { ch: TAIL, ..t.pen },
            ));
        } else {
            assert(crate::cell::cells_for(ch) == 1);
            assert(u.cells == t.cells.update(start + n, Cell { ch, ..t.pen }));
        }
        assert(shows_cell(row, n, u.cells[start + n]));
        assert forall|c: int| 0 <= c < n + 1 implies #[trigger] shows_cell(row, c, u.cells[start + c])
            by {
            if c < n {
                assert(shows_cell(row, c, t.cells[start + c]));
            }
        }
        u
    }
}

/// What is written for the first cells of a row draws them.
proof fn lemma_cells_drawn(g: GridView, r: int, row: Seq<Cell>, n: int) -> (u: GridView)
    requires
        g.wf(),
        0 <= r < g.rows,
        g.cursor_row == r,
        g.cursor_col == 0,
        !g.wrap_pending,
        row.len() == g.cols,
        0 <= n <= g.cols,
        forall|c: int| 0 <= c < row.len() ==> paintable((#[trigger] row[c]).ch),
    ensures
        leads(crate::tty::cells_text(row, n), g, u),
        row_drawn(g, u, r, row, n),
        n > 0 ==> u.pen == style(row[n - 1]),
    decreases n,
{
    if n == 0 {
        lemma_leads_nowhere(g);
        g
    } else {
        let t = lemma_cells_drawn(g, r, row, n - 1);
        let c = row[n - 1];
        let before = crate::tty::cells_text(row, n - 1);
        let gl = crate::tty::glyph(row, n - 1);
        if n > 1 && crate::tty::same_style(c, row[n - 2]) {
            let u = lemma_glyph_drawn(g, t, r, row, n - 1);
            lemma_leads_join(before, gl, g, t, u);
            u
        } else {
            let pen = crate::tty::sgr(c.flags, c.fg, c.bg);
            let styled = GridView { pen: style(c), ..t };
            lemma_leads_style(c, t);
            lemma_leads_join(before, pen, g, t, styled);
            let u = lemma_glyph_drawn(g, styled, r, row, n - 1);
            lemma_leads_join(before + pen, gl, g, styled, u);
            u
        }
    }
}

/// The screen `t` is `g` but for the cells, the pen and the cursor's place.
spec fn same_modes(g: GridView, t: GridView) -> bool {
    &&& t == GridView {
        cells: t.cells,
        pen: t.pen,
        cursor_row: t.cursor_row,
        cursor_col: t.cursor_col,
        wrap_pending: t.wrap_pending,
        ..g
    }
    &&& t.cells.len() == g.cells.len()
    &&& 0 <= t.cursor_row < g.rows
    &&& 0 <= t.cursor_col < g.cols
}

/// What is written for a row draws it and leaves the others.
proof fn lemma_row_drawn(g: GridView, p: RenderView, r: int) -> (u: GridView)
    requires
        g.wf(),
        p.rows == g.rows <= 0xffff,
        p.cols == g.cols <= 0xffff,
        0 <= r < g.rows,
        forall|c: int| 0 <= c < g.cols ==> paintable((#[trigger] crate::tty::row_of(p, r)[c]).ch),
    ensures
        leads(crate::tty::row_text(p, r), g, u),
        same_modes(g, u),
        forall|c: int|
            0 <= c < g.cols ==> shows_cell(crate::tty::row_of(p, r), c, #[trigger] u.at(r, c)),
        forall|k: int, c: int|
            0 <= k < g.rows && 0 <= c < g.cols && k != r ==> #[trigger] u.at(k, c) == g.at(k, c),
{
    let row = crate::tty::row_of(p, r);
    let at = GridView { cursor_row: r, cursor_col: 0, wrap_pending: false, ..g };
    let clear = at.erase_in_line(2);
    let d = crate::text::decimal((r + 1) as nat);
    let text = crate::tty::cells_text(row, p.cols);
    crate::grid::lemma_index_bound(r, 0, g.rows, g.cols);
    lemma_leads_move(r, 0, g);
    lemma_leads_clear_line(at);
    let u = lemma_cells_drawn(clear, r, row, g.cols);
    let done = GridView { pen: crate::cell::blank_cell(), ..u };
    lemma_leads_plain_pen(u);
    let go = "\x1b["@ + d + ";"@ + crate::text::decimal(1) + "H"@;
    lemma_leads_join(go, "\x1b[2K"@, g, at, clear);
    lemma_leads_join(go + "\x1b[2K"@, text, g, clear, u);
    lemma_leads_join(go + "\x1b[2K"@ + text, "\x1b[0m"@, g, u, done);
    assert("\x1b["@ + d + ";1H\x1b[2K"@ =~= go + "\x1b[2K"@) by {
        reveal_strlit(";");
        reveal_strlit("H");
        reveal_strlit("\x1b[2K");
        reveal_strlit(";1H\x1b[2K");
        assert(crate::text::decimal(1) =~= seq!['1']);
    }
    assert forall|c: int| 0 <= c < g.cols implies shows_cell(row, c, #[trigger] done.at(r, c)) by {
        assert(shows_cell(row, c, u.cells[r * g.cols + c]));
    }
    assert forall|k: int, c: int| 0 <= k < g.rows && 0 <= c < g.cols && k != r implies #[trigger]
        done.at(k, c) == g.at(k, c) by {
        crate::grid::lemma_index_bound(k, c, g.rows, g.cols);
        crate::screen_laws::lemma_place_order(k, c, r, 0, g.cols);
        crate::screen_laws::lemma_place_order(k, c, r, g.cols, g.cols);
        assert(clear.cells[k * g.cols + c] == g.cells[k * g.cols + c]);
    }
    done
}

/// What is written for the rows that changed draws them and leaves the others.
proof fn lemma_rows_drawn(last: Option<RenderView>, g: GridView, p: RenderView, n: int) -> (u:
    GridView)
    requires
        g.wf(),
        p.rows == g.rows <= 0xffff,
        p.cols == g.cols <= 0xffff,
        0 <= n <= g.rows,
        forall|r: int, c: int|
            0 <= r < g.rows && 0 <= c < g.cols ==> paintable(
                (#[trigger] crate::tty::row_of(p, r)[c]).ch,
            ),
    ensures
        leads(crate::tty::rows_text(last, p, n), g, u),
        same_modes(g, u),
        forall|r: int, c: int|
            0 <= r < g.rows && 0 <= c < g.cols ==> if r < n && crate::tty::row_changed(last, p, r) {
                shows_cell(crate::tty::row_of(p, r), c, #[trigger] u.at(r, c))
            } else {
                u.at(r, c) == g.at(r, c)
            },
    decreases n,
{
    if n == 0 {
        lemma_leads_nowhere(g);
        g
    } else {
        let t = lemma_rows_drawn(last, g, p, n - 1);
        if crate::tty::row_changed(last, p, n - 1) {
            assert forall|c: int| 0 <= c < g.cols implies paintable(
                (#[trigger] crate::tty::row_of(p, n - 1)[c]).ch,
            ) by {}
            let u = lemma_row_drawn(t, p, n - 1);
            lemma_leads_join(
                crate::tty::rows_text(last, p, n - 1),
                crate::tty::row_text(p, n - 1),
                g,
                t,
                u,
            );
            assert forall|r: int, c: int| 0 <= r < g.rows && 0 <= c < g.cols implies if r < n
                && crate::tty::row_changed(last, p, r) {
                shows_cell(crate::tty::row_of(p, r), c, #[trigger] u.at(r, c))
            } else {
                u.at(r, c) == g.at(r, c)
            } by {
                if r != n - 1 {
                    assert(u.at(r, c) == t.at(r, c));
                }
            }
            u
        } else {
            t
        }
    }
}

// ---------------------------------------------------------------------------
// Laws
// ---------------------------------------------------------------------------

/// The terminal shows a frame: its size, every cell of it, and the cursor in its place,
/// visible or hidden as it is to be.
pub open spec fn shows(t: GridView, p: RenderView) -> bool {
    &&& t.rows == p.rows
    &&& t.cols == p.cols
    &&& forall|r: int, c: int|
        0 <= r < p.rows && 0 <= c < p.cols ==> shows_cell(
            crate::tty::row_of(p, r),
            c,
            #[trigger] t.at(r, c),
        )
    &&& t.cursor_row == p.cursor_row
    &&& t.cursor_col == p.cursor_col
    &&& t.cursor_visible == p.cursor_visible
}

/// A frame that can be painted: as large as a terminal can be, with its cursor on it and
/// no control characters in its cells.
pub open spec fn paintable_frame(p: RenderView) -> bool {
    &&& 1 <= p.rows <= 0xffff
    &&& 1 <= p.cols <= 0xffff
    &&& p.cells.len() == p.rows * p.cols
    &&& 0 <= p.cursor_row < p.rows
    &&& 0 <= p.cursor_col < p.cols
    &&& forall|i: int| 0 <= i < p.cells.len() ==> paintable((#[trigger] p.cells[i]).ch)
}

/// A terminal that shows the last frame and reads what is written for the next one shows
/// the next one. One that shows anything shows the frame that is painted first, or first
/// in another size.
pub proof fn law_terminal_shows_frame(t: GridView, last: Option<RenderView>, p: RenderView)
    requires
        paintable_frame(p),
        t.wf(),
        t.rows == p.rows,
        t.cols == p.cols,
        last matches Some(l) ==> (l.rows != p.rows || l.cols != p.cols || shows(t, l)),
    ensures
        shows(shown(t, crate::tty::frame(last, p)), p),
        shown(t, crate::tty::frame(last, p)).cells.len() == p.cells.len(),
{
    assert forall|r: int, c: int| 0 <= r < p.rows && 0 <= c < p.cols implies paintable(
        (#[trigger] crate::tty::row_of(p, r)[c]).ch,
    ) by {
        crate::grid::lemma_index_bound(r, c, p.rows, p.cols);
    }
    let text = crate::tty::frame(last, p);
    let go = crate::tty::cursor_text(p);
    if crate::tty::any_changed(last, p, p.rows) {
        let hidden = GridView { cursor_visible: false, ..t };
        lemma_leads_visibility(false, t);
        let rows = crate::tty::rows_text(last, p, p.rows);
        let u = lemma_rows_drawn(last, hidden, p, p.rows);
        lemma_leads_join("\x1b[?25l"@, rows, t, hidden, u);
        lemma_leads_move(p.cursor_row, p.cursor_col, u);
        let v = GridView {
            cursor_row: p.cursor_row,
            cursor_col: p.cursor_col,
            wrap_pending: false,
            ..u
        };
        lemma_leads_join("\x1b[?25l"@ + rows, go, t, u, v);
        let w = GridView { cursor_visible: p.cursor_visible, ..v };
        if p.cursor_visible {
            lemma_leads_visibility(true, v);
            lemma_leads_join("\x1b[?25l"@ + rows + go, "\x1b[?25h"@, t, v, w);
        } else {
            lemma_leads_nowhere(v);
            lemma_leads_join("\x1b[?25l"@ + rows + go, Seq::empty(), t, v, v);
        }
        lemma_leads_whole(text, t, w);
        assert forall|r: int, c: int| 0 <= r < p.rows && 0 <= c < p.cols implies shows_cell(
            crate::tty::row_of(p, r),
            c,
            #[trigger] w.at(r, c),
        ) by {
            assert(w.at(r, c) == u.at(r, c));
            if !crate::tty::row_changed(last, p, r) {
                assert(hidden.at(r, c) == t.at(r, c));
                assert(shows_cell(crate::tty::row_of(last->0, r), c, t.at(r, c)));
            }
        }
    } else {
        assert(last is Some) by {
            if last is None {
                assert(crate::tty::row_changed(last, p, 0));
            }
        }
        let l = last->0;
        assert(l.rows == p.rows && l.cols == p.cols) by {
            if l.rows != p.rows || l.cols != p.cols {
                assert(crate::tty::row_changed(last, p, 0));
            }
        }
        let v = GridView {
            cursor_row: p.cursor_row,
            cursor_col: p.cursor_col,
            wrap_pending: if crate::tty::cursor_moved(last, p) {
                false
            } else {
                t.wrap_pending
            },
            ..t
        };
        let first = if crate::tty::cursor_moved(last, p) {
            go
        } else {
            Seq::empty()
        };
        if crate::tty::cursor_moved(last, p) {
            lemma_leads_move(p.cursor_row, p.cursor_col, t);
        } else {
            lemma_leads_nowhere(t);
            assert(v == t);
        }
        assert(leads(first, t, v));
        let w = GridView { cursor_visible: p.cursor_visible, ..v };
        if crate::tty::visibility_changed(last, p) {
            lemma_leads_visibility(p.cursor_visible, v);
            lemma_leads_join(
                first,
                crate::tty::visibility_text(p.cursor_visible),
                t,
                v,
                w,
            );
        } else {
            lemma_leads_nowhere(v);
            lemma_leads_join(first, Seq::empty(), t, v, v);
        }
        lemma_leads_whole(text, t, w);
        assert forall|r: int, c: int| 0 <= r < p.rows && 0 <= c < p.cols implies shows_cell(
            crate::tty::row_of(p, r),
            c,
            #[trigger] w.at(r, c),
        ) by {
            assert(!crate::tty::row_changed(last, p, r));
            assert(w.at(r, c) == t.at(r, c));
            assert(shows_cell(crate::tty::row_of(l, r), c, t.at(r, c)));
        }
    }
}

/// A frame of characters that take one cell each, with attributes that a terminal is
/// told of, is shown exactly: the terminal's screen renders as the painted one.
pub proof fn law_painted_frame_renders_alike(
    t: GridView,
    last: Option<RenderView>,
    p: RenderView,
)
    requires
        paintable_frame(p),
        t.wf(),
        t.rows == p.rows,
        t.cols == p.cols,
        last matches Some(l) ==> (l.rows != p.rows || l.cols != p.cols || shows(t, l)),
        forall|i: int|
            0 <= i < p.cells.len() ==> {
                let c = #[trigger] p.cells[i];
                &&& c.ch != TAIL
                &&& crate::cell::cells_for(c.ch) == 1
                &&& c.flags & (flags::HIDDEN | flags::STRIKE | flags::PREDICTED) == 0
            },
    ensures
        shown(t, crate::tty::frame(last, p)).render() == p,
{
    law_terminal_shows_frame(t, last, p);
    let u = shown(t, crate::tty::frame(last, p));
    assert forall|i: int| 0 <= i < p.cells.len() implies u.cells[i] == p.cells[i] by {
        let r = i / p.cols;
        let c = i % p.cols;
        vstd::arithmetic::div_mod::lemma_fundamental_div_mod(i, p.cols);
        assert(i == r * p.cols + c) by (nonlinear_arith)
            requires
                i == p.cols * r + c,
        ;
        assert(0 <= r < p.rows) by (nonlinear_arith)
            requires
                0 <= i < p.rows * p.cols,
                i == r * p.cols + c,
                0 <= c < p.cols,
                p.cols >= 1,
        ;
        let row = crate::tty::row_of(p, r);
        assert(shows_cell(row, c, u.at(r, c)));
        assert(row[c] == p.cells[i]);
        if c > 0 {
            crate::grid::lemma_index_bound(r, c - 1, p.rows, p.cols);
            assert(row[c - 1] == p.cells[i - 1]);
        }
        let f = p.cells[i].flags;
        assert(((f & (0x01u8 | 0x10u8 | 0x08u8 | 0x04u8)) | (if f & (0x02u8 | 0x80u8) != 0 {
            0x02u8
        } else {
            0u8
        })) == f) by (bit_vector)
            requires
                f & (0x20u8 | 0x40u8 | 0x80u8) == 0,
        ;
    }
    assert(u.cells =~= p.cells);
}

} // verus!
