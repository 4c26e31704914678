use noissh::cell::{cells_of, cells_of_width, Color, TAIL};
use noissh::flags;
use noissh::terminal::Terminal;

fn run(input: &[u8]) -> Terminal {
    let mut t = Terminal::new(5, 20);
    t.advance(input);
    t
}

#[test]
fn prints_text() {
    let t = run(b"hello");
    assert_eq!(t.screen().row_text(0), "hello");
    assert_eq!(t.screen().cursor_col, 5);
}

#[test]
fn carriage_return_and_newline() {
    let t = run(b"abc\r\ndef");
    assert_eq!(t.screen().row_text(0), "abc");
    assert_eq!(t.screen().row_text(1), "def");
    assert_eq!(t.screen().cursor_row, 1);
}

#[test]
fn backspace_moves_left() {
    let t = run(b"abc\x08X");
    assert_eq!(t.screen().row_text(0), "abX");
}

#[test]
fn tab_advances_to_stop() {
    let t = run(b"a\tb");
    // 'a' at col 0, tab -> col 8, 'b' at col 8
    assert_eq!(t.screen().cell(0, 8).ch, 'b');
}

#[test]
fn autowrap_wraps_to_next_line() {
    let mut t = Terminal::new(3, 4);
    t.advance(b"abcdef");
    assert_eq!(t.screen().row_text(0), "abcd");
    assert_eq!(t.screen().row_text(1), "ef");
}

#[test]
fn cursor_position_absolute() {
    let t = run(b"\x1b[2;3HX");
    assert_eq!(t.screen().cell(1, 2).ch, 'X');
}

#[test]
fn cursor_movement_relative() {
    let t = run(b"\x1b[3CX"); // forward 3 -> col 3
    assert_eq!(t.screen().cell(0, 3).ch, 'X');
}

#[test]
fn erase_display_clears_all() {
    let t = run(b"hello\x1b[2J");
    assert_eq!(t.screen().row_text(0), "");
}

#[test]
fn erase_line_to_end() {
    let t = run(b"abcdef\r\x1b[3C\x1b[K");
    assert_eq!(t.screen().row_text(0), "abc");
}

#[test]
fn sgr_bold_underline_then_reset() {
    let mut t = Terminal::new(2, 10);
    t.advance(b"\x1b[1;4mAB\x1b[0mC");
    assert_ne!(t.screen().cell(0, 0).flags & flags::BOLD, 0);
    assert_ne!(t.screen().cell(0, 0).flags & flags::UNDERLINE, 0);
    assert_eq!(t.screen().cell(0, 2).flags, 0);
}

#[test]
fn sgr_colors_indexed_and_truecolor() {
    let mut t = Terminal::new(2, 10);
    t.advance(b"\x1b[31mR\x1b[38;5;200mP\x1b[38;2;10;20;30mT");
    assert_eq!(t.screen().cell(0, 0).fg, Color::Indexed(1));
    assert_eq!(t.screen().cell(0, 1).fg, Color::Indexed(200));
    assert_eq!(t.screen().cell(0, 2).fg, Color::Rgb(10, 20, 30));
}

#[test]
fn scroll_region_and_index() {
    // 5 rows; set region 1..3 (1-based 2;4), fill, force scroll.
    let mut t = Terminal::new(5, 5);
    t.advance(b"\x1b[2;4r"); // region rows 1..=3
    t.advance(b"\x1b[2;1Haaa"); // row1
    t.advance(b"\x1b[3;1Hbbb"); // row2
    t.advance(b"\x1b[4;1Hccc"); // row3 (bottom of region)
    t.advance(b"\x1b[4;1H\n"); // line feed at bottom -> scroll region up
    assert_eq!(t.screen().row_text(1), "bbb");
    assert_eq!(t.screen().row_text(2), "ccc");
}

#[test]
fn alt_screen_save_restore() {
    let mut t = Terminal::new(3, 10);
    t.advance(b"main");
    t.advance(b"\x1b[?1049h"); // enter alt
    assert_eq!(t.screen().row_text(0), "");
    t.advance(b"altbuf");
    assert_eq!(t.screen().row_text(0), "altbuf");
    t.advance(b"\x1b[?1049l"); // leave alt -> restore main
    assert_eq!(t.screen().row_text(0), "main");
}

#[test]
fn insert_and_delete_chars() {
    let mut t = Terminal::new(2, 10);
    t.advance(b"abcdef\r\x1b[2P"); // delete 2 chars at col0
    assert_eq!(t.screen().row_text(0), "cdef");
    t.advance(b"\r\x1b[2@"); // insert 2 blanks at col0, shifting "cdef" right
    assert_eq!(t.screen().row_text(0), "  cdef"); // leading blanks kept, trailing trimmed
    assert_eq!(t.screen().cell(0, 0).ch, ' ');
    assert_eq!(t.screen().cell(0, 2).ch, 'c');
}

#[test]
fn utf8_multibyte_chars() {
    let t = run("héllo→".as_bytes());
    assert_eq!(t.screen().cell(0, 1).ch, 'é');
    assert_eq!(t.screen().cell(0, 5).ch, '→');
}

#[test]
fn characters_take_cells_by_their_width() {
    assert_eq!(cells_of('a'), 1);
    assert_eq!(cells_of('\u{e9}'), 1);
    assert_eq!(cells_of('\u{6f22}'), 2);
    assert_eq!(cells_of('\u{1f600}'), 2);
    assert_eq!(cells_of('\u{301}'), 0);
    assert_eq!(cells_of_width(Some(3)), 2);
    assert_eq!(cells_of_width(None), 1);
}

#[test]
fn double_width_characters_take_two_cells() {
    let t = run("\u{6f22}x".as_bytes());
    assert_eq!(t.screen().cell(0, 0).ch, '\u{6f22}');
    assert_eq!(t.screen().cell(0, 1).ch, TAIL);
    assert_eq!(t.screen().cell(0, 2).ch, 'x');
    assert_eq!(t.screen().cursor_col, 3);
    assert_eq!(t.screen().row_text(0), "\u{6f22}x");
}

#[test]
fn double_width_character_is_not_split_between_lines() {
    let mut t = Terminal::new(3, 5);
    t.advance("abcd\u{6f22}".as_bytes());
    assert_eq!(t.screen().row_text(0), "abcd");
    assert_eq!(t.screen().row_text(1), "\u{6f22}");
    assert_eq!((t.screen().cursor_row, t.screen().cursor_col), (1, 2));
}

#[test]
fn zero_width_marks_do_not_move_the_cursor() {
    let t = run("e\u{301}x".as_bytes());
    assert_eq!(t.screen().row_text(0), "ex");
    assert_eq!(t.screen().cursor_col, 2);
}

#[test]
fn cursor_visibility_toggle() {
    let mut t = Terminal::new(2, 5);
    t.advance(b"\x1b[?25l");
    assert!(!t.screen().cursor_visible);
    t.advance(b"\x1b[?25h");
    assert!(t.screen().cursor_visible);
}

#[test]
fn resize_preserves_topleft() {
    let mut t = Terminal::new(3, 10);
    t.advance(b"hello");
    t.resize(5, 20);
    assert_eq!(t.screen().row_text(0), "hello");
    assert_eq!(t.screen().rows, 5);
    assert_eq!(t.screen().cols, 20);
}

#[test]
fn fuzz_random_escape_bytes_never_panics() {
    let mut state = 0xDEADBEEFu64;
    for _ in 0..5000 {
        let mut t = Terminal::new(10, 40);
        let mut buf = Vec::new();
        for _ in 0..100 {
            state = state.wrapping_mul(6364136223846793005).wrapping_add(1);
            buf.push((state >> 40) as u8);
        }
        t.advance(&buf); // must not panic
    }
}
