use noissh::grid::Grid;
use noissh::terminal::Terminal;
use noissh::tty::{terminal_size, Renderer};

fn grid_of(input: &[u8]) -> Grid {
    let mut t = Terminal::new(5, 20);
    t.advance(input);
    t.screen().clone()
}

#[test]
fn unknown_terminal_size_is_80_by_24() {
    assert_eq!(terminal_size(Some((132, 43))), (132, 43));
    assert_eq!(terminal_size(Some((0, 43))), (80, 24));
    assert_eq!(terminal_size(Some((132, 0))), (80, 24));
    assert_eq!(terminal_size(None), (80, 24));
}

#[test]
fn double_width_characters_are_painted_once() {
    let mut r = Renderer::new();
    let out = r.paint(&grid_of("\u{6f22}x".as_bytes()));
    assert!(out.contains("\u{6f22}x"));
    // Half of one is painted as a blank, so that what follows keeps its place.
    let out = r.paint(&grid_of("\u{6f22}\x08y".as_bytes()));
    assert!(!out.contains('\u{6f22}'));
    assert!(out.contains(" y "));
}

#[test]
fn first_paint_emits_output() {
    let mut r = Renderer::new();
    let out = r.paint(&grid_of(b"hello"));
    assert!(!out.is_empty(), "first paint should draw the screen");
}

#[test]
fn idle_repaint_of_identical_frame_writes_nothing() {
    // This is the screen-refresh fix: re-painting an unchanged frame (as the
    // loop does on every keepalive/ack) must produce ZERO bytes — no cursor
    // hide/show churn.
    let mut r = Renderer::new();
    let g = grid_of(b"hello");
    r.paint(&g); // prime
    let out = r.paint(&g);
    assert!(
        out.is_empty(),
        "unchanged repaint must write nothing, got {:?}",
        out
    );
}

#[test]
fn content_change_repaints_then_settles() {
    let mut r = Renderer::new();
    r.paint(&grid_of(b"hello"));
    let out = r.paint(&grid_of(b"hello world"));
    assert!(!out.is_empty(), "a content change must repaint");
    // And a subsequent identical frame goes quiet again.
    let g = grid_of(b"hello world");
    let _out2 = r.paint(&g);
    // first settle pass may reposition cursor; prime once more then assert quiet
    let out3 = r.paint(&g);
    assert!(
        out3.is_empty(),
        "settled frame must write nothing, got {:?}",
        out3
    );
}

#[test]
fn idle_repaint_emits_no_cursor_visibility_toggle() {
    // Specifically guard against the regression: no ESC[?25l / ESC[?25h on an
    // unchanged frame.
    let mut r = Renderer::new();
    let g = grid_of(b"$ ");
    r.paint(&g);
    let out = r.paint(&g);
    let s = out;
    assert!(!s.contains("\x1b[?25l"), "no hide-cursor on idle: {s:?}");
    assert!(!s.contains("\x1b[?25h"), "no show-cursor on idle: {s:?}");
}
