use noissh::flags;
use noissh::grid::Grid;
use noissh::status::{process_input, stamp_status, status_banner, ESCAPE_KEY, SHOW_AFTER_SECS};
use noissh::terminal::Terminal;
use std::time::Duration;

#[test]
fn banner_hidden_while_link_is_fresh() {
    assert_eq!(status_banner(Duration::from_millis(0)), None);
    assert_eq!(status_banner(Duration::from_secs(SHOW_AFTER_SECS) - Duration::from_millis(1)), None);
}

#[test]
fn banner_appears_after_threshold_and_counts_seconds() {
    let b = status_banner(Duration::from_secs(SHOW_AFTER_SECS) + Duration::from_secs(1)).expect("should show");
    let secs = (Duration::from_secs(SHOW_AFTER_SECS) + Duration::from_secs(1)).as_secs();
    assert!(b.contains(&format!("last contact {secs}s ago")), "{b}");
    assert!(b.contains("Ctrl-^"), "{b}");
}

#[test]
fn stamp_writes_banner_into_top_row_right_aligned() {
    let mut g = Grid::new(3, 40);
    stamp_status(&mut g, "HELLO");
    // Right-aligned: last 5 columns of row 0 carry the text.
    let row0 = g.row_text(0);
    assert!(row0.ends_with("HELLO"), "row0={row0:?}");
    // Reverse-video flag set on stamped cells.
    assert!(g.cell(0, 39).flags & flags::REVERSE != 0);
    // Untouched rows stay blank.
    assert_eq!(g.row_text(1), "");
}

#[test]
fn stamp_truncates_when_wider_than_screen() {
    let mut g = Grid::new(1, 4);
    stamp_status(&mut g, "ABCDEFGH");
    assert_eq!(g.row_text(0), "ABCD");
}

#[test]
fn plain_input_is_forwarded_unchanged() {
    let mut pending = false;
    let out = process_input(&mut pending, b"ls -la\n");
    assert_eq!(out.forward, b"ls -la\n");
    assert!(!out.quit);
    assert!(!pending);
}

#[test]
fn escape_then_dot_quits() {
    let mut pending = false;
    let out = process_input(&mut pending, &[ESCAPE_KEY, b'.']);
    assert!(out.quit);
    assert!(out.forward.is_empty());
}

#[test]
fn escape_split_across_reads_still_quits() {
    let mut pending = false;
    let a = process_input(&mut pending, &[ESCAPE_KEY]);
    assert!(!a.quit && a.forward.is_empty() && pending);
    let b = process_input(&mut pending, b"q");
    assert!(b.quit);
}

#[test]
fn double_escape_sends_one_literal() {
    let mut pending = false;
    let out = process_input(&mut pending, &[ESCAPE_KEY, ESCAPE_KEY]);
    assert_eq!(out.forward, vec![ESCAPE_KEY]);
    assert!(!out.quit);
}

#[test]
fn escape_then_unknown_is_dropped_without_quitting() {
    let mut pending = false;
    let out = process_input(&mut pending, &[ESCAPE_KEY, b'x', b'y']);
    // 'x' abandons the escape; 'y' is ordinary and forwarded.
    assert_eq!(out.forward, b"y");
    assert!(!out.quit);
}

#[test]
fn banner_round_trips_through_a_real_grid_clone() {
    // A realistic grid (as produced by the emulator) can be stamped.
    let mut t = Terminal::new(5, 30);
    t.advance(b"$ echo hi");
    let mut g = t.screen().clone();
    stamp_status(&mut g, "[noissh] reconnecting");
    assert!(g.row_text(0).contains("reconnecting"));
}
