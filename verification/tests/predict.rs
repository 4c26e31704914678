use noissh::flags;
use noissh::grid::Grid;
use noissh::predict::{DisplayMode, Predictor};
use noissh::terminal::Terminal;


fn grid(rows: usize, cols: usize, input: &[u8]) -> Grid {
    let mut t = Terminal::new(rows, cols);
    t.advance(input);
    t.grid.clone()
}

fn has_predicted(g: &Grid) -> bool {
    g.cells.iter().any(|c| c.flags & flags::PREDICTED != 0)
}

#[test]
fn resize_smaller_drops_out_of_range_predictions() {
    // Cursor pushed near the right edge of a 20-col grid.
    let base = grid(5, 20, &[b' '; 18]);
    let mut p = Predictor::new(base).with_mode(DisplayMode::Always);
    p.predict_input(b"ab"); // predictions at cols 18, 19
    assert_eq!(p.outstanding(), 2);
    // Server resizes to 10 cols without having echoed the input.
    p.reconcile(grid(5, 10, b""));
    // Out-of-range predictions are dropped (no unbounded accumulation), and
    // the overlay stays in bounds without panicking.
    assert_eq!(p.outstanding(), 0);
    let o = p.overlay();
    assert_eq!(o.cols, 10);
    assert!(o.cursor_col < 10);
}

#[test]
fn always_mode_paints_predicted_glyphs() {
    let base = grid(5, 20, b"$ ");
    let mut p = Predictor::new(base).with_mode(DisplayMode::Always);
    p.predict_input(b"ls");
    let o = p.overlay();
    assert_eq!(o.cell(0, 2).ch, 'l');
    assert_eq!(o.cell(0, 3).ch, 's');
    assert_ne!(o.cell(0, 2).flags & flags::PREDICTED, 0);
    assert_eq!(o.cursor_col, 4);
}

#[test]
fn reconcile_confirms_and_clears_predictions() {
    let base = grid(5, 20, b"$ ");
    let mut p = Predictor::new(base).with_mode(DisplayMode::Always);
    p.predict_input(b"ls");
    assert_eq!(p.outstanding(), 2);
    // Server echoes "ls" and advances cursor past it.
    let echoed = grid(5, 20, b"$ ls");
    p.reconcile(echoed.clone());
    assert_eq!(p.outstanding(), 0);
    // No residual prediction artifacts; overlay matches authoritative.
    let o = p.overlay();
    assert!(!has_predicted(&o));
    assert!(o.render_eq(&echoed));
}

#[test]
fn reconcile_mismatch_abandons_all() {
    let base = grid(5, 20, b"$ ");
    let mut p = Predictor::new(base).with_mode(DisplayMode::Always);
    p.predict_input(b"ls");
    // Server shows something different where we predicted (e.g. remapped).
    let truth = grid(5, 20, b"$ XY");
    p.reconcile(truth.clone());
    assert_eq!(p.outstanding(), 0);
    let o = p.overlay();
    assert!(!has_predicted(&o));
    assert!(o.render_eq(&truth));
}

#[test]
fn backspace_removes_last_prediction() {
    let base = grid(5, 20, b"$ ");
    let mut p = Predictor::new(base).with_mode(DisplayMode::Always);
    p.predict_input(b"lsx");
    p.predict_input(b"\x7f"); // backspace
    let o = p.overlay();
    assert_eq!(o.cell(0, 2).ch, 'l');
    assert_eq!(o.cell(0, 3).ch, 's');
    assert_eq!(o.cell(0, 4).ch, ' '); // 'x' removed
    assert_eq!(p.outstanding(), 2);
}

#[test]
fn adaptive_hidden_until_first_confirmation() {
    let base = grid(5, 20, b"$ ");
    let mut p = Predictor::new(base); // Adaptive by default
    p.predict_input(b"l");
    // Not yet confirmed -> nothing displayed.
    assert!(!p.displaying());
    assert!(!has_predicted(&p.overlay()));
    // Server confirms the echo.
    p.reconcile(grid(5, 20, b"$ l"));
    p.predict_input(b"s");
    assert!(p.displaying());
    assert!(has_predicted(&p.overlay()));
}

#[test]
fn password_prompt_never_displays_predictions() {
    // Server prints a prompt but never echoes typed characters (cursor
    // does not advance), so Adaptive never confirms and never displays.
    let base = grid(5, 30, b"Password: ");
    let mut p = Predictor::new(base);
    p.predict_input(b"hunter2");
    // Re-send the same authoritative state (no echo happened).
    p.reconcile(grid(5, 30, b"Password: "));
    assert!(!p.displaying());
    assert!(!has_predicted(&p.overlay()));
}

#[test]
fn adaptive_suspends_after_misprediction() {
    let base = grid(5, 20, b"$ ");
    let mut p = Predictor::new(base);
    p.predict_input(b"l");
    p.reconcile(grid(5, 20, b"$ l")); // confirm -> displaying enabled
    assert!(p.displaying());
    p.predict_input(b"s");
    p.reconcile(grid(5, 20, b"$ lZ")); // mismatch -> glitch
    assert!(!p.displaying());
}

#[test]
fn replay_recorded_diff_stream_reconciles_with_no_residual() {
    // Type a command; replay the server echoing it one character at a time;
    // assert predictions reconcile to the authoritative state with no
    // residual prediction artifacts at any step or at the end.
    let prompt = b"user@host:~$ ";
    let base = grid(6, 40, prompt);
    let mut p = Predictor::new(base).with_mode(DisplayMode::Always);

    let cmd = b"echo hello";
    p.predict_input(cmd);

    // Server echoes progressively.
    let mut acc = prompt.to_vec();
    for &b in cmd {
        acc.push(b);
        let truth = {
            let mut t = Terminal::new(6, 40);
            t.advance(&acc);
            t.grid.clone()
        };
        p.reconcile(truth.clone());
        // Overlay must never show a glyph that contradicts the truth.
        let o = p.overlay();
        for (i, cell) in o.cells.iter().enumerate() {
            if cell.flags & flags::PREDICTED != 0 {
                // A still-pending prediction must be ahead of the cursor.
                let row = i / o.cols;
                let col = i % o.cols;
                let reached = truth.cursor_row > row
                    || (truth.cursor_row == row && truth.cursor_col > col);
                assert!(!reached, "stale prediction left on confirmed cell");
            }
        }
    }
    // Fully echoed: no predictions remain, overlay == authoritative.
    let final_truth = {
        let mut t = Terminal::new(6, 40);
        t.advance(&acc);
        t.grid.clone()
    };
    assert_eq!(p.outstanding(), 0);
    assert!(!has_predicted(&p.overlay()));
    assert!(p.overlay().render_eq(&final_truth));
}
