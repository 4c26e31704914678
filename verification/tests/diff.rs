use noissh::diff::{apply_diff, encode_diff, DiffError, TAG_FULL};
use noissh::grid::Grid;
use noissh::terminal::Terminal;

fn grid_from(rows: usize, cols: usize, input: &[u8]) -> Grid {
    let mut t = Terminal::new(rows, cols);
    t.advance(input);
    t.grid.clone()
}

#[test]
fn full_snapshot_reconstructs_target() {
    let target = grid_from(5, 20, b"hello\r\nworld\x1b[1mBOLD");
    let bytes = encode_diff(None, &target);
    let mut client = Grid::new(1, 1); // wrong dims -> forces full apply
    apply_diff(&mut client, &bytes).unwrap();
    assert!(client.render_eq(&target));
}

#[test]
fn delta_only_encodes_changes_and_is_smaller() {
    let base = grid_from(10, 40, b"line one\r\nline two");
    let target = grid_from(10, 40, b"line one\r\nline two!!!");
    let delta = encode_diff(Some(&base), &target);
    let full = encode_diff(None, &target);
    assert!(delta.len() < full.len(), "delta {} !< full {}", delta.len(), full.len());
    let mut client = base.clone();
    apply_diff(&mut client, &delta).unwrap();
    assert!(client.render_eq(&target));
}

#[test]
fn dim_change_falls_back_to_full() {
    let base = grid_from(5, 10, b"abc");
    let target = grid_from(8, 20, b"xyz");
    let bytes = encode_diff(Some(&base), &target);
    assert_eq!(bytes[0], TAG_FULL);
    let mut client = base.clone();
    apply_diff(&mut client, &bytes).unwrap();
    assert!(client.render_eq(&target));
}

#[test]
fn delta_with_wrong_base_dims_errors() {
    let base = grid_from(5, 10, b"a");
    let target = grid_from(5, 10, b"b");
    let delta = encode_diff(Some(&base), &target);
    let mut client = Grid::new(6, 10);
    assert_eq!(apply_diff(&mut client, &delta), Err(DiffError::DimMismatch));
}

#[test]
fn property_apply_diff_equals_target() {
    // Pseudo-random sessions; apply(diff(a,b)) must render as b.
    let mut state = 0x1234_5678_9abc_def0u64;
    let mut rng = || {
        state = state.wrapping_mul(6364136223846793005).wrapping_add(1442695040888963407);
        state >> 33
    };
    for _ in 0..300 {
        let mut a = Terminal::new(8, 24);
        let mut b = Terminal::new(8, 24);
        // 'a' and 'b' share a common prefix then diverge — realistic deltas.
        let mut common = Vec::new();
        for _ in 0..(rng() % 60) {
            common.push(printable(rng()));
        }
        a.advance(&common);
        b.advance(&common);
        let mut tail = Vec::new();
        for _ in 0..(rng() % 80) {
            tail.push(printable(rng()));
        }
        b.advance(&tail);

        let delta = encode_diff(Some(&a.grid), &b.grid);
        let mut client = a.grid.clone();
        apply_diff(&mut client, &delta).unwrap();
        assert!(client.render_eq(&b.grid), "delta apply mismatch");

        // Full-snapshot path too.
        let full = encode_diff(None, &b.grid);
        let mut fresh = Grid::new(1, 1);
        apply_diff(&mut fresh, &full).unwrap();
        assert!(fresh.render_eq(&b.grid), "full apply mismatch");
    }
}

fn printable(r: u64) -> u8 {
    // Mostly printable ASCII plus the occasional CR/LF/escape introducer.
    match r % 16 {
        13 => b'\r',
        14 => b'\n',
        _ => b' ' + (r % 94) as u8,
    }
}
