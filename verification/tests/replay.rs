use noissh::replay::{WindowFilter, WINDOW};

#[test]
fn first_packet_accepted() {
    let mut w = WindowFilter::new();
    assert!(w.check_and_set(0));
}

#[test]
fn strictly_increasing_all_accepted() {
    let mut w = WindowFilter::new();
    for n in 0..1000 {
        assert!(w.check_and_set(n), "nonce {n} should be fresh");
    }
}

#[test]
fn exact_replay_rejected() {
    let mut w = WindowFilter::new();
    assert!(w.check_and_set(5));
    assert!(!w.check_and_set(5));
}

#[test]
fn reordered_within_window_accepted_once() {
    let mut w = WindowFilter::new();
    assert!(w.check_and_set(10));
    // Older but inside window: accept.
    assert!(w.check_and_set(7));
    assert!(w.check_and_set(8));
    // Replays of those rejected.
    assert!(!w.check_and_set(7));
    assert!(!w.check_and_set(8));
    assert!(!w.check_and_set(10));
}

#[test]
fn too_old_rejected() {
    let mut w = WindowFilter::new();
    assert!(w.check_and_set(100));
    // 100 - 36 = 64 away -> outside window.
    assert!(!w.check_and_set(36));
    assert!(!w.check_and_set(0));
    // Just inside the window edge.
    assert!(w.check_and_set(100 - (WINDOW - 1)));
}

#[test]
fn big_jump_resets_window_but_keeps_accepting() {
    let mut w = WindowFilter::new();
    assert!(w.check_and_set(5));
    assert!(w.check_and_set(1000)); // jump > WINDOW
    assert!(!w.check_and_set(5)); // now far too old
    assert!(w.check_and_set(1001));
    assert!(!w.check_and_set(1000)); // replay
}
