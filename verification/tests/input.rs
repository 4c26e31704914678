use noissh::input::{InputReceiver, InputSender};
use noissh::wire::Frame;

fn input_parts(f: &Frame) -> (u64, Vec<u8>) {
    match f {
        Frame::Input { offset, data } => (*offset, data.clone()),
        _ => panic!("not an input frame"),
    }
}

#[test]
fn nothing_pending_initially() {
    let s = InputSender::new();
    assert!(s.pending().is_none());
}

#[test]
fn pending_carries_unacked_suffix() {
    let mut s = InputSender::new();
    s.push(b"abc");
    let (off, data) = input_parts(&s.pending().unwrap());
    assert_eq!(off, 0);
    assert_eq!(data, b"abc");
    s.on_ack(2);
    let (off, data) = input_parts(&s.pending().unwrap());
    assert_eq!(off, 2);
    assert_eq!(data, b"c");
    s.on_ack(3);
    assert!(s.pending().is_none());
}

#[test]
fn receiver_reconstructs_contiguous_stream() {
    let mut r = InputReceiver::new();
    assert_eq!(r.ingest(0, b"hello"), b"hello");
    assert_eq!(r.ack(), 5);
    assert_eq!(r.ingest(5, b" world"), b" world");
    assert_eq!(r.ack(), 11);
}

#[test]
fn duplicate_frame_yields_nothing() {
    let mut r = InputReceiver::new();
    assert_eq!(r.ingest(0, b"abc"), b"abc");
    assert_eq!(r.ingest(0, b"abc"), b""); // exact dup
    assert_eq!(r.ack(), 3);
}

#[test]
fn overlapping_retransmit_yields_only_new_tail() {
    let mut r = InputReceiver::new();
    assert_eq!(r.ingest(0, b"abc"), b"abc");
    // Sender retransmits from 0 but with more data appended.
    assert_eq!(r.ingest(0, b"abcde"), b"de");
    assert_eq!(r.ack(), 5);
}

#[test]
fn gap_is_held_until_prefix_arrives() {
    let mut r = InputReceiver::new();
    // Frame starting past current position (lost prefix): ignored.
    assert_eq!(r.ingest(3, b"xyz"), b"");
    assert_eq!(r.ack(), 0);
    // Prefix arrives.
    assert_eq!(r.ingest(0, b"abc"), b"abc");
    assert_eq!(r.ack(), 3);
    // Now the retransmitted full suffix delivers the rest.
    assert_eq!(r.ingest(0, b"abcxyz"), b"xyz");
    assert_eq!(r.ack(), 6);
}

#[test]
fn end_to_end_lossy_reordered_reconstructs_exactly() {
    // Simulate a lossy/reordered link with retransmission until acked.
    let mut s = InputSender::new();
    let mut r = InputReceiver::new();
    let script: &[&[u8]] = &[b"the ", b"quick ", b"brown ", b"fox"];
    let expected: Vec<u8> = script.concat();

    let mut delivered = Vec::new();
    let mut drop_toggle = false;
    for chunk in script {
        s.push(chunk);
        // Try a few delivery rounds, dropping every other packet.
        for _ in 0..3 {
            if let Some(Frame::Input { offset, data }) = s.pending() {
                drop_toggle = !drop_toggle;
                if drop_toggle {
                    continue; // simulate loss
                }
                let fresh = r.ingest(offset, &data);
                delivered.extend_from_slice(&fresh);
                s.on_ack(r.ack());
            }
        }
    }
    // Flush any remainder.
    while let Some(Frame::Input { offset, data }) = s.pending() {
        let fresh = r.ingest(offset, &data);
        delivered.extend_from_slice(&fresh);
        s.on_ack(r.ack());
    }
    assert_eq!(delivered, expected);
}
