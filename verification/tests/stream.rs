use noissh::reassembler::Reassembler;
use noissh::stream::{
    StreamEvent, StreamMux, CLOSE_GRACE_TICKS, DEFAULT_WINDOW, INIT_CWND, INIT_RTO,
    MAX_PEER_STREAMS, MSS,
};
use noissh::wire::{Frame, StreamKind};

/// Pump frames between two muxes with optional loss/reorder for N rounds.
fn pump(
    a: &mut StreamMux,
    b: &mut StreamMux,
    rounds: usize,
    mut lossy: impl FnMut(usize) -> bool,
) {
    let mut step = 0;
    for _ in 0..rounds {
        let af = a.poll_transmit();
        let bf = b.poll_transmit();
        for f in af {
            step += 1;
            if !lossy(step) {
                b.on_frame(f);
            }
        }
        for f in bf {
            step += 1;
            if !lossy(step) {
                a.on_frame(f);
            }
        }
    }
}

fn drain(mux: &mut StreamMux, id: u64) -> Vec<u8> {
    let mut out = Vec::new();
    loop {
        let chunk = mux.read(id);
        if chunk.is_empty() {
            break;
        }
        out.extend_from_slice(&chunk);
    }
    out
}

#[test]
fn fin_set_after_data_is_acked_still_reaches_peer() {
    // Regression: if the sender closes its half AFTER all data has already
    // been sent and acked, the FIN bit must still be transmitted explicitly.
    // Otherwise the receiver never learns the stream ended (it sees the data
    // but no FIN), and a transfer waiting on end-of-stream hangs forever.
    let mut a = StreamMux::new(true);
    let mut b = StreamMux::new(false);
    let id = a.open(StreamKind::FileTransfer, b"PUT 5 /tmp/x".to_vec());
    a.write(id, b"hello");
    // Round-trip until every data byte is acked (no close yet).
    pump(&mut a, &mut b, 6, |_| false);
    assert_eq!(drain(&mut b, id), b"hello");
    assert!(
        !b.is_recv_finished(id),
        "receiver must not see EOF before the sender closes"
    );
    // Now close the send half — data is already fully acked.
    a.close(id, 0);
    pump(&mut a, &mut b, 6, |_| false);
    assert!(
        b.is_recv_finished(id),
        "receiver never observed the late FIN"
    );
}

#[test]
fn basic_stream_delivers_bytes_in_order() {
    let mut client = StreamMux::new(true);
    let mut server = StreamMux::new(false);
    let id = client.open(StreamKind::Session, b"shell".to_vec());
    client.write(id, b"hello server");
    pump(&mut client, &mut server, 4, |_| false);
    let evs = server.take_events();
    assert!(evs.iter().any(|e| matches!(
        e,
        StreamEvent::Opened {
            kind: StreamKind::Session,
            ..
        }
    )));
    assert_eq!(drain(&mut server, id), b"hello server");
}

#[test]
fn reassembles_under_loss_and_reorder() {
    let mut client = StreamMux::new(true);
    let mut server = StreamMux::new(false);
    let id = client.open(StreamKind::Forward, vec![]);
    let payload: Vec<u8> = (0..5000u32).map(|i| (i % 251) as u8).collect();
    // Write in chunks across rounds; drop ~1/3 of packets.
    let chunks = payload.chunks(300).collect::<Vec<_>>();
    let mut ci = 0;
    for _ in 0..200 {
        if ci < chunks.len() {
            client.write(id, chunks[ci]);
            ci += 1;
        }
        pump(&mut client, &mut server, 1, |s| s % 3 == 0);
        if ci >= chunks.len() && server.in_flight(id) == 0 {
            // give a couple flushing rounds
        }
    }
    // Final reliable flush.
    pump(&mut client, &mut server, 50, |_| false);
    assert_eq!(drain(&mut server, id), payload);
}

#[test]
fn bidirectional_streams_independent() {
    let mut client = StreamMux::new(true);
    let mut server = StreamMux::new(false);
    let c = client.open(StreamKind::Session, vec![]);
    client.write(c, b"from client");
    pump(&mut client, &mut server, 3, |_| false);
    // server opens its own stream back
    let s = server.open(StreamKind::Session, vec![]);
    server.write(s, b"from server");
    pump(&mut client, &mut server, 3, |_| false);
    assert_eq!(drain(&mut server, c), b"from client");
    assert_eq!(drain(&mut client, s), b"from server");
    assert_ne!(c, s); // distinct id spaces (parity)
}

#[test]
fn close_delivers_status_and_fin() {
    let mut client = StreamMux::new(true);
    let mut server = StreamMux::new(false);
    let id = client.open(StreamKind::Session, vec![]);
    client.write(id, b"bye");
    client.close(id, 42);
    pump(&mut client, &mut server, 6, |_| false);
    assert_eq!(drain(&mut server, id), b"bye");
    let evs = server.take_events();
    assert!(
        evs.iter()
            .any(|e| matches!(e, StreamEvent::Closed { status: 42, .. }))
    );
    assert!(server.is_recv_finished(id));
}

#[test]
fn fully_closed_stream_is_reclaimed_and_quiescent() {
    // Close BOTH directions; after draining, the mux must reclaim the stream
    // and stop emitting frames (no perpetual StreamClose/StreamAck), and the
    // Closed event must be surfaced exactly once despite retransmission.
    let mut client = StreamMux::new(true);
    let mut server = StreamMux::new(false);
    let id = client.open(StreamKind::Session, vec![]);
    client.write(id, b"hi");
    client.close(id, 0);
    // Drive a few rounds so the server learns the stream, then it closes back
    // on the same id.
    pump(&mut client, &mut server, 4, |_| false);
    let _ = drain(&mut server, id);
    server.write(id, b"ok");
    server.close(id, 0);
    pump(&mut client, &mut server, 10, |_| false);
    let _ = drain(&mut client, id);
    let _ = drain(&mut server, id);
    pump(&mut client, &mut server, 10, |_| false);

    // Closed surfaced at most once per side.
    let cev = client
        .take_events()
        .into_iter()
        .filter(|e| matches!(e, StreamEvent::Closed { .. }))
        .count();
    assert!(cev <= 1, "Closed emitted {cev} times");

    // Steady state: nothing left to transmit on either side.
    assert!(
        client.poll_transmit().is_empty(),
        "client still chattering on a closed stream"
    );
    assert!(
        server.poll_transmit().is_empty(),
        "server still chattering on a closed stream"
    );
}

#[test]
fn close_without_fin_data_is_reclaimed_after_grace() {
    // Simulate a peer that closed gracefully but whose FIN-bearing data was
    // lost and which has since gone silent. We (the receiver) have finished
    // our own send side; the stream must eventually be reclaimed instead of
    // leaking forever.
    let mut a = StreamMux::new(true);
    let id = a.open(StreamKind::Forward, vec![]);
    a.close(id, 0);
    // Self-ack our FIN so our send side is settled (no live peer to ack).
    a.on_frame(Frame::StreamAck {
        id,
        ack: 0,
        window: DEFAULT_WINDOW,
    });
    // Peer's graceful close arrives, but the FIN StreamData never does.
    a.on_frame(Frame::StreamClose { id, status: 0 });
    // Poll past the grace window; the stream should be reclaimed and go quiet.
    for _ in 0..(CLOSE_GRACE_TICKS + 2) {
        a.poll_transmit();
    }
    assert!(
        a.poll_transmit().is_empty(),
        "stream leaked: still transmitting after close grace window"
    );
}

#[test]
fn unacked_data_is_not_retransmitted_every_poll() {
    // After sending new data once, an un-acked stream must NOT resend it on
    // every poll — only after the retransmit timeout (RETX_TICKS rounds).
    let mut a = StreamMux::new(true);
    let id = a.open(StreamKind::Forward, vec![]);
    a.write(id, b"hello world");

    let count_data = |frames: &[Frame]| {
        frames
            .iter()
            .filter(|f| matches!(f, Frame::StreamData { data, .. } if !data.is_empty()))
            .count()
    };

    // First poll sends the data.
    assert_eq!(count_data(&a.poll_transmit()), 1);
    // The next INIT_RTO-1 polls send NO data (no spurious retransmits).
    let mut retx = 0;
    for _ in 0..(INIT_RTO - 1) {
        retx += count_data(&a.poll_transmit());
    }
    assert_eq!(retx, 0, "data was retransmitted before the RTO elapsed");
    // By a couple of polls past the RTO, a retransmit has occurred.
    let mut after = 0;
    for _ in 0..2 {
        after += count_data(&a.poll_transmit());
    }
    assert!(after >= 1, "data was never retransmitted after the RTO");
}

#[test]
fn congestion_window_limits_initial_burst() {
    // A fresh stream must not dump its whole flow-control window at once: the
    // first burst is bounded by the initial congestion window.
    let mut a = StreamMux::new(true);
    let id = a.open(StreamKind::Forward, vec![]);
    a.write(id, &vec![0u8; 100 * 1024]);
    let frames = a.poll_transmit();
    let sent: usize = frames
        .iter()
        .filter_map(|f| match f {
            Frame::StreamData { data, .. } => Some(data.len()),
            _ => None,
        })
        .sum();
    assert!(
        sent <= INIT_CWND as usize,
        "initial burst {sent} exceeded the initial congestion window"
    );
    assert!(
        sent >= MSS as usize,
        "should have sent at least one segment"
    );
}

#[test]
fn large_transfer_completes_under_loss_with_congestion_control() {
    // 100 KiB through 25%-loss, exercising RTO-driven retransmission, the
    // congestion-window collapse on loss, and slow-start recovery.
    let mut client = StreamMux::new(true);
    let mut server = StreamMux::new(false);
    let id = client.open(StreamKind::Forward, vec![]);
    let payload: Vec<u8> = (0..100_000u32).map(|i| (i % 251) as u8).collect();
    client.write(id, &payload);
    let mut got = Vec::new();
    for _ in 0..6000 {
        pump(&mut client, &mut server, 1, |s| s % 4 == 0);
        got.extend_from_slice(&drain(&mut server, id));
        if got.len() >= payload.len() {
            break;
        }
    }
    pump(&mut client, &mut server, 100, |_| false);
    got.extend_from_slice(&drain(&mut server, id));
    assert_eq!(got.len(), payload.len(), "not all bytes arrived");
    assert_eq!(got, payload, "payload corrupted in transit");
}

#[test]
fn reset_aborts_stream() {
    let mut client = StreamMux::new(true);
    let mut server = StreamMux::new(false);
    let id = client.open(StreamKind::Forward, vec![]);
    client.write(id, b"partial");
    pump(&mut client, &mut server, 2, |_| false);
    client.reset(id);
    pump(&mut client, &mut server, 2, |_| false);
    let evs = server.take_events();
    assert!(evs.iter().any(|e| matches!(e, StreamEvent::Reset { .. })));
}

#[test]
fn flow_control_caps_in_flight_until_reader_drains() {
    // Receiver advertises a window; sender must not exceed it.
    let mut client = StreamMux::new(true);
    let mut server = StreamMux::new(false);
    let id = client.open(StreamKind::Forward, vec![]);
    // Shrink server's effective window by overriding DEFAULT via many bytes
    // unread: write a lot, never drain the server, and confirm in-flight is
    // bounded by the advertised window (which shrinks as data buffers).
    let big = vec![7u8; 10 * DEFAULT_WINDOW as usize];
    let total_written = big.len() as u64;
    client.write(id, &big);
    pump(&mut client, &mut server, 20, |_| false);
    // Server never read => its receive buffer must stay bounded by the
    // advertised window. This is the flow-control invariant.
    assert!(
        server.recv_buffered(id) <= DEFAULT_WINDOW as u64,
        "recv buffer {} exceeded window",
        server.recv_buffered(id)
    );
    // Now the server drains repeatedly, reopening the window each time;
    // eventually everything is delivered.
    let mut total = 0u64;
    for _ in 0..200 {
        total += drain(&mut server, id).len() as u64;
        pump(&mut client, &mut server, 5, |_| false);
    }
    total += drain(&mut server, id).len() as u64;
    assert_eq!(total, total_written);
}

#[test]
fn acknowledgement_of_unsent_bytes_is_ignored() {
    let mut m = StreamMux::new(true);
    let id = m.open(StreamKind::Forward, vec![]);
    m.write(id, b"hello");
    m.on_frame(Frame::StreamAck { id, ack: 5, window: 262144 });
    assert_eq!(m.in_flight(id), 5);
    let sent = m.poll_transmit();
    assert!(sent.contains(&Frame::StreamData {
        id,
        offset: 0,
        data: b"hello".to_vec(),
        fin: false
    }));
    m.on_frame(Frame::StreamAck { id, ack: 5, window: 262144 });
    assert_eq!(m.in_flight(id), 0);
}

#[test]
fn end_of_the_peers_bytes_is_noted_once() {
    let mut m = StreamMux::new(false);
    m.on_frame(Frame::StreamOpen { id: 0, kind: StreamKind::Forward, meta: vec![] });
    m.on_frame(Frame::StreamData { id: 0, offset: 0, data: b"abc".to_vec(), fin: true });
    assert!(!m.is_recv_finished(0));
    assert_eq!(m.read(0), b"abc");
    m.on_frame(Frame::StreamData { id: 0, offset: 9, data: vec![], fin: true });
    assert!(m.is_recv_finished(0));
}

#[test]
fn close_alone_does_not_finish_a_stream() {
    let mut m = StreamMux::new(false);
    m.on_frame(Frame::StreamOpen { id: 0, kind: StreamKind::Forward, meta: vec![] });
    m.on_frame(Frame::StreamClose { id: 0, status: 0 });
    assert!(!m.is_recv_finished(0));
    assert!(m.is_recv_finished(2));
}

#[test]
fn data_beyond_the_window_is_dropped() {
    let mut m = StreamMux::new(false);
    m.on_frame(Frame::StreamOpen { id: 0, kind: StreamKind::Forward, meta: vec![] });
    let window = DEFAULT_WINDOW as u64;
    m.on_frame(Frame::StreamData { id: 0, offset: 10_000_000, data: vec![1], fin: true });
    m.on_frame(Frame::StreamData { id: 0, offset: u64::MAX, data: vec![1], fin: false });
    m.on_frame(Frame::StreamData { id: 0, offset: window, data: vec![1], fin: false });
    m.on_frame(Frame::StreamData { id: 0, offset: window - 1, data: vec![9], fin: false });
    m.on_frame(Frame::StreamData { id: 0, offset: 0, data: vec![7; DEFAULT_WINDOW as usize - 1], fin: false });
    assert_eq!(m.recv_buffered(0), window);
    assert_eq!(m.read(0).last(), Some(&9));
    assert!(m.read(0).is_empty());
    // The window has moved on.
    m.on_frame(Frame::StreamData { id: 0, offset: window, data: vec![1], fin: true });
    assert_eq!(m.read(0), vec![1]);
    assert!(m.is_recv_finished(0));
}

#[test]
fn peer_opens_streams_under_its_own_ids_only() {
    let mut m = StreamMux::new(false);
    m.on_frame(Frame::StreamOpen { id: 1, kind: StreamKind::Forward, meta: vec![] });
    assert!(m.take_events().is_empty());
    assert_eq!(m.open(StreamKind::Forward, vec![]), 1);
}

#[test]
fn peer_opens_a_bounded_number_of_streams() {
    let mut m = StreamMux::new(true);
    let own = m.open(StreamKind::Forward, vec![]);
    for k in 0..MAX_PEER_STREAMS as u64 + 5 {
        m.on_frame(Frame::StreamOpen { id: 2 * k + 1, kind: StreamKind::Forward, meta: vec![] });
    }
    assert_eq!(m.take_events().len(), MAX_PEER_STREAMS);
    // One that is gone makes room for another.
    m.on_frame(Frame::StreamReset { id: 1 });
    m.poll_transmit();
    m.take_events();
    m.on_frame(Frame::StreamOpen { id: 1, kind: StreamKind::Forward, meta: vec![] });
    assert_eq!(m.take_events().len(), 1);
    assert_eq!(own, 0);
}

#[test]
fn reset_is_told_once_and_then_there_is_silence() {
    let mut m = StreamMux::new(true);
    let a = m.open(StreamKind::Forward, vec![]);
    let b = m.open(StreamKind::Forward, vec![]);
    m.write(a, b"gone");
    m.write(b, b"stays");
    m.reset(a);
    m.reset(99);
    let sent = m.poll_transmit();
    assert_eq!(sent[0], Frame::StreamReset { id: a });
    assert!(sent[1..].iter().all(|f| !matches!(f, Frame::StreamReset { .. })));
    assert!(sent.contains(&Frame::StreamData {
        id: b,
        offset: 0,
        data: b"stays".to_vec(),
        fin: false
    }));
    assert_eq!(m.in_flight(a), 0);
    assert!(m.read(a).is_empty());
    assert!(m.is_recv_finished(a));
    for f in m.poll_transmit() {
        assert!(!matches!(f, Frame::StreamReset { .. }));
        assert!(!matches!(f, Frame::StreamAck { id, .. } if id == a));
    }
}

#[test]
fn each_round_acknowledges_once_per_stream() {
    let mut m = StreamMux::new(false);
    m.on_frame(Frame::StreamOpen { id: 0, kind: StreamKind::Forward, meta: vec![] });
    m.on_frame(Frame::StreamData { id: 0, offset: 0, data: vec![1; 100], fin: false });
    let acks: Vec<Frame> =
        m.poll_transmit().into_iter().filter(|f| matches!(f, Frame::StreamAck { .. })).collect();
    assert_eq!(acks, vec![Frame::StreamAck { id: 0, ack: 100, window: DEFAULT_WINDOW - 100 }]);
}

#[test]
fn reassembler_handles_overlap_and_gaps() {
    let mut r = Reassembler::new();
    r.insert(0, b"abc".to_vec());
    r.insert(6, b"ghi".to_vec()); // gap [3,6)
    assert_eq!(r.ack_point(), 3);
    r.insert(3, b"def".to_vec()); // fills gap, contiguous to 9
    assert_eq!(r.ack_point(), 9);
    r.insert(2, b"cdefg".to_vec()); // overlaps already-known data
    assert_eq!(r.ack_point(), 9);
    assert_eq!(r.read(), b"abcdefghi");
}
