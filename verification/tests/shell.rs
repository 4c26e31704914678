use noissh::predict::DisplayMode;
use noissh::shell::{ClientShell, ServerShell};
use noissh::wire::Frame;

fn pump_converge(server: &mut ServerShell, client: &mut ClientShell, rounds: usize) {
    for _ in 0..rounds {
        // server -> client
        if let Some(Frame::StateDiff { seq, base, data }) = server.poll_diff() {
            client.apply_state_diff(seq, base, &data);
        }
        // client -> server (state ack)
        for f in client.poll_frames() {
            match f {
                Frame::Ack { seq } => server.on_state_ack(seq),
                Frame::Input { offset, data } => {
                    server.ingest_input(offset, &data);
                }
                _ => {}
            }
        }
    }
}

#[test]
fn basic_state_sync_converges() {
    let mut server = ServerShell::new(10, 40);
    let mut client = ClientShell::new(10, 40);
    server.feed_output(b"hello world\r\n$ ");
    pump_converge(&mut server, &mut client, 5);
    assert!(client.screen().render_eq(server.screen()));
    assert_eq!(client.screen().row_text(0), "hello world");
}

#[test]
fn state_sync_converges_under_loss_and_reorder() {
    let mut server = ServerShell::new(12, 40);
    let mut client = ClientShell::new(12, 40);
    let chunks: Vec<&[u8]> = vec![
        b"$ ls -la\r\n",
        b"total 42\r\n",
        b"drwxr-xr-x  5 user  staff\r\n",
        b"-rw-r--r--  1 user  staff  file.txt\r\n",
        b"$ ",
    ];
    let mut drop = 0u64;
    for chunk in chunks {
        server.feed_output(chunk);
        // Lossy rounds: drop ~half the packets in each direction.
        for _ in 0..3 {
            drop += 1;
            if drop % 2 == 0 {
                if let Some(Frame::StateDiff { seq, base, data }) = server.poll_diff() {
                    client.apply_state_diff(seq, base, &data);
                }
            }
            for f in client.poll_frames() {
                drop += 1;
                if drop % 3 == 0 {
                    continue; // lose this ack
                }
                if let Frame::Ack { seq } = f {
                    server.on_state_ack(seq);
                }
            }
        }
    }
    // Reliable flush.
    pump_converge(&mut server, &mut client, 30);
    assert!(client.screen().render_eq(server.screen()));
    assert_eq!(client.screen().row_text(0), "$ ls -la");
}

#[test]
fn input_channel_delivers_keystrokes_under_loss() {
    let mut server = ServerShell::new(10, 40);
    let mut client = ClientShell::new(10, 40);
    client.type_input(b"echo hi\n");
    let mut received = Vec::new();
    let mut drop = 0u64;
    for _ in 0..20 {
        for f in client.poll_frames() {
            if let Frame::Input { offset, data } = f {
                drop += 1;
                if drop % 2 == 0 {
                    continue; // simulate loss
                }
                let (fresh, ack) = server.ingest_input(offset, &data);
                received.extend_from_slice(&fresh);
                if let Frame::Ack { seq } = ack {
                    client.on_input_ack(seq);
                }
            }
        }
    }
    assert_eq!(received, b"echo hi\n");
}

#[test]
fn resize_propagates_via_full_snapshot() {
    let mut server = ServerShell::new(10, 40);
    let mut client = ClientShell::new(10, 40);
    server.feed_output(b"before");
    pump_converge(&mut server, &mut client, 5);
    // Server resizes; dimension change forces a full snapshot.
    server.resize(20, 80);
    server.feed_output(b"\r\nafter");
    pump_converge(&mut server, &mut client, 5);
    assert_eq!(client.screen().rows, 20);
    assert_eq!(client.screen().cols, 80);
    assert!(client.screen().render_eq(server.screen()));
}

#[test]
fn predictive_overlay_then_reconciles() {
    let mut server = ServerShell::new(10, 40);
    let mut client = ClientShell::new(10, 40).with_prediction(DisplayMode::Always);
    server.feed_output(b"$ ");
    pump_converge(&mut server, &mut client, 5);
    // Type a char locally; prediction should appear immediately.
    client.type_input(b"x");
    let predicted = client.overlay();
    assert_eq!(predicted.cell(0, 2).ch, 'x');
    // Server echoes it; after convergence overlay matches authoritative.
    server.feed_output(b"x");
    // deliver input then state.
    for f in client.poll_frames() {
        if let Frame::Input { offset, data } = f {
            let (_b, ack) = server.ingest_input(offset, &data);
            if let Frame::Ack { seq } = ack {
                client.on_input_ack(seq);
            }
        }
    }
    pump_converge(&mut server, &mut client, 5);
    assert!(client.screen().render_eq(server.screen()));
    assert_eq!(client.overlay().cell(0, 2).ch, 'x');
}
