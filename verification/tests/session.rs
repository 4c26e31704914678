use noissh::auth::{AuthorizedKeys, KnownHosts, PublicKey, Tofu};
use noissh::client::ClientCore;
use noissh::exec::{server_end, server_send_output, server_take_input, ExecProc, ExecRun};
use noissh::forward::{
    agent_action, agent_socket_name, client_action, client_drain, client_hand_over,
    client_has_room, server_action, server_drain, server_hand_over, server_has_room, Action,
    ForwardConn, Io,
};
use noissh::handshake::Handshaker;
use noissh::noise::{generate_keypair, Keypair};
use noissh::predict::DisplayMode;
use noissh::server::{Received, ServerCore};
use noissh::server_session::PtyAction;
use noissh::socks::{Progress, SocksConn};
use noissh::stream::StreamEvent;
use noissh::transfer::{load_send, store_settle, upload_next, Transfer, Upload};
use noissh::transport::{
    build_handshake_packet, random_session_id, Addr, SessionId, MIN_HANDSHAKE_INIT,
};
use noissh::wire::StreamKind;
use noissh::xfer::XferRequest;

fn addr(ip: [u8; 4], port: u16) -> Addr {
    Addr::V4 { ip: u32::from_be_bytes(ip), port }
}

/// A server whose shells print a fixed text when they start.
struct Rig {
    core: ServerCore,
    prints: Vec<u8>,
    typed: Vec<u8>,
    shells: usize,
    term: String,
    size: (u16, u16),
    exits: Vec<(SessionId, i32)>,
    answered: Vec<u8>,
    agent: bool,
}

impl Rig {
    fn new(core: ServerCore, prints: &[u8]) -> Rig {
        Rig {
            core,
            prints: prints.to_vec(),
            typed: Vec::new(),
            shells: 0,
            term: String::new(),
            size: (0, 0),
            exits: Vec::new(),
            answered: Vec::new(),
            agent: false,
        }
    }

    fn for_client(client_pub: &[u8], prints: &[u8]) -> Rig {
        let mut authorized = AuthorizedKeys::new();
        authorized.add(PublicKey::from_bytes(client_pub).unwrap(), "test");
        Rig::new(ServerCore::local(generate_keypair().unwrap(), authorized), prints)
    }

    fn handle_packet(&mut self, src: Addr, pkt: &[u8]) -> Vec<(Addr, Vec<u8>)> {
        match self.core.receive(src, pkt) {
            Received::Replies { out, .. } => out,
            Received::Frames { session_id, frames } => {
                let mut replies = Vec::new();
                for f in frames {
                    let (reply, action) = self.core.handle_frame(&session_id, f);
                    replies.extend(reply);
                    match action {
                        PtyAction::Spawn { cols, rows, term, agent } => {
                            self.shells += 1;
                            self.agent = agent;
                            self.size = (cols, rows);
                            self.term = term;
                            self.core.on_spawned(&session_id, cols, rows);
                            let answer = self.core.feed_output(&session_id, &self.prints);
                            self.answered.extend_from_slice(&answer);
                        }
                        PtyAction::Write(bytes) => self.typed.extend_from_slice(&bytes),
                        PtyAction::Resize { cols, rows } => self.size = (cols, rows),
                        PtyAction::Nothing => {}
                    }
                }
                self.core.finish_packet(&session_id, &replies)
            }
        }
    }

    fn tick(&mut self) -> Vec<(Addr, Vec<u8>)> {
        let (out, _killed) = self.core.tick(&self.exits);
        out
    }
}

fn new_client(kp: &Keypair, server: Addr) -> (ClientCore, Vec<u8>) {
    ClientCore::new(
        kp,
        KnownHosts::new(),
        "h:1".to_string(),
        server,
        10,
        40,
        DisplayMode::Adaptive,
        "xterm-256color".to_string(),
    )
    .unwrap()
}

fn here() -> Addr {
    addr([127, 0, 0, 1], 1)
}

/// Complete a handshake for a fresh client from source address `from`.
fn connect(server: &mut Rig, kp: &Keypair, from: Addr) -> ClientCore {
    let (mut c, first) = new_client(kp, here());
    join(server, &mut c, first, from);
    assert!(c.is_established(), "handshake did not complete");
    c
}

fn join(server: &mut Rig, c: &mut ClientCore, first: Vec<u8>, from: Addr) {
    let mut to_server = vec![first];
    for _ in 0..12 {
        let mut to_client = Vec::new();
        for pkt in to_server.drain(..) {
            for (a, out) in server.handle_packet(from, &pkt) {
                if a == from {
                    to_client.push(out);
                }
            }
        }
        for pkt in to_client {
            if let Ok(replies) = c.handle_packet(&pkt) {
                to_server.extend(replies);
            }
        }
        for pkt in c.tick() {
            to_server.push(pkt);
        }
    }
}

/// Pump packets between a client and the server (no loss) for `rounds`.
fn pump(server: &mut Rig, client: &mut ClientCore, from: Addr, rounds: usize) {
    for _ in 0..rounds {
        for pkt in client.tick() {
            for (a, out) in server.handle_packet(from, &pkt) {
                if a == from {
                    let _ = client.handle_packet(&out);
                }
            }
        }
        for (a, out) in server.tick() {
            if a == from {
                let _ = client.handle_packet(&out);
            }
        }
    }
}

// ---------------------------------------------------------------------------
// Who gets a session
// ---------------------------------------------------------------------------

fn handshake_creates_session(authorize_client: bool) -> bool {
    let server_kp = generate_keypair().unwrap();
    let client_kp = generate_keypair().unwrap();
    let mut authorized = AuthorizedKeys::new();
    if authorize_client {
        authorized.add(PublicKey::from_bytes(&client_kp.public).unwrap(), "ok");
    }
    let core = ServerCore::new(
        server_kp,
        authorized,
        Some(vec!["/bin/sh".into(), "-c".into(), "printf X".into()]),
    );
    let mut server = Rig::new(core, b"X");
    let from = addr([10, 0, 0, 1], 5000);
    let (mut client, first) = new_client(&client_kp, from);
    join(&mut server, &mut client, first, from);
    server.core.session_count() > 0
}

#[test]
fn authorized_client_creates_session() {
    assert!(handshake_creates_session(true));
}

#[test]
fn unauthorized_client_creates_no_session() {
    assert!(!handshake_creates_session(false));
}

#[test]
fn e2e_unauthorized_client_gets_no_session() {
    let stranger = generate_keypair().unwrap();
    let core = ServerCore::local(generate_keypair().unwrap(), AuthorizedKeys::new());
    let mut server = Rig::new(core, b"SHOULD-NOT-RUN\r\n");
    let from = addr([10, 0, 0, 1], 5000);
    let (mut client, first) = new_client(&stranger, from);
    join(&mut server, &mut client, first, from);
    pump(&mut server, &mut client, from, 50);
    assert_eq!(server.core.session_count(), 0);
    assert_eq!(server.shells, 0);
    assert_eq!(client.screen().row_text(0), "");
}

#[test]
fn known_hosts_mismatch_is_detected() {
    let mut known = KnownHosts::new();
    let real = PublicKey([1u8; 32]);
    let attacker = PublicKey([2u8; 32]);
    assert_eq!(known.check_or_add("host", &real), Tofu::New);
    assert_eq!(known.check_or_add("host", &attacker), Tofu::Mismatch);
}

#[test]
fn changed_server_key_aborts_the_connection() {
    let kp = generate_keypair().unwrap();
    let mut server = Rig::for_client(&kp.public, b"");
    let mut known = KnownHosts::new();
    known.check_or_add("h:1", &PublicKey([7u8; 32]));
    let from = addr([10, 0, 0, 1], 5000);
    let (mut c, first) = ClientCore::new(
        &kp,
        known,
        "h:1".to_string(),
        from,
        10,
        40,
        DisplayMode::Never,
        "xterm".to_string(),
    )
    .unwrap();
    let reply = server.handle_packet(from, &first);
    let r = c.handle_packet(&reply[0].1);
    assert!(matches!(
        r,
        Err(noissh::error::RuntimeError::HostKeyMismatch(label)) if label == "h:1"
    ));
    assert!(!c.is_established());
    assert!(!c.known_hosts_dirty());
    assert!(c.tick().is_empty());
}

#[test]
fn first_contact_pins_the_server_key() {
    let kp = generate_keypair().unwrap();
    let mut server = Rig::for_client(&kp.public, b"");
    let public = server.core.public_key().to_vec();
    let client = connect(&mut server, &kp, addr([10, 0, 0, 1], 5000));
    assert!(client.known_hosts_dirty());
    assert_eq!(client.server_static(), Some(public.as_slice()));
    let pinned = client.known_hosts().get("h:1").copied();
    assert_eq!(pinned, Some(PublicKey::from_bytes(&public).unwrap()));
}

#[test]
fn malformed_packets_never_panic_the_server() {
    let server_kp = generate_keypair().unwrap();
    let core =
        ServerCore::new(server_kp, AuthorizedKeys::new(), Some(vec!["/bin/sh".into()]));
    let mut server = Rig::new(core, b"");
    let from = addr([10, 0, 0, 1], 5000);
    let mut state = 0xCAFEBABEu64;
    for _ in 0..20000 {
        state = state.wrapping_mul(6364136223846793005).wrapping_add(1);
        let len = (state >> 56) as usize % 200;
        let mut buf = Vec::with_capacity(len);
        let mut s = state;
        for _ in 0..len {
            s = s.wrapping_mul(6364136223846793005).wrapping_add(1);
            buf.push((s >> 33) as u8);
        }
        let _ = server.handle_packet(from, &buf); // must not panic
    }
}

#[test]
fn forged_transport_packet_is_rejected() {
    let client_kp = generate_keypair().unwrap();
    let mut server = Rig::for_client(&client_kp.public, b"X");
    let from = addr([10, 0, 0, 1], 5000);
    let mut client = connect(&mut server, &client_kp, from);
    assert!(server.core.session_count() > 0);
    client.type_input(b"x");
    let mut pkt = client.tick().into_iter().next().unwrap();
    let last = pkt.len() - 1;
    pkt[last] ^= 0xff;
    let evil = addr([198, 51, 100, 66], 9);
    assert!(server.handle_packet(evil, &pkt).is_empty());
    // What the server sends still goes to the client.
    for (a, _) in server.tick() {
        assert_eq!(a, from);
    }
    assert!(server.typed.is_empty());
}

#[test]
fn injected_garbage_does_not_kill_inflight_handshake() {
    let client_kp = generate_keypair().unwrap();
    let mut server = Rig::for_client(&client_kp.public, b"");
    let from = addr([10, 0, 0, 1], 5000);
    let (mut client, first) = new_client(&client_kp, from);
    let mut sid = [0u8; 8];
    sid.copy_from_slice(&first[1..9]);

    // msg1 -> server creates pending state and replies msg2.
    let reply = server.handle_packet(from, &first);
    assert!(!reply.is_empty(), "server should answer msg1");

    // A large enough garbage packet for the same session id from a different
    // address must be ignored.
    let garbage = build_handshake_packet(&sid, &vec![7u8; 1300]);
    assert!(server.handle_packet(addr([198, 51, 100, 9], 1), &garbage).is_empty());

    // The legitimate client finishes the handshake; a session must result.
    let mut to_client: Vec<Vec<u8>> = reply.into_iter().map(|(_, p)| p).collect();
    for _ in 0..10 {
        let mut next = Vec::new();
        for pkt in to_client.drain(..) {
            if let Ok(reps) = client.handle_packet(&pkt) {
                for r in reps {
                    for (_a, o) in server.handle_packet(from, &r) {
                        next.push(o);
                    }
                }
            }
        }
        for p in client.tick() {
            for (_a, o) in server.handle_packet(from, &p) {
                next.push(o);
            }
        }
        to_client = next;
        if server.core.session_count() > 0 {
            break;
        }
    }
    assert_eq!(
        server.core.session_count(),
        1,
        "garbage injection destroyed the in-flight handshake"
    );
}

#[test]
fn bogus_reply_does_not_end_the_clients_handshake() {
    let kp = generate_keypair().unwrap();
    let mut server = Rig::for_client(&kp.public, b"");
    let from = addr([10, 0, 0, 1], 5000);
    let sid = random_session_id().unwrap();
    let (hs, first) = Handshaker::client(&kp.private, sid).unwrap();
    let (mut client, first) = ClientCore::from_begun(
        hs,
        first,
        KnownHosts::new(),
        "h:1".to_string(),
        here(),
        10,
        40,
        DisplayMode::Adaptive,
        "xterm".to_string(),
    );
    let bogus = build_handshake_packet(&sid, &[7; 300]);
    assert!(client.handle_packet(&bogus).is_err());
    join(&mut server, &mut client, first, from);
    assert!(client.is_established());
}

#[test]
fn undersized_handshake_init_gets_no_reply() {
    let client_kp = generate_keypair().unwrap();
    let mut server = Rig::for_client(&client_kp.public, b"");
    let from = addr([10, 0, 0, 1], 5000);

    // A tiny init: header + a handful of bytes (well under the floor).
    let sid = random_session_id().unwrap();
    let small = build_handshake_packet(&sid, &[1, 2, 3, 4, 5]);
    assert!(
        server.handle_packet(from, &small).is_empty(),
        "server replied to an undersized init (amplification vector)"
    );
    assert_eq!(server.core.session_count(), 0);

    // A real, padded client init does get a reply.
    let (_client, first) = new_client(&client_kp, from);
    assert!(
        first.len() >= MIN_HANDSHAKE_INIT,
        "client init must be padded to the floor"
    );
    assert!(
        !server.handle_packet(from, &first).is_empty(),
        "server should answer a properly padded init"
    );
}

// ---------------------------------------------------------------------------
// Resilience
// ---------------------------------------------------------------------------

/// Tiny deterministic PRNG so the tests are reproducible.
struct Lcg(u64);

impl Lcg {
    fn next(&mut self) -> u64 {
        self.0 = self
            .0
            .wrapping_mul(6364136223846793005)
            .wrapping_add(1442695040888963407);
        self.0 >> 33
    }

    /// Returns true with probability `pct`%.
    fn drop(&mut self, pct: u64) -> bool {
        self.next() % 100 < pct
    }
}

fn run_harness(loss_pct: u64, roam: bool) -> String {
    let client_kp = generate_keypair().unwrap();
    let mut server = Rig::for_client(&client_kp.public, b"");
    let (mut client, first) = new_client(&client_kp, here());
    let mut rng = Lcg(0x1234_5678);
    let mut client_addr = addr([10, 0, 0, 1], 5000);

    // Queues of in-flight packets.
    let mut to_server: Vec<(Addr, Vec<u8>)> = vec![(client_addr, first.clone())];
    let mut to_client: Vec<Vec<u8>> = Vec::new();

    for round in 0..800 {
        // Roam to a new source address partway through.
        if roam && round == 60 {
            client_addr = addr([203, 0, 113, 9], 41000);
        }
        // The shell prints after the client has moved.
        if round == 80 {
            for sid in server.core.pty_sessions() {
                server.core.feed_output(&sid, b"CONVERGED-OK\r\n");
            }
        }
        // Client emits its periodic frames.
        for pkt in client.tick() {
            if !rng.drop(loss_pct) {
                to_server.push((client_addr, pkt));
            }
        }
        // Server emits state diffs to the *current* peer addr.
        for (a, pkt) in server.tick() {
            if a == client_addr && !rng.drop(loss_pct) {
                to_client.push(pkt);
            }
        }
        // Deliver to server in shuffled order (reorder), with loss.
        let mut pending = std::mem::take(&mut to_server);
        while !pending.is_empty() {
            let i = (rng.next() as usize) % pending.len();
            let (src, pkt) = pending.swap_remove(i);
            for (a, out) in server.handle_packet(src, &pkt) {
                if a == client_addr && (!client.is_established() || !rng.drop(loss_pct)) {
                    to_client.push(out);
                }
            }
        }
        // Deliver to client in shuffled order (reorder), with loss.
        let mut pending = std::mem::take(&mut to_client);
        while !pending.is_empty() {
            let i = (rng.next() as usize) % pending.len();
            let pkt = pending.swap_remove(i);
            let joining = !client.is_established();
            if let Ok(replies) = client.handle_packet(&pkt) {
                for r in replies {
                    if joining || !rng.drop(loss_pct) {
                        to_server.push((client_addr, r));
                    }
                }
            }
        }
        if client.screen().row_text(0).contains("CONVERGED-OK") {
            break;
        }
    }
    client.screen().row_text(0)
}

#[test]
fn converges_on_clean_link() {
    assert_eq!(run_harness(0, false), "CONVERGED-OK");
}

#[test]
fn converges_under_heavy_loss_and_reorder() {
    assert_eq!(run_harness(40, false), "CONVERGED-OK");
}

#[test]
fn survives_source_address_change_midsession() {
    assert_eq!(run_harness(20, true), "CONVERGED-OK");
}

// ---------------------------------------------------------------------------
// Shells
// ---------------------------------------------------------------------------

#[test]
fn e2e_shell_output_over_udp() {
    let kp = generate_keypair().unwrap();
    let mut server = Rig::for_client(&kp.public, b"E2E-HELLO\r\n");
    let from = addr([10, 0, 0, 1], 5000);
    let mut client = connect(&mut server, &kp, from);
    pump(&mut server, &mut client, from, 20);
    assert_eq!(client.screen().row_text(0), "E2E-HELLO");
    assert_eq!(server.shells, 1);
    assert_eq!(server.term, "xterm-256color");
    assert_eq!(server.size, (40, 10));
    // What is typed reaches the shell, once.
    client.type_input(b"echo hi\n");
    pump(&mut server, &mut client, from, 20);
    assert_eq!(server.typed, b"echo hi\n");
    // So does another size.
    client.resize(100, 30);
    pump(&mut server, &mut client, from, 5);
    assert_eq!(server.size, (100, 30));
}

#[test]
fn e2e_prompt_after_cursor_query_appears_without_input() {
    // A shell that asks where the cursor is before it prints its prompt is
    // answered by the server's emulator.
    let kp = generate_keypair().unwrap();
    let mut server = Rig::for_client(&kp.public, b"ab\x1b[6n");
    let from = addr([10, 0, 0, 1], 5000);
    let mut client = connect(&mut server, &kp, from);
    assert_eq!(server.answered, b"\x1b[1;3R");
    let sid = server.core.pty_sessions()[0];
    server.core.feed_output(&sid, b"\rPROMPT> ");
    pump(&mut server, &mut client, from, 20);
    assert_eq!(client.screen().row_text(0), "PROMPT>");
}

#[test]
fn exit_status_reaches_the_client() {
    let kp = generate_keypair().unwrap();
    let mut server = Rig::for_client(&kp.public, b"");
    let from = addr([10, 0, 0, 1], 5000);
    let mut client = connect(&mut server, &kp, from);
    let sid = server.core.pty_sessions()[0];
    assert_eq!(client.exit_status(), None);
    assert!(!server.core.all_done());
    server.exits.push((sid, 3));
    pump(&mut server, &mut client, from, 5);
    assert_eq!(client.exit_status(), Some(3));
    assert!(server.core.all_done());
}

#[test]
fn reattach_resumes_the_same_running_shell() {
    let kp = generate_keypair().unwrap();
    let mut server = Rig::for_client(&kp.public, b"REATTACH-OK\r\n");
    let addr_a = addr([10, 0, 0, 1], 5000);
    let mut client_a = connect(&mut server, &kp, addr_a);
    pump(&mut server, &mut client_a, addr_a, 20);
    assert!(client_a.screen().row_text(0).contains("REATTACH-OK"));
    assert_eq!(server.core.session_count(), 1);

    // Client A vanishes. A new client with the SAME key connects from a
    // different address and must reattach to the running shell.
    let addr_b = addr([203, 0, 113, 9], 6000);
    let mut client_b = connect(&mut server, &kp, addr_b);
    pump(&mut server, &mut client_b, addr_b, 20);
    assert!(
        client_b.screen().row_text(0).contains("REATTACH-OK"),
        "reattached client did not receive the existing shell's screen"
    );
    // The old session was moved onto the new one, not duplicated.
    assert_eq!(server.core.session_count(), 1);
    assert_eq!(server.shells, 1);
}

#[test]
fn client_that_is_done_ends_its_session() {
    let kp = generate_keypair().unwrap();
    let mut server = Rig::for_client(&kp.public, b"");
    let from = addr([10, 0, 0, 1], 5000);
    let mut client = connect(&mut server, &kp, from);
    let sid = only_session(&server);
    client.send_bye();
    for pkt in client.tick() {
        server.handle_packet(from, &pkt);
    }
    assert_eq!(server.core.session_count(), 1);
    let (out, killed) = server.core.tick(&Vec::new());
    assert!(out.is_empty());
    assert_eq!(killed, vec![sid]);
    assert_eq!(server.core.session_count(), 0);
}

#[test]
fn client_learns_the_servers_version() {
    let kp = generate_keypair().unwrap();
    let mut server = Rig::for_client(&kp.public, b"");
    let from = addr([10, 0, 0, 1], 5000);
    let (client, first) = new_client(&kp, here());
    assert_eq!(client.server_version(), None);
    drop(first);
    // The server's side of the handshake tells it.
    let client = connect(&mut server, &kp, from);
    assert_eq!(client.server_version(), Some("0.4.1"));
}

#[test]
fn idle_session_is_reaped() {
    let kp = generate_keypair().unwrap();
    let mut server = Rig::for_client(&kp.public, b"");
    let from = addr([10, 0, 0, 1], 5000);
    let _client = connect(&mut server, &kp, from);
    assert_eq!(server.core.session_count(), 1);
    // No further client activity: after the idle grace the session is reaped.
    for _ in 0..20_050 {
        server.tick();
    }
    assert_eq!(server.core.session_count(), 0, "idle session was not reaped");
}

#[test]
fn keepalive_keeps_an_idle_session_alive() {
    let kp = generate_keypair().unwrap();
    let mut server = Rig::for_client(&kp.public, b"");
    let from = addr([10, 0, 0, 1], 5000);
    let mut client = connect(&mut server, &kp, from);
    assert_eq!(server.core.session_count(), 1);
    for i in 0..25_000 {
        server.tick();
        if i % 500 == 0 {
            if let Some(ping) = client.keepalive() {
                for (a, pong) in server.handle_packet(from, &ping) {
                    if a == from {
                        let _ = client.handle_packet(&pong);
                    }
                }
            }
        }
    }
    assert_eq!(
        server.core.session_count(),
        1,
        "keepalive failed to keep the session alive"
    );
}

// ---------------------------------------------------------------------------
// Streams
// ---------------------------------------------------------------------------

fn only_session(server: &Rig) -> SessionId {
    server.core.pty_sessions()[0]
}

#[test]
fn forward_stream_round_trips_bytes_both_ways() {
    let kp = generate_keypair().unwrap();
    let mut server = Rig::for_client(&kp.public, b"");
    let from = addr([10, 0, 0, 1], 5000);
    let mut client = connect(&mut server, &kp, from);

    // Client opens a forward toward a target and sends bytes.
    let id = client.open_forward("198.51.100.7:80");
    client.stream_write(id, b"GET / HTTP/1.0\r\n");
    pump(&mut server, &mut client, from, 10);

    // Server surfaces the open (with the target as metadata) and the data.
    let mut sid: Option<SessionId> = None;
    let mut opened_meta: Option<Vec<u8>> = None;
    for (s, ev) in server.core.take_stream_events() {
        if let StreamEvent::Opened { meta, .. } = ev {
            sid = Some(s);
            opened_meta = Some(meta);
        }
    }
    let sid = sid.expect("server never saw the forward open");
    assert_eq!(opened_meta.as_deref(), Some(&b"198.51.100.7:80"[..]));
    assert_eq!(server.core.stream_read(&sid, id), b"GET / HTTP/1.0\r\n");

    // Server (acting as the forwarded peer) writes a reply back.
    server.core.stream_write(&sid, id, b"HTTP/1.0 200 OK\r\n");
    pump(&mut server, &mut client, from, 10);
    assert_eq!(client.stream_read(id), b"HTTP/1.0 200 OK\r\n");

    // Closing the client half is observed by the server.
    client.stream_close(id);
    pump(&mut server, &mut client, from, 10);
    let closed = server
        .core
        .take_stream_events()
        .iter()
        .any(|(_, ev)| matches!(ev, StreamEvent::Closed { .. }));
    assert!(closed, "server did not observe the stream close");
}

#[test]
fn local_forward_round_trips_over_udp_and_tcp() {
    // Both ends of a forward: the client's socket sends a request and closes, the
    // server's socket echoes it and closes.
    let kp = generate_keypair().unwrap();
    let mut server = Rig::for_client(&kp.public, b"");
    let from = addr([10, 0, 0, 1], 5000);
    let mut client = connect(&mut server, &kp, from);
    let sid = only_session(&server);
    let mut near = ForwardConn::new();
    let id = client.open_forward("echo.example:7");
    assert!(client_has_room(&client, id));
    assert!(near.read_tcp(Io::Moved(24)));
    assert!(!client_hand_over(&mut client, id, &mut near, b"hello-through-the-tunnel"));
    assert!(!near.read_tcp(Io::Moved(0)));
    assert!(!client_hand_over(&mut client, id, &mut near, b""));
    pump(&mut server, &mut client, from, 10);

    let mut far = ForwardConn::new();
    let mut dialed = None;
    for (s, ev) in server.core.take_stream_events() {
        assert_eq!(s, sid);
        match server_action(&ev, false) {
            Action::Dial { id: opened, target } => {
                assert_eq!(opened, id);
                dialed = Some(target);
            }
            Action::PeerClosed { id: closed, .. } => {
                assert_eq!(closed, id);
                far.mark_peer_closed();
            }
            _ => {}
        }
    }
    assert_eq!(dialed.as_deref(), Some("echo.example:7"));
    server_drain(&mut server.core, &sid, id, &mut far);
    assert_eq!(far.waiting(), b"hello-through-the-tunnel");
    assert!(far.wants_write());
    // A write that takes part of it leaves the rest.
    assert!(far.flush(Io::Moved(2)));
    assert_eq!(far.waiting(), b"llo-through-the-tunnel");
    assert!(!far.flush(Io::Moved(22)));
    assert!(server_has_room(&server.core, &sid, id));
    far.read_tcp(Io::Moved(24));
    assert!(!server_hand_over(&mut server.core, &sid, id, &mut far, b"hello-through-the-tunnel"));
    far.read_tcp(Io::Moved(0));
    assert!(server_hand_over(&mut server.core, &sid, id, &mut far, b""));
    pump(&mut server, &mut client, from, 10);

    for ev in client.take_stream_events() {
        if let Action::PeerClosed { .. } = client_action(&ev) {
            near.mark_peer_closed();
        }
    }
    client_drain(&mut client, id, &mut near);
    assert_eq!(near.waiting(), b"hello-through-the-tunnel");
    assert!(!near.is_finished());
    near.flush(Io::Moved(24));
    assert!(near.is_done() && near.is_finished());
}

#[test]
fn remote_forward_round_trips() {
    let kp = generate_keypair().unwrap();
    let mut server = Rig::for_client(&kp.public, b"");
    let from = addr([10, 0, 0, 1], 5000);
    let (mut client, first) = new_client(&kp, here());
    client.set_want_shell(false);
    join(&mut server, &mut client, first, from);
    client.request_remote_forward(9000, "localhost:22");
    pump(&mut server, &mut client, from, 3);
    let asked = server.core.take_remote_forward_requests();
    assert!(!asked.is_empty());
    let (sid, port, target) = asked[0].clone();
    assert_eq!((port, target.as_str()), (9000, "localhost:22"));
    assert!(server.core.has_session(&sid));
    // A connection to the server's port reaches the client.
    let id = server.core.open_forward(&sid, &target).unwrap();
    server.core.stream_write(&sid, id, b"remote-forward-roundtrip");
    pump(&mut server, &mut client, from, 10);
    let mut dialed = None;
    for ev in client.take_stream_events() {
        if let Action::Dial { id: opened, target } = client_action(&ev) {
            assert_eq!(opened, id);
            dialed = Some(target);
        }
    }
    assert_eq!(dialed.as_deref(), Some("localhost:22"));
    assert_eq!(client.stream_read(id), b"remote-forward-roundtrip");
    // And back.
    client.stream_write(id, b"remote-forward-roundtrip");
    pump(&mut server, &mut client, from, 10);
    assert_eq!(server.core.stream_read(&sid, id), b"remote-forward-roundtrip");
    assert_eq!(server.shells, 0, "no shell was asked for");
}

#[test]
fn exec_streams_stdout_stderr_and_exit_code() {
    let kp = generate_keypair().unwrap();
    let mut server = Rig::for_client(&kp.public, b"");
    let from = addr([10, 0, 0, 1], 5000);
    let mut client = connect(&mut server, &kp, from);
    let sid = only_session(&server);
    let mut run = ExecRun::start(&mut client, "printf OUT; printf ERR >&2; exit 7");
    assert!(run.wants_input());
    run.input(&mut client, Io::Moved(2), b"in");
    run.input(&mut client, Io::WouldBlock, b"");
    run.input(&mut client, Io::Moved(0), b"");
    assert!(!run.wants_input());
    pump(&mut server, &mut client, from, 10);

    let mut started = None;
    for (_, ev) in server.core.take_stream_events() {
        if let Action::Exec { id, command } = server_action(&ev, false) {
            assert_eq!(command, "printf OUT; printf ERR >&2; exit 7");
            started = Some(id);
        }
    }
    let id = started.expect("the server never saw the command");
    let errors = server.core.open_errors(&sid).unwrap();
    let mut proc = ExecProc::spawned();
    assert!(!server_take_input(&mut server.core, &sid, id, &mut proc));
    assert_eq!(proc.waiting(), b"in");
    assert_eq!(proc.stdin_buffered(), 2);
    assert!(!proc.flush_stdin(Io::Moved(2)));
    assert!(server_take_input(&mut server.core, &sid, id, &mut proc));
    proc.close_stdin();
    assert!(!proc.stdin_open());
    proc.write_stdin(b"late");
    assert_eq!(proc.stdin_buffered(), 0);
    assert!(proc.read_stdout(Io::Moved(3)));
    assert!(proc.read_stderr(Io::Moved(3)));
    server_send_output(&mut server.core, &sid, id, errors, b"OUT", b"ERR");
    assert_eq!(proc.poll_exit(None), None);
    assert_eq!(proc.exit_code(), 0);
    assert_eq!(proc.poll_exit(Some((Some(7), None))), Some(7));
    assert!(!proc.finished());
    assert!(!proc.read_stdout(Io::Moved(0)));
    assert!(!proc.read_stderr(Io::Failed));
    assert!(proc.finished());
    assert_eq!(proc.exit_code(), 7);
    server_end(&mut server.core, &sid, id, errors, proc.exit_code());

    let mut out = Vec::new();
    let mut err = Vec::new();
    let mut code = None;
    for _ in 0..50 {
        pump(&mut server, &mut client, from, 1);
        let events = client.take_stream_events();
        run.events(&events).unwrap();
        let (o, e) = run.output(&mut client);
        out.extend_from_slice(&o);
        err.extend_from_slice(&e);
        code = run.result(&client);
        if code.is_some() {
            break;
        }
    }
    assert_eq!(out, b"OUT", "stdout mismatch");
    assert_eq!(err, b"ERR", "stderr mismatch");
    assert_eq!(code, Some(7), "exit code mismatch");
}

#[test]
fn refused_command_is_an_error() {
    let kp = generate_keypair().unwrap();
    let mut server = Rig::for_client(&kp.public, b"");
    let from = addr([10, 0, 0, 1], 5000);
    let mut client = connect(&mut server, &kp, from);
    let sid = only_session(&server);
    let mut run = ExecRun::start(&mut client, "true");
    pump(&mut server, &mut client, from, 5);
    for (_, ev) in server.core.take_stream_events() {
        if let Action::Exec { id, .. } = server_action(&ev, false) {
            server.core.stream_reset(&sid, id);
        }
    }
    pump(&mut server, &mut client, from, 5);
    let events = client.take_stream_events();
    assert!(matches!(
        run.events(&events),
        Err(noissh::error::RuntimeError::Exec(m)) if m == "remote refused or could not start the command"
    ));
}

#[test]
fn put_uploads_a_file_to_the_server() {
    let kp = generate_keypair().unwrap();
    let mut server = Rig::for_client(&kp.public, b"");
    let from = addr([10, 0, 0, 1], 5000);
    let mut client = connect(&mut server, &kp, from);
    let sid = only_session(&server);
    let payload: Vec<u8> = (0..200_000u32).map(|i| (i % 251) as u8).collect();
    let req = XferRequest::Put { path: "/tmp/dest.bin".into(), size: payload.len() as u64 };
    let mut t = Transfer::start(&mut client, &req);
    let mut chunks = payload.chunks(64 * 1024);
    let mut stored = Vec::new();
    let mut open = None;
    let mut complete = false;
    for _ in 0..3000 {
        t.check(&client.take_stream_events()).unwrap();
        if t.wants_chunk(&client) {
            t.send(&mut client, chunks.next().unwrap_or(&[]));
        }
        assert!(t.receive(&mut client).is_empty());
        if t.settle(&mut client) {
            complete = true;
            break;
        }
        pump(&mut server, &mut client, from, 1);
        for (_, ev) in server.core.take_stream_events() {
            if let Action::Store { id, path } = server_action(&ev, false) {
                assert_eq!(path, "/tmp/dest.bin");
                open = Some(id);
            }
        }
        if let Some(id) = open {
            stored.extend_from_slice(&server.core.stream_read(&sid, id));
            match upload_next(&server.core, &sid, id, false) {
                Upload::Waiting => {}
                Upload::Keep => {
                    assert!(stored == payload, "kept before it was complete");
                    assert!(store_settle(&mut server.core, &sid, id, false));
                    open = None;
                }
                Upload::Discard => panic!("the upload was thrown away"),
            }
        }
    }
    assert!(complete, "the upload never completed");
    assert!(stored == payload, "the file arrived changed");
}

#[test]
fn get_downloads_a_file_from_the_server() {
    let kp = generate_keypair().unwrap();
    let mut server = Rig::for_client(&kp.public, b"");
    let from = addr([10, 0, 0, 1], 5000);
    let mut client = connect(&mut server, &kp, from);
    let sid = only_session(&server);
    let payload: Vec<u8> = (0..123_457u32).map(|i| (i % 253) as u8).collect();
    let req = XferRequest::Get { path: "/tmp/source.bin".into() };
    let t = Transfer::start(&mut client, &req);
    let mut chunks = payload.chunks(64 * 1024);
    let mut got = Vec::new();
    let mut open = None;
    let mut complete = false;
    for _ in 0..3000 {
        t.check(&client.take_stream_events()).unwrap();
        assert!(!t.wants_chunk(&client));
        got.extend_from_slice(&t.receive(&mut client));
        if t.settle(&mut client) {
            complete = true;
            break;
        }
        pump(&mut server, &mut client, from, 1);
        for (_, ev) in server.core.take_stream_events() {
            if let Action::Load { id, path } = server_action(&ev, false) {
                assert_eq!(path, "/tmp/source.bin");
                open = Some(id);
            }
        }
        if let Some(id) = open {
            if server_has_room(&server.core, &sid, id) {
                let chunk = chunks.next().map(|c| c.to_vec());
                if load_send(&mut server.core, &sid, id, chunk) {
                    open = None;
                }
            }
        }
    }
    assert!(complete, "the download never completed");
    assert!(got == payload, "the file arrived changed");
}

#[test]
fn get_of_missing_file_is_reported_as_an_error() {
    let kp = generate_keypair().unwrap();
    let mut server = Rig::for_client(&kp.public, b"");
    let from = addr([10, 0, 0, 1], 5000);
    let mut client = connect(&mut server, &kp, from);
    let sid = only_session(&server);
    let t = Transfer::start(&mut client, &XferRequest::Get { path: "/nope".into() });
    pump(&mut server, &mut client, from, 3);
    for (_, ev) in server.core.take_stream_events() {
        if let Action::Load { id, .. } = server_action(&ev, false) {
            server.core.stream_reset(&sid, id);
        }
    }
    pump(&mut server, &mut client, from, 3);
    assert!(matches!(
        t.check(&client.take_stream_events()),
        Err(noissh::error::RuntimeError::Transfer(m))
            if m == "remote rejected the transfer (no such file or permission denied)"
    ));
}

#[test]
fn streams_that_make_no_sense_are_turned_away() {
    let opened = |kind, meta: &[u8]| StreamEvent::Opened { id: 4, kind, meta: meta.to_vec() };
    let ask = |kind, meta: &[u8]| server_action(&opened(kind, meta), false);
    assert!(matches!(ask(StreamKind::Forward, &[0xff]), Action::Refuse { id: 4 }));
    assert!(matches!(ask(StreamKind::FileTransfer, b"nope"), Action::Reject { id: 4 }));
    assert!(matches!(ask(StreamKind::FileTransfer, &[0xff]), Action::Reject { id: 4 }));
    assert!(matches!(ask(StreamKind::Session, &[0xff]), Action::Reject { id: 4 }));
    assert!(matches!(ask(StreamKind::Agent, b""), Action::Nothing));
    assert!(matches!(server_action(&StreamEvent::Reset { id: 4 }, false), Action::Drop { id: 4 }));
    assert!(matches!(server_action(&StreamEvent::Readable { id: 4 }, false), Action::Nothing));
    assert!(matches!(
        client_action(&opened(StreamKind::Agent, b"")),
        Action::Nothing
    ));
    assert!(matches!(
        agent_action(&opened(StreamKind::Agent, b"")),
        Action::DialAgent { id: 4 }
    ));
}

#[test]
fn e2e_initial_prompt_appears_without_input() {
    // A prompt without a newline arrives although nothing is typed.
    let kp = generate_keypair().unwrap();
    let mut server = Rig::for_client(&kp.public, b"PROMPT> ");
    let from = addr([10, 0, 0, 1], 5000);
    let mut client = connect(&mut server, &kp, from);
    pump(&mut server, &mut client, from, 20);
    assert_eq!(client.screen().row_text(0), "PROMPT>");
    assert!(server.typed.is_empty());
}

#[test]
fn e2e_survives_client_rebind_roaming() {
    let kp = generate_keypair().unwrap();
    let mut server = Rig::for_client(&kp.public, b"PHASE-A\r\n");
    let from = addr([10, 0, 0, 1], 5000);
    let mut client = connect(&mut server, &kp, from);
    pump(&mut server, &mut client, from, 20);
    assert_eq!(client.screen().row_text(0), "PHASE-A");
    // The client jumps to another port; what it sends next tells the server.
    let elsewhere = addr([10, 0, 0, 1], 5001);
    let ping = client.keepalive().unwrap();
    for (to, _) in server.handle_packet(elsewhere, &ping) {
        assert_eq!(to, elsewhere);
    }
    let sid = only_session(&server);
    server.core.feed_output(&sid, b"PHASE-B\r\n");
    pump(&mut server, &mut client, elsewhere, 20);
    assert_eq!(client.screen().row_text(1), "PHASE-B");
}

#[test]
fn put_to_uncreatable_destination_is_reported_as_an_error() {
    let kp = generate_keypair().unwrap();
    let mut server = Rig::for_client(&kp.public, b"");
    let from = addr([10, 0, 0, 1], 5000);
    let mut client = connect(&mut server, &kp, from);
    let sid = only_session(&server);
    let req = XferRequest::Put { path: "/noissh-no-such-dir-xyz/dst.bin".into(), size: 5 };
    let mut t = Transfer::start(&mut client, &req);
    t.send(&mut client, b"hello");
    pump(&mut server, &mut client, from, 3);
    for (_, ev) in server.core.take_stream_events() {
        if let Action::Store { id, path } = server_action(&ev, false) {
            assert_eq!(path, "/noissh-no-such-dir-xyz/dst.bin");
            server.core.stream_reset(&sid, id);
        }
    }
    pump(&mut server, &mut client, from, 3);
    assert!(t.check(&client.take_stream_events()).is_err());
}

#[test]
fn upload_that_could_not_be_written_is_over() {
    let kp = generate_keypair().unwrap();
    let mut server = Rig::for_client(&kp.public, b"");
    let from = addr([10, 0, 0, 1], 5000);
    let mut client = connect(&mut server, &kp, from);
    let sid = only_session(&server);
    let req = XferRequest::Put { path: "/full".into(), size: 5 };
    let mut t = Transfer::start(&mut client, &req);
    t.send(&mut client, b"hello");
    pump(&mut server, &mut client, from, 3);
    let mut id = None;
    for (_, ev) in server.core.take_stream_events() {
        if let Action::Store { id: opened, .. } = server_action(&ev, false) {
            id = Some(opened);
        }
    }
    assert_eq!(upload_next(&server.core, &sid, id.unwrap(), false), Upload::Waiting);
    assert_eq!(upload_next(&server.core, &sid, id.unwrap(), true), Upload::Discard);
    assert_eq!(upload_next(&server.core, &[9; 8], id.unwrap(), false), Upload::Discard);
    // Not all of it was read, but what was could not be written.
    assert!(!store_settle(&mut server.core, &sid, id.unwrap(), false));
    assert!(store_settle(&mut server.core, &sid, id.unwrap(), true));
    pump(&mut server, &mut client, from, 3);
    let told = client.take_stream_events();
    assert!(told.iter().any(|e| matches!(e, StreamEvent::Closed { status: 0, .. })));
}

#[test]
fn socks5_dynamic_forward_round_trips() {
    // A SOCKS5 request at the client's proxy becomes a forward to its target.
    let mut proxy = SocksConn::new();
    proxy.negotiate(&[0x05, 0x01, 0x00]);
    assert_eq!(proxy.reply(), &vec![0x05, 0x00], "must select no-auth");
    proxy.sent(2);
    assert!(proxy.is_pending());
    proxy.negotiate(&[0x05, 0x01, 0x00, 0x01, 127, 0, 0, 1, 0x1f, 0x90]);
    assert_eq!(proxy.reply().len(), 10);
    assert_eq!(proxy.reply()[0], 0x05, "reply version");
    assert_eq!(proxy.reply()[1], 0x00, "CONNECT must succeed");
    proxy.sent(10);
    let target = match proxy.progress() {
        Progress::Connected { target, leftover } => {
            assert!(leftover.is_empty());
            target
        }
        _ => panic!("not connected"),
    };
    assert_eq!(target, "127.0.0.1:8080");

    let kp = generate_keypair().unwrap();
    let mut server = Rig::for_client(&kp.public, b"");
    let from = addr([10, 0, 0, 1], 5000);
    let mut client = connect(&mut server, &kp, from);
    let sid = only_session(&server);
    let id = client.open_forward(&target);
    client.stream_write(id, b"socks5-roundtrip");
    pump(&mut server, &mut client, from, 10);
    for (_, ev) in server.core.take_stream_events() {
        if let Action::Dial { target, .. } = server_action(&ev, false) {
            assert_eq!(target, "127.0.0.1:8080");
        }
    }
    let echoed = server.core.stream_read(&sid, id);
    server.core.stream_write(&sid, id, &echoed);
    pump(&mut server, &mut client, from, 10);
    assert_eq!(client.stream_read(id), b"socks5-roundtrip");
}

#[test]
fn agent_forwarding_round_trips_to_the_local_agent() {
    let kp = generate_keypair().unwrap();
    let mut server = Rig::for_client(&kp.public, b"");
    let from = addr([10, 0, 0, 1], 5000);
    let (mut client, first) = new_client(&kp, here());
    client.set_want_agent(true);
    join(&mut server, &mut client, first, from);
    assert!(server.agent, "the shell was not opened with an agent");
    let sid = only_session(&server);
    let name = agent_socket_name(77, 1);
    assert_eq!(name, "noissh-agent-77-1.sock");
    let req = server.core.spawn_request(80, 24, "xterm".into(), Some(name.clone()));
    assert_eq!(req.env, vec![("SSH_AUTH_SOCK".to_string(), name)]);
    // A process of the session connects to the socket.
    let id = server.core.open_agent(&sid).unwrap();
    server.core.stream_write(&sid, id, b"AGENT-PING");
    pump(&mut server, &mut client, from, 10);
    let mut agent = ForwardConn::new();
    let mut dialed = None;
    for ev in client.take_stream_events() {
        if let Action::DialAgent { id } = agent_action(&ev) {
            dialed = Some(id);
        }
    }
    assert_eq!(dialed, Some(id));
    client_drain(&mut client, id, &mut agent);
    assert_eq!(agent.waiting(), b"AGENT-PING");
    agent.flush(Io::Moved(10));
    // The local agent echoes.
    agent.read_tcp(Io::Moved(10));
    client_hand_over(&mut client, id, &mut agent, b"AGENT-PING");
    pump(&mut server, &mut client, from, 10);
    assert_eq!(server.core.stream_read(&sid, id), b"AGENT-PING");
}

#[test]
fn server_that_drops_privileges_refuses_files_and_commands() {
    let kp = generate_keypair().unwrap();
    let mut authorized = AuthorizedKeys::new();
    authorized.add(PublicKey::from_bytes(&kp.public).unwrap(), "t");
    let core = ServerCore::local(generate_keypair().unwrap(), authorized)
        .with_user(Some("nobody".to_string()));
    assert!(core.drops_privileges());
    let req = core.spawn_request(80, 24, "xterm".into(), Some("/tmp/agent".into()));
    assert!(req.env.is_empty());
    assert_eq!(req.user.as_deref(), Some("nobody"));
    let opened = |kind, meta: &[u8]| StreamEvent::Opened { id: 4, kind, meta: meta.to_vec() };
    let put = XferRequest::Put { path: "/x".into(), size: 1 }.encode();
    for (kind, meta) in [(StreamKind::FileTransfer, &put[..]), (StreamKind::Session, b"id")] {
        assert!(matches!(server_action(&opened(kind, meta), true), Action::Reject { id: 4 }));
        assert!(!matches!(server_action(&opened(kind, meta), false), Action::Reject { .. }));
    }
    assert!(matches!(
        server_action(&opened(StreamKind::Forward, b"h:1"), true),
        Action::Dial { id: 4, .. }
    ));
}
