use noissh::auth::{AuthorizedKeys, KnownHosts, PublicKey, Tofu};
use noissh::handshake::Handshaker;
use noissh::noise::generate_keypair;
use noissh::proto::{authorize_client, verify_server};
use noissh::transport::{parse_packet, random_session_id, Packet};


/// End-to-end handshake + authorization, the way the daemon will run it.
#[test]
fn handshake_then_authorize_known_client() {
    let client_kp = generate_keypair().unwrap();
    let server_kp = generate_keypair().unwrap();
    let sid = random_session_id().unwrap();

    // Server authorizes this client's public key.
    let mut authorized = AuthorizedKeys::new();
    authorized.add(PublicKey::from_bytes(&client_kp.public).unwrap(), "laptop");

    let (mut client, p1) = Handshaker::client(&client_kp.private, sid).unwrap();
    let mut server = Handshaker::server(&server_kp.private, sid).unwrap();

    let p2 = server.read(body(&p1)).unwrap().reply.unwrap();
    let p3 = client.read(body(&p2)).unwrap().reply.unwrap();
    server.read(body(&p3)).unwrap();

    assert!(server.is_finished());
    // The server authorizes the authenticated client key BEFORE any session.
    assert!(authorize_client(
        &authorized,
        &server.remote_static().unwrap()
    ));

    // The client pins the server on first contact (TOFU New).
    let mut known = KnownHosts::new();
    assert_eq!(
        verify_server(&mut known, "host:9999", &client.remote_static().unwrap()),
        Tofu::New
    );
    // Reconnect: same key -> Match.
    assert_eq!(
        verify_server(&mut known, "host:9999", &client.remote_static().unwrap()),
        Tofu::Match
    );
}

#[test]
fn unauthorized_client_is_rejected() {
    let client_kp = generate_keypair().unwrap();
    let server_kp = generate_keypair().unwrap();
    let sid = random_session_id().unwrap();

    // authorized_keys does NOT contain this client.
    let authorized = AuthorizedKeys::new();

    let (mut client, p1) = Handshaker::client(&client_kp.private, sid).unwrap();
    let mut server = Handshaker::server(&server_kp.private, sid).unwrap();
    let p2 = server.read(body(&p1)).unwrap().reply.unwrap();
    let p3 = client.read(body(&p2)).unwrap().reply.unwrap();
    server.read(body(&p3)).unwrap();

    assert!(!authorize_client(
        &authorized,
        &server.remote_static().unwrap()
    ));
}

#[test]
fn tofu_mismatch_detected() {
    let mut known = KnownHosts::new();
    let real = [1u8; 32];
    let attacker = [2u8; 32];
    assert_eq!(verify_server(&mut known, "h", &real), Tofu::New);
    assert_eq!(verify_server(&mut known, "h", &attacker), Tofu::Mismatch);
}

fn body(pkt: &[u8]) -> &[u8] {
    match parse_packet(pkt).unwrap() {
        Packet::Handshake { body, .. } => body,
        _ => panic!("expected handshake packet"),
    }
}
