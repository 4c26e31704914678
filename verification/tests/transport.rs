use noissh::noise::{generate_keypair, handshake_in_memory};
use noissh::transport::{
    build_handshake_packet, parse_packet, random_session_id, Addr, Packet, Session,
    TransportError, PKT_TRANSPORT,
};
use noissh::wire::Frame;


fn addr(ip: [u8; 4], port: u16) -> Addr {
    Addr::V4 { ip: u32::from_be_bytes(ip), port }
}

fn pair() -> (Session, Session) {
    let ik = generate_keypair().unwrap();
    let rk = generate_keypair().unwrap();
    let (isess, rsess) = handshake_in_memory(&ik, &rk).unwrap();
    let sid = random_session_id().unwrap();
    let client = Session::new(sid, isess, Some(addr([10, 0, 0, 1], 5000)));
    let server = Session::new(sid, rsess, Some(addr([10, 0, 0, 1], 5000)));
    (client, server)
}

#[test]
fn seal_open_roundtrip() {
    let (mut client, mut server) = pair();
    let frames = vec![Frame::Input { offset: 0, data: b"ls\n".to_vec() }];
    let pkt = client.seal(&frames).unwrap();
    let got = server.open(addr([10, 0, 0, 1], 5000), &pkt).unwrap();
    assert_eq!(got, frames);
}

#[test]
fn replayed_packet_rejected() {
    let (mut client, mut server) = pair();
    let pkt = client.seal(&[Frame::Ack { seq: 1 }]).unwrap();
    assert!(server.open(addr([10, 0, 0, 1], 5000), &pkt).is_ok());
    assert!(matches!(
        server.open(addr([10, 0, 0, 1], 5000), &pkt),
        Err(TransportError::Replay)
    ));
}

#[test]
fn session_id_mismatch_rejected() {
    let (mut client, mut server) = pair();
    server.session_id = [9; 8];
    let pkt = client.seal(&[Frame::Ack { seq: 1 }]).unwrap();
    assert!(matches!(
        server.open(addr([10, 0, 0, 1], 5000), &pkt),
        Err(TransportError::SessionMismatch)
    ));
}

#[test]
fn roaming_updates_peer_addr_on_authenticated_packet() {
    let (mut client, mut server) = pair();
    assert_eq!(server.peer_addr(), Some(addr([10, 0, 0, 1], 5000)));
    // Client moved networks: new source address.
    let pkt = client.seal(&[Frame::Ping { stamp: 1 }]).unwrap();
    server.open(addr([203, 0, 113, 7], 40000), &pkt).unwrap();
    assert_eq!(server.peer_addr(), Some(addr([203, 0, 113, 7], 40000)));
}

#[test]
fn forged_packet_from_new_addr_does_not_hijack_peer_addr() {
    let (mut client, mut server) = pair();
    // An attacker at a new address sends garbage claiming the session id.
    let mut forged = client.seal(&[Frame::Ping { stamp: 1 }]).unwrap();
    let last = forged.len() - 1;
    forged[last] ^= 0xff; // corrupt the AEAD tag
    let before = server.peer_addr();
    assert!(server.open(addr([198, 51, 100, 9], 1234), &forged).is_err());
    // Peer address must NOT have moved to the attacker.
    assert_eq!(server.peer_addr(), before);
}

#[test]
fn out_of_order_within_window_all_delivered() {
    let (mut client, mut server) = pair();
    let p0 = client.seal(&[Frame::Ack { seq: 0 }]).unwrap();
    let p1 = client.seal(&[Frame::Ack { seq: 1 }]).unwrap();
    let p2 = client.seal(&[Frame::Ack { seq: 2 }]).unwrap();
    // Deliver reordered.
    assert_eq!(server.open(addr([10, 0, 0, 1], 5000), &p2).unwrap(), vec![Frame::Ack { seq: 2 }]);
    assert_eq!(server.open(addr([10, 0, 0, 1], 5000), &p0).unwrap(), vec![Frame::Ack { seq: 0 }]);
    assert_eq!(server.open(addr([10, 0, 0, 1], 5000), &p1).unwrap(), vec![Frame::Ack { seq: 1 }]);
}

#[test]
fn parse_packet_rejects_short_and_unknown() {
    assert!(matches!(parse_packet(&[]), Err(TransportError::Short)));
    assert!(matches!(parse_packet(&[PKT_TRANSPORT, 0, 0]), Err(TransportError::Short)));
    let mut buf = vec![7u8]; // unknown type
    buf.extend_from_slice(&[0u8; 8]);
    assert!(matches!(parse_packet(&buf), Err(TransportError::UnknownType(7))));
}

#[test]
fn handshake_packet_roundtrips_header() {
    let sid = random_session_id().unwrap();
    let pkt = build_handshake_packet(&sid, b"noise-msg");
    match parse_packet(&pkt).unwrap() {
        Packet::Handshake { session_id, body } => {
            assert_eq!(session_id, sid);
            assert_eq!(body, b"noise-msg");
        }
        _ => panic!("expected handshake packet"),
    }
}
