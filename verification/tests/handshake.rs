use noissh::handshake::Handshaker;
use noissh::noise::generate_keypair;
use noissh::transport::{parse_packet, random_session_id, Packet};


fn body(pkt: &[u8]) -> Vec<u8> {
    match parse_packet(pkt).unwrap() {
        Packet::Handshake { body, .. } => body.to_vec(),
        _ => panic!("expected handshake packet"),
    }
}

#[test]
fn full_handshake_completes_and_exchanges_keys() {
    let ck = generate_keypair().unwrap();
    let sk = generate_keypair().unwrap();
    let sid = random_session_id().unwrap();

    let (mut client, p1) = Handshaker::client(&ck.private, sid).unwrap();
    let mut server = Handshaker::server(&sk.private, sid).unwrap();

    // server reads msg1 -> replies msg2
    let r1 = server.read(&body(&p1)).unwrap();
    assert!(!r1.finished);
    let p2 = r1.reply.unwrap();

    // client reads msg2 -> replies msg3, finished
    let r2 = client.read(&body(&p2)).unwrap();
    assert!(r2.finished);
    assert_eq!(r2.payload, b"0.4.1");
    let p3 = r2.reply.unwrap();

    // server reads msg3 -> finished
    let r3 = server.read(&body(&p3)).unwrap();
    assert!(r3.finished);
    assert!(r3.reply.is_none());

    // Both learned each other's true static key.
    assert_eq!(client.remote_static().unwrap(), sk.public);
    assert_eq!(server.remote_static().unwrap(), ck.public);

    // Both produce working transport sessions.
    let csess = client.into_session(None).unwrap();
    let ssess = server.into_session(None).unwrap();
    assert_eq!(csess.remote_static(), sk.public.as_slice());
    assert_eq!(ssess.remote_static(), ck.public.as_slice());
}
