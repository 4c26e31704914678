use noissh::noise::{
    generate_keypair, handshake_in_memory, Handshake, NoiseError, Role, KEY_LEN,
};

#[test]
fn keypair_is_32_bytes() {
    let kp = generate_keypair().unwrap();
    assert_eq!(kp.public.len(), KEY_LEN);
    assert_eq!(kp.private.len(), KEY_LEN);
}

#[test]
fn xx_handshake_completes_and_exchanges_static_keys() {
    let ik = generate_keypair().unwrap();
    let rk = generate_keypair().unwrap();

    let mut i = Handshake::new(Role::Initiator, &ik.private).unwrap();
    let mut r = Handshake::new(Role::Responder, &rk.private).unwrap();

    let m1 = i.write_message(&[]).unwrap();
    r.read_message(&m1).unwrap();
    let m2 = r.write_message(&[]).unwrap();
    i.read_message(&m2).unwrap();
    let m3 = i.write_message(&[]).unwrap();
    r.read_message(&m3).unwrap();

    assert!(i.is_finished() && r.is_finished());
    // Each side learned the other's true static public key.
    assert_eq!(i.remote_static().unwrap(), rk.public);
    assert_eq!(r.remote_static().unwrap(), ik.public);
}

#[test]
fn transport_roundtrip_out_of_order() {
    let ik = generate_keypair().unwrap();
    let rk = generate_keypair().unwrap();
    let (isess, rsess) = handshake_in_memory(&ik, &rk).unwrap();

    // Encrypt three messages at increasing nonces, decrypt out of order.
    let c0 = isess.encrypt(0, b"zero").unwrap();
    let c1 = isess.encrypt(1, b"one").unwrap();
    let c2 = isess.encrypt(2, b"two").unwrap();

    assert_eq!(rsess.decrypt(2, &c2).unwrap(), b"two");
    assert_eq!(rsess.decrypt(0, &c0).unwrap(), b"zero");
    assert_eq!(rsess.decrypt(1, &c1).unwrap(), b"one");
}

#[test]
fn ciphertext_differs_from_plaintext_and_is_longer() {
    let ik = generate_keypair().unwrap();
    let rk = generate_keypair().unwrap();
    let (isess, _r) = handshake_in_memory(&ik, &rk).unwrap();
    let ct = isess.encrypt(0, b"secret payload").unwrap();
    assert_ne!(&ct[..], b"secret payload");
    assert_eq!(ct.len(), b"secret payload".len() + 16); // AEAD tag
}

#[test]
fn tampered_ciphertext_fails_to_decrypt() {
    let ik = generate_keypair().unwrap();
    let rk = generate_keypair().unwrap();
    let (isess, rsess) = handshake_in_memory(&ik, &rk).unwrap();
    let mut ct = isess.encrypt(0, b"trust me").unwrap();
    ct[0] ^= 0xff;
    assert!(rsess.decrypt(0, &ct).is_err());
}

#[test]
fn wrong_nonce_fails_to_decrypt() {
    let ik = generate_keypair().unwrap();
    let rk = generate_keypair().unwrap();
    let (isess, rsess) = handshake_in_memory(&ik, &rk).unwrap();
    let ct = isess.encrypt(5, b"payload").unwrap();
    assert!(rsess.decrypt(6, &ct).is_err());
}

#[test]
fn into_transport_before_finished_errors() {
    let ik = generate_keypair().unwrap();
    let hs = Handshake::new(Role::Initiator, &ik.private).unwrap();
    assert!(matches!(hs.into_transport(), Err(NoiseError::HandshakeNotFinished)));
}

#[test]
fn both_directions_independent() {
    let ik = generate_keypair().unwrap();
    let rk = generate_keypair().unwrap();
    let (isess, rsess) = handshake_in_memory(&ik, &rk).unwrap();
    // initiator -> responder
    let a = isess.encrypt(0, b"ping").unwrap();
    assert_eq!(rsess.decrypt(0, &a).unwrap(), b"ping");
    // responder -> initiator, same nonce value, different key direction
    let b = rsess.encrypt(0, b"pong").unwrap();
    assert_eq!(isess.decrypt(0, &b).unwrap(), b"pong");
}
