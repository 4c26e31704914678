use noissh::socks::{Progress, SocksConn};

/// Hand bytes to a connection one part at a time, and see what comes of it.
fn drive(parts: &[&[u8]]) -> Progress {
    let mut sc = SocksConn::new();
    for part in parts {
        sc.negotiate(part);
        let n = sc.reply().len();
        sc.sent(n);
    }
    sc.progress()
}

#[test]
fn socks5_domain_connect() {
    let host = b"example.com";
    let mut req = vec![5, 1, 0, 3, host.len() as u8];
    req.extend_from_slice(host);
    req.extend_from_slice(&443u16.to_be_bytes());
    match drive(&[&[5, 1, 0], &req]) {
        Progress::Connected { target, .. } => assert_eq!(target, "example.com:443"),
        _ => panic!("expected a Connected result"),
    }
}

#[test]
fn socks5_ipv4_connect() {
    let mut req = vec![5, 1, 0, 1, 10, 0, 0, 7];
    req.extend_from_slice(&80u16.to_be_bytes());
    match drive(&[&[5, 1, 0], &req]) {
        Progress::Connected { target, .. } => assert_eq!(target, "10.0.0.7:80"),
        _ => panic!("expected a Connected result"),
    }
}

#[test]
fn socks4a_hostname_connect() {
    // VER4, CONNECT, port, 0.0.0.1 (=> 4a), userid "", NUL, host, NUL.
    let mut req = vec![4, 1];
    req.extend_from_slice(&8080u16.to_be_bytes());
    req.extend_from_slice(&[0, 0, 0, 1]); // 0.0.0.x marks SOCKS4a
    req.push(0); // empty userid terminator
    req.extend_from_slice(b"example.org");
    req.push(0); // host terminator
    match drive(&[&req]) {
        Progress::Connected { target, .. } => assert_eq!(target, "example.org:8080"),
        _ => panic!("expected a Connected result"),
    }
}

#[test]
fn socks5_bind_command_is_rejected() {
    // CMD 2 = BIND (unsupported).
    let mut req = vec![5, 2, 0, 1, 127, 0, 0, 1];
    req.extend_from_slice(&80u16.to_be_bytes());
    assert!(matches!(drive(&[&[5, 1, 0], &req]), Progress::Failed));
}
