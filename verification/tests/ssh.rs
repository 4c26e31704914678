use base64::engine::general_purpose::STANDARD;
use base64::Engine;
use noissh::ssh::{
    connect_line, host_of, is_default_server_cmd, parse_connect_line, CONNECT_PREFIX,
};

#[test]
fn connect_line_roundtrips() {
    let key = [9u8; 32];
    let line = connect_line(60001, &key);
    let (port, pk) = parse_connect_line(&line).unwrap();
    assert_eq!(port, 60001);
    assert_eq!(pk, key);
}

#[test]
fn parse_ignores_noise_lines() {
    assert!(parse_connect_line("some banner text").is_none());
    assert!(parse_connect_line("NOISSH CONNECT notaport AAAA").is_none());
}

#[test]
fn parse_rejects_wrong_key_length() {
    let line = format!("{CONNECT_PREFIX} 5 {}", STANDARD.encode([1u8; 16]));
    assert!(parse_connect_line(&line).is_none());
}

#[test]
fn default_server_cmd_detection() {
    assert!(is_default_server_cmd(&["noisshd".to_string()]));
    assert!(!is_default_server_cmd(&["/opt/noisshd".to_string()]));
    assert!(!is_default_server_cmd(&[
        "noisshd".to_string(),
        "--x".to_string()
    ]));
    assert!(!is_default_server_cmd(&[]));
}

#[test]
fn host_extraction() {
    assert_eq!(host_of("user@example.com"), "example.com");
    assert_eq!(host_of("example.com"), "example.com");
}

#[test]
fn finds_connect_line_among_others() {
    let blob = "Warning: something\nNOISSH CONNECT 7000 ".to_string()
        + &STANDARD.encode([2u8; 32])
        + "\nbye";
    let (port, pk) = blob.lines().find_map(parse_connect_line).unwrap();
    assert_eq!(port, 7000);
    assert_eq!(pk, vec![2u8; 32]);
}
