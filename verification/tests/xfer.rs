use noissh::xfer::{human_bytes, progress_line, XferRequest};

#[test]
fn put_roundtrip() {
    let r = XferRequest::Put {
        path: "/tmp/a b.txt".into(),
        size: 1234,
    };
    assert_eq!(XferRequest::parse(&r.encode()), Some(r));
}

#[test]
fn get_roundtrip() {
    let r = XferRequest::Get {
        path: "/etc/motd".into(),
    };
    assert_eq!(XferRequest::parse(&r.encode()), Some(r));
}

#[test]
fn rejects_garbage() {
    assert_eq!(XferRequest::parse(b"nope"), None);
    assert_eq!(XferRequest::parse(b"PUT x /p"), None); // bad size
    assert_eq!(XferRequest::parse(b"GET "), None); // empty path
}

#[test]
fn human_bytes_units() {
    assert_eq!(human_bytes(0), "0 B");
    assert_eq!(human_bytes(512), "512 B");
    assert_eq!(human_bytes(1024), "1.0 KB");
    assert_eq!(human_bytes(1536), "1.5 KB");
    assert_eq!(human_bytes(1024 * 1024), "1.0 MB");
    assert_eq!(human_bytes(3 * 1024 * 1024 * 1024), "3.0 GB");
}

#[test]
fn progress_line_with_and_without_total() {
    let s = progress_line(512 * 1024, Some(1024 * 1024));
    assert!(s.contains("50.0%"), "{s}");
    assert!(s.contains("512.0 KB") && s.contains("1.0 MB"), "{s}");
    // Unknown total: no percentage, just the running count.
    let s = progress_line(2048, None);
    assert!(s.contains("2.0 KB transferred"), "{s}");
    // Never exceeds 100% even if done overshoots.
    let s = progress_line(2048, Some(1024));
    assert!(s.contains("100.0%"), "{s}");
}
