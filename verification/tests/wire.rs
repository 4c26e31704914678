use noissh::wire::{
    decode_frames, encode_frames, get_varint, put_varint, unzigzag, zigzag, Frame, StreamKind,
    WireError, T_INPUT,
};

fn roundtrip(frame: Frame) {
    let bytes = encode_frames(std::slice::from_ref(&frame));
    let back = decode_frames(&bytes).expect("decode");
    assert_eq!(back, vec![frame]);
}

#[test]
fn varint_roundtrip() {
    for v in [
        0u64,
        1,
        127,
        128,
        300,
        16383,
        16384,
        u32::MAX as u64,
        u64::MAX,
    ] {
        let mut out = Vec::new();
        put_varint(&mut out, v);
        let mut pos = 0;
        assert_eq!(get_varint(&out, &mut pos).unwrap(), v);
        assert_eq!(pos, out.len());
    }
}

#[test]
fn varint_overflow_errors() {
    // 10 bytes of continuation -> overflow
    let buf = [0xff; 11];
    let mut pos = 0;
    assert_eq!(get_varint(&buf, &mut pos), Err(WireError::VarintOverflow));
}

#[test]
fn varint_truncated_errors() {
    let buf = [0x80]; // continuation bit set but no following byte
    let mut pos = 0;
    assert_eq!(get_varint(&buf, &mut pos), Err(WireError::UnexpectedEof));
}

#[test]
fn roundtrip_all_variants() {
    roundtrip(Frame::Ack { seq: 42 });
    roundtrip(Frame::Input {
        offset: 1000,
        data: b"hello world".to_vec(),
    });
    roundtrip(Frame::StateDiff {
        seq: 9,
        base: 8,
        data: vec![0, 1, 2, 255],
    });
    roundtrip(Frame::Resize { cols: 80, rows: 24 });
    roundtrip(Frame::Ping { stamp: 123456789 });
    roundtrip(Frame::Pong { stamp: 987654321 });
    roundtrip(Frame::StreamOpen {
        id: 3,
        kind: StreamKind::Forward,
        meta: b"127.0.0.1:22".to_vec(),
    });
    roundtrip(Frame::StreamData {
        id: 3,
        offset: 4096,
        data: vec![7; 100],
        fin: true,
    });
    roundtrip(Frame::StreamData {
        id: 3,
        offset: 0,
        data: vec![],
        fin: false,
    });
    roundtrip(Frame::StreamAck {
        id: 3,
        ack: 4096,
        window: 65535,
    });
    roundtrip(Frame::StreamClose { id: 3, status: 0 });
    roundtrip(Frame::StreamClose { id: 3, status: -1 });
    roundtrip(Frame::StreamClose { id: 3, status: 137 });
    roundtrip(Frame::StreamReset { id: 3 });
    roundtrip(Frame::Control {
        data: b"open-shell".to_vec(),
    });
}

#[test]
fn frame_cut_short_is_an_error() {
    for f in [
        Frame::StreamData { id: 300, offset: 70_000, data: b"abc".to_vec(), fin: true },
        Frame::StreamAck { id: 2, ack: 1 << 40, window: 262144 },
        Frame::Control { data: b"xy".to_vec() },
    ] {
        let bytes = encode_frames(&[f]);
        for n in 1..bytes.len() {
            assert!(decode_frames(&bytes[..n]).is_err(), "cut to {n}");
        }
    }
}

#[test]
fn multiple_frames_in_one_payload() {
    let frames = vec![
        Frame::Ack { seq: 1 },
        Frame::Input {
            offset: 0,
            data: b"ls\n".to_vec(),
        },
        Frame::Resize {
            cols: 120,
            rows: 40,
        },
    ];
    let bytes = encode_frames(&frames);
    assert_eq!(decode_frames(&bytes).unwrap(), frames);
}

#[test]
fn empty_payload_decodes_to_no_frames() {
    assert_eq!(decode_frames(&[]).unwrap(), vec![]);
}

#[test]
fn unknown_frame_type_errors() {
    assert_eq!(decode_frames(&[0xAB]), Err(WireError::UnknownFrame(0xAB)));
}

#[test]
fn truncated_length_prefixed_errors() {
    // Input frame: tag, offset=0, len=10 but no data
    let buf = [T_INPUT, 0x00, 0x0a];
    assert_eq!(decode_frames(&buf), Err(WireError::BadLength));
}

#[test]
fn fuzz_corpus_never_panics() {
    // Deterministic pseudo-random byte strings must never panic the decoder.
    let mut state = 0x12345678u64;
    for _ in 0..20000 {
        state = state
            .wrapping_mul(6364136223846793005)
            .wrapping_add(1442695040888963407);
        let len = (state >> 56) as usize % 64;
        let mut buf = Vec::with_capacity(len);
        let mut s = state;
        for _ in 0..len {
            s = s.wrapping_mul(6364136223846793005).wrapping_add(1);
            buf.push((s >> 33) as u8);
        }
        let _ = decode_frames(&buf); // must not panic
    }
}

#[test]
fn zigzag_roundtrip() {
    for v in [0i64, 1, -1, 137, -137, i32::MAX as i64, i32::MIN as i64] {
        assert_eq!(unzigzag(zigzag(v)), v);
    }
}
