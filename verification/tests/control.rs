use noissh::control::{ControlError, ControlMsg};

fn roundtrip(m: ControlMsg) {
    assert_eq!(ControlMsg::decode(&m.encode()).unwrap(), m);
}

#[test]
fn all_messages_roundtrip() {
    roundtrip(ControlMsg::OpenShell {
        cols: 80,
        rows: 24,
        term: "xterm-256color".into(),
        agent: false,
    });
    roundtrip(ControlMsg::OpenShell {
        cols: 80,
        rows: 24,
        term: "xterm-256color".into(),
        agent: true,
    });
    roundtrip(ControlMsg::Resize {
        cols: 120,
        rows: 40,
    });
    roundtrip(ControlMsg::Exit { status: 0 });
    roundtrip(ControlMsg::Exit { status: 137 });
    roundtrip(ControlMsg::Exit { status: -1 });
    roundtrip(ControlMsg::AuthPrompt {
        echo: false,
        prompt: "Password: ".into(),
    });
    roundtrip(ControlMsg::AuthResponse {
        data: "secret".into(),
    });
    roundtrip(ControlMsg::RemoteForward {
        bind_port: 8080,
        target: "127.0.0.1:80".into(),
    });
}

#[test]
fn farewell_and_version_roundtrip() {
    roundtrip(ControlMsg::Bye);
    roundtrip(ControlMsg::ServerVersion("0.4.1".into()));
    assert_eq!(ControlMsg::Bye.encode(), vec![7]);
    assert_eq!(ControlMsg::ServerVersion("1.2".into()).encode(), vec![8, 3, b'1', b'.', b'2']);
    assert_eq!(ControlMsg::decode(&[8, 3, b'1']), Err(ControlError::Eof));
}

#[test]
fn messages_cut_short_are_errors() {
    for m in [
        ControlMsg::OpenShell { cols: 80, rows: 300, term: "xterm".into(), agent: true },
        ControlMsg::Exit { status: -1 },
        ControlMsg::RemoteForward { bind_port: 8080, target: "h:80".into() },
        ControlMsg::Bye,
    ] {
        let bytes = m.encode();
        for n in 0..bytes.len() {
            assert!(ControlMsg::decode(&bytes[..n]).is_err(), "{m:?} cut to {n}");
        }
    }
}

#[test]
fn unknown_tag_errors() {
    assert_eq!(
        ControlMsg::decode(&[0xff]),
        Err(ControlError::Unknown(0xff))
    );
}

#[test]
fn empty_errors() {
    assert_eq!(ControlMsg::decode(&[]), Err(ControlError::Eof));
}
