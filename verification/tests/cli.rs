use noissh::args::{parse_args, parse_dynamic, parse_forward, Args, Parsed, DEFAULT_PORT, USAGE};
use noissh::auth::KnownHosts;
use noissh::connect::{exit_status, no_host};
use noissh::daemon::{
    bad_address, no_client_key, parse_daemon_args, parse_keygen_args, session_note, takes_any_port, DaemonParsed, Keygen,
    DAEMON_USAGE, KEYGEN_USAGE,
};
use noissh::error::RuntimeError;
use noissh::ssh::VERSION;
use noissh::xfer::XferRequest;

fn words(args: &[&str]) -> Vec<String> {
    args.iter().map(|a| a.to_string()).collect()
}

fn run(args: &[&str]) -> Args {
    match parse_args(&words(args), None) {
        Parsed::Run(a) => a,
        _ => panic!("not a run: {args:?}"),
    }
}

fn mistake(args: &[&str]) -> String {
    match parse_args(&words(args), None) {
        Parsed::Usage(m) => m,
        _ => panic!("no mistake: {args:?}"),
    }
}

#[test]
fn noissh_help_and_version() {
    for flag in ["-h", "--help"] {
        assert!(matches!(parse_args(&words(&[flag]), None), Parsed::Help), "{flag}");
        assert!(USAGE.contains("Usage:"));
        assert!(USAGE.contains("command"));
    }
    for flag in ["-V", "--version"] {
        assert!(matches!(parse_args(&words(&[flag]), None), Parsed::Version), "{flag}");
        assert_eq!(VERSION, "0.4.1");
    }
}

#[test]
fn noissh_no_args_prints_usage_not_bootstrap_error() {
    assert!(run(&[]).target.is_none());
    let e = no_host();
    assert_eq!(exit_status(&e), 2);
    match e {
        RuntimeError::Usage(out) => {
            assert!(out.contains("no host given"));
            assert!(out.contains("noissh user@example.com"));
            assert!(!out.contains("SSH bootstrap failed") && !out.contains("connect line"));
        }
        _ => panic!("not a usage error"),
    }
}

#[test]
fn noissh_invalid_args_fail_loudly() {
    // Each of these is a usage mistake, not to be silently ignored (which would
    // drop the user into a shell).
    assert_eq!(
        mistake(&["--port", "abc", "host"]),
        "--port wants a port number (1-65535), got \"abc\""
    );
    assert_eq!(
        mistake(&["--put", "missing-colon", "host"]),
        "--put wants LOCAL:REMOTE (e.g. --put ./file.txt:/tmp/file.txt)"
    );
    assert_eq!(
        mistake(&["-L", "8080", "host"]),
        "-L wants LPORT:HOST:PORT (e.g. -L 8080:localhost:80)"
    );
    assert_eq!(mistake(&["-x", "host"]), "unknown option \"-x\"");
    assert_eq!(exit_status(&RuntimeError::Usage(mistake(&["-x"]))), 2);
    assert_eq!(exit_status(&RuntimeError::Timeout), 1);
}

#[test]
fn every_other_mistake_has_its_message() {
    assert_eq!(mistake(&["--port"]), "--port requires a port number");
    assert_eq!(mistake(&["--port", "0"]), "--port wants a port number (1-65535), got \"0\"");
    assert_eq!(mistake(&["--server-port", "65536"]), "--server-port wants a port number (1-65535), got \"65536\"");
    assert_eq!(mistake(&["--server-cmd"]), "--server-cmd requires a value");
    assert_eq!(mistake(&["--forget-host"]), "--forget-host requires a value");
    assert_eq!(mistake(&["-R", "x"]), "-R wants RPORT:HOST:PORT (e.g. -R 9000:localhost:22)");
    assert_eq!(mistake(&["-D"]), "-D wants [BIND:]PORT (e.g. -D 1080)");
    assert_eq!(
        mistake(&["--get", ":x"]),
        "--get wants REMOTE:LOCAL (e.g. --get /var/log/app.log:./app.log)"
    );
}

#[test]
fn options_are_read() {
    let a = run(&[
        "--ssh", "-v", "-A", "--no-install", "--port", "99", "--server-port", "98", "--server-cmd",
        "d", "-L", "1:h:2", "-R", "3:h:4", "-D", "5", "-D", "0.0.0.0:6", "user@host",
    ]);
    assert!(a.ssh && a.verbose && a.forward_agent && a.no_install && !a.direct && !a.copy_id);
    assert_eq!(a.port, 99);
    assert_eq!(a.server_port, Some(98));
    assert_eq!(a.server_cmd, "d");
    assert_eq!(a.local_forwards, vec![(1, "h:2".to_string())]);
    assert_eq!(a.remote_forwards, vec![(3, "h:4".to_string())]);
    assert_eq!(
        a.dynamic_forwards,
        vec![("127.0.0.1".to_string(), 5), ("0.0.0.0".to_string(), 6)]
    );
    assert_eq!(a.target.as_deref(), Some("user@host"));
    assert!(a.command.is_empty());
}

#[test]
fn what_follows_the_host_is_the_command() {
    let a = run(&["host", "ls", "-l", "--port", "x"]);
    assert_eq!(a.command, words(&["ls", "-l", "--port", "x"]));
    assert_eq!(a.port, DEFAULT_PORT);
    let a = run(&["host", "--", "-p", "2222"]);
    assert!(a.command.is_empty());
    assert_eq!(a.ssh_args, words(&["-p", "2222"]));
}

#[test]
fn configured_port_is_the_default() {
    match parse_args(&words(&["host"]), Some(7)) {
        Parsed::Run(a) => assert_eq!(a.port, 7),
        _ => panic!(),
    }
    match parse_args(&words(&["--port", "8", "host"]), Some(7)) {
        Parsed::Run(a) => assert_eq!(a.port, 8),
        _ => panic!(),
    }
}

#[test]
fn transfers_are_split_at_the_first_colon() {
    let a = run(&["--put", "a.txt:/tmp/b:c", "host"]);
    assert_eq!(
        a.transfer,
        Some((XferRequest::Put { path: "/tmp/b:c".to_string(), size: 0 }, "a.txt".to_string()))
    );
    let a = run(&["--get", "/tmp/b:c:d", "host"]);
    assert_eq!(
        a.transfer,
        Some((XferRequest::Get { path: "/tmp/b".to_string() }, "c:d".to_string()))
    );
}

#[test]
fn forward_specs() {
    assert_eq!(parse_forward("8080:localhost:80"), Some((8080, "localhost:80".to_string())));
    assert_eq!(parse_forward("8080"), None);
    assert_eq!(parse_forward("8080:"), None);
    assert_eq!(parse_forward("x:localhost:80"), None);
    assert_eq!(parse_dynamic("1080"), Some(("127.0.0.1".to_string(), 1080)));
    assert_eq!(parse_dynamic("::1:1080"), Some(("::1".to_string(), 1080)));
    assert_eq!(parse_dynamic("x"), None);
}

#[test]
fn noissh_forget_host_removes_pin() {
    // base64 of 32 zero bytes — a valid (if all-zero) noissh-x25519 public key.
    let k = "AAAAAAAAAAAAAAAAAAAAAAAAAAAAAAAAAAAAAAAAAAA=";
    let mut known = KnownHosts::parse(&format!(
        "example.com:51820 noissh-x25519 {k}\nother.com:51820 noissh-x25519 {k}\n"
    ))
    .unwrap();
    assert_eq!(run(&["--forget-host", "example.com"]).forget_host.as_deref(), Some("example.com"));

    let removed = known.remove_matching("example.com");
    assert_eq!(removed, vec!["example.com:51820".to_string()]);
    let remaining = known.to_text();
    assert!(!remaining.contains("example.com"));
    assert!(remaining.contains("other.com"));

    // Forgetting an unknown host is a no-op success.
    assert!(known.remove_matching("nope.example").is_empty());
    assert_eq!(known.to_text(), remaining);
}

#[test]
fn noisshd_help_and_version() {
    assert!(matches!(parse_daemon_args(&words(&["--help"])), DaemonParsed::Help));
    assert!(DAEMON_USAGE.contains("Usage:"));
    assert!(DAEMON_USAGE.starts_with(&format!("noisshd {VERSION} ")));
    assert!(USAGE.starts_with(&format!("noissh {VERSION} ")));
    assert!(matches!(parse_daemon_args(&words(&["--version"])), DaemonParsed::Version));
}

#[test]
fn noisshd_options_are_read() {
    let args = ["--one-shot", "--authorize", "K", "--bind", "1.2.3.4:5", "huh", "-v", "--command", "sh", "-h"];
    match parse_daemon_args(&words(&args)) {
        DaemonParsed::Run(a) => {
            assert!(a.one_shot && a.verbose);
            assert_eq!(a.authorize.as_deref(), Some("K"));
            assert_eq!(a.bind.as_deref(), Some("1.2.3.4:5"));
            assert_eq!(a.command, Some(words(&["sh", "-h"])));
            assert_eq!(a.ignored, words(&["huh"]));
            assert_eq!(a.listen, None);
        }
        _ => panic!(),
    }
}

#[test]
fn noisshd_runs_shells_as_another_user() {
    match parse_daemon_args(&words(&["--user", "deploy"])) {
        DaemonParsed::Run(a) => assert_eq!(a.user.as_deref(), Some("deploy")),
        _ => panic!(),
    }
}

#[test]
fn noisshd_names_what_is_wrong() {
    match bad_address("nowhere") {
        RuntimeError::BadAddress(m) => {
            assert_eq!(m, "invalid address \"nowhere\" (expected IP:PORT)")
        }
        _ => panic!(),
    }
    assert_eq!(exit_status(&bad_address("nowhere")), 1);
    assert_eq!(exit_status(&no_client_key()), 2);
}

#[test]
fn keygen_help_and_version() {
    assert!(matches!(parse_keygen_args(&words(&["--help"])), Keygen::Help));
    assert!(KEYGEN_USAGE.contains("Usage:"));
    assert!(matches!(parse_keygen_args(&words(&["-V"])), Keygen::Version));
}

#[test]
fn server_notes_changes_of_its_sessions() {
    assert_eq!(session_note(0, 1).as_deref(), Some("session established (1 active)"));
    assert_eq!(session_note(2, 1).as_deref(), Some("session ended (1 active)"));
    assert_eq!(session_note(1, 1), None);
    assert!(takes_any_port(51820));
    assert!(!takes_any_port(0));
}
