use noissh::args::{parse_args, Args, Parsed};
use noissh::auth::{KnownHosts, PublicKey};
use noissh::client::terminal_type;
use noissh::connect::{
    agent, bootstrapped_failure, fall_back, handshake_wait, keepalive_interval, label, plan,
    shell_wait, task, wait, Agent, Fallback, Probe, Task, Waiting,
};
use noissh::error::RuntimeError;
use noissh::login::{launch, status_code, SpawnRequest};
use noissh::ssh::{
    is_older, offers_upgrade, says_yes,
    after_install, attempt, bootstrap_failure, connect_line, find_connect_line, install_command,
    installed_server_cmd, looks_like_missing_command, next_step, one_shot_command, Attempt, Stage,
    Step,
};
use noissh::transfer::{progress_of, temp_name, Progress};
use noissh::xfer::{human_bytes, progress_line, XferRequest};

fn args(words: &[&str]) -> Args {
    let argv = words.iter().map(|w| w.to_string()).collect();
    match parse_args(&argv, None) {
        Parsed::Run(a) => a,
        _ => panic!("not a run"),
    }
}

fn pinned(host: &str) -> KnownHosts {
    let mut k = KnownHosts::new();
    k.check_or_add(host, &PublicKey::from_bytes(&[3; 32]).unwrap());
    k
}

#[test]
fn standing_server_is_tried_only_when_trusted() {
    let none = KnownHosts::new();
    let known = pinned("host:51820");
    let p = plan(&args(&["me@host"]), "me@host", &none);
    assert_eq!((p.host.as_str(), p.label.as_str()), ("host", "host:51820"));
    assert!(!p.pinned && !p.try_direct && p.want_shell);
    assert_eq!(p.server_port, 51820);
    assert!(plan(&args(&["me@host"]), "me@host", &known).try_direct);
    assert!(!plan(&args(&["--ssh", "me@host"]), "me@host", &known).try_direct);
    assert!(plan(&args(&["--direct", "me@host"]), "me@host", &none).try_direct);
    assert!(!plan(&args(&["--port", "9", "me@host"]), "me@host", &known).try_direct);
    assert_eq!(plan(&args(&["--server-port", "7", "h"]), "h", &none).server_port, 7);
}

#[test]
fn tasks_follow_from_the_arguments() {
    assert_eq!(task(&args(&["h"])), Task::Shell);
    assert_eq!(task(&args(&["h", "echo", "a", "b"])), Task::Exec("echo a b".to_string()));
    assert_eq!(task(&args(&["-L", "1:h:2", "h"])), Task::Forward);
    assert_eq!(task(&args(&["--get", "a:b", "h"])), Task::Transfer);
    assert_eq!(label("h", 80), "h:80");
}

#[test]
fn agent_is_shared_with_a_shell_only() {
    let place = || Some("/tmp/agent".to_string());
    assert_eq!(agent(&args(&["-A", "h"]), place()), Agent::At("/tmp/agent".to_string()));
    assert_eq!(agent(&args(&["-A", "h"]), None), Agent::Missing);
    assert_eq!(agent(&args(&["-A", "h"]), Some(String::new())), Agent::Missing);
    assert_eq!(agent(&args(&["-A", "h", "ls"]), place()), Agent::Unwanted);
    assert_eq!(agent(&args(&["h"]), place()), Agent::Unwanted);
}

#[test]
fn demanded_direct_connection_does_not_fall_back() {
    assert!(matches!(fall_back(false, "h", 1, Probe::TimedOut), Fallback::Bootstrap));
    assert!(matches!(fall_back(false, "h", 1, Probe::Unresolved), Fallback::Bootstrap));
    match fall_back(true, "h", 1, Probe::Unresolved) {
        Fallback::Fail(RuntimeError::BadAddress(m)) => {
            assert_eq!(m, "could not resolve host \"h\"")
        }
        _ => panic!(),
    }
    match fall_back(true, "h", 1, Probe::TimedOut) {
        Fallback::Fail(RuntimeError::BadAddress(m)) => {
            assert!(m.starts_with("no response from h:1 on UDP."))
        }
        _ => panic!(),
    }
    match bootstrapped_failure(RuntimeError::Timeout, "h", 9) {
        RuntimeError::BadAddress(m) => {
            assert!(m.starts_with("connected over SSH but the UDP session to h:9 timed out"))
        }
        _ => panic!(),
    }
    assert!(matches!(
        bootstrapped_failure(RuntimeError::Handshake, "h", 9),
        RuntimeError::Handshake
    ));
}

#[test]
fn waits() {
    assert_eq!(wait(true, 9), 20);
    assert_eq!(wait(false, 9), 9);
    assert_eq!(wait(false, 99_999), 3000);
    assert_eq!(shell_wait(true, 9, 0), 40);
    assert_eq!(shell_wait(false, 2500, 0), 2500);
    assert_eq!(shell_wait(false, 2500, 2000), 1000);
    assert_eq!(keepalive_interval(1999), 3000);
    assert_eq!(keepalive_interval(2000), 1000);
    assert_eq!(handshake_wait(true, 9, 1), Waiting::Done);
    assert_eq!(handshake_wait(false, 5001, 5000), Waiting::TimedOut);
    assert_eq!(handshake_wait(false, 5000, 5000), Waiting::On);
}

fn default_cmd() -> Vec<String> {
    vec!["noisshd".to_string()]
}

#[test]
fn bootstrap_installs_missing_noisshd_then_connects() {
    let missing = || attempt(Some(127), b"", b"sh: 1: noisshd: not found\n");
    assert_eq!(missing(), Attempt::NotFound);
    assert_eq!(next_step(Stage::Given, missing(), true, &default_cmd()), Step::TryInstalled);
    assert_eq!(next_step(Stage::Installed, missing(), true, &default_cmd()), Step::Install);
    assert_eq!(after_install(true), Step::TryAgain);
    let out = connect_line(40000, &[9; 32]) + "\n";
    let up = attempt(Some(0), out.as_bytes(), b"");
    match next_step(Stage::Again, up, true, &default_cmd()) {
        Step::Connect { port, key } => {
            assert_eq!(key.len(), 32, "got a valid server key");
            assert!(port != 0, "got a real UDP port");
            assert_eq!((port, key), (40000, vec![9; 32]));
        }
        _ => panic!("should connect"),
    }
}

#[test]
fn bootstrap_gives_up() {
    let missing = || attempt(Some(127), b"", b"");
    assert_eq!(next_step(Stage::Given, missing(), false, &default_cmd()), Step::GiveUp);
    assert_eq!(next_step(Stage::Given, missing(), true, &["/x/d".to_string()]), Step::GiveUp);
    assert_eq!(next_step(Stage::Again, missing(), true, &default_cmd()), Step::GiveUp);
    assert_eq!(after_install(false), Step::GiveUp);
    let broken = attempt(Some(255), b"", b"Permission denied");
    assert_eq!(broken, Attempt::Failed);
    assert_eq!(next_step(Stage::Given, broken, true, &default_cmd()), Step::GiveUp);
    match bootstrap_failure("me@h", b" Permission denied\n") {
        RuntimeError::SshFailed(m) => assert_eq!(m, "SSH bootstrap failed: Permission denied"),
        _ => panic!(),
    }
    match bootstrap_failure("me@h", b"\n") {
        RuntimeError::SshFailed(m) => {
            assert_eq!(m, "SSH bootstrap failed: no connect line from the server on h")
        }
        _ => panic!(),
    }
}

#[test]
fn ssh_bootstrap_then_session() {
    // What the client runs over SSH, and what it makes of the answer.
    let cmd = one_shot_command("me@h", &default_cmd(), &[0; 32], &["-p".to_string()], Some(51820));
    assert_eq!(cmd[0], "-p");
    assert!(cmd.contains(&"me@h".to_string()));
    let text = cmd.join(" ");
    assert!(text.contains("noisshd --one-shot"));
    assert!(text.contains("--authorize AAAAAAAAAAAAAAAAAAAAAAAAAAAAAAAAAAAAAAAAAAA="));
    assert!(text.contains("51820"));
    let out = format!("motd\n{}\n", connect_line(51820, &[7; 32]));
    assert_eq!(find_connect_line(out.as_bytes()), Some((51820, vec![7; 32])));
    // A byte that is not text does not hide the line.
    let mut noisy = vec![0xff, b'\n'];
    noisy.extend_from_slice(out.as_bytes());
    assert_eq!(find_connect_line(&noisy), Some((51820, vec![7; 32])));
}

#[test]
fn missing_commands_are_recognised() {
    assert!(looks_like_missing_command(Some(127), b"", b""));
    assert!(looks_like_missing_command(Some(1), b"", b"bash: noisshd: Command NOT Found"));
    assert!(!looks_like_missing_command(Some(1), b"", b"Connection refused"));
    assert_eq!(installed_server_cmd(Some("/x/noisshd".to_string())), vec!["/x/noisshd"]);
    assert_eq!(installed_server_cmd(None).len(), 1);
    let install = install_command("h", &[], "0.4.1").join(" ");
    assert!(install.contains("install.sh") && install.contains("0.4.1"));
}

#[test]
fn upgrade_is_offered_for_an_older_server() {
    assert!(offers_upgrade(Some("0.4.0"), true, false));
    assert!(offers_upgrade(Some("0.3.99"), true, false));
    assert!(!offers_upgrade(Some("0.4.1"), true, false));
    assert!(!offers_upgrade(Some("0.10.0"), true, false));
    assert!(!offers_upgrade(Some("0.4.0"), false, false));
    assert!(!offers_upgrade(Some("0.4.0"), true, true));
    assert!(!offers_upgrade(None, true, false));
    assert!(!offers_upgrade(Some("what"), true, false));
    assert!(is_older("1.2.9", "1.2.10"));
    assert!(says_yes("Y\n") && says_yes("yes"));
    assert!(!says_yes("") && !says_yes("n") && !says_yes("yep"));
}

#[test]
fn login_shells_and_commands_are_launched() {
    let mut req = SpawnRequest::default();
    let shell = launch(&req, "/bin/zsh", "/home/u", "u");
    assert_eq!(shell.program, "/bin/zsh");
    assert_eq!(shell.arg0.as_deref(), Some("-zsh"));
    assert!(shell.args.is_empty());
    assert!(shell.env.contains(&("HOME".to_string(), "/home/u".to_string())));
    assert!(shell.env.contains(&("LOGNAME".to_string(), "u".to_string())));
    assert_eq!(shell.dir, "/home/u");
    req.command = Some(vec!["/bin/echo".to_string(), "hello-pty".to_string()]);
    req.env = vec![("A".to_string(), "b".to_string())];
    let cmd = launch(&req, "/bin/zsh", "/home/u", "u");
    assert_eq!(cmd.program, "/bin/echo");
    assert_eq!(cmd.arg0, None);
    assert_eq!(cmd.args, vec!["hello-pty"]);
    assert_eq!(cmd.env.last(), Some(&("A".to_string(), "b".to_string())));
    assert_eq!(status_code(Some(7), None), 7);
    assert_eq!(status_code(None, Some(9)), 137);
}

#[test]
fn terminal_type_has_a_default() {
    assert_eq!(terminal_type(Some("screen".to_string())), "screen");
    assert_eq!(terminal_type(None), "xterm-256color");
}

#[test]
fn sizes_round_as_floats_do() {
    for n in [
        0u64, 1, 1023, 1024, 1536, 1587, 10_240, 1_048_575, 1_048_576, 5_000_000_000, 1 << 50,
        3 << 60,
    ] {
        let units = ["B", "KB", "MB", "GB", "TB", "PB"];
        let mut v = n as f64;
        let mut u = 0;
        while v >= 1024.0 && u < units.len() - 1 {
            v /= 1024.0;
            u += 1;
        }
        let want = if u == 0 { format!("{n} B") } else { format!("{v:.1} {}", units[u]) };
        assert_eq!(human_bytes(n), want);
    }
    assert_eq!(progress_line(512, Some(1024)), " 50.0%  512 B / 1.0 KB");
}

#[test]
fn progress_is_drawn_now_and_then() {
    let mut p = Progress::new("x".to_string(), Some(100), true);
    assert_eq!(p.add(10, 1000).as_deref(), Some("\rx   10.0%  10 B / 100 B        "));
    assert_eq!(p.add(10, 1099), None);
    assert_eq!(p.add(10, 1100).as_deref(), Some("\rx   30.0%  30 B / 100 B        "));
    assert_eq!(p.finish().as_deref(), Some("\rx   30.0%  30 B / 100 B        \n"));
    let mut quiet = Progress::new("x".to_string(), None, false);
    assert_eq!(quiet.add(10, 0), None);
    assert_eq!(quiet.finish(), None);
    let put = XferRequest::Put { path: "/r".to_string(), size: 5 };
    assert_eq!(progress_of(&put, "l"), ("↑ l".to_string(), Some(5)));
    let get = XferRequest::Get { path: "/r".to_string() };
    assert_eq!(progress_of(&get, "l"), ("↓ /r".to_string(), None));
    assert_eq!(temp_name(Some("f"), 7), "f.noissh-tmp-7");
    assert_eq!(temp_name(None, 7), ".noissh.noissh-tmp-7");
}
