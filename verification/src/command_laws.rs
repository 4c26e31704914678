//! What command lines mean, and how the programs understand each other's.

use crate::args::{ArgsView, StepView};
use crate::connect::TaskView;
use crate::daemon::{DaemonParsedView, DaemonView};
use crate::ssh::{AttemptView, Stage, StepView as Course};
use crate::xfer::XferView;
use vstd::prelude::*;

verus! {

// ---------------------------------------------------------------------------
// The client's options
// ---------------------------------------------------------------------------

/// Every option without a value sets what it is named for and nothing else.
pub proof fn law_switches(a: ArgsView, argv: Seq<Seq<char>>, i: int)
    requires
        a.target is None,
        0 <= i < argv.len(),
    ensures
        ({
            let t = crate::args::step(a, argv, i);
            let arg = argv[i];
            &&& arg == "--ssh"@ ==> t == StepView::Next(ArgsView { ssh: true, ..a }, i + 1)
            &&& arg == "--direct"@ ==> t == StepView::Next(ArgsView { direct: true, ..a }, i + 1)
            &&& arg == "-v"@ || arg == "--verbose"@ ==> t == StepView::Next(
                ArgsView { verbose: true, ..a },
                i + 1,
            )
            &&& arg == "--copy-id"@ ==> t == StepView::Next(ArgsView { copy_id: true, ..a }, i + 1)
            &&& arg == "--no-install"@ ==> t == StepView::Next(
                ArgsView { no_install: true, ..a },
                i + 1,
            )
            &&& arg == "-A"@ || arg == "--forward-agent"@ ==> t == StepView::Next(
                ArgsView { forward_agent: true, ..a },
                i + 1,
            )
            &&& arg == "-h"@ || arg == "--help"@ ==> t == StepView::Help
            &&& arg == "-V"@ || arg == "--version"@ ==> t == StepView::Version
        }),
{
    lemma_option_texts();
}

/// No two options are the same.
#[verifier::spinoff_prover]
proof fn lemma_option_texts()
    ensures
        crate::args::flag_of("-h"@) is Help && crate::args::flag_of("--help"@) is Help,
        crate::args::flag_of("-V"@) is Version && crate::args::flag_of("--version"@) is Version,
        crate::args::flag_of("--ssh"@) is Ssh,
        crate::args::flag_of("--direct"@) is Direct,
        crate::args::flag_of("-v"@) is Verbose && crate::args::flag_of("--verbose"@) is Verbose,
        crate::args::flag_of("--copy-id"@) is CopyId,
        crate::args::flag_of("--forget-host"@) is ForgetHost,
        crate::args::flag_of("--no-install"@) is NoInstall,
        crate::args::flag_of("-A"@) is ForwardAgent,
        crate::args::flag_of("--forward-agent"@) is ForwardAgent,
        crate::args::flag_of("--port"@) is Port,
        crate::args::flag_of("--server-cmd"@) is ServerCmd,
        crate::args::flag_of("--server-port"@) is ServerPort,
        crate::args::flag_of("-L"@) is Local,
        crate::args::flag_of("-R"@) is Remote,
        crate::args::flag_of("-D"@) is Dynamic,
        crate::args::flag_of("--put"@) is Put,
        crate::args::flag_of("--get"@) is Get,
        crate::args::flag_of("--"@) is Rest,
{
    reveal_strlit("-h");
    reveal_strlit("--help");
    reveal_strlit("-V");
    reveal_strlit("--version");
    reveal_strlit("--ssh");
    reveal_strlit("--direct");
    reveal_strlit("-v");
    reveal_strlit("--verbose");
    reveal_strlit("--copy-id");
    reveal_strlit("--forget-host");
    reveal_strlit("--no-install");
    reveal_strlit("-A");
    reveal_strlit("--forward-agent");
    reveal_strlit("--port");
    reveal_strlit("--server-cmd");
    reveal_strlit("--server-port");
    reveal_strlit("-L");
    reveal_strlit("-R");
    reveal_strlit("-D");
    reveal_strlit("--put");
    reveal_strlit("--get");
    reveal_strlit("--");
    assert("-h"@.len() == 2);
    assert("--help"@.len() == 6);
    assert("-V"@.len() == 2);
    assert("--version"@.len() == 9);
    assert("--ssh"@.len() == 5);
    assert("--direct"@.len() == 8);
    assert("-v"@.len() == 2);
    assert("--verbose"@.len() == 9);
    assert("--copy-id"@.len() == 9);
    assert("--forget-host"@.len() == 13);
    assert("--no-install"@.len() == 12);
    assert("-A"@.len() == 2);
    assert("--forward-agent"@.len() == 15);
    assert("--port"@.len() == 6);
    assert("--server-cmd"@.len() == 12);
    assert("--server-port"@.len() == 13);
    assert("-L"@.len() == 2);
    assert("-R"@.len() == 2);
    assert("-D"@.len() == 2);
    assert("--put"@.len() == 5);
    assert("--get"@.len() == 5);
    assert("--"@.len() == 2);
    assert("-h"@[1] == 'h');
    assert("-V"@[1] == 'V');
    assert("-v"@[1] == 'v');
    assert("-A"@[1] == 'A');
    assert("-L"@[1] == 'L');
    assert("-R"@[1] == 'R');
    assert("-D"@[1] == 'D');
    assert("--"@[1] == '-');
    assert("--help"@[2] == 'h');
    assert("--port"@[2] == 'p');
    assert("--version"@[2] == 'v');
    assert("--version"@[5] == 's');
    assert("--verbose"@[2] == 'v');
    assert("--verbose"@[5] == 'b');
    assert("--copy-id"@[2] == 'c');
    assert("--copy-id"@[5] == 'y');
    assert("--ssh"@[2] == 's');
    assert("--put"@[2] == 'p');
    assert("--get"@[2] == 'g');
    assert("--forget-host"@[2] == 'f');
    assert("--server-port"@[2] == 's');
    assert("--no-install"@[2] == 'n');
    assert("--server-cmd"@[2] == 's');
}

/// Every option with a value takes the next argument for it and sets what it is named
/// for and nothing else; a port is a number above zero. Without a value none of them is
/// understood.
pub proof fn law_value_options(a: ArgsView, argv: Seq<Seq<char>>, i: int, p: u16)
    requires
        a.target is None,
        0 <= i < argv.len(),
        p > 0,
    ensures
        ({
            let t = crate::args::step(a, argv, i);
            let arg = argv[i];
            let valued = i + 1 < argv.len();
            let ported = valued && argv[i + 1] == crate::text::decimal(p as nat);
            &&& valued && arg == "--forget-host"@ ==> t == StepView::Next(
                ArgsView { forget_host: Some(argv[i + 1]), ..a },
                i + 2,
            )
            &&& valued && arg == "--server-cmd"@ ==> t == StepView::Next(
                ArgsView { server_cmd: argv[i + 1], ..a },
                i + 2,
            )
            &&& ported && arg == "--port"@ ==> t == StepView::Next(ArgsView { port: p, ..a }, i + 2)
            &&& ported && arg == "--server-port"@ ==> t == StepView::Next(
                ArgsView { server_port: Some(p), ..a },
                i + 2,
            )
            &&& !valued && (arg == "--forget-host"@ || arg == "--server-cmd"@ || arg == "--port"@
                || arg == "--server-port"@ || arg == "-L"@ || arg == "-R"@ || arg == "-D"@ || arg
                == "--put"@ || arg == "--get"@) ==> t is Usage
        }),
{
    lemma_option_texts();
    crate::text::law_decimal_roundtrip(p as nat, u16::MAX as nat);
}

/// `-L` and `-R` lead the port before the first colon to what stands behind it, `-D`
/// listens on the port behind the last colon at the address before it, or at the local
/// one, and each adds to those given before.
pub proof fn law_forward_options(
    a: ArgsView,
    argv: Seq<Seq<char>>,
    i: int,
    p: u16,
    target: Seq<char>,
)
    requires
        a.target is None,
        0 <= i < argv.len() - 1,
        target.len() > 0,
    ensures
        ({
            let t = crate::args::step(a, argv, i);
            let arg = argv[i];
            let d = crate::text::decimal(p as nat);
            let led = argv[i + 1] == d + ":"@ + target;
            &&& led && arg == "-L"@ ==> t == StepView::Next(
                ArgsView { local_forwards: a.local_forwards.push((p, target)), ..a },
                i + 2,
            )
            &&& led && arg == "-R"@ ==> t == StepView::Next(
                ArgsView { remote_forwards: a.remote_forwards.push((p, target)), ..a },
                i + 2,
            )
            &&& argv[i + 1] == d && arg == "-D"@ ==> t == StepView::Next(
                ArgsView { dynamic_forwards: a.dynamic_forwards.push(("127.0.0.1"@, p)), ..a },
                i + 2,
            )
            &&& argv[i + 1] == target + ":"@ + d && arg == "-D"@ ==> t == StepView::Next(
                ArgsView { dynamic_forwards: a.dynamic_forwards.push((target, p)), ..a },
                i + 2,
            )
        }),
{
    lemma_option_texts();
    law_forward_texts(p, target);
}

/// A forward is read as it is written: a port, a colon and where it leads; and a listener
/// as an address, a colon and a port, or a port alone.
pub proof fn law_forward_texts(p: u16, target: Seq<char>)
    requires
        target.len() > 0,
    ensures
        ({
            let d = crate::text::decimal(p as nat);
            &&& crate::args::forward_of(d + ":"@ + target) == Some((p, target))
            &&& crate::args::dynamic_of(target + ":"@ + d) == Some((target, p))
            &&& crate::args::dynamic_of(d) == Some(("127.0.0.1"@, p))
            &&& crate::args::dynamic_of(":"@ + d) == Some(("127.0.0.1"@, p))
        }),
{
    let d = crate::text::decimal(p as nat);
    reveal_strlit(":");
    crate::text::law_decimal_roundtrip(p as nat, u16::MAX as nat);
    let n = d.len() as int;
    let s = d + ":"@ + target;
    assert forall|j: int| 0 <= j < n implies s[j] != ':' by {
        assert(s[j] == d[j]);
    }
    crate::text::lemma_found_at(s, ':', 0, n);
    assert(s.take(n) =~= d);
    assert(s.skip(n + 1) =~= target);
    let t = target + ":"@ + d;
    let k = target.len() as int;
    lemma_last_at(t, ':', k, t.len() as int);
    assert(t.take(k) =~= target);
    assert(t.skip(k + 1) =~= d);
    lemma_nowhere(d, ':', n);
    let u = ":"@ + d;
    lemma_last_at(u, ':', 0, u.len() as int);
    assert(u.skip(1) =~= d);
}

/// The last place of a character is the one behind which there is none.
proof fn lemma_last_at(s: Seq<char>, c: char, at: int, n: int)
    requires
        0 <= at < n <= s.len(),
        s[at] == c,
        forall|j: int| at < j < n ==> s[j] != c,
    ensures
        crate::text::last_place(s, c, n) == Some(at),
    decreases n - at,
{
    if at < n - 1 {
        lemma_last_at(s, c, at, n - 1);
    }
}

proof fn lemma_nowhere(s: Seq<char>, c: char, n: int)
    requires
        n <= s.len(),
        forall|j: int| 0 <= j < n ==> s[j] != c,
    ensures
        crate::text::last_place(s, c, n) is None,
    decreases n,
{
    if n > 0 {
        lemma_nowhere(s, c, n - 1);
    }
}

/// `--put LOCAL:REMOTE` sends the local file to the remote path and `--get REMOTE:LOCAL`
/// fetches the remote file to the local path: what stands before the first colon is
/// where the file comes from.
pub proof fn law_copy_options(
    a: ArgsView,
    argv: Seq<Seq<char>>,
    i: int,
    from: Seq<char>,
    to: Seq<char>,
)
    requires
        a.target is None,
        0 <= i < argv.len() - 1,
        from.len() > 0,
        to.len() > 0,
        forall|j: int| 0 <= j < from.len() ==> from[j] != ':',
        argv[i + 1] == from + ":"@ + to,
    ensures
        ({
            let t = crate::args::step(a, argv, i);
            &&& argv[i] == "--put"@ ==> t == StepView::Next(
                ArgsView { transfer: Some((XferView::Put { path: to, size: 0 }, from)), ..a },
                i + 2,
            )
            &&& argv[i] == "--get"@ ==> t == StepView::Next(
                ArgsView { transfer: Some((XferView::Get { path: from }, to)), ..a },
                i + 2,
            )
        }),
{
    lemma_option_texts();
    reveal_strlit(":");
    let s = from + ":"@ + to;
    let n = from.len() as int;
    assert forall|j: int| 0 <= j < n implies s[j] != ':' by {
        assert(s[j] == from[j]);
    }
    crate::text::lemma_found_at(s, ':', 0, n);
    assert(s.take(n) =~= from);
    assert(s.skip(n + 1) =~= to);
}

/// The first argument that is no option is the host. What follows it is the command,
/// word for word, though it looks like options; what follows `--` is for ssh.
pub proof fn law_command_follows_host(
    a: ArgsView,
    host: Seq<char>,
    words: Seq<Seq<char>>,
)
    requires
        a.target is None,
        host.len() > 0,
        host[0] != '-',
        words.len() > 0,
        words[0] != "--"@,
    ensures
        crate::args::read_from(a, seq![host], 0) == StepView::Run(
            ArgsView { target: Some(host), ..a },
        ),
        crate::args::read_from(a, seq![host] + words, 0) == StepView::Run(
            ArgsView { target: Some(host), command: words, ..a },
        ),
        crate::args::read_from(a, seq![host, "--"@] + words, 0) == StepView::Run(
            ArgsView { target: Some(host), ssh_args: words, ..a },
        ),
{
    reveal_strlit("-");
    reveal_strlit("-h");
    reveal_strlit("--help");
    reveal_strlit("-V");
    reveal_strlit("--version");
    reveal_strlit("--ssh");
    reveal_strlit("--direct");
    reveal_strlit("-v");
    reveal_strlit("--verbose");
    reveal_strlit("--copy-id");
    reveal_strlit("--forget-host");
    reveal_strlit("--no-install");
    reveal_strlit("-A");
    reveal_strlit("--forward-agent");
    reveal_strlit("--port");
    reveal_strlit("--server-cmd");
    reveal_strlit("--server-port");
    reveal_strlit("-L");
    reveal_strlit("-R");
    reveal_strlit("-D");
    reveal_strlit("--put");
    reveal_strlit("--get");
    reveal_strlit("--");
    assert(crate::args::flag_of(host) is Other);
    assert(!"-"@.is_prefix_of(host)) by {
        if "-"@.is_prefix_of(host) {
            assert("-"@[0] == host.subrange(0, 1)[0]);
        }
    }
    let one = seq![host] + words;
    let two = seq![host, "--"@] + words;
    let b = ArgsView { target: Some(host), ..a };
    reveal_with_fuel(crate::args::read_from, 3);
    assert(one[0] == host && one[1] == words[0]);
    assert(one.skip(1) =~= words);
    assert(two[0] == host && two[1] == "--"@);
    assert(two.skip(2) =~= words);
    lemma_option_texts();
    assert(crate::args::step(a, seq![host], 0) == StepView::Next(b, 1));
    assert(crate::args::step(a, one, 0) == StepView::Next(b, 1));
    assert(crate::args::step(a, two, 0) == StepView::Next(b, 1));
}

// ---------------------------------------------------------------------------
// What a connection is for
// ---------------------------------------------------------------------------

/// A command is run as its words with blanks between them; without one a file is copied
/// if that was asked for, else ports are forwarded if that was, else there is a shell,
/// and only then.
pub proof fn law_task(a: ArgsView, words: Seq<Seq<char>>, word: Seq<char>)
    requires
        words.len() > 0,
    ensures
        crate::connect::task_of(ArgsView { command: seq![word], ..a }) == TaskView::Exec(word),
        (crate::connect::task_of(ArgsView { command: words, ..a }) matches TaskView::Exec(before)
            && crate::connect::task_of(ArgsView { command: words.push(word), ..a })
            == TaskView::Exec(before + " "@ + word)),
        a.command.len() == 0 && a.transfer is Some ==> crate::connect::task_of(a) is Transfer,
        a.command.len() == 0 && a.transfer is None && a.local_forwards.len() + a.remote_forwards.len()
            + a.dynamic_forwards.len() > 0 ==> crate::connect::task_of(a) is Forward,
        crate::connect::task_of(a) is Shell <==> a.command.len() == 0 && a.transfer is None
            && a.local_forwards.len() + a.remote_forwards.len() + a.dynamic_forwards.len() == 0,
        crate::connect::wants_shell(a) <==> crate::connect::task_of(a) is Shell,
{
    assert(words.push(word).drop_last() =~= words);
}

/// The user's name in a target does not count for where the host is or under what name
/// its key is pinned: that is the host and the port.
pub proof fn law_host_of_target(a: ArgsView, user: Seq<char>, host: Seq<char>, pins: crate::auth::Pins)
    requires
        forall|j: int| 0 <= j < host.len() ==> host[j] != '@',
    ensures
        crate::ssh::host_part(host) == host,
        crate::ssh::host_part(user + "@"@ + host) == host,
        crate::connect::planned(a, user + "@"@ + host, pins) == crate::connect::planned(
            a,
            host,
            pins,
        ),
        crate::connect::planned(a, host, pins).host == host,
        crate::connect::planned(a, host, pins).label == host + ":"@ + crate::text::decimal(
            a.port as nat,
        ),
        crate::connect::planned(a, host, pins).server_port == match a.server_port {
            Some(p) => p,
            None => a.port,
        },
        a.direct ==> crate::connect::planned(a, host, pins).try_direct,
        !a.ssh && pins.dom().contains(crate::connect::planned(a, host, pins).label)
            ==> crate::connect::planned(a, host, pins).try_direct,
{
    reveal_strlit("@");
    lemma_nowhere(host, '@', host.len() as int);
    let t = user + "@"@ + host;
    lemma_last_at(t, '@', user.len() as int, t.len() as int);
    assert(t.skip(user.len() as int + 1) =~= host);
}

// ---------------------------------------------------------------------------
// The server's options, and the bootstrap
// ---------------------------------------------------------------------------

proof fn lemma_daemon_texts()
    ensures
        !crate::daemon::takes_value("--one-shot"@),
        "--one-shot"@ != "-h"@ && "--one-shot"@ != "--help"@ && "--one-shot"@ != "-V"@
            && "--one-shot"@ != "--version"@,
        forall|s: Seq<char>| #[trigger]
            crate::daemon::takes_value(s) ==> s != "-h"@ && s != "--help"@ && s != "-V"@ && s
                != "--version"@ && s != "--one-shot"@ && s != "-v"@ && s != "--verbose"@ && s
                != "--command"@,
        "--authorize"@ != "--listen"@ && "--authorize"@ != "--bind"@ && "--authorize"@ != "--key"@
            && "--authorize"@ != "--authorized-keys"@ && "--authorize"@ != "--user"@,
        "--bind"@ != "--listen"@ && "--bind"@ != "--key"@ && "--bind"@ != "--authorized-keys"@
            && "--bind"@ != "--user"@,
        "--listen"@ != "--key"@ && "--listen"@ != "--authorized-keys"@ && "--listen"@ != "--user"@,
        "--key"@ != "--authorized-keys"@ && "--key"@ != "--user"@,
        "--authorized-keys"@ != "--user"@,
{
    reveal_strlit("-h");
    reveal_strlit("--help");
    reveal_strlit("-V");
    reveal_strlit("--version");
    reveal_strlit("--one-shot");
    reveal_strlit("-v");
    reveal_strlit("--verbose");
    reveal_strlit("--command");
    reveal_strlit("--listen");
    reveal_strlit("--bind");
    reveal_strlit("--key");
    reveal_strlit("--authorized-keys");
    reveal_strlit("--authorize");
    reveal_strlit("--user");
    assert("-h"@.len() == 2);
    assert("--help"@.len() == 6);
    assert("-V"@.len() == 2);
    assert("--version"@.len() == 9);
    assert("--one-shot"@.len() == 10);
    assert("-v"@.len() == 2);
    assert("--verbose"@.len() == 9);
    assert("--command"@.len() == 9);
    assert("--listen"@.len() == 8);
    assert("--bind"@.len() == 6);
    assert("--key"@.len() == 5);
    assert("--authorized-keys"@.len() == 17);
    assert("--authorize"@.len() == 11);
    assert("--user"@.len() == 6);
    assert("-h"@[1] == 'h');
    assert("-V"@[1] == 'V');
    assert("-v"@[1] == 'v');
    assert("--help"@[2] == 'h');
    assert("--bind"@[2] == 'b');
    assert("--user"@[2] == 'u');
    assert("--version"@[2] == 'v');
    assert("--version"@[5] == 's');
    assert("--verbose"@[2] == 'v');
    assert("--verbose"@[5] == 'b');
    assert("--command"@[2] == 'c');
    assert("--command"@[5] == 'm');
}

/// Every option of the server that takes a value sets what it is named for to the next
/// argument, and nothing else.
pub proof fn law_daemon_options(a: DaemonView, value: Seq<char>)
    ensures
        crate::daemon::daemon_from(a, seq!["--listen"@, value], 0) == DaemonParsedView::Run(
            DaemonView { listen: Some(value), ..a },
        ),
        crate::daemon::daemon_from(a, seq!["--bind"@, value], 0) == DaemonParsedView::Run(
            DaemonView { bind: Some(value), ..a },
        ),
        crate::daemon::daemon_from(a, seq!["--key"@, value], 0) == DaemonParsedView::Run(
            DaemonView { key: Some(value), ..a },
        ),
        crate::daemon::daemon_from(a, seq!["--authorized-keys"@, value], 0)
            == DaemonParsedView::Run(DaemonView { authorized_keys: Some(value), ..a }),
        crate::daemon::daemon_from(a, seq!["--authorize"@, value], 0) == DaemonParsedView::Run(
            DaemonView { authorize: Some(value), ..a },
        ),
        crate::daemon::daemon_from(a, seq!["--user"@, value], 0) == DaemonParsedView::Run(
            DaemonView { user: Some(value), ..a },
        ),
{
    lemma_daemon_texts();
    reveal_with_fuel(crate::daemon::daemon_from, 2);
    assert(crate::daemon::takes_value("--listen"@));
    assert(crate::daemon::takes_value("--bind"@));
    assert(crate::daemon::takes_value("--key"@));
    assert(crate::daemon::takes_value("--authorized-keys"@));
    assert(crate::daemon::takes_value("--authorize"@));
    assert(crate::daemon::takes_value("--user"@));
}

/// What the client has ssh run is what the server understands: behind ssh's own options
/// and `--` stands the target, then the server's command, and the options that follow
/// make it a one-shot server that trusts the client's key and no other, on the port that
/// the client asked for.
pub proof fn law_one_shot_is_understood(
    target: Seq<char>,
    command: Seq<Seq<char>>,
    key: Seq<u8>,
    extra: Seq<Seq<char>>,
    port: Option<u16>,
)
    ensures
        ({
            let argv = crate::ssh::one_shot_args(target, command, key, extra, port);
            let n = extra.len() + 2 + command.len();
            &&& argv.take(extra.len() as int) == extra
            &&& argv[extra.len() as int] == "--"@
            &&& argv[extra.len() as int + 1] == target
            &&& argv.subrange(extra.len() as int + 2, n as int) == command
            &&& crate::daemon::daemon_from(crate::daemon::no_daemon_args(), argv.skip(n as int), 0)
                == DaemonParsedView::Run(
                DaemonView {
                    one_shot: true,
                    authorize: Some(crate::auth::base64_text(key)),
                    bind: match port {
                        Some(p) => Some("0.0.0.0:"@ + crate::text::decimal(p as nat)),
                        None => None,
                    },
                    ..crate::daemon::no_daemon_args()
                },
            )
        }),
{
    let argv = crate::ssh::one_shot_args(target, command, key, extra, port);
    let m = extra.len() as int;
    let n = m + 2 + command.len();
    assert(argv.take(m) =~= extra);
    assert(argv.subrange(m + 2, n) =~= command);
    let rest = argv.skip(n);
    let k = crate::auth::base64_text(key);
    lemma_daemon_texts();
    reveal_with_fuel(crate::daemon::daemon_from, 4);
    assert(rest[0] == "--one-shot"@ && rest[1] == "--authorize"@ && rest[2] == k);
    assert(crate::daemon::takes_value("--authorize"@));
    assert(crate::daemon::takes_value("--bind"@));
    if let Some(p) = port {
        assert(rest[3] == "--bind"@ && rest[4] == "0.0.0.0:"@ + crate::text::decimal(p as nat));
        assert(rest.len() == 5);
    } else {
        assert(rest.len() == 3);
    }
}

/// A server that answers is connected to, by the port and the key it told, at whatever
/// stage; nothing is installed then. One that fails otherwise than by not being there
/// where it was looked for first is not installed over.
pub proof fn law_bootstrap_course(stage: Stage, port: u16, key: Seq<u8>, may_install: bool)
    ensures
        crate::ssh::after_attempt(stage, AttemptView::Connected { port, key }, may_install)
            == (Course::Connect { port, key }),
        crate::ssh::after_attempt(Stage::Given, AttemptView::Failed, may_install) is GiveUp,
        crate::ssh::after_attempt(Stage::Given, AttemptView::NotFound, true) is TryInstalled,
        crate::ssh::after_attempt(Stage::Given, AttemptView::NotFound, false) is GiveUp,
        crate::ssh::after_attempt(Stage::Installed, AttemptView::NotFound, may_install) is Install,
        crate::ssh::after_attempt(Stage::Again, AttemptView::NotFound, may_install) is GiveUp,
        crate::ssh::after_attempt(Stage::Again, AttemptView::Failed, may_install) is GiveUp,
{
}

/// A version is read as its three numbers, and versions are ordered by them as numbers,
/// the first before the second and the second before the third.
pub proof fn law_version_is_read(a: u32, b: u32, c: u32, x: u32, y: u32, z: u32)
    ensures
        ({
            let text = |p: u32, q: u32, r: u32| crate::text::decimal(p as nat) + "."@
                + crate::text::decimal(q as nat) + "."@ + crate::text::decimal(r as nat);
            &&& crate::ssh::version_of(text(a, b, c)) == Some((a as nat, b as nat, c as nat))
            &&& crate::ssh::older(text(a, b, c), text(x, y, z)) <==> a < x || (a == x && b < y) || (a
                == x && b == y && c < z)
        }),
{
    lemma_version(a, b, c);
    lemma_version(x, y, z);
}

proof fn lemma_version(a: u32, b: u32, c: u32)
    ensures
        crate::ssh::version_of(
            crate::text::decimal(a as nat) + "."@ + crate::text::decimal(b as nat) + "."@
                + crate::text::decimal(c as nat),
        ) == Some((a as nat, b as nat, c as nat)),
{
    reveal_strlit(".");
    let da = crate::text::decimal(a as nat);
    let db = crate::text::decimal(b as nat);
    let dc = crate::text::decimal(c as nat);
    crate::text::law_decimal_roundtrip(a as nat, u32::MAX as nat);
    crate::text::law_decimal_roundtrip(b as nat, u32::MAX as nat);
    crate::text::law_decimal_roundtrip(c as nat, u32::MAX as nat);
    let s = da + "."@ + db + "."@ + dc;
    let i = da.len() as int;
    let j = i + 1 + db.len();
    assert forall|k: int| 0 <= k < i implies s[k] != '.' by {
        assert(s[k] == da[k]);
    }
    assert forall|k: int| j < k < s.len() implies s[k] != '.' by {
        assert(s[k] == dc[k - j - 1]);
    }
    crate::text::lemma_found_at(s, '.', 0, i);
    lemma_last_at(s, '.', j, s.len() as int);
    assert(s.subrange(0, i) =~= da);
    assert(s.subrange(i + 1, j) =~= db);
    assert(s.subrange(j + 1, s.len() as int) =~= dc);
}

// ---------------------------------------------------------------------------
// Login
// ---------------------------------------------------------------------------

/// The name of a program is what stands behind the last slash of its path.
pub proof fn law_base_name(dir: Seq<char>, name: Seq<char>)
    requires
        forall|j: int| 0 <= j < name.len() ==> name[j] != '/',
    ensures
        crate::login::base_name(name) == name,
        crate::login::base_name(dir + "/"@ + name) == name,
    decreases name.len(),
{
    reveal_strlit("/");
    let s = dir + "/"@ + name;
    if name.len() == 0 {
        assert(s.last() == '/');
    } else {
        let init = name.drop_last();
        assert(s.drop_last() =~= dir + "/"@ + init);
        law_base_name(dir, init);
        assert(init.push(name.last()) =~= name);
    }
}

/// A command's status is its exit code, whatever else is known; one that a signal ended
/// has the signal's number and a hundred and twenty-eight.
pub proof fn law_status_codes(code: i32, signal: i32, other: Option<i32>)
    requires
        0 <= signal <= 127,
    ensures
        crate::login::status_of(Some(code), other) == code,
        crate::login::status_of(None, Some(signal)) == signal + 128,
        crate::login::status_of(None, None) == 128,
{
}

} // verus!
