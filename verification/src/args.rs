//! The command line of the client.

use crate::text::{chars_of, find, find_last, is_text, parse_number, part, starts_with, string_of};
use crate::xfer::{XferRequest, XferView};
use vstd::prelude::*;

verus! {

/// What `--help` prints.
pub const USAGE: &'static str = "noissh 0.4.1 — resilient remote shell over the Noise Protocol

Usage:
  noissh [OPTIONS] [user@]host [command ...]
  noissh [OPTIONS] [user@]host -- <ssh args ...>

Where the key of a standing noisshd on the host is pinned, noissh tries a direct
UDP session to it first; otherwise, or if nothing answers, it bootstraps over SSH,
launching (and, if missing, installing) noisshd on the remote.

Anything after the host is run as a one-shot remote command (ssh-style), then
noissh exits with its status. Omit it for an interactive shell.

Options:
  --ssh                 force the SSH bootstrap (skip the direct probe)
  --direct              direct connection only; never fall back to SSH
  --port N              UDP port for the direct connection (default 51820)
  --server-port N       pin the bootstrapped server's UDP port (firewall-friendly)
  --server-cmd CMD      remote server command for --ssh (default \"noisshd\")
  --no-install          do not auto-install noisshd on the remote if missing
  -L LPORT:HOST:PORT    local port forward (repeatable); implies no shell
  -R RPORT:HOST:PORT    remote port forward (repeatable); implies no shell
  -D [BIND:]PORT        dynamic SOCKS forward (repeatable); implies no shell
  --put LOCAL:REMOTE    upload LOCAL to REMOTE, then exit
  --get REMOTE:LOCAL    download REMOTE to LOCAL, then exit
  -A, --forward-agent   forward your local SSH agent to the shell session
  --copy-id             install your public key into the remote authorized_keys
                        over SSH (like ssh-copy-id), then exit
  --forget-host HOST    remove the pinned server key(s) for HOST, then exit
                        (recovers from an intentional server re-key)
  -v, --verbose         narrate the connection sequence (diagnose connect hangs)
  -- <ssh args ...>     pass remaining args to ssh (only with the bootstrap)
  -h, --help            print this help and exit
  -V, --version         print the version and exit

Examples:
  noissh user@host                 # interactive shell
  noissh user@host uname -a        # run one command, then exit
  noissh --ssh user@host           # force the SSH bootstrap
  noissh -L 8080:localhost:80 user@host   # options go before the host

Note: options must come before the host; anything after the host is the remote
command.

Docs: https://github.com/gedigi/noissh#documentation";

/// The UDP port of a standing server, unless another is given.
pub const DEFAULT_PORT: u16 = 51820;

/// A text in quotes, with what does not print escaped.
pub uninterp spec fn quoted(text: Seq<char>) -> Seq<char>;

/// The `Debug` form of `str`: the text in quotes. How characters are escaped is
/// not stated.
#[verifier::external_body]
pub(crate) fn quote(text: &str) -> (r: String)
    ensures
        r@ == quoted(text@),
{
    format!("{text:?}")
}

/// What an argument asks for.
#[derive(Debug, Clone, Copy, PartialEq, Eq, Structural)]
pub enum Flag {
    Help,
    Version,
    Ssh,
    Direct,
    Verbose,
    CopyId,
    ForgetHost,
    NoInstall,
    ForwardAgent,
    Port,
    ServerCmd,
    ServerPort,
    Local,
    Remote,
    Dynamic,
    Put,
    Get,
    Rest,
    Other,
}

/// What an argument asks for.
pub open spec fn flag_of(arg: Seq<char>) -> Flag {
    if arg == "-h"@ || arg == "--help"@ {
        Flag::Help
    } else if arg == "-V"@ || arg == "--version"@ {
        Flag::Version
    } else if arg == "--ssh"@ {
        Flag::Ssh
    } else if arg == "--direct"@ {
        Flag::Direct
    } else if arg == "-v"@ || arg == "--verbose"@ {
        Flag::Verbose
    } else if arg == "--copy-id"@ {
        Flag::CopyId
    } else if arg == "--forget-host"@ {
        Flag::ForgetHost
    } else if arg == "--no-install"@ {
        Flag::NoInstall
    } else if arg == "-A"@ || arg == "--forward-agent"@ {
        Flag::ForwardAgent
    } else if arg == "--port"@ {
        Flag::Port
    } else if arg == "--server-cmd"@ {
        Flag::ServerCmd
    } else if arg == "--server-port"@ {
        Flag::ServerPort
    } else if arg == "-L"@ {
        Flag::Local
    } else if arg == "-R"@ {
        Flag::Remote
    } else if arg == "-D"@ {
        Flag::Dynamic
    } else if arg == "--put"@ {
        Flag::Put
    } else if arg == "--get"@ {
        Flag::Get
    } else if arg == "--"@ {
        Flag::Rest
    } else {
        Flag::Other
    }
}

fn flag(arg: &[char]) -> (r: Flag)
    ensures
        r == flag_of(arg@),
{
    if is_text(arg, "-h") || is_text(arg, "--help") {
        Flag::Help
    } else if is_text(arg, "-V") || is_text(arg, "--version") {
        Flag::Version
    } else if is_text(arg, "--ssh") {
        Flag::Ssh
    } else if is_text(arg, "--direct") {
        Flag::Direct
    } else if is_text(arg, "-v") || is_text(arg, "--verbose") {
        Flag::Verbose
    } else if is_text(arg, "--copy-id") {
        Flag::CopyId
    } else if is_text(arg, "--forget-host") {
        Flag::ForgetHost
    } else if is_text(arg, "--no-install") {
        Flag::NoInstall
    } else if is_text(arg, "-A") || is_text(arg, "--forward-agent") {
        Flag::ForwardAgent
    } else if is_text(arg, "--port") {
        Flag::Port
    } else if is_text(arg, "--server-cmd") {
        Flag::ServerCmd
    } else if is_text(arg, "--server-port") {
        Flag::ServerPort
    } else if is_text(arg, "-L") {
        Flag::Local
    } else if is_text(arg, "-R") {
        Flag::Remote
    } else if is_text(arg, "-D") {
        Flag::Dynamic
    } else if is_text(arg, "--put") {
        Flag::Put
    } else if is_text(arg, "--get") {
        Flag::Get
    } else if is_text(arg, "--") {
        Flag::Rest
    } else {
        Flag::Other
    }
}

/// A local or remote forward: a port, and where it leads.
pub type PortForward = (u16, Seq<char>);

/// A forward `PORT:HOST:PORT`: the first port, and what follows it.
pub open spec fn forward_of(s: Seq<char>) -> Option<PortForward> {
    match crate::text::find_from(s, ':', 0) {
        None => None,
        Some(i) => match crate::text::parsed_number(s.take(i), u16::MAX as nat) {
            None => None,
            Some(port) => if s.skip(i + 1).len() == 0 {
                None
            } else {
                Some((port as u16, s.skip(i + 1)))
            },
        },
    }
}

/// A dynamic forward `[BIND:]PORT`. Defaults to loopback.
pub open spec fn dynamic_of(s: Seq<char>) -> Option<(Seq<char>, u16)> {
    let (bind, port) = match crate::text::last_place(s, ':', s.len() as int) {
        Some(i) => (
            if i > 0 {
                s.take(i)
            } else {
                "127.0.0.1"@
            },
            s.skip(i + 1),
        ),
        None => ("127.0.0.1"@, s),
    };
    match crate::text::parsed_number(port, u16::MAX as nat) {
        Some(p) => Some((bind, p as u16)),
        None => None,
    }
}

/// Two parts around the first colon, neither of them empty.
pub open spec fn two_parts(s: Seq<char>) -> Option<(Seq<char>, Seq<char>)> {
    match crate::text::find_from(s, ':', 0) {
        None => None,
        Some(i) => if i == 0 || s.skip(i + 1).len() == 0 {
            None
        } else {
            Some((s.take(i), s.skip(i + 1)))
        },
    }
}

/// A port number above zero.
pub open spec fn port_of(s: Seq<char>) -> Option<u16> {
    match crate::text::parsed_number(s, u16::MAX as nat) {
        Some(p) => if p > 0 {
            Some(p as u16)
        } else {
            None
        },
        None => None,
    }
}

/// Parse a `-L` spec `LPORT:HOST:PORT` into (local_port, "HOST:PORT").
pub fn parse_forward(s: &str) -> (r: Option<(u16, String)>)
    ensures
        match forward_of(s@) {
            Some(f) => r matches Some(x) && x.0 == f.0 && x.1@ == f.1,
            None => r is None,
        },
{
    let chars: Vec<char> = chars_of(s);
    let i: usize = match find(&chars, ':', 0) {
        Some(i) => i,
        None => return None,
    };
    let n: usize = chars.len();
    let head: Vec<char> = part(&chars, 0, i);
    assert(head@ =~= s@.take(i as int));
    let port: u64 = match parse_number(&head, u16::MAX as u64) {
        Some(p) => p,
        None => return None,
    };
    let target: Vec<char> = part(&chars, i + 1, n);
    assert(target@ =~= s@.skip(i + 1));
    if target.len() == 0 {
        return None;
    }
    Some((port as u16, string_of(&target)))
}

/// Parse a `-D` spec `[BIND:]PORT` into (bind_addr, port). Defaults to loopback.
pub fn parse_dynamic(s: &str) -> (r: Option<(String, u16)>)
    ensures
        match dynamic_of(s@) {
            Some(d) => r matches Some(x) && x.0@ == d.0 && x.1 == d.1,
            None => r is None,
        },
{
    let chars: Vec<char> = chars_of(s);
    let mut bind: String = "127.0.0.1".to_owned();
    let mut from: usize = 0;
    let n: usize = chars.len();
    if let Some(i) = find_last(&chars, ':') {
        if i > 0 {
            let head: Vec<char> = part(&chars, 0, i);
            assert(head@ =~= s@.take(i as int));
            bind = string_of(&head);
        }
        from = i + 1;
    }
    let tail: Vec<char> = part(&chars, from, n);
    assert(tail@ =~= s@.skip(from as int));
    assert(s@.skip(0) =~= s@);
    match parse_number(&tail, u16::MAX as u64) {
        Some(p) => Some((bind, p as u16)),
        None => None,
    }
}

fn split_two(s: &str) -> (r: Option<(String, String)>)
    ensures
        match two_parts(s@) {
            Some(p) => r matches Some(x) && x.0@ == p.0 && x.1@ == p.1,
            None => r is None,
        },
{
    let chars: Vec<char> = chars_of(s);
    match find(&chars, ':', 0) {
        Some(i) => {
            let n: usize = chars.len();
            let head: Vec<char> = part(&chars, 0, i);
            let tail: Vec<char> = part(&chars, i + 1, n);
            assert(head@ =~= s@.take(i as int));
            assert(tail@ =~= s@.skip(i + 1));
            if head.len() == 0 || tail.len() == 0 {
                None
            } else {
                Some((string_of(&head), string_of(&tail)))
            }
        },
        None => None,
    }
}

/// What the command line asks for.
pub struct ArgsView {
    pub ssh: bool,
    pub port: u16,
    pub target: Option<Seq<char>>,
    pub server_cmd: Seq<char>,
    pub ssh_args: Seq<Seq<char>>,
    pub local_forwards: Seq<PortForward>,
    pub remote_forwards: Seq<PortForward>,
    pub dynamic_forwards: Seq<(Seq<char>, u16)>,
    pub transfer: Option<(XferView, Seq<char>)>,
    pub forward_agent: bool,
    pub no_install: bool,
    pub command: Seq<Seq<char>>,
    pub direct: bool,
    pub server_port: Option<u16>,
    pub verbose: bool,
    pub forget_host: Option<Seq<char>>,
    pub copy_id: bool,
}

/// What the command line asks for.
#[derive(Debug)]
pub struct Args {
    /// Force the SSH bootstrap.
    pub ssh: bool,
    pub port: u16,
    pub target: Option<String>,
    pub server_cmd: String,
    pub ssh_args: Vec<String>,
    /// Local port forwards: (local_port, "host:port").
    pub local_forwards: Vec<(u16, String)>,
    /// Remote port forwards: (remote_port, "host:port").
    pub remote_forwards: Vec<(u16, String)>,
    /// Dynamic (SOCKS) forwards: (bind_addr, port).
    pub dynamic_forwards: Vec<(String, u16)>,
    /// A one-shot file transfer: (request, local path). The size of an upload is
    /// not known yet.
    pub transfer: Option<(XferRequest, String)>,
    /// Forward the local SSH agent (`-A`).
    pub forward_agent: bool,
    /// Disable auto-installing the server on the remote.
    pub no_install: bool,
    /// Trailing positional command. Empty means an interactive shell.
    pub command: Vec<String>,
    /// Force a direct UDP connection only (never fall back to the SSH bootstrap).
    pub direct: bool,
    /// Pin the bootstrapped server's UDP port.
    pub server_port: Option<u16>,
    /// Narrate the connection sequence.
    pub verbose: bool,
    /// `--forget-host HOST`: remove the pinned server key(s) for HOST and exit.
    pub forget_host: Option<String>,
    /// `--copy-id`: install our public key on the remote over SSH, then exit.
    pub copy_id: bool,
}

/// What forwards say.
pub open spec fn forward_views(v: Seq<(u16, String)>) -> Seq<PortForward> {
    Seq::new(v.len(), |i: int| (v[i].0, v[i].1@))
}

/// What dynamic forwards say.
pub open spec fn dynamic_views(v: Seq<(String, u16)>) -> Seq<(Seq<char>, u16)> {
    Seq::new(v.len(), |i: int| (v[i].0@, v[i].1))
}

impl View for Args {
    type V = ArgsView;

    open spec fn view(&self) -> ArgsView {
        ArgsView {
            ssh: self.ssh,
            port: self.port,
            target: match self.target {
                Some(t) => Some(t@),
                None => None,
            },
            server_cmd: self.server_cmd@,
            ssh_args: crate::login::texts(self.ssh_args@),
            local_forwards: forward_views(self.local_forwards@),
            remote_forwards: forward_views(self.remote_forwards@),
            dynamic_forwards: dynamic_views(self.dynamic_forwards@),
            transfer: match self.transfer {
                Some(t) => Some((t.0@, t.1@)),
                None => None,
            },
            forward_agent: self.forward_agent,
            no_install: self.no_install,
            command: crate::login::texts(self.command@),
            direct: self.direct,
            server_port: self.server_port,
            verbose: self.verbose,
            forget_host: match self.forget_host {
                Some(t) => Some(t@),
                None => None,
            },
            copy_id: self.copy_id,
        }
    }
}

/// Where reading the command line has got to.
pub enum StepView {
    /// To the argument of this number.
    Next(ArgsView, int),
    /// To its end.
    Run(ArgsView),
    Help,
    Version,
    /// To a mistake.
    Usage(Seq<char>),
}

/// Where reading a value that must be there leads.
pub open spec fn want_value(
    value: Option<Seq<char>>,
    flag: Seq<char>,
) -> Result<Seq<char>, Seq<char>> {
    match value {
        Some(s) => Ok(s),
        None => Err(flag + " requires a value"@),
    }
}

/// Where reading a port number that must be there leads.
pub open spec fn want_port(value: Option<Seq<char>>, flag: Seq<char>) -> Result<u16, Seq<char>> {
    match value {
        Some(s) => match port_of(s) {
            Some(p) => Ok(p),
            None => Err(flag + " wants a port number (1-65535), got "@ + quoted(s)),
        },
        None => Err(flag + " requires a port number"@),
    }
}

/// Where reading an option without a value leads.
pub open spec fn switch_step(a: ArgsView, f: Flag, i: int) -> StepView {
    StepView::Next(
        match f {
            Flag::Ssh => ArgsView { ssh: true, ..a },
            Flag::Direct => ArgsView { direct: true, ..a },
            Flag::Verbose => ArgsView { verbose: true, ..a },
            Flag::CopyId => ArgsView { copy_id: true, ..a },
            Flag::NoInstall => ArgsView { no_install: true, ..a },
            _ => ArgsView { forward_agent: true, ..a },
        },
        i + 1,
    )
}

/// Where reading an option that names a port or a text leads.
pub open spec fn value_step(a: ArgsView, f: Flag, value: Option<Seq<char>>, i: int) -> StepView {
    match f {
        Flag::ForgetHost => match want_value(value, "--forget-host"@) {
            Ok(h) => StepView::Next(ArgsView { forget_host: Some(h), ..a }, i + 2),
            Err(m) => StepView::Usage(m),
        },
        Flag::ServerCmd => match want_value(value, "--server-cmd"@) {
            Ok(c) => StepView::Next(ArgsView { server_cmd: c, ..a }, i + 2),
            Err(m) => StepView::Usage(m),
        },
        Flag::Port => match want_port(value, "--port"@) {
            Ok(p) => StepView::Next(ArgsView { port: p, ..a }, i + 2),
            Err(m) => StepView::Usage(m),
        },
        _ => match want_port(value, "--server-port"@) {
            Ok(p) => StepView::Next(ArgsView { server_port: Some(p), ..a }, i + 2),
            Err(m) => StepView::Usage(m),
        },
    }
}

/// Where reading a local forward leads.
pub open spec fn local_step(a: ArgsView, value: Option<Seq<char>>, i: int) -> StepView {
    match forward_in(value) {
        Some(f) => StepView::Next(
            ArgsView { local_forwards: a.local_forwards.push(f), ..a },
            i + 2,
        ),
        None => StepView::Usage("-L wants LPORT:HOST:PORT (e.g. -L 8080:localhost:80)"@),
    }
}

/// Where reading a remote forward leads.
pub open spec fn remote_step(a: ArgsView, value: Option<Seq<char>>, i: int) -> StepView {
    match forward_in(value) {
        Some(f) => StepView::Next(
            ArgsView { remote_forwards: a.remote_forwards.push(f), ..a },
            i + 2,
        ),
        None => StepView::Usage("-R wants RPORT:HOST:PORT (e.g. -R 9000:localhost:22)"@),
    }
}

/// Where reading a dynamic forward leads.
pub open spec fn dynamic_step(a: ArgsView, value: Option<Seq<char>>, i: int) -> StepView {
    match dynamic_in(value) {
        Some(d) => StepView::Next(
            ArgsView { dynamic_forwards: a.dynamic_forwards.push(d), ..a },
            i + 2,
        ),
        None => StepView::Usage("-D wants [BIND:]PORT (e.g. -D 1080)"@),
    }
}

/// Where reading a file to send leads. Its size is not known yet.
pub open spec fn put_step(a: ArgsView, value: Option<Seq<char>>, i: int) -> StepView {
    match parts_in(value) {
        Some((local, remote)) => StepView::Next(
            ArgsView { transfer: Some((XferView::Put { path: remote, size: 0 }, local)), ..a },
            i + 2,
        ),
        None => StepView::Usage("--put wants LOCAL:REMOTE (e.g. --put ./file.txt:/tmp/file.txt)"@),
    }
}

/// Where reading a file to fetch leads.
pub open spec fn get_step(a: ArgsView, value: Option<Seq<char>>, i: int) -> StepView {
    match parts_in(value) {
        Some((remote, local)) => StepView::Next(
            ArgsView { transfer: Some((XferView::Get { path: remote }, local)), ..a },
            i + 2,
        ),
        None => StepView::Usage(
            "--get wants REMOTE:LOCAL (e.g. --get /var/log/app.log:./app.log)"@,
        ),
    }
}

/// Where reading the argument of number `i` leads.
pub open spec fn step(a: ArgsView, argv: Seq<Seq<char>>, i: int) -> StepView {
    let arg = argv[i];
    let value = if i + 1 < argv.len() {
        Some(argv[i + 1])
    } else {
        None
    };
    if a.target is Some && arg != "--"@ {
        // Once the host is known, the rest is the remote command, verbatim.
        StepView::Run(ArgsView { command: argv.skip(i), ..a })
    } else {
        match flag_of(arg) {
            Flag::Help => StepView::Help,
            Flag::Version => StepView::Version,
            Flag::Local => local_step(a, value, i),
            Flag::Remote => remote_step(a, value, i),
            Flag::Dynamic => dynamic_step(a, value, i),
            Flag::Put => put_step(a, value, i),
            Flag::Get => get_step(a, value, i),
            Flag::Rest => StepView::Run(ArgsView { ssh_args: argv.skip(i + 1), ..a }),
            Flag::Ssh
            | Flag::Direct
            | Flag::Verbose
            | Flag::CopyId
            | Flag::NoInstall
            | Flag::ForwardAgent => switch_step(a, flag_of(arg), i),
            Flag::ForgetHost | Flag::ServerCmd | Flag::Port | Flag::ServerPort => value_step(
                a,
                flag_of(arg),
                value,
                i,
            ),
            Flag::Other => if a.target is None && !"-"@.is_prefix_of(arg) {
                StepView::Next(ArgsView { target: Some(arg), ..a }, i + 1)
            } else {
                StepView::Usage("unknown option "@ + quoted(arg))
            },
        }
    }
}

/// The forward that a value names.
pub open spec fn forward_in(value: Option<Seq<char>>) -> Option<PortForward> {
    match value {
        Some(s) => forward_of(s),
        None => None,
    }
}

/// The dynamic forward that a value names.
pub open spec fn dynamic_in(value: Option<Seq<char>>) -> Option<(Seq<char>, u16)> {
    match value {
        Some(s) => dynamic_of(s),
        None => None,
    }
}

/// The two paths that a value names.
pub open spec fn parts_in(value: Option<Seq<char>>) -> Option<(Seq<char>, Seq<char>)> {
    match value {
        Some(s) => two_parts(s),
        None => None,
    }
}

/// Where reading the arguments from number `i` on leads.
pub open spec fn read_from(a: ArgsView, argv: Seq<Seq<char>>, i: int) -> StepView
    decreases argv.len() - i,
{
    if i >= argv.len() {
        StepView::Run(a)
    } else {
        match step(a, argv, i) {
            StepView::Next(b, j) => if j > i {
                read_from(b, argv, j)
            } else {
                StepView::Run(b)
            },
            other => other,
        }
    }
}

/// The arguments before any was read.
pub open spec fn no_args(port: Option<u16>) -> ArgsView {
    ArgsView {
        ssh: false,
        port: match port {
            Some(p) => p,
            None => DEFAULT_PORT,
        },
        target: None,
        server_cmd: "noisshd"@,
        ssh_args: Seq::empty(),
        local_forwards: Seq::empty(),
        remote_forwards: Seq::empty(),
        dynamic_forwards: Seq::empty(),
        transfer: None,
        forward_agent: false,
        no_install: false,
        command: Seq::empty(),
        direct: false,
        server_port: None,
        verbose: false,
        forget_host: None,
        copy_id: false,
    }
}

/// What the command line comes to.
#[derive(Debug)]
pub enum Parsed {
    Run(Args),
    Help,
    Version,
    /// A mistake, with a message for the user.
    Usage(String),
}

/// The outcome is as stated.
pub open spec fn outcome(r: Parsed, v: StepView) -> bool {
    match v {
        StepView::Run(a) => r matches Parsed::Run(x) && x@ == a,
        StepView::Help => r is Help,
        StepView::Version => r is Version,
        StepView::Usage(m) => r matches Parsed::Usage(x) && x@ == m,
        StepView::Next(_, _) => false,
    }
}

/// Where reading an argument leads.
enum Step {
    Next(usize),
    Run,
    Help,
    Version,
    Usage(String),
}

/// The step and the arguments read so far are as stated.
spec fn stepped(a: ArgsView, r: Step, v: StepView) -> bool {
    match v {
        StepView::Next(b, j) => r matches Step::Next(k) && k == j && a == b,
        StepView::Run(b) => r is Run && a == b,
        StepView::Help => r is Help,
        StepView::Version => r is Version,
        StepView::Usage(m) => r matches Step::Usage(x) && x@ == m,
    }
}

pub(crate) fn copy_from(argv: &Vec<String>, from: usize) -> (r: Vec<String>)
    requires
        from <= argv@.len(),
    ensures
        crate::login::texts(r@) == crate::login::texts(argv@).skip(from as int),
{
    let mut r: Vec<String> = Vec::new();
    let mut i: usize = from;
    while i < argv.len()
        invariant
            from <= i <= argv@.len(),
            r@.len() == i - from,
            forall|j: int| 0 <= j < i - from ==> (#[trigger] r@[j])@ == argv@[from + j]@,
        decreases argv@.len() - i,
    {
        r.push(argv[i].as_str().to_owned());
        i += 1;
    }
    assert(crate::login::texts(r@) =~= crate::login::texts(argv@).skip(from as int));
    r
}

/// Require a port-number value for `flag`; a usage message otherwise.
fn port_value(value: Option<&String>, flag: &str) -> (r: Result<u16, String>)
    ensures
        match want_port(
            match value {
                Some(s) => Some(s@),
                None => None,
            },
            flag@,
        ) {
            Ok(p) => r == Ok::<u16, String>(p),
            Err(m) => r matches Err(x) && x@ == m,
        },
{
    let mut message: String = flag.to_owned();
    match value {
        Some(s) => {
            let chars: Vec<char> = chars_of(s.as_str());
            if let Some(p) = parse_number(&chars, u16::MAX as u64) {
                if p > 0 {
                    return Ok(p as u16);
                }
            }
            message.push_str(" wants a port number (1-65535), got ");
            message.push_str(quote(s.as_str()).as_str());
            assert(message@ =~= flag@ + " wants a port number (1-65535), got "@ + quoted(s@));
            Err(message)
        },
        None => {
            message.push_str(" requires a port number");
            Err(message)
        },
    }
}

/// Require a string value for `flag`; a usage message otherwise.
fn string_value(value: Option<&String>, flag: &str) -> (r: Result<String, String>)
    ensures
        match want_value(
            match value {
                Some(s) => Some(s@),
                None => None,
            },
            flag@,
        ) {
            Ok(v) => r matches Ok(x) && x@ == v,
            Err(m) => r matches Err(x) && x@ == m,
        },
{
    match value {
        Some(s) => Ok(s.as_str().to_owned()),
        None => {
            let mut message: String = flag.to_owned();
            message.push_str(" requires a value");
            Err(message)
        },
    }
}


/// What the value of an option says.
spec fn said(value: Option<&String>) -> Option<Seq<char>> {
    match value {
        Some(s) => Some(s@),
        None => None,
    }
}

impl Args {
    fn new(port: Option<u16>) -> (r: Args)
        ensures
            r@ == no_args(port),
    {
        let r = Args {
            ssh: false,
            port: match port {
                Some(p) => p,
                None => DEFAULT_PORT,
            },
            target: None,
            server_cmd: "noisshd".to_owned(),
            ssh_args: Vec::new(),
            local_forwards: Vec::new(),
            remote_forwards: Vec::new(),
            dynamic_forwards: Vec::new(),
            transfer: None,
            forward_agent: false,
            no_install: false,
            command: Vec::new(),
            direct: false,
            server_port: None,
            verbose: false,
            forget_host: None,
            copy_id: false,
        };
        assert(r@.ssh_args =~= Seq::empty());
        assert(r@.command =~= Seq::empty());
        assert(r@.local_forwards =~= Seq::empty());
        assert(r@.remote_forwards =~= Seq::empty());
        assert(r@.dynamic_forwards =~= Seq::empty());
        r
    }

    /// Read an option that names its value's forward.
    fn forward_option(&mut self, f: Flag, value: Option<&String>, i: usize) -> (r: Step)
        requires
            f == Flag::Local || f == Flag::Remote || f == Flag::Dynamic,
            i < usize::MAX - 2,
        ensures
            stepped(
                final(self)@,
                r,
                match f {
                    Flag::Local => local_step(old(self)@, said(value), i as int),
                    Flag::Remote => remote_step(old(self)@, said(value), i as int),
                    _ => dynamic_step(old(self)@, said(value), i as int),
                },
            ),
    {
        match f {
            Flag::Local => {
                if let Some(s) = value {
                    if let Some(spec) = parse_forward(s.as_str()) {
                        self.local_forwards.push(spec);
                        assert(self@.local_forwards =~= old(self)@.local_forwards.push(
                            (spec.0, spec.1@),
                        ));
                        return Step::Next(i + 2);
                    }
                }
                Step::Usage("-L wants LPORT:HOST:PORT (e.g. -L 8080:localhost:80)".to_owned())
            },
            Flag::Remote => {
                if let Some(s) = value {
                    if let Some(spec) = parse_forward(s.as_str()) {
                        self.remote_forwards.push(spec);
                        assert(self@.remote_forwards =~= old(self)@.remote_forwards.push(
                            (spec.0, spec.1@),
                        ));
                        return Step::Next(i + 2);
                    }
                }
                Step::Usage("-R wants RPORT:HOST:PORT (e.g. -R 9000:localhost:22)".to_owned())
            },
            _ => {
                if let Some(s) = value {
                    if let Some(spec) = parse_dynamic(s.as_str()) {
                        self.dynamic_forwards.push(spec);
                        assert(self@.dynamic_forwards =~= old(self)@.dynamic_forwards.push(
                            (spec.0@, spec.1),
                        ));
                        return Step::Next(i + 2);
                    }
                }
                Step::Usage("-D wants [BIND:]PORT (e.g. -D 1080)".to_owned())
            },
        }
    }

    /// Read an option that names a file to copy.
    fn transfer_option(&mut self, put: bool, value: Option<&String>, i: usize) -> (r: Step)
        requires
            i < usize::MAX - 2,
        ensures
            stepped(
                final(self)@,
                r,
                if put {
                    put_step(old(self)@, said(value), i as int)
                } else {
                    get_step(old(self)@, said(value), i as int)
                },
            ),
    {
        if let Some(s) = value {
            if let Some((first, second)) = split_two(s.as_str()) {
                if put {
                    self.transfer = Some((XferRequest::Put { path: second, size: 0 }, first));
                } else {
                    self.transfer = Some((XferRequest::Get { path: first }, second));
                }
                return Step::Next(i + 2);
            }
        }
        if put {
            Step::Usage("--put wants LOCAL:REMOTE (e.g. --put ./file.txt:/tmp/file.txt)".to_owned())
        } else {
            Step::Usage(
                "--get wants REMOTE:LOCAL (e.g. --get /var/log/app.log:./app.log)".to_owned(),
            )
        }
    }

    /// Read an option without a value.
    fn switch_option(&mut self, f: Flag, i: usize) -> (r: Step)
        requires
            i < usize::MAX - 2,
        ensures
            stepped(final(self)@, r, switch_step(old(self)@, f, i as int)),
    {
        match f {
            Flag::Ssh => {
                self.ssh = true;
            },
            Flag::Direct => {
                self.direct = true;
            },
            Flag::Verbose => {
                self.verbose = true;
            },
            Flag::CopyId => {
                self.copy_id = true;
            },
            Flag::NoInstall => {
                self.no_install = true;
            },
            _ => {
                self.forward_agent = true;
            },
        }
        Step::Next(i + 1)
    }

    /// Read an option that names a port or a text.
    fn value_option(&mut self, f: Flag, value: Option<&String>, i: usize) -> (r: Step)
        requires
            f == Flag::ForgetHost || f == Flag::ServerCmd || f == Flag::Port || f
                == Flag::ServerPort,
            i < usize::MAX - 2,
        ensures
            stepped(final(self)@, r, value_step(old(self)@, f, said(value), i as int)),
    {
        match f {
            Flag::ForgetHost => match string_value(value, "--forget-host") {
                Ok(h) => {
                    self.forget_host = Some(h);
                    Step::Next(i + 2)
                },
                Err(m) => Step::Usage(m),
            },
            Flag::ServerCmd => match string_value(value, "--server-cmd") {
                Ok(c) => {
                    self.server_cmd = c;
                    Step::Next(i + 2)
                },
                Err(m) => Step::Usage(m),
            },
            Flag::Port => match port_value(value, "--port") {
                Ok(p) => {
                    self.port = p;
                    Step::Next(i + 2)
                },
                Err(m) => Step::Usage(m),
            },
            _ => match port_value(value, "--server-port") {
                Ok(p) => {
                    self.server_port = Some(p);
                    Step::Next(i + 2)
                },
                Err(m) => Step::Usage(m),
            },
        }
    }

    /// Read the argument of number `i`, and its value if it has one.
    #[verifier::rlimit(40)]
    fn take(&mut self, argv: &Vec<String>, i: usize) -> (r: Step)
        requires
            i < argv@.len() < usize::MAX - 2,
        ensures
            stepped(final(self)@, r, step(old(self)@, crate::login::texts(argv@), i as int)),
    {
        let chars: Vec<char> = chars_of(argv[i].as_str());
        let value: Option<&String> = if i + 1 < argv.len() {
            Some(&argv[i + 1])
        } else {
            None
        };
        if self.target.is_some() && !is_text(&chars, "--") {
            self.command = copy_from(argv, i);
            return Step::Run;
        }
        let ghost words = crate::login::texts(argv@);
        assert(words[i as int] == argv@[i as int]@);
        assert(i + 1 < argv@.len() ==> words[i + 1] == argv@[i + 1]@);
        match flag(&chars) {
            Flag::Help => Step::Help,
            Flag::Version => Step::Version,
            Flag::Ssh => self.switch_option(Flag::Ssh, i),
            Flag::Direct => self.switch_option(Flag::Direct, i),
            Flag::Verbose => self.switch_option(Flag::Verbose, i),
            Flag::CopyId => self.switch_option(Flag::CopyId, i),
            Flag::NoInstall => self.switch_option(Flag::NoInstall, i),
            Flag::ForwardAgent => self.switch_option(Flag::ForwardAgent, i),
            Flag::ForgetHost => self.value_option(Flag::ForgetHost, value, i),
            Flag::ServerCmd => self.value_option(Flag::ServerCmd, value, i),
            Flag::Port => self.value_option(Flag::Port, value, i),
            Flag::ServerPort => self.value_option(Flag::ServerPort, value, i),
            Flag::Local => self.forward_option(Flag::Local, value, i),
            Flag::Remote => self.forward_option(Flag::Remote, value, i),
            Flag::Dynamic => self.forward_option(Flag::Dynamic, value, i),
            Flag::Put => self.transfer_option(true, value, i),
            Flag::Get => self.transfer_option(false, value, i),
            Flag::Rest => {
                self.ssh_args = copy_from(argv, i + 1);
                Step::Run
            },
            Flag::Other => {
                if self.target.is_none() && !starts_with(&chars, "-") {
                    self.target = Some(argv[i].as_str().to_owned());
                    Step::Next(i + 1)
                } else {
                    let mut message: String = "unknown option ".to_owned();
                    message.push_str(quote(argv[i].as_str()).as_str());
                    Step::Usage(message)
                }
            },
        }
    }
}

/// Read the arguments that follow the program's name. The configuration supplies
/// the port; explicit options override it.
pub fn parse_args(argv: &Vec<String>, port: Option<u16>) -> (r: Parsed)
    requires
        argv@.len() < usize::MAX - 2,
    ensures
        outcome(r, read_from(no_args(port), crate::login::texts(argv@), 0)),
{
    let mut a: Args = Args::new(port);
    let mut i: usize = 0;
    let ghost words = crate::login::texts(argv@);
    while i < argv.len()
        invariant
            argv@.len() < usize::MAX - 2,
            words == crate::login::texts(argv@),
            read_from(a@, words, i as int) == read_from(no_args(port), words, 0),
        decreases argv@.len() - i,
    {
        let ghost before = a@;
        let s: Step = a.take(argv, i);
        match s {
            Step::Next(j) => {
                i = j;
            },
            Step::Run => {
                return Parsed::Run(a);
            },
            Step::Help => {
                return Parsed::Help;
            },
            Step::Version => {
                return Parsed::Version;
            },
            Step::Usage(m) => {
                return Parsed::Usage(m);
            },
        }
    }
    Parsed::Run(a)
}

} // verus!
