//! How the client goes about a connection: what it asks for, whether it tries a
//! standing server first, what it does when that does not answer, and how long it
//! waits for what.

use crate::args::{Args, ArgsView};
use crate::auth::{KnownHosts, Pins};
use crate::error::{RuntimeError, RuntimeErrorView};
use crate::ssh::host_of;
use crate::text::{chars_of, push_decimal};
use vstd::prelude::*;

verus! {

/// How often to send a keepalive while otherwise idle, in milliseconds.
pub const KEEPALIVE_MS: u64 = 3000;

/// A faster keepalive cadence once the link looks stale, so a recovered network is
/// detected within about a second.
pub const STALE_KEEPALIVE_MS: u64 = 1000;

/// Time since last contact after which the link counts as stale.
pub const STALE_AFTER_MS: u64 = 2000;

/// Maximum idle wait while stale (keeps the "last contact" counter live).
pub const STALE_POLL_MS: u64 = 1000;

/// Wait while there is unacknowledged data to retransmit, in a shell.
pub const ACTIVE_POLL_MS: u64 = 40;

/// Wait while there is something to do, outside of a shell.
pub const BUSY_POLL_MS: u64 = 20;

/// How long to probe for a standing server before falling back to the bootstrap.
pub const DIRECT_CONNECT_TIMEOUT_MS: u64 = 3000;

/// How long a handshake may take otherwise.
pub const CONNECT_TIMEOUT_MS: u64 = 5000;

// ---------------------------------------------------------------------------
// Waiting
// ---------------------------------------------------------------------------

/// The smaller of two times.
pub open spec fn sooner(a: u64, b: u64) -> u64 {
    if a <= b {
        a
    } else {
        b
    }
}

fn min(a: u64, b: u64) -> (r: u64)
    ensures
        r == sooner(a, b),
{
    if a <= b {
        a
    } else {
        b
    }
}

/// How long to wait for something to happen while a copy, a command or forwards
/// run: shortly if there is something to do, else until the next keepalive, which
/// is due after `until_keepalive`.
pub fn wait(busy: bool, until_keepalive: u64) -> (r: u16)
    ensures
        r == if busy {
            BUSY_POLL_MS
        } else {
            sooner(until_keepalive, KEEPALIVE_MS)
        },
{
    if busy {
        BUSY_POLL_MS as u16
    } else {
        min(until_keepalive, KEEPALIVE_MS) as u16
    }
}

/// How long to wait for something to happen in a shell. While the server has not
/// been heard for long, the wait is short, so that the time shown goes on.
pub fn shell_wait(outgoing: bool, until_keepalive: u64, since_contact: u64) -> (r: u16)
    ensures
        r == if outgoing {
            ACTIVE_POLL_MS
        } else if since_contact >= STALE_AFTER_MS {
            sooner(sooner(until_keepalive, KEEPALIVE_MS), STALE_POLL_MS)
        } else {
            sooner(until_keepalive, KEEPALIVE_MS)
        },
{
    if outgoing {
        return ACTIVE_POLL_MS as u16;
    }
    let base: u64 = min(until_keepalive, KEEPALIVE_MS);
    if since_contact >= STALE_AFTER_MS {
        min(base, STALE_POLL_MS) as u16
    } else {
        base as u16
    }
}

/// How long after a keepalive the next one is due.
pub fn keepalive_interval(since_contact: u64) -> (r: u64)
    ensures
        r == if since_contact >= STALE_AFTER_MS {
            STALE_KEEPALIVE_MS
        } else {
            KEEPALIVE_MS
        },
{
    if since_contact >= STALE_AFTER_MS {
        STALE_KEEPALIVE_MS
    } else {
        KEEPALIVE_MS
    }
}

/// Where a handshake stands.
#[derive(Debug, Clone, Copy, PartialEq, Eq, Structural)]
pub enum Waiting {
    /// The session is established.
    Done,
    /// It took too long.
    TimedOut,
    /// It goes on.
    On,
}

/// Where a handshake stands after some milliseconds.
pub fn handshake_wait(established: bool, elapsed: u64, timeout: u64) -> (r: Waiting)
    ensures
        r == if established {
            Waiting::Done
        } else if elapsed > timeout {
            Waiting::TimedOut
        } else {
            Waiting::On
        },
{
    if established {
        Waiting::Done
    } else if elapsed > timeout {
        Waiting::TimedOut
    } else {
        Waiting::On
    }
}

// ---------------------------------------------------------------------------
// The plan
// ---------------------------------------------------------------------------

/// What a connection is for.
pub enum TaskView {
    /// Run a command.
    Exec(Seq<char>),
    /// Copy a file.
    Transfer,
    /// Forward ports.
    Forward,
    /// An interactive shell.
    Shell,
}

/// What a connection is for.
#[derive(Debug, PartialEq, Eq)]
pub enum Task {
    /// Run a command.
    Exec(String),
    /// Copy a file.
    Transfer,
    /// Forward ports.
    Forward,
    /// An interactive shell.
    Shell,
}

impl View for Task {
    type V = TaskView;

    open spec fn view(&self) -> TaskView {
        match *self {
            Task::Exec(c) => TaskView::Exec(c@),
            Task::Transfer => TaskView::Transfer,
            Task::Forward => TaskView::Forward,
            Task::Shell => TaskView::Shell,
        }
    }
}

/// Words with blanks between them.
pub open spec fn joined(words: Seq<Seq<char>>) -> Seq<char>
    decreases words.len(),
{
    if words.len() == 0 {
        Seq::empty()
    } else if words.len() == 1 {
        words[0]
    } else {
        joined(words.drop_last()) + " "@ + words.last()
    }
}

/// Ports are forwarded.
pub open spec fn forwards(a: ArgsView) -> bool {
    a.local_forwards.len() > 0 || a.remote_forwards.len() > 0 || a.dynamic_forwards.len() > 0
}

/// What the arguments ask a connection for.
pub open spec fn task_of(a: ArgsView) -> TaskView {
    if a.command.len() > 0 {
        TaskView::Exec(joined(a.command))
    } else if a.transfer is Some {
        TaskView::Transfer
    } else if forwards(a) {
        TaskView::Forward
    } else {
        TaskView::Shell
    }
}

/// An interactive shell is wanted: nothing else is.
pub open spec fn wants_shell(a: ArgsView) -> bool {
    !forwards(a) && a.transfer is None && a.command.len() == 0
}

fn join_words(words: &Vec<String>) -> (r: String)
    ensures
        r@ == joined(crate::login::texts(words@)),
{
    let ghost w = crate::login::texts(words@);
    let mut r: String = String::new();
    let mut i: usize = 0;
    assert(w.take(0) =~= Seq::<Seq<char>>::empty());
    assert(r@ =~= Seq::<char>::empty());
    while i < words.len()
        invariant
            i <= words@.len(),
            w == crate::login::texts(words@),
            r@ == joined(w.take(i as int)),
        decreases words@.len() - i,
    {
        if i > 0 {
            r.push_str(" ");
        }
        r.push_str(words[i].as_str());
        proof {
            let t = w.take(i + 1);
            assert(t.drop_last() =~= w.take(i as int));
            assert(t.last() == words@[i as int]@);
            if i == 0 {
                assert(r@ =~= t[0]);
            }
        }
        i += 1;
    }
    assert(w.take(w.len() as int) =~= w);
    r
}

/// What the arguments ask a connection for.
pub fn task(args: &Args) -> (r: Task)
    ensures
        r@ == task_of(args@),
{
    if args.command.len() > 0 {
        Task::Exec(join_words(&args.command))
    } else if args.transfer.is_some() {
        Task::Transfer
    } else if args.local_forwards.len() > 0 || args.remote_forwards.len() > 0
        || args.dynamic_forwards.len() > 0 {
        Task::Forward
    } else {
        Task::Shell
    }
}

/// The label that a server's key is pinned by.
pub open spec fn label_text(host: Seq<char>, port: u16) -> Seq<char> {
    host + ":"@ + crate::text::decimal(port as nat)
}

/// The label that a server's key is pinned by: `host:port`.
pub fn label(host: &str, port: u16) -> (r: String)
    ensures
        r@ == label_text(host@, port),
{
    let mut r: String = host.to_owned();
    r.push_str(":");
    push_decimal(&mut r, port as u64);
    r
}

/// How the client goes about a connection.
pub struct PlanView {
    pub host: Seq<char>,
    pub label: Seq<char>,
    pub pinned: bool,
    pub try_direct: bool,
    pub want_shell: bool,
    pub server_port: u16,
}

/// How the client goes about a connection.
#[derive(Debug)]
pub struct Plan {
    pub host: String,
    /// The label of the standing server.
    pub label: String,
    /// A key is pinned for it.
    pub pinned: bool,
    /// Try it before the bootstrap.
    pub try_direct: bool,
    pub want_shell: bool,
    /// The port of a bootstrapped server.
    pub server_port: u16,
}

impl View for Plan {
    type V = PlanView;

    open spec fn view(&self) -> PlanView {
        PlanView {
            host: self.host@,
            label: self.label@,
            pinned: self.pinned,
            try_direct: self.try_direct,
            want_shell: self.want_shell,
            server_port: self.server_port,
        }
    }
}

/// How the client goes about a connection to `target`. A standing server is only
/// tried when that was asked for, or when its key is pinned and the bootstrap was
/// not asked for: the port may be that of a passing one-shot server, whose key
/// must not be pinned. A bootstrapped server gets the same port unless another is
/// given.
pub open spec fn planned(a: ArgsView, target: Seq<char>, pins: Pins) -> PlanView {
    let host = crate::ssh::host_part(target);
    let label = label_text(host, a.port);
    let pinned = pins.dom().contains(label);
    PlanView {
        host,
        label,
        pinned,
        try_direct: a.direct || (!a.ssh && pinned),
        want_shell: wants_shell(a),
        server_port: match a.server_port {
            Some(p) => p,
            None => a.port,
        },
    }
}

/// How the client goes about a connection to `target`.
pub fn plan(args: &Args, target: &str, known: &KnownHosts) -> (r: Plan)
    requires
        known.wf(),
    ensures
        r@ == planned(args@, target@, known@),
{
    let host: String = host_of(target);
    let l: String = label(host.as_str(), args.port);
    let pinned: bool = known.get(l.as_str()).is_some();
    let forward: bool = args.local_forwards.len() > 0 || args.remote_forwards.len() > 0
        || args.dynamic_forwards.len() > 0;
    Plan {
        host,
        label: l,
        pinned,
        try_direct: args.direct || (!args.ssh && pinned),
        want_shell: !forward && args.transfer.is_none() && args.command.len() == 0,
        server_port: match args.server_port {
            Some(p) => p,
            None => args.port,
        },
    }
}

/// What there is of a local agent to share.
#[derive(Debug, PartialEq, Eq)]
pub enum Agent {
    /// None was asked for.
    Unwanted,
    /// One was asked for, and there is none.
    Missing,
    /// It is at this place.
    At(String),
}

/// Whether the local agent is shared, and where it is: only with a shell, and only
/// if there is one.
pub fn agent(args: &Args, place: Option<String>) -> (r: Agent)
    ensures
        if !(args@.forward_agent && wants_shell(args@)) {
            r is Unwanted
        } else {
            match place {
                Some(p) => if p@.len() > 0 {
                    r matches Agent::At(x) && x@ == p@
                } else {
                    r is Missing
                },
                None => r is Missing,
            }
        },
{
    let forward: bool = args.local_forwards.len() > 0 || args.remote_forwards.len() > 0
        || args.dynamic_forwards.len() > 0;
    if !(args.forward_agent && !forward && args.transfer.is_none() && args.command.len() == 0) {
        return Agent::Unwanted;
    }
    match place {
        Some(p) => {
            let chars: Vec<char> = chars_of(p.as_str());
            if chars.len() > 0 {
                Agent::At(p)
            } else {
                Agent::Missing
            }
        },
        None => Agent::Missing,
    }
}

/// What came of trying a standing server.
#[derive(Debug, Clone, Copy, PartialEq, Eq, Structural)]
pub enum Probe {
    /// Its name has no address.
    Unresolved,
    /// It did not answer.
    TimedOut,
}

/// What follows a standing server that could not be reached.
pub enum FallbackView {
    /// The bootstrap.
    Bootstrap,
    /// The end.
    Fail(RuntimeErrorView),
}

/// What follows a standing server that could not be reached.
#[derive(Debug)]
pub enum Fallback {
    /// The bootstrap.
    Bootstrap,
    /// The end.
    Fail(RuntimeError),
}

impl View for Fallback {
    type V = FallbackView;

    open spec fn view(&self) -> FallbackView {
        match *self {
            Fallback::Bootstrap => FallbackView::Bootstrap,
            Fallback::Fail(e) => FallbackView::Fail(e@),
        }
    }
}

/// What follows a standing server that could not be reached: the bootstrap, unless
/// a direct connection was demanded.
pub open spec fn falls_back(direct: bool, host: Seq<char>, port: u16, probe: Probe) -> FallbackView {
    if !direct {
        FallbackView::Bootstrap
    } else {
        FallbackView::Fail(
            RuntimeErrorView::BadAddress(
                match probe {
                    Probe::Unresolved => "could not resolve host "@ + crate::args::quoted(host),
                    Probe::TimedOut => "no response from "@ + label_text(host, port)
                        + " on UDP. Is noisshd running there with that port reachable? (drop --direct to bootstrap it over SSH.)"@,
                },
            ),
        )
    }
}

/// What follows a standing server that could not be reached.
pub fn fall_back(direct: bool, host: &str, port: u16, probe: Probe) -> (r: Fallback)
    ensures
        r@ == falls_back(direct, host@, port, probe),
{
    if !direct {
        return Fallback::Bootstrap;
    }
    let mut m: String = String::new();
    match probe {
        Probe::Unresolved => {
            m.push_str("could not resolve host ");
            m.push_str(crate::args::quote(host).as_str());
            assert(m@ =~= "could not resolve host "@ + crate::args::quoted(host@));
        },
        Probe::TimedOut => {
            m.push_str("no response from ");
            m.push_str(label(host, port).as_str());
            m.push_str(
                " on UDP. Is noisshd running there with that port reachable? (drop --direct to bootstrap it over SSH.)",
            );
            assert(m@ =~= "no response from "@ + label_text(host@, port)
                + " on UDP. Is noisshd running there with that port reachable? (drop --direct to bootstrap it over SSH.)"@);
        },
    }
    Fallback::Fail(RuntimeError::BadAddress(m))
}

/// The error when a bootstrapped server's session cannot be established: a bare
/// timeout is explained, anything else stays.
pub fn bootstrapped_failure(e: RuntimeError, host: &str, port: u16) -> (r: RuntimeError)
    ensures
        r@ == if e@ is Timeout {
            RuntimeErrorView::BadAddress(
                "connected over SSH but the UDP session to "@ + label_text(host@, port)
                    + " timed out — that UDP port is likely blocked by a firewall/NAT. Open it (or pick an open one with --server-port N) and retry."@,
            )
        } else {
            e@
        },
{
    match e {
        RuntimeError::Timeout => {
            let mut m: String = "connected over SSH but the UDP session to ".to_owned();
            m.push_str(label(host, port).as_str());
            m.push_str(
                " timed out — that UDP port is likely blocked by a firewall/NAT. Open it (or pick an open one with --server-port N) and retry.",
            );
            RuntimeError::BadAddress(m)
        },
        other => other,
    }
}

/// The error when no host is given.
pub fn no_host() -> (r: RuntimeError)
    ensures
        r@ == RuntimeErrorView::Usage(
            "no host given. Specify the host to connect to, for example:\n  noissh user@example.com            # interactive shell\n  noissh user@example.com uname -a   # run one command"@,
        ),
{
    RuntimeError::Usage(
        "no host given. Specify the host to connect to, for example:\n  noissh user@example.com            # interactive shell\n  noissh user@example.com uname -a   # run one command".to_owned(),
    )
}

/// The exit status for an error: 2 for a mistake on the command line, else 1.
pub fn exit_status(e: &RuntimeError) -> (r: i32)
    ensures
        r == if e@ is Usage {
            2
        } else {
            1int
        },
{
    match e {
        RuntimeError::Usage(_) => 2,
        _ => 1,
    }
}

// ---------------------------------------------------------------------------
// Laws
// ---------------------------------------------------------------------------

/// A server whose key is not pinned is not tried unless that was asked for, and
/// the bootstrap, when it was asked for, is not preceded by a try unless that was
/// asked for too.
pub proof fn law_direct_only_when_trusted(a: ArgsView, target: Seq<char>, pins: Pins)
    ensures
        planned(a, target, pins).try_direct ==> a.direct || pins.dom().contains(
            label_text(crate::ssh::host_part(target), a.port),
        ),
        a.ssh && !a.direct ==> !planned(a, target, pins).try_direct,
{
}

/// With `--direct` nothing ever leads to the bootstrap.
pub proof fn law_direct_never_falls_back(host: Seq<char>, port: u16, probe: Probe)
    ensures
        falls_back(true, host, port, probe) is Fail,
{
}

} // verus!
