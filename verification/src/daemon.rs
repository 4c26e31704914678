//! The command lines of the server and of the key generator, and how the server
//! serves.

use crate::args::quote;
use crate::error::{RuntimeError, RuntimeErrorView};
use crate::server::ServerCore;
use crate::text::{chars_of, is_text, push_decimal};
use vstd::prelude::*;

verus! {

/// What `--help` of the server prints.
pub const DAEMON_USAGE: &'static str = "noisshd 0.4.1 — the noissh server daemon

Usage:
  noisshd [--listen ADDR] [--key PATH] [--authorized-keys PATH] [--command CMD ...]
  noisshd --one-shot --authorize <b64pub> [--bind ADDR] [--command CMD ...]

Modes:
  standalone (default)  persistent key + authorized_keys; serves many sessions.
  --one-shot            ephemeral key, trust one client key, serve one session,
                        then exit. Used by the client's SSH bootstrap.

Options:
  --listen ADDR         UDP listen address (default 0.0.0.0:51820)
  --bind ADDR           one-shot: UDP bind address (default 0.0.0.0:0)
  --key PATH            server keypair path (standalone)
  --authorized-keys P   authorized client keys path (standalone)
  --authorize B64       one-shot: the single client public key to trust
  --user NAME           standalone: drop sessions to this user (requires root);
                        refuses file transfer, commands and agent forwarding
  --command CMD ...     run CMD instead of a login shell (rest of argv)
  -v, --verbose         log session lifecycle events
  -h, --help            print this help and exit
  -V, --version         print the version and exit

Docs: https://github.com/gedigi/noissh#documentation";

/// What `--help` of the key generator prints.
pub const KEYGEN_USAGE: &'static str = "noissh-keygen — ensure a noissh static keypair exists and print its public key

Usage:
  noissh-keygen [--key PATH]   ensure a keypair at PATH (default <config>/id),
                               creating it if missing, then print the public
                               key line `noissh-x25519 <base64>`
  noissh-keygen --help         print this help

Paste the printed line into a server's authorized_keys to authorize this key.";

/// Where the server listens, unless told otherwise.
pub const DEFAULT_LISTEN: &'static str = "0.0.0.0:51820";

/// Where a one-shot server listens, unless told otherwise.
pub const DEFAULT_BIND: &'static str = "0.0.0.0:0";

/// How long a one-shot server waits for its client, in milliseconds.
pub const GRACE_MS: u64 = 60000;

/// What the server's command line asks for.
pub struct DaemonView {
    pub one_shot: bool,
    pub listen: Option<Seq<char>>,
    pub bind: Option<Seq<char>>,
    pub key: Option<Seq<char>>,
    pub authorized_keys: Option<Seq<char>>,
    pub authorize: Option<Seq<char>>,
    pub user: Option<Seq<char>>,
    pub command: Option<Seq<Seq<char>>>,
    pub verbose: bool,
    /// Arguments that were not understood.
    pub ignored: Seq<Seq<char>>,
}

/// What the server's command line asks for.
#[derive(Debug)]
pub struct DaemonArgs {
    pub one_shot: bool,
    pub listen: Option<String>,
    pub bind: Option<String>,
    pub key: Option<String>,
    pub authorized_keys: Option<String>,
    pub authorize: Option<String>,
    /// Start shells as this user.
    pub user: Option<String>,
    /// Run this instead of a login shell.
    pub command: Option<Vec<String>>,
    pub verbose: bool,
    /// Arguments that were not understood.
    pub ignored: Vec<String>,
}

impl View for DaemonArgs {
    type V = DaemonView;

    open spec fn view(&self) -> DaemonView {
        DaemonView {
            one_shot: self.one_shot,
            listen: crate::sshconfig::maybe(self.listen),
            bind: crate::sshconfig::maybe(self.bind),
            key: crate::sshconfig::maybe(self.key),
            authorized_keys: crate::sshconfig::maybe(self.authorized_keys),
            authorize: crate::sshconfig::maybe(self.authorize),
            user: crate::sshconfig::maybe(self.user),
            command: match self.command {
                Some(c) => Some(crate::login::texts(c@)),
                None => None,
            },
            verbose: self.verbose,
            ignored: crate::login::texts(self.ignored@),
        }
    }
}

/// Nothing was asked for yet.
pub open spec fn no_daemon_args() -> DaemonView {
    DaemonView {
        one_shot: false,
        listen: None,
        bind: None,
        key: None,
        authorized_keys: None,
        authorize: None,
        user: None,
        command: None,
        verbose: false,
        ignored: Seq::empty(),
    }
}

/// What the server's command line comes to.
pub enum DaemonParsedView {
    Run(DaemonView),
    Help,
    Version,
}

/// What the server's command line comes to.
#[derive(Debug)]
pub enum DaemonParsed {
    Run(DaemonArgs),
    Help,
    Version,
}

impl View for DaemonParsed {
    type V = DaemonParsedView;

    open spec fn view(&self) -> DaemonParsedView {
        match *self {
            DaemonParsed::Run(a) => DaemonParsedView::Run(a@),
            DaemonParsed::Help => DaemonParsedView::Help,
            DaemonParsed::Version => DaemonParsedView::Version,
        }
    }
}

/// An option that takes a value.
pub open spec fn takes_value(arg: Seq<char>) -> bool {
    arg == "--listen"@ || arg == "--bind"@ || arg == "--key"@ || arg == "--authorized-keys"@ || arg
        == "--authorize"@ || arg == "--user"@
}

/// The arguments after an option and its value.
pub open spec fn with_value(a: DaemonView, arg: Seq<char>, value: Option<Seq<char>>) -> DaemonView {
    if arg == "--listen"@ {
        DaemonView { listen: value, ..a }
    } else if arg == "--bind"@ {
        DaemonView { bind: value, ..a }
    } else if arg == "--key"@ {
        DaemonView { key: value, ..a }
    } else if arg == "--authorized-keys"@ {
        DaemonView { authorized_keys: value, ..a }
    } else if arg == "--authorize"@ {
        DaemonView { authorize: value, ..a }
    } else {
        DaemonView { user: value, ..a }
    }
}

/// What reading the arguments from number `i` on comes to.
pub open spec fn daemon_from(a: DaemonView, argv: Seq<Seq<char>>, i: int) -> DaemonParsedView
    decreases argv.len() + 1 - i,
{
    if i >= argv.len() {
        DaemonParsedView::Run(a)
    } else {
        let arg = argv[i];
        if arg == "-h"@ || arg == "--help"@ {
            DaemonParsedView::Help
        } else if arg == "-V"@ || arg == "--version"@ {
            DaemonParsedView::Version
        } else if arg == "--one-shot"@ {
            daemon_from(DaemonView { one_shot: true, ..a }, argv, i + 1)
        } else if arg == "-v"@ || arg == "--verbose"@ {
            daemon_from(DaemonView { verbose: true, ..a }, argv, i + 1)
        } else if takes_value(arg) {
            daemon_from(
                with_value(
                    a,
                    arg,
                    if i + 1 < argv.len() {
                        Some(argv[i + 1])
                    } else {
                        None
                    },
                ),
                argv,
                i + 2,
            )
        } else if arg == "--command"@ {
            DaemonParsedView::Run(DaemonView { command: Some(argv.skip(i + 1)), ..a })
        } else {
            daemon_from(DaemonView { ignored: a.ignored.push(arg), ..a }, argv, i + 1)
        }
    }
}

fn value_at(argv: &Vec<String>, i: usize) -> (r: Option<String>)
    ensures
        crate::sshconfig::maybe(r) == if i < argv@.len() {
            Some(argv@[i as int]@)
        } else {
            None
        },
{
    if i < argv.len() {
        Some(argv[i].as_str().to_owned())
    } else {
        None
    }
}

impl DaemonArgs {
    fn new() -> (r: DaemonArgs)
        ensures
            r@ == no_daemon_args(),
    {
        let r = DaemonArgs {
            one_shot: false,
            listen: None,
            bind: None,
            key: None,
            authorized_keys: None,
            authorize: None,
            user: None,
            command: None,
            verbose: false,
            ignored: Vec::new(),
        };
        assert(r@.ignored =~= Seq::empty());
        r
    }

    /// Note the value of an option, if this is one that takes a value.
    fn value(&mut self, arg: &[char], value: Option<String>) -> (r: bool)
        ensures
            r == takes_value(arg@),
            final(self)@ == if r {
                with_value(old(self)@, arg@, crate::sshconfig::maybe(value))
            } else {
                old(self)@
            },
    {
        if is_text(arg, "--listen") {
            self.listen = value;
            true
        } else if is_text(arg, "--bind") {
            self.bind = value;
            true
        } else if is_text(arg, "--key") {
            self.key = value;
            true
        } else if is_text(arg, "--authorized-keys") {
            self.authorized_keys = value;
            true
        } else if is_text(arg, "--authorize") {
            self.authorize = value;
            true
        } else if is_text(arg, "--user") {
            self.user = value;
            true
        } else {
            false
        }
    }

    fn ignore(&mut self, arg: &str)
        ensures
            final(self)@ == (DaemonView { ignored: old(self)@.ignored.push(arg@), ..old(self)@ }),
    {
        let ghost before = self.ignored@;
        self.ignored.push(arg.to_owned());
        assert(crate::login::texts(self.ignored@) =~= crate::login::texts(before).push(arg@));
    }
}

/// Read the server's arguments, without the program's name. What is not understood
/// is ignored.
pub fn parse_daemon_args(argv: &Vec<String>) -> (r: DaemonParsed)
    requires
        argv@.len() < usize::MAX - 2,
    ensures
        r@ == daemon_from(no_daemon_args(), crate::login::texts(argv@), 0),
{
    let mut a: DaemonArgs = DaemonArgs::new();
    let ghost words = crate::login::texts(argv@);
    let mut i: usize = 0;
    while i < argv.len()
        invariant
            argv@.len() < usize::MAX - 2,
            words == crate::login::texts(argv@),
            i <= argv@.len() + 1,
            daemon_from(a@, words, i as int) == daemon_from(no_daemon_args(), words, 0),
        decreases argv@.len() + 1 - i,
    {
        let arg: Vec<char> = chars_of(argv[i].as_str());
        assert(words[i as int] == arg@);
        assert(i + 1 < argv@.len() ==> words[i + 1] == argv@[i + 1]@);
        if is_text(&arg, "-h") || is_text(&arg, "--help") {
            return DaemonParsed::Help;
        }
        if is_text(&arg, "-V") || is_text(&arg, "--version") {
            return DaemonParsed::Version;
        }
        if is_text(&arg, "--one-shot") {
            a.one_shot = true;
            i += 1;
        } else if is_text(&arg, "-v") || is_text(&arg, "--verbose") {
            a.verbose = true;
            i += 1;
        } else if a.value(&arg, value_at(argv, i + 1)) {
            i += 2;
        } else if is_text(&arg, "--command") {
            a.command = Some(crate::args::copy_from(argv, i + 1));
            return DaemonParsed::Run(a);
        } else {
            a.ignore(argv[i].as_str());
            i += 1;
        }
    }
    DaemonParsed::Run(a)
}

// ---------------------------------------------------------------------------
// The key generator
// ---------------------------------------------------------------------------

/// What the key generator's command line comes to.
pub enum KeygenView {
    Help,
    Version,
    /// Make sure that there is a key at this place.
    Ensure(Option<Seq<char>>),
    /// A mistake, and whether to show how it is used.
    Usage(Seq<char>, bool),
}

/// What the key generator's command line comes to.
#[derive(Debug)]
pub enum Keygen {
    Help,
    Version,
    /// Make sure that there is a key at this place, or at the usual one.
    Ensure(Option<String>),
    /// A mistake, and whether to show how it is used.
    Usage(String, bool),
}

impl View for Keygen {
    type V = KeygenView;

    open spec fn view(&self) -> KeygenView {
        match *self {
            Keygen::Help => KeygenView::Help,
            Keygen::Version => KeygenView::Version,
            Keygen::Ensure(p) => KeygenView::Ensure(crate::sshconfig::maybe(p)),
            Keygen::Usage(m, show) => KeygenView::Usage(m@, show),
        }
    }
}

/// What reading the key generator's arguments from number `i` on comes to.
pub open spec fn keygen_from(key: Option<Seq<char>>, argv: Seq<Seq<char>>, i: int) -> KeygenView
    decreases argv.len() - i,
{
    if i >= argv.len() {
        KeygenView::Ensure(key)
    } else {
        let arg = argv[i];
        if arg == "--help"@ || arg == "-h"@ {
            KeygenView::Help
        } else if arg == "--version"@ || arg == "-V"@ {
            KeygenView::Version
        } else if arg == "--key"@ {
            if i + 1 < argv.len() {
                keygen_from(Some(argv[i + 1]), argv, i + 2)
            } else {
                KeygenView::Usage("--key requires a PATH argument"@, false)
            }
        } else {
            KeygenView::Usage("unexpected argument "@ + crate::args::quoted(arg), true)
        }
    }
}

/// Read the key generator's arguments, without the program's name.
pub fn parse_keygen_args(argv: &Vec<String>) -> (r: Keygen)
    requires
        argv@.len() < usize::MAX - 2,
    ensures
        r@ == keygen_from(None, crate::login::texts(argv@), 0),
{
    let mut key: Option<String> = None;
    let ghost words = crate::login::texts(argv@);
    let mut i: usize = 0;
    while i < argv.len()
        invariant
            argv@.len() < usize::MAX - 2,
            words == crate::login::texts(argv@),
            keygen_from(crate::sshconfig::maybe(key), words, i as int) == keygen_from(
                None,
                words,
                0,
            ),
        decreases argv@.len() - i,
    {
        let arg: Vec<char> = chars_of(argv[i].as_str());
        assert(words[i as int] == arg@);
        assert(i + 1 < argv@.len() ==> words[i + 1] == argv@[i + 1]@);
        if is_text(&arg, "--help") || is_text(&arg, "-h") {
            return Keygen::Help;
        }
        if is_text(&arg, "--version") || is_text(&arg, "-V") {
            return Keygen::Version;
        }
        if is_text(&arg, "--key") {
            if i + 1 < argv.len() {
                key = Some(argv[i + 1].as_str().to_owned());
                i += 2;
            } else {
                return Keygen::Usage("--key requires a PATH argument".to_owned(), false);
            }
        } else {
            let mut message: String = "unexpected argument ".to_owned();
            message.push_str(quote(argv[i].as_str()).as_str());
            return Keygen::Usage(message, true);
        }
    }
    Keygen::Ensure(key)
}

// ---------------------------------------------------------------------------
// Serving
// ---------------------------------------------------------------------------

/// What a one-shot server does next.
#[derive(Debug, Clone, Copy, PartialEq, Eq, Structural)]
pub enum OneShot {
    /// Serve on.
    Serve,
    /// Its session's shell has exited: send what is left, and stop.
    Finish,
    /// Nobody connected: stop.
    Leave,
}

/// What a one-shot server does after it served for some milliseconds.
pub fn one_shot_next(core: &ServerCore, elapsed: u64) -> (r: OneShot)
    ensures
        r == if core@.all_done() {
            OneShot::Finish
        } else if core@.sessions.len() == 0 && elapsed > GRACE_MS {
            OneShot::Leave
        } else {
            OneShot::Serve
        },
{
    if core.all_done() {
        OneShot::Finish
    } else if core.session_count() == 0 && elapsed > GRACE_MS {
        OneShot::Leave
    } else {
        OneShot::Serve
    }
}

/// The error when an address to listen on is none.
pub fn bad_address(text: &str) -> (r: RuntimeError)
    ensures
        r@ == RuntimeErrorView::BadAddress(
            "invalid address "@ + crate::args::quoted(text@) + " (expected IP:PORT)"@,
        ),
{
    let mut m: String = "invalid address ".to_owned();
    m.push_str(quote(text).as_str());
    m.push_str(" (expected IP:PORT)");
    RuntimeError::BadAddress(m)
}

/// The error when a one-shot server is told of no client.
pub fn no_client_key() -> (r: RuntimeError)
    ensures
        r@ == RuntimeErrorView::Usage("--one-shot requires --authorize <base64 client key>"@),
{
    RuntimeError::Usage("--one-shot requires --authorize <base64 client key>".to_owned())
}

/// A one-shot server that cannot listen on the port it was given takes any other;
/// one that was given none does not try again.
pub fn takes_any_port(port: u16) -> (r: bool)
    ensures
        r == (port != 0),
{
    port != 0
}

/// What a server says when the number of its sessions changes.
pub fn session_note(before: usize, now: usize) -> (r: Option<String>)
    ensures
        if now == before {
            r is None
        } else {
            r matches Some(s) && s@ == (if now > before {
                "session established ("@
            } else {
                "session ended ("@
            }) + crate::text::decimal(now as nat) + " active)"@
        },
{
    if now == before {
        return None;
    }
    let mut s: String = if now > before {
        "session established (".to_owned()
    } else {
        "session ended (".to_owned()
    };
    push_decimal(&mut s, now as u64);
    s.push_str(" active)");
    Some(s)
}

} // verus!
