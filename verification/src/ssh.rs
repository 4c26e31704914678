//! SSH bootstrap.
//!
//! `ssh` is used only to launch the remote server and hand back its UDP port and
//! ephemeral public key over the already-authenticated channel; the session then
//! runs over the encrypted datagram transport. Which programs are run, and what
//! their output means, is decided here; running them is the caller's.

use crate::auth::{decode_base64, encode_base64};
use crate::error::{RuntimeError, RuntimeErrorView};
use crate::text::{
    chars_of, contains, find, find_last, is_text, lines, lossy, lower, lowercase, parse_number,
    part, push_decimal, string_of, trim, words,
};
use vstd::prelude::*;

verus! {

/// The line the one-shot server prints on stdout for the client to parse.
pub const CONNECT_PREFIX: &'static str = "NOISSH CONNECT";

/// A released version of this program.
pub const VERSION: &'static str = "0.4.1";

// ---------------------------------------------------------------------------
// The connect line
// ---------------------------------------------------------------------------

/// The connect line of a port and a key.
pub open spec fn connect_text(port: u16, key: Seq<u8>) -> Seq<char> {
    CONNECT_PREFIX@ + " "@ + crate::text::decimal(port as nat) + " "@ + crate::auth::base64_text(key)
}

/// The port and the key that a line names, by its words.
pub open spec fn connect_of_words(w: Seq<Seq<char>>) -> Option<(u16, Seq<u8>)> {
    if w.len() < 4 || w[0] != "NOISSH"@ || w[1] != "CONNECT"@ {
        None
    } else {
        match crate::text::parsed_number(w[2], u16::MAX as nat) {
            None => None,
            Some(port) => match crate::auth::base64_bytes(w[3]) {
                Some(key) => if key.len() == 32 {
                    Some((port as u16, key))
                } else {
                    None
                },
                None => None,
            },
        }
    }
}

/// The port and the key that a line names.
pub open spec fn connect_of(line: Seq<char>) -> Option<(u16, Seq<u8>)> {
    connect_of_words(crate::text::words_of(line))
}

/// Format the connect line: `NOISSH CONNECT <port> <base64 server pubkey>`. A port
/// and a key of 32 bytes can be read back from it.
pub fn connect_line(port: u16, server_pubkey: &[u8]) -> (r: String)
    requires
        4 * ((server_pubkey@.len() + 2) / 3) <= usize::MAX,
    ensures
        r@ == connect_text(port, server_pubkey@),
        server_pubkey@.len() == 32 ==> connect_of(r@) == Some((port, server_pubkey@)),
{
    let mut r: String = CONNECT_PREFIX.to_owned();
    r.push_str(" ");
    push_decimal(&mut r, port as u64);
    r.push_str(" ");
    let key: String = encode_base64(server_pubkey);
    r.push_str(key.as_str());
    proof {
        if server_pubkey@.len() == 32 {
            assert forall|i: int| 0 <= i < key@.len() implies !crate::text::white(
                #[trigger] key@[i],
            ) by {
                assert(crate::auth::base64_char(key@[i]));
            }
            lemma_connect_words(port, key@);
        }
    }
    r
}

proof fn lemma_connect_words(port: u16, key: Seq<char>)
    requires
        crate::text::plain(key),
    ensures
        crate::text::words_of(
            CONNECT_PREFIX@ + " "@ + crate::text::decimal(port as nat) + " "@ + key,
        ) == seq!["NOISSH"@, "CONNECT"@, crate::text::decimal(port as nat), key],
        crate::text::parsed_number(crate::text::decimal(port as nat), u16::MAX as nat) == Some(
            port as nat,
        ),
{
    reveal_strlit("NOISSH CONNECT");
    reveal_strlit("NOISSH");
    reveal_strlit("CONNECT");
    reveal_strlit(" ");
    let number = crate::text::decimal(port as nat);
    crate::text::law_decimal_roundtrip(port as nat, u16::MAX as nat);
    assert(crate::text::plain(number)) by {
        assert forall|i: int| 0 <= i < number.len() implies !crate::text::white(
            #[trigger] number[i],
        ) by {}
    }
    crate::text::lemma_two_words(number, key);
    let rest = " "@ + (number + " "@ + key);
    assert(rest =~= seq![' '] + (number + " "@ + key));
    crate::text::lemma_words_after_space(' ', number + " "@ + key);
    crate::text::lemma_words_cons("CONNECT"@, rest);
    let line = "CONNECT"@ + rest;
    let more = " "@ + line;
    assert(more =~= seq![' '] + line);
    crate::text::lemma_words_after_space(' ', line);
    crate::text::lemma_words_cons("NOISSH"@, more);
    assert(CONNECT_PREFIX@ + " "@ + number + " "@ + key =~= "NOISSH"@ + more);
    assert(crate::text::words_of("NOISSH"@ + more) =~= seq!["NOISSH"@, "CONNECT"@, number, key]);
}

fn connect_in(line: &[char]) -> (r: Option<(u16, Vec<u8>)>)
    ensures
        match connect_of(line@) {
            Some(c) => r matches Some(x) && x.0 == c.0 && x.1@ == c.1,
            None => r is None,
        },
{
    let w: Vec<Vec<char>> = words(line);
    let ghost v = crate::text::words_of(line@);
    assert(v.len() == w@.len());
    if w.len() < 4 {
        return None;
    }
    assert(v[0] == w@[0]@ && v[1] == w@[1]@ && v[2] == w@[2]@ && v[3] == w@[3]@);
    if !is_text(&w[0], "NOISSH") || !is_text(&w[1], "CONNECT") {
        return None;
    }
    let port: u64 = match parse_number(&w[2], u16::MAX as u64) {
        Some(p) => p,
        None => return None,
    };
    match decode_base64(string_of(&w[3]).as_str()) {
        Some(key) => if key.len() == 32 {
            Some((port as u16, key))
        } else {
            None
        },
        None => None,
    }
}

/// Parse a connect line, returning (udp_port, server_pubkey).
pub fn parse_connect_line(line: &str) -> (r: Option<(u16, Vec<u8>)>)
    ensures
        match connect_of(line@) {
            Some(c) => r matches Some(x) && x.0 == c.0 && x.1@ == c.1,
            None => r is None,
        },
{
    let chars: Vec<char> = chars_of(line);
    connect_in(&chars)
}

/// What the last connect line among the first `n` lines names.
pub open spec fn last_connect(lines: Seq<Seq<char>>, n: int) -> Option<(u16, Seq<u8>)>
    decreases n,
{
    if n <= 0 {
        None
    } else {
        match connect_of(lines[n - 1]) {
            Some(c) => Some(c),
            None => last_connect(lines, n - 1),
        }
    }
}

/// What the output of a server names: the server prints the connect line as the
/// very last thing it does, so an earlier one is not its own.
pub open spec fn connect_in_output(stdout: Seq<u8>) -> Option<(u16, Seq<u8>)> {
    let l = crate::text::lines_of(crate::text::lossy_text(stdout));
    last_connect(l, l.len() as int)
}

/// Find the last connect line in the output of a server.
pub fn find_connect_line(stdout: &[u8]) -> (r: Option<(u16, Vec<u8>)>)
    ensures
        match connect_in_output(stdout@) {
            Some(c) => r matches Some(x) && x.0 == c.0 && x.1@ == c.1,
            None => r is None,
        },
{
    last_connect_line(lossy(stdout).as_str())
}

/// Find the last connect line of a text.
pub fn last_connect_line(text: &str) -> (r: Option<(u16, Vec<u8>)>)
    ensures
        match last_connect(
            crate::text::lines_of(text@),
            crate::text::lines_of(text@).len() as int,
        ) {
            Some(c) => r matches Some(x) && x.0 == c.0 && x.1@ == c.1,
            None => r is None,
        },
{
    let chars: Vec<char> = chars_of(text);
    let all: Vec<Vec<char>> = lines(&chars);
    let ghost l = crate::text::lines_of(text@);
    assert(l.len() == all@.len());
    let mut n: usize = all.len();
    while n > 0
        invariant
            n <= all@.len(),
            crate::text::views(all@) == l,
            l == crate::text::lines_of(text@),
            l.len() == all@.len(),
            last_connect(l, l.len() as int) == last_connect(l, n as int),
        decreases n,
    {
        assert(l[n - 1] == all@[n - 1]@);
        let found: Option<(u16, Vec<u8>)> = connect_in(&all[n - 1]);
        if found.is_some() {
            return found;
        }
        n -= 1;
    }
    None
}

// ---------------------------------------------------------------------------
// Targets and commands
// ---------------------------------------------------------------------------

/// The host part of a `[user@]host` target.
pub open spec fn host_part(target: Seq<char>) -> Seq<char> {
    match crate::text::last_place(target, '@', target.len() as int) {
        Some(i) => target.skip(i + 1),
        None => target,
    }
}

/// Split a `[user@]host` target into its host part for address resolution.
pub fn host_of(target: &str) -> (r: String)
    ensures
        r@ == host_part(target@),
{
    let chars: Vec<char> = chars_of(target);
    let n: usize = chars.len();
    match find_last(&chars, '@') {
        Some(i) => {
            let host: Vec<char> = part(&chars, i + 1, n);
            assert(host@ =~= target@.skip(i + 1));
            string_of(&host)
        },
        None => target.to_owned(),
    }
}

/// A command is the default one.
pub open spec fn is_default(command: Seq<Seq<char>>) -> bool {
    command == seq!["noisshd"@]
}

/// Whether `remote_server_cmd` is the default (unconfigured) `noisshd`: the server
/// is only installed when the user hasn't pointed at a custom command.
pub fn is_default_server_cmd(remote_server_cmd: &[String]) -> (r: bool)
    ensures
        r == is_default(crate::login::texts(remote_server_cmd@)),
{
    let ghost views = crate::login::texts(remote_server_cmd@);
    if remote_server_cmd.len() != 1 {
        assert(views.len() != 1);
        return false;
    }
    let chars: Vec<char> = chars_of(remote_server_cmd[0].as_str());
    let r: bool = is_text(&chars, "noisshd");
    proof {
        assert(views[0] == remote_server_cmd@[0]@);
        if r {
            assert(views =~= seq!["noisshd"@]);
        } else {
            assert(seq!["noisshd"@][0] == "noisshd"@);
        }
    }
    r
}

/// Words that a shell says of a command that is not there.
pub open spec fn says_missing(s: Seq<char>) -> bool {
    ||| crate::text::holds(s, "command not found"@)
    ||| crate::text::holds(s, ": not found"@)
    ||| crate::text::holds(s, "no such file or directory"@)
}

/// A remote command failed because it isn't installed: its exit code is 127, or
/// its output has the shell's words for a missing command.
pub open spec fn is_missing(code: Option<i32>, stdout: Seq<u8>, stderr: Seq<u8>) -> bool {
    code == Some(127i32) || says_missing(
        crate::text::lowercase_of(crate::text::lossy_text(stderr)) + crate::text::lowercase_of(
            crate::text::lossy_text(stdout),
        ),
    )
}

/// Whether a text has the shell's words for a missing command.
pub fn tells_missing(text: &str) -> (r: bool)
    ensures
        r == says_missing(text@),
{
    let chars: Vec<char> = chars_of(text);
    contains(&chars, "command not found") || contains(&chars, ": not found") || contains(
        &chars,
        "no such file or directory",
    )
}

/// Heuristic: did the remote command fail because it isn't installed? `ssh` exits
/// 127 when the remote command is not found; the shell's "command not found" /
/// "No such file" text is the fallback.
pub fn looks_like_missing_command(code: Option<i32>, stdout: &[u8], stderr: &[u8]) -> (r: bool)
    ensures
        r == is_missing(code, stdout@, stderr@),
{
    if let Some(c) = code {
        if c == 127 {
            return true;
        }
    }
    let mut s: String = lowercase(lossy(stderr).as_str());
    s.push_str(lowercase(lossy(stdout).as_str()).as_str());
    tells_missing(s.as_str())
}

/// The arguments of `ssh` that start a one-shot server. `--` ends ssh's options,
/// so that a target cannot be one.
pub open spec fn one_shot_args(
    target: Seq<char>,
    command: Seq<Seq<char>>,
    key: Seq<u8>,
    extra: Seq<Seq<char>>,
    port: Option<u16>,
) -> Seq<Seq<char>> {
    let start = extra + seq!["--"@, target] + command + seq![
        "--one-shot"@,
        "--authorize"@,
        crate::auth::base64_text(key),
    ];
    match port {
        Some(p) => start + seq!["--bind"@, "0.0.0.0:"@ + crate::text::decimal(p as nat)],
        None => start,
    }
}

fn push_text(out: &mut Vec<String>, text: &str)
    ensures
        crate::login::texts(final(out)@) == crate::login::texts(old(out)@).push(text@),
{
    let ghost before = out@;
    out.push(text.to_owned());
    assert(crate::login::texts(out@) =~= crate::login::texts(before).push(text@));
}

fn push_texts(out: &mut Vec<String>, more: &[String])
    ensures
        crate::login::texts(final(out)@) == crate::login::texts(old(out)@) + crate::login::texts(
            more@,
        ),
{
    let ghost before = crate::login::texts(out@);
    let ghost all = crate::login::texts(more@);
    let mut i: usize = 0;
    assert(before + all.take(0) =~= before);
    while i < more.len()
        invariant
            i <= more@.len(),
            all == crate::login::texts(more@),
            crate::login::texts(out@) == before + all.take(i as int),
        decreases more@.len() - i,
    {
        push_text(out, more[i].as_str());
        assert((before + all.take(i as int)).push(all[i as int]) =~= before + all.take(i + 1));
        i += 1;
    }
    assert(all.take(more@.len() as int) =~= all);
}

/// The arguments of `ssh` that start a one-shot server on `target`, which trusts
/// the client's key.
pub fn one_shot_command(
    target: &str,
    remote_server_cmd: &[String],
    client_pubkey: &[u8],
    extra_ssh_args: &[String],
    bind_port: Option<u16>,
) -> (out: Vec<String>)
    requires
        4 * ((client_pubkey@.len() + 2) / 3) <= usize::MAX,
    ensures
        crate::login::texts(out@) == one_shot_args(
            target@,
            crate::login::texts(remote_server_cmd@),
            client_pubkey@,
            crate::login::texts(extra_ssh_args@),
            bind_port,
        ),
{
    let ghost extra = crate::login::texts(extra_ssh_args@);
    let ghost command = crate::login::texts(remote_server_cmd@);
    let mut out: Vec<String> = Vec::new();
    push_texts(&mut out, extra_ssh_args);
    push_text(&mut out, "--");
    push_text(&mut out, target);
    push_texts(&mut out, remote_server_cmd);
    push_text(&mut out, "--one-shot");
    push_text(&mut out, "--authorize");
    push_text(&mut out, encode_base64(client_pubkey).as_str());
    let ghost start = extra + seq!["--"@, target@] + command + seq![
        "--one-shot"@,
        "--authorize"@,
        crate::auth::base64_text(client_pubkey@),
    ];
    assert(crate::login::texts(out@) =~= start);
    if let Some(p) = bind_port {
        let mut bind: String = "0.0.0.0:".to_owned();
        push_decimal(&mut bind, p as u64);
        push_text(&mut out, "--bind");
        push_text(&mut out, bind.as_str());
        assert(crate::login::texts(out@) =~= start + seq![
            "--bind"@,
            "0.0.0.0:"@ + crate::text::decimal(p as nat),
        ]);
    }
    out
}

/// Where the installer of a version is.
pub open spec fn installer(version: Seq<char>) -> Seq<char> {
    "https://raw.githubusercontent.com/gedigi/noissh/v"@ + version + "/install.sh"@
}

/// The command that installs the server: it prefers curl, falls back to wget, and
/// fails if neither is there, or if the installer cannot be had.
pub open spec fn install_text(version: Seq<char>) -> Seq<char> {
    "set -e; t=$(mktemp); trap 'rm -f \"$t\"' EXIT; if command -v curl >/dev/null 2>&1; then curl -fsSL -o \"$t\" '"@
        + installer(version)
        + "'; elif command -v wget >/dev/null 2>&1; then wget -qO \"$t\" '"@ + installer(version)
        + "'; else echo 'noissh: remote has neither curl nor wget to install noisshd' >&2; exit 3; fi; NOISSH_BIN_DIR=\"$HOME/.local/bin\" sh \"$t\" --yes"@
}

/// The arguments of `ssh` that install the server on `target` by running the
/// published installer of a version.
pub fn install_command(target: &str, extra_ssh_args: &[String], version: &str) -> (out: Vec<String>)
    ensures
        crate::login::texts(out@) == crate::login::texts(extra_ssh_args@) + seq![
            "--"@,
            target@,
            install_text(version@),
        ],
{
    let mut url: String =
        "https://raw.githubusercontent.com/gedigi/noissh/v".to_owned();
    url.push_str(version);
    url.push_str("/install.sh");
    let mut remote: String =
        "set -e; t=$(mktemp); trap 'rm -f \"$t\"' EXIT; if command -v curl >/dev/null 2>&1; then curl -fsSL -o \"$t\" '".to_owned();
    remote.push_str(url.as_str());
    remote.push_str("'; elif command -v wget >/dev/null 2>&1; then wget -qO \"$t\" '");
    remote.push_str(url.as_str());
    remote.push_str(
        "'; else echo 'noissh: remote has neither curl nor wget to install noisshd' >&2; exit 3; fi; NOISSH_BIN_DIR=\"$HOME/.local/bin\" sh \"$t\" --yes",
    );
    let mut out: Vec<String> = Vec::new();
    push_texts(&mut out, extra_ssh_args);
    push_text(&mut out, "--");
    push_text(&mut out, target);
    push_text(&mut out, remote.as_str());
    assert(crate::login::texts(out@) =~= crate::login::texts(extra_ssh_args@) + seq![
        "--"@,
        target@,
        install_text(version@),
    ]);
    out
}

/// The command that invokes the server where the installer puts it, unless another
/// place is given.
pub fn installed_server_cmd(place: Option<String>) -> (r: Vec<String>)
    ensures
        crate::login::texts(r@) == seq![
            match place {
                Some(p) => p@,
                None => "$HOME/.local/bin/noisshd"@,
            },
        ],
{
    let mut r: Vec<String> = Vec::new();
    match place {
        Some(p) => {
            push_text(&mut r, p.as_str());
        },
        None => {
            push_text(&mut r, "$HOME/.local/bin/noisshd");
        },
    }
    assert(crate::login::texts(r@) =~= seq![
        match place {
            Some(p) => p@,
            None => "$HOME/.local/bin/noisshd"@,
        },
    ]);
    r
}

// ---------------------------------------------------------------------------
// The course of a bootstrap
// ---------------------------------------------------------------------------

/// Outcome of a single bootstrap attempt.
pub enum AttemptView {
    Connected { port: u16, key: Seq<u8> },
    NotFound,
    Failed,
}

/// Outcome of a single bootstrap attempt.
#[derive(Debug, PartialEq, Eq)]
pub enum Attempt {
    /// Parsed a connect line; the server is up.
    Connected { port: u16, key: Vec<u8> },
    /// The remote command was not found (likely not installed).
    NotFound,
    /// Some other failure (no connect line, but not a missing-command signal).
    Failed,
}

impl View for Attempt {
    type V = AttemptView;

    open spec fn view(&self) -> AttemptView {
        match *self {
            Attempt::Connected { port, key } => AttemptView::Connected { port, key: key@ },
            Attempt::NotFound => AttemptView::NotFound,
            Attempt::Failed => AttemptView::Failed,
        }
    }
}

/// What an attempt came to, by how `ssh` ended and what it printed.
pub open spec fn attempted(code: Option<i32>, stdout: Seq<u8>, stderr: Seq<u8>) -> AttemptView {
    match connect_in_output(stdout) {
        Some((port, key)) => AttemptView::Connected { port, key },
        None => if is_missing(code, stdout, stderr) {
            AttemptView::NotFound
        } else {
            AttemptView::Failed
        },
    }
}

/// What an attempt came to, by how `ssh` ended and what it printed.
pub fn attempt(code: Option<i32>, stdout: &[u8], stderr: &[u8]) -> (r: Attempt)
    ensures
        r@ == attempted(code, stdout@, stderr@),
{
    match find_connect_line(stdout) {
        Some((port, key)) => Attempt::Connected { port, key },
        None => if looks_like_missing_command(code, stdout, stderr) {
            Attempt::NotFound
        } else {
            Attempt::Failed
        },
    }
}

/// How far a bootstrap has got.
#[derive(Debug, Clone, Copy, PartialEq, Eq, Structural)]
pub enum Stage {
    /// The given command is tried.
    Given,
    /// The server is tried where the installer puts it.
    Installed,
    /// The server is being installed.
    Installing,
    /// The server is tried after it was installed.
    Again,
}

/// What a bootstrap does next.
#[derive(Debug, PartialEq, Eq)]
pub enum Step {
    /// Try the server where the installer puts it.
    TryInstalled,
    /// Install the server.
    Install,
    /// Try the server where it was installed.
    TryAgain,
    /// Connect to this port of the server with this key.
    Connect { port: u16, key: Vec<u8> },
    /// Give up.
    GiveUp,
}

/// What a bootstrap does next.
pub enum StepView {
    TryInstalled,
    Install,
    TryAgain,
    Connect { port: u16, key: Seq<u8> },
    GiveUp,
}

impl View for Step {
    type V = StepView;

    open spec fn view(&self) -> StepView {
        match *self {
            Step::TryInstalled => StepView::TryInstalled,
            Step::Install => StepView::Install,
            Step::TryAgain => StepView::TryAgain,
            Step::Connect { port, key } => StepView::Connect { port, key: key@ },
            Step::GiveUp => StepView::GiveUp,
        }
    }
}

/// What follows an attempt. A server that is missing is installed if that is
/// wanted and its command is the default; it may already be installed but not on
/// the path.
pub open spec fn after_attempt(stage: Stage, outcome: AttemptView, may_install: bool) -> StepView {
    match outcome {
        AttemptView::Connected { port, key } => StepView::Connect { port, key },
        AttemptView::NotFound => match stage {
            Stage::Given => if may_install {
                StepView::TryInstalled
            } else {
                StepView::GiveUp
            },
            Stage::Installed => StepView::Install,
            _ => StepView::GiveUp,
        },
        AttemptView::Failed => if stage == Stage::Installed {
            StepView::Install
        } else {
            StepView::GiveUp
        },
    }
}

/// What follows an attempt.
pub fn next_step(
    stage: Stage,
    outcome: Attempt,
    auto_install: bool,
    remote_server_cmd: &[String],
) -> (r: Step)
    ensures
        r@ == after_attempt(
            stage,
            outcome@,
            auto_install && is_default(crate::login::texts(remote_server_cmd@)),
        ),
{
    match outcome {
        Attempt::Connected { port, key } => Step::Connect { port, key },
        Attempt::NotFound => match stage {
            Stage::Given => if auto_install && is_default_server_cmd(remote_server_cmd) {
                Step::TryInstalled
            } else {
                Step::GiveUp
            },
            Stage::Installed => Step::Install,
            _ => Step::GiveUp,
        },
        Attempt::Failed => match stage {
            Stage::Installed => Step::Install,
            _ => Step::GiveUp,
        },
    }
}

/// What follows the installer: the server is tried again if it succeeded.
pub fn after_install(succeeded: bool) -> (r: Step)
    ensures
        r@ == if succeeded {
            StepView::TryAgain
        } else {
            StepView::GiveUp
        },
{
    if succeeded {
        Step::TryAgain
    } else {
        Step::GiveUp
    }
}

/// What is said of a bootstrap that gave up: what `ssh` said last, if it said
/// anything.
pub open spec fn failure_text(target: Seq<char>, stderr: Seq<u8>) -> Seq<char> {
    let said = crate::text::trimmed(crate::text::lossy_text(stderr));
    if said.len() > 0 {
        "SSH bootstrap failed: "@ + said
    } else {
        "SSH bootstrap failed: no connect line from the server on "@ + host_part(target)
    }
}

/// Why a bootstrap that gave up failed, by what `ssh` last printed to its standard
/// error.
pub fn bootstrap_failure(target: &str, stderr: &[u8]) -> (r: RuntimeError)
    ensures
        r@ == RuntimeErrorView::SshFailed(failure_text(target@, stderr@)),
{
    let text: String = lossy(stderr);
    let chars: Vec<char> = chars_of(text.as_str());
    let said: Vec<char> = trim(&chars);
    let mut m: String = "SSH bootstrap failed: ".to_owned();
    if said.len() > 0 {
        m.push_str(string_of(&said).as_str());
        return RuntimeError::SshFailed(m);
    }
    m = "SSH bootstrap failed: no connect line from the server on ".to_owned();
    m.push_str(host_of(target).as_str());
    RuntimeError::SshFailed(m)
}

// ---------------------------------------------------------------------------
// Upgrades
// ---------------------------------------------------------------------------

/// The three numbers of a version.
pub open spec fn version_of(text: Seq<char>) -> Option<(nat, nat, nat)> {
    match (
        crate::text::find_from(text, '.', 0),
        crate::text::last_place(text, '.', text.len() as int),
    ) {
        (Some(i), Some(j)) => if i < j {
            match (
                crate::text::parsed_number(text.subrange(0, i), u32::MAX as nat),
                crate::text::parsed_number(text.subrange(i + 1, j), u32::MAX as nat),
                crate::text::parsed_number(
                    text.subrange(j + 1, text.len() as int),
                    u32::MAX as nat,
                ),
            ) {
                (Some(a), Some(b), Some(c)) => Some((a, b, c)),
                _ => None,
            }
        } else {
            None
        },
        _ => None,
    }
}

/// One version comes before another.
pub open spec fn precedes(a: (nat, nat, nat), b: (nat, nat, nat)) -> bool {
    a.0 < b.0 || (a.0 == b.0 && (a.1 < b.1 || (a.1 == b.1 && a.2 < b.2)))
}

/// A text names an older version than another does. One that names none is not older.
pub open spec fn older(a: Seq<char>, b: Seq<char>) -> bool {
    match (version_of(a), version_of(b)) {
        (Some(x), Some(y)) => precedes(x, y),
        _ => false,
    }
}

fn read_version(text: &str) -> (r: Option<(u64, u64, u64)>)
    ensures
        match version_of(text@) {
            Some((a, b, c)) => r matches Some(x) && x.0 == a && x.1 == b && x.2 == c,
            None => r is None,
        },
{
    let chars: Vec<char> = chars_of(text);
    let n: usize = chars.len();
    match (find(&chars, '.', 0), find_last(&chars, '.')) {
        (Some(i), Some(j)) => if i < j {
            let a: Option<u64> = parse_number(&part(&chars, 0, i), u32::MAX as u64);
            let b: Option<u64> = parse_number(&part(&chars, i + 1, j), u32::MAX as u64);
            let c: Option<u64> = parse_number(&part(&chars, j + 1, n), u32::MAX as u64);
            match (a, b, c) {
                (Some(a), Some(b), Some(c)) => Some((a, b, c)),
                _ => None,
            }
        } else {
            None
        },
        _ => None,
    }
}

/// Whether a version is older than another.
pub fn is_older(a: &str, b: &str) -> (r: bool)
    ensures
        r == older(a@, b@),
{
    match (read_version(a), read_version(b)) {
        (Some(x), Some(y)) => x.0 < y.0 || (x.0 == y.0 && (x.1 < y.1 || (x.1 == y.1 && x.2 < y.2))),
        _ => false,
    }
}

/// Whether to offer an upgrade of the server: the user can be asked, installing is
/// allowed, and the server told a version that is older than this one.
pub fn offers_upgrade(server: Option<&str>, interactive: bool, no_install: bool) -> (r: bool)
    ensures
        r == (interactive && !no_install && match server {
            Some(v) => older(v@, VERSION@),
            None => false,
        }),
{
    if !interactive || no_install {
        return false;
    }
    match server {
        Some(v) => is_older(v, VERSION),
        None => false,
    }
}

/// An answer to a question says yes. Any other answer, and none, says no.
pub open spec fn affirms(answer: Seq<char>) -> bool {
    let a = crate::text::lowered(crate::text::trimmed(answer));
    a == "y"@ || a == "yes"@
}

/// Whether an answer says yes.
pub fn says_yes(answer: &str) -> (r: bool)
    ensures
        r == affirms(answer@),
{
    let chars: Vec<char> = chars_of(answer);
    let a: Vec<char> = lower(&trim(&chars));
    is_text(&a, "y") || is_text(&a, "yes")
}

// ---------------------------------------------------------------------------
// Laws
// ---------------------------------------------------------------------------

/// Only the last connect line of a server's output counts: what stands before it
/// cannot name another port or key.
pub proof fn law_last_line_counts(lines: Seq<Seq<char>>, i: int, n: int)
    requires
        0 <= i < n <= lines.len(),
        connect_of(lines[i]) is Some,
        forall|j: int| i < j < n ==> connect_of(#[trigger] lines[j]) is None,
    ensures
        last_connect(lines, n) == connect_of(lines[i]),
    decreases n - i,
{
    if n - 1 > i {
        assert(connect_of(lines[n - 1]) is None);
        law_last_line_counts(lines, i, n - 1);
    }
}

/// A bootstrap ends: whatever the attempts come to, the server is installed at most
/// once and tried at most three times.
pub proof fn law_bootstrap_ends(
    first: AttemptView,
    second: AttemptView,
    third: AttemptView,
    may_install: bool,
)
    ensures
        ({
            let a = after_attempt(Stage::Given, first, may_install);
            a is TryInstalled || a is Connect || a is GiveUp
        }),
        ({
            let b = after_attempt(Stage::Installed, second, may_install);
            b is Install || b is Connect
        }),
        ({
            let c = after_attempt(Stage::Again, third, may_install);
            c is Connect || c is GiveUp
        }),
        !may_install ==> !(after_attempt(Stage::Given, first, may_install) is TryInstalled),
{
}

/// This version has a place among versions; no version is older than itself, and of
/// two that differ in their numbers one is older.
pub proof fn law_versions_in_order(a: Seq<char>, b: Seq<char>)
    ensures
        version_of(VERSION@) == Some((0nat, 4nat, 1nat)),
        !older(a, a),
        !(older(a, b) && older(b, a)),
        version_of(a) is Some && version_of(b) is Some && version_of(a) != version_of(b) ==> older(
            a,
            b,
        ) || older(b, a),
{
    let v = VERSION@;
    reveal_strlit("0.4.1");
    crate::text::lemma_found_at(v, '.', 0, 1);
    reveal_with_fuel(crate::text::last_place, 3);
    assert(crate::text::last_place(v, '.', 5) == Some(3int));
    reveal_with_fuel(crate::text::digits_value, 2);
    assert(v.subrange(0, 1) =~= seq!['0']);
    assert(v.subrange(2, 3) =~= seq!['4']);
    assert(v.subrange(4, 5) =~= seq!['1']);
    assert(seq!['0'].drop_last() =~= Seq::<char>::empty());
    assert(seq!['4'].drop_last() =~= Seq::<char>::empty());
    assert(seq!['1'].drop_last() =~= Seq::<char>::empty());
}

} // verus!
