//! What it takes to start a login session.

use crate::text::{chars_of, string_of};
use vstd::prelude::*;

verus! {

/// A request to start a login session.
#[derive(Debug, Clone)]
pub struct SpawnRequest {
    /// Target user. `None` = current user (no privilege change). When set, the
    /// child drops to that user's uid/gid before exec (requires root).
    pub user: Option<String>,
    /// Command + args to exec. `None` = the target user's login shell.
    pub command: Option<Vec<String>>,
    /// Extra environment variables to set (TERM is set from `term`).
    pub env: Vec<(String, String)>,
    pub term: String,
    pub rows: u16,
    pub cols: u16,
}

impl Default for SpawnRequest {
    fn default() -> (r: SpawnRequest)
        ensures
            r.user is None,
            r.command is None,
            r.env@.len() == 0,
            r.term@ == "xterm-256color"@,
            r.rows == 24,
            r.cols == 80,
    {
        SpawnRequest {
            user: None,
            command: None,
            env: Vec::new(),
            term: "xterm-256color".to_owned(),
            rows: 24,
            cols: 80,
        }
    }
}

/// Allocates a PTY and execs the login shell. Runs as the current user, or — if
/// `SpawnRequest::user` is set and the process is root — drops to that user's
/// uid/gid before exec.
#[derive(Debug, Clone, Copy)]
pub struct LocalLogin;

/// What texts say.
pub open spec fn texts(v: Seq<String>) -> Seq<Seq<char>> {
    Seq::new(v.len(), |i: int| v[i]@)
}

/// What pairs of texts say.
pub open spec fn pairs(v: Seq<(String, String)>) -> Seq<(Seq<char>, Seq<char>)> {
    Seq::new(v.len(), |i: int| (v[i].0@, v[i].1@))
}

/// What is executed.
#[derive(Debug)]
pub struct Launch {
    /// The program.
    pub program: String,
    /// The name it is called by, where that is not the program.
    pub arg0: Option<String>,
    /// The arguments.
    pub args: Vec<String>,
    /// The environment variables set, the later ones over the earlier.
    pub env: Vec<(String, String)>,
    /// The directory that it starts in.
    pub dir: String,
}

/// The part of a path behind the last slash.
pub open spec fn base_name(path: Seq<char>) -> Seq<char>
    decreases path.len(),
{
    if path.len() == 0 || path.last() == '/' {
        Seq::empty()
    } else {
        base_name(path.drop_last()).push(path.last())
    }
}

/// The environment variables that every session gets.
pub open spec fn base_env(
    term: Seq<char>,
    home: Seq<char>,
    user: Seq<char>,
    shell: Seq<char>,
) -> Seq<(Seq<char>, Seq<char>)> {
    seq![
        ("TERM"@, term),
        ("HOME"@, home),
        ("USER"@, user),
        ("LOGNAME"@, user),
        ("SHELL"@, shell),
    ]
}

fn base_of(path: &str) -> (r: String)
    ensures
        r@ == base_name(path@),
{
    let chars: Vec<char> = chars_of(path);
    let mut from: usize = chars.len();
    assert(chars@.take(from as int) =~= chars@);
    assert(base_name(chars@.take(from as int)) + chars@.skip(from as int) =~= base_name(chars@));
    while from > 0 && chars[from - 1] != '/'
        invariant
            from <= chars@.len(),
            base_name(chars@.take(from as int)) + chars@.skip(from as int) == base_name(chars@),
        decreases from,
    {
        proof {
            let t = chars@.take(from as int);
            assert(t.last() == chars@[from - 1]);
            assert(t.drop_last() =~= chars@.take(from - 1));
            assert(base_name(t) + chars@.skip(from as int) =~= base_name(chars@.take(from - 1))
                + chars@.skip(from - 1));
        }
        from -= 1;
    }
    proof {
        assert(base_name(chars@.take(from as int)) =~= Seq::<char>::empty());
        assert(base_name(chars@) =~= chars@.skip(from as int));
    }
    let rest: &[char] = vstd::slice::slice_subrange(chars.as_slice(), from, chars.len());
    assert(rest@ =~= chars@.skip(from as int));
    string_of(rest)
}

fn copies(v: &Vec<String>, from: usize) -> (r: Vec<String>)
    requires
        from <= v@.len(),
    ensures
        texts(r@) == texts(v@).skip(from as int),
{
    let mut r: Vec<String> = Vec::new();
    let mut i: usize = from;
    while i < v.len()
        invariant
            from <= i <= v@.len(),
            r@.len() == i - from,
            forall|j: int| 0 <= j < i - from ==> (#[trigger] r@[j])@ == v@[from + j]@,
        decreases v@.len() - i,
    {
        r.push(v[i].as_str().to_owned());
        i += 1;
    }
    assert(texts(r@) =~= texts(v@).skip(from as int));
    r
}

/// Resolve a request to a command and its environment: the command given, or
/// the login shell, which by convention is called by its name with a dash in
/// front. It starts in the home directory.
pub fn launch(req: &SpawnRequest, shell: &str, home: &str, user: &str) -> (r: Launch)
    ensures
        match req.command {
            Some(c) => c@.len() > 0 ==> {
                &&& r.program@ == c@[0]@
                &&& r.arg0 is None
                &&& texts(r.args@) == texts(c@).skip(1)
            },
            None => true,
        },
        (req.command is None || req.command.unwrap()@.len() == 0) ==> {
            &&& r.program@ == shell@
            &&& r.arg0 matches Some(a)
            &&& a@ == "-"@ + base_name(shell@)
            &&& r.args@.len() == 0
        },
        pairs(r.env@) == base_env(req.term@, home@, user@, shell@) + pairs(req.env@),
        r.dir@ == home@,
{
    let mut env: Vec<(String, String)> = Vec::new();
    env.push(("TERM".to_owned(), req.term.as_str().to_owned()));
    env.push(("HOME".to_owned(), home.to_owned()));
    env.push(("USER".to_owned(), user.to_owned()));
    env.push(("LOGNAME".to_owned(), user.to_owned()));
    env.push(("SHELL".to_owned(), shell.to_owned()));
    let ghost base = base_env(req.term@, home@, user@, shell@);
    let mut i: usize = 0;
    assert(pairs(env@) =~= base + pairs(req.env@).take(0));
    while i < req.env.len()
        invariant
            i <= req.env@.len(),
            pairs(env@) == base + pairs(req.env@).take(i as int),
        decreases req.env@.len() - i,
    {
        let ghost before = env@;
        env.push((req.env[i].0.as_str().to_owned(), req.env[i].1.as_str().to_owned()));
        proof {
            let p = (req.env@[i as int].0@, req.env@[i as int].1@);
            assert(pairs(env@) =~= pairs(before).push(p));
            assert(pairs(req.env@).take(i + 1) =~= pairs(req.env@).take(i as int).push(p));
            assert(base + pairs(req.env@).take(i + 1) =~= (base + pairs(req.env@).take(
                i as int,
            )).push(p));
        }
        i += 1;
    }
    assert(pairs(req.env@).take(i as int) =~= pairs(req.env@));
    if let Some(c) = &req.command {
        if c.len() > 0 {
            return Launch {
                program: c[0].as_str().to_owned(),
                arg0: None,
                args: copies(c, 1),
                env,
                dir: home.to_owned(),
            };
        }
    }
    let mut name: String = String::new();
    name.push_str("-");
    name.push_str(base_of(shell).as_str());
    assert(name@ =~= "-"@ + base_name(shell@));
    Launch {
        program: shell.to_owned(),
        arg0: Some(name),
        args: Vec::new(),
        env,
        dir: home.to_owned(),
    }
}

/// A shell-style integer code for how a process ended.
pub open spec fn status_of(code: Option<i32>, signal: Option<i32>) -> i32 {
    match code {
        Some(c) => c,
        None => match signal {
            Some(s) => (128 + s) as i32,
            None => 128,
        },
    }
}

/// A shell-style integer code for how a process ended: its exit code, or 128 +
/// signal if it was killed.
pub fn status_code(code: Option<i32>, signal: Option<i32>) -> (r: i32)
    requires
        signal matches Some(s) ==> s <= i32::MAX - 128,
    ensures
        r == status_of(code, signal),
{
    match code {
        Some(c) => c,
        None => match signal {
            Some(s) => 128 + s,
            None => 128,
        },
    }
}

} // verus!
