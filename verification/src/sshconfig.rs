//! Minimal `~/.ssh/config` interop.
//!
//! The bootstrap runs through `ssh`, which already honours the user's
//! configuration. The session itself runs over a datagram transport whose address
//! is resolved here, so an alias whose real address lives in `HostName` is looked
//! up in the same file. This is a deliberately small subset of that grammar:
//! `Host` blocks with `*`/`?`/`!` glob patterns and first-value-wins semantics.

use crate::config::join;
use crate::text::{
    chars_of, find, is_text, is_white, lines, lower, parse_number, part, string_of, trim, words,
};
use vstd::prelude::*;

verus! {

/// What a host alias stands for.
pub struct HostView {
    pub hostname: Option<Seq<char>>,
    pub user: Option<Seq<char>>,
    pub port: Option<u16>,
}

/// Resolved settings for a host alias (any field may be absent).
#[derive(Debug, Clone, PartialEq, Eq)]
pub struct HostConfig {
    /// The real host to connect to (`HostName`); falls back to the alias.
    pub hostname: Option<String>,
    /// The login user (`User`).
    pub user: Option<String>,
    /// The SSH port (`Port`).
    pub port: Option<u16>,
}

/// What an optional text says.
pub open spec fn maybe(s: Option<String>) -> Option<Seq<char>> {
    match s {
        Some(t) => Some(t@),
        None => None,
    }
}

impl View for HostConfig {
    type V = HostView;

    open spec fn view(&self) -> HostView {
        HostView { hostname: maybe(self.hostname), user: maybe(self.user), port: self.port }
    }
}

/// Nothing is known of an alias.
pub open spec fn unknown_host() -> HostView {
    HostView { hostname: None, user: None, port: None }
}

impl Default for HostConfig {
    fn default() -> (r: HostConfig)
        ensures
            r@ == unknown_host(),
    {
        HostConfig { hostname: None, user: None, port: None }
    }
}

// ---------------------------------------------------------------------------
// Patterns
// ---------------------------------------------------------------------------

/// A glob matches a text: `*` stands for any run, `?` for one character.
pub open spec fn globs(p: Seq<char>, t: Seq<char>) -> bool
    decreases p.len(), t.len(),
{
    if p.len() == 0 {
        t.len() == 0
    } else if p[0] == '*' {
        globs(p.skip(1), t) || (t.len() > 0 && globs(p, t.skip(1)))
    } else {
        t.len() > 0 && (p[0] == '?' || p[0] == t[0]) && globs(p.skip(1), t.skip(1))
    }
}

/// A pattern that starts with a star matches a text if it matches an end of it.
proof fn lemma_star_absorbs(p: Seq<char>, t: Seq<char>, k: int)
    requires
        p.len() > 0,
        p[0] == '*',
        0 <= k <= t.len(),
        globs(p, t.skip(k)),
    ensures
        globs(p, t),
    decreases k,
{
    if k == 0 {
        assert(t.skip(0) =~= t);
    } else {
        assert(t.skip(k) =~= t.skip(1).skip(k - 1));
        lemma_star_absorbs(p, t.skip(1), k - 1);
    }
}

/// The first `n` characters of a pattern hold no star.
spec fn plain_to(p: Seq<char>, n: int) -> bool {
    forall|i: int| 0 <= i < n ==> p[i] != '*'
}

/// Where a pattern starts without a star, what it matches is at least as long, and
/// its rest matches the rest.
proof fn lemma_plain_prefix(p: Seq<char>, t: Seq<char>, n: int)
    requires
        0 <= n <= p.len(),
        plain_to(p, n),
        globs(p, t),
    ensures
        t.len() >= n,
        globs(p.skip(n), t.skip(n)),
    decreases n,
{
    if n == 0 {
        assert(p.skip(0) =~= p);
        assert(t.skip(0) =~= t);
    } else {
        assert(p[0] != '*');
        let q = p.skip(1);
        assert forall|i: int| 0 <= i < n - 1 implies q[i] != '*' by {
            assert(q[i] == p[i + 1]);
        }
        lemma_plain_prefix(q, t.skip(1), n - 1);
        assert(q.skip(n - 1) =~= p.skip(n));
        assert(t.skip(1).skip(n - 1) =~= t.skip(n));
    }
}

/// After a star and a run without one, a second star makes any place of the run as
/// good as its first.
proof fn lemma_second_star(p: Seq<char>, t: Seq<char>, n: int)
    requires
        0 <= n,
        n + 1 < p.len(),
        p[0] == '*',
        p[n + 1] == '*',
        plain_to(p.skip(1), n),
        globs(p, t),
    ensures
        t.len() >= n,
        globs(p.skip(n + 1), t.skip(n)),
    decreases t.len(),
{
    let a = p.skip(1);
    if globs(a, t) {
        lemma_plain_prefix(a, t, n);
        assert(a.skip(n) =~= p.skip(n + 1));
    } else {
        lemma_second_star(p, t.skip(1), n);
        let b = p.skip(n + 1);
        assert(b[0] == '*');
        assert(t.skip(1).skip(n) =~= t.skip(n).skip(1));
        lemma_star_absorbs(b, t.skip(n), 1);
    }
}

/// Glob match supporting `*` (any run) and `?` (one char).
pub fn glob_match(pattern: &str, text: &str) -> (r: bool)
    ensures
        r == globs(pattern@, text@),
{
    let p: Vec<char> = chars_of(pattern);
    let t: Vec<char> = chars_of(text);
    let mut pi: usize = 0;
    let mut ti: usize = 0;
    // Where the last star stands, and what it does not cover any more.
    let mut star: Option<usize> = None;
    let mut mark: usize = 0;
    proof {
        assert(p@.skip(0) =~= p@);
        assert(t@.skip(0) =~= t@);
    }
    while ti < t.len()
        invariant
            p@ == pattern@,
            t@ == text@,
            pi <= p@.len(),
            mark <= ti <= t@.len(),
            match star {
                None => mark == 0 && globs(p@, t@) == globs(
                    p@.skip(pi as int),
                    t@.skip(ti as int),
                ),
                Some(s) => {
                    &&& s < pi
                    &&& p@[s as int] == '*'
                    &&& pi - (s + 1) == ti - mark
                    &&& plain_to(p@.skip(s + 1), pi - (s + 1))
                    &&& globs(p@, t@) == globs(p@.skip(s as int), t@.skip(mark as int))
                    &&& globs(p@.skip(s + 1), t@.skip(mark as int)) == globs(
                        p@.skip(pi as int),
                        t@.skip(ti as int),
                    )
                },
            },
        decreases
                p@.len() - (match star {
                    Some(s) => s + 1,
                    None => 0,
                }),
                t@.len() - mark,
                t@.len() - ti,
    {
        let ghost q = p@.skip(pi as int);
        let ghost u = t@.skip(ti as int);
        assert(u.len() > 0 && u[0] == t@[ti as int]);
        assert(pi < p@.len() ==> q[0] == p@[pi as int]);
        assert(q.skip(1) =~= p@.skip(pi + 1) || pi == p@.len());
        assert(u.skip(1) =~= t@.skip(ti + 1));
        if pi < p.len() && p[pi] == '*' {
            proof {
                if let Some(s) = star {
                    lemma_new_star(p@, t@, s as int, pi as int, mark as int, ti as int);
                }
            }
            star = Some(pi);
            mark = ti;
            pi += 1;
        } else if pi < p.len() && (p[pi] == '?' || p[pi] == t[ti]) {
            pi += 1;
            ti += 1;
        } else if let Some(s) = star {
            proof {
                let b = p@.skip(s as int);
                let w = t@.skip(mark as int);
                assert(!globs(q, u));
                assert(b[0] == '*');
                assert(b.skip(1) =~= p@.skip(s + 1));
                assert(w.skip(1) =~= t@.skip(mark + 1));
            }
            pi = s + 1;
            mark += 1;
            ti = mark;
        } else {
            assert(!globs(q, u));
            return false;
        }
    }
    proof {
        assert(t@.skip(ti as int) =~= Seq::<char>::empty());
        if let Some(s) = star {
            lemma_star_at_end(p@, t@, s as int, pi as int, mark as int, ti as int);
        }
    }
    while pi < p.len() && p[pi] == '*'
        invariant
            pi <= p@.len(),
            globs(p@, t@) == globs(p@.skip(pi as int), Seq::<char>::empty()),
        decreases p@.len() - pi,
    {
        assert(p@.skip(pi as int).skip(1) =~= p@.skip(pi + 1));
        pi += 1;
    }
    proof {
        let q = p@.skip(pi as int);
        assert(pi < p@.len() ==> q[0] == p@[pi as int]);
    }
    pi == p.len()
}

proof fn lemma_new_star(p: Seq<char>, t: Seq<char>, s: int, pi: int, mark: int, ti: int)
    requires
        0 <= s < pi < p.len(),
        0 <= mark <= ti <= t.len(),
        p[s] == '*',
        p[pi] == '*',
        pi - (s + 1) == ti - mark,
        plain_to(p.skip(s + 1), pi - (s + 1)),
        globs(p.skip(s + 1), t.skip(mark)) == globs(p.skip(pi), t.skip(ti)),
    ensures
        globs(p.skip(s), t.skip(mark)) == globs(p.skip(pi), t.skip(ti)),
{
    let b = p.skip(s);
    let w = t.skip(mark);
    let n = pi - (s + 1);
    assert(b.skip(1) =~= p.skip(s + 1));
    assert(b.skip(n + 1) =~= p.skip(pi));
    assert(w.skip(n) =~= t.skip(ti));
    if globs(b, w) {
        lemma_second_star(b, w, n);
    }
}

proof fn lemma_star_at_end(p: Seq<char>, t: Seq<char>, s: int, pi: int, mark: int, ti: int)
    requires
        0 <= s < pi <= p.len(),
        0 <= mark <= ti == t.len(),
        p[s] == '*',
        pi - (s + 1) == ti - mark,
        plain_to(p.skip(s + 1), pi - (s + 1)),
        globs(p.skip(s + 1), t.skip(mark)) == globs(p.skip(pi), t.skip(ti)),
    ensures
        globs(p.skip(s), t.skip(mark)) == globs(p.skip(pi), t.skip(ti)),
{
    let b = p.skip(s);
    let w = t.skip(mark);
    let n = pi - (s + 1);
    assert(b.skip(1) =~= p.skip(s + 1));
    if globs(b, w) && !globs(b.skip(1), w) {
        lemma_too_short(b, w.skip(1), n);
    }
}

/// A star and a run without one do not match a text shorter than the run.
proof fn lemma_too_short(p: Seq<char>, t: Seq<char>, n: int)
    requires
        p.len() > 0,
        p[0] == '*',
        0 <= n < p.len(),
        plain_to(p.skip(1), n),
        t.len() < n,
    ensures
        !globs(p, t),
    decreases t.len(),
{
    if globs(p.skip(1), t) {
        lemma_plain_prefix(p.skip(1), t, n);
    }
    if t.len() > 0 {
        lemma_too_short(p, t.skip(1), n);
    }
}

/// A pattern is a negation that matches.
pub open spec fn excludes(p: Seq<char>, alias: Seq<char>) -> bool {
    p.len() > 0 && p[0] == '!' && globs(p.skip(1), alias)
}

/// A pattern is no negation and matches.
pub open spec fn admits(p: Seq<char>, alias: Seq<char>) -> bool {
    !(p.len() > 0 && p[0] == '!') && globs(p, alias)
}

/// The patterns of a `Host` line match an alias: one of them does, and no negation
/// does.
pub open spec fn applies(patterns: Seq<char>, alias: Seq<char>) -> bool {
    let w = crate::text::words_of(patterns);
    &&& exists|i: int| 0 <= i < w.len() && admits(#[trigger] w[i], alias)
    &&& forall|i: int| 0 <= i < w.len() ==> !excludes(#[trigger] w[i], alias)
}

/// Whether any whitespace-separated pattern in a `Host` line matches `alias`.
/// Supports `*`/`?` globs and `!` negation (a matching negation excludes the
/// alias from the block, as in ssh).
pub fn host_patterns_match(patterns: &str, alias: &str) -> (r: bool)
    ensures
        r == applies(patterns@, alias@),
{
    let chars: Vec<char> = chars_of(patterns);
    let pats: Vec<Vec<char>> = words(&chars);
    let ghost w = crate::text::words_of(patterns@);
    let mut matched: bool = false;
    let mut i: usize = 0;
    while i < pats.len()
        invariant
            i <= pats@.len(),
            w == crate::text::words_of(patterns@),
            crate::text::views(pats@) == w,
            matched == exists|j: int| 0 <= j < i && admits(#[trigger] w[j], alias@),
            forall|j: int| 0 <= j < i ==> !excludes(#[trigger] w[j], alias@),
        decreases pats@.len() - i,
    {
        assert(w[i as int] == pats@[i as int]@);
        let pat: &Vec<char> = &pats[i];
        if pat.len() > 0 && pat[0] == '!' {
            let rest: Vec<char> = part(pat, 1, pat.len());
            assert(rest@ =~= pat@.skip(1));
            if glob_match(string_of(&rest).as_str(), alias) {
                assert(excludes(w[i as int], alias@));
                return false;
            }
        } else if glob_match(string_of(pat).as_str(), alias) {
            assert(admits(w[i as int], alias@));
            matched = true;
        }
        i += 1;
    }
    matched
}

// ---------------------------------------------------------------------------
// Lines
// ---------------------------------------------------------------------------

/// What stands before a comment.
pub open spec fn before_comment(line: Seq<char>) -> Seq<char> {
    match crate::text::find_from(line, '#', 0) {
        Some(i) => line.take(i),
        None => line,
    }
}

/// A character that stands between a keyword and its value.
pub open spec fn separates(c: char) -> bool {
    crate::text::white(c) || c == '='
}

/// The first separator from `from` on.
pub open spec fn separator_from(s: Seq<char>, from: int) -> Option<int>
    decreases s.len() - from,
{
    if from >= s.len() {
        None
    } else if separates(s[from]) {
        Some(from)
    } else {
        separator_from(s, from + 1)
    }
}

/// Without the equals signs and blanks at the start.
pub open spec fn unpadded(s: Seq<char>) -> Seq<char>
    decreases s.len(),
{
    if s.len() > 0 && (s[0] == '=' || s[0] == ' ' || s[0] == '\t') {
        unpadded(s.skip(1))
    } else {
        s
    }
}

/// The keyword, in small letters, and the value of a line.
pub open spec fn setting(line: Seq<char>) -> Option<(Seq<char>, Seq<char>)> {
    let l = crate::text::trimmed(before_comment(line));
    match separator_from(l, 0) {
        None => None,
        Some(i) => {
            let value = crate::text::trimmed(unpadded(l.skip(i + 1)));
            if value.len() == 0 {
                None
            } else {
                Some((crate::text::lowered(crate::text::trimmed(l.take(i))), value))
            }
        },
    }
}

/// What is known of an alias after a line, and whether the block that it stands in
/// applies. The first value of each key wins.
pub open spec fn after_line(
    known: HostView,
    active: bool,
    line: Seq<char>,
    alias: Seq<char>,
) -> (HostView, bool) {
    match setting(line) {
        None => (known, active),
        Some((key, value)) => if key == "host"@ {
            (known, applies(value, alias))
        } else if !active {
            (known, active)
        } else if key == "hostname"@ {
            (
                if known.hostname is None {
                    HostView { hostname: Some(value), ..known }
                } else {
                    known
                },
                active,
            )
        } else if key == "user"@ {
            (
                if known.user is None {
                    HostView { user: Some(value), ..known }
                } else {
                    known
                },
                active,
            )
        } else if key == "port"@ && known.port is None {
            match crate::text::parsed_number(value, u16::MAX as nat) {
                Some(p) => (HostView { port: Some(p as u16), ..known }, active),
                None => (known, active),
            }
        } else {
            (known, active)
        },
    }
}

/// What is known of an alias after the first `n` lines.
pub open spec fn after_lines(lines: Seq<Seq<char>>, n: int, alias: Seq<char>) -> (HostView, bool)
    decreases n,
{
    if n <= 0 {
        (unknown_host(), false)
    } else {
        let (known, active) = after_lines(lines, n - 1, alias);
        after_line(known, active, lines[n - 1], alias)
    }
}

/// What a configuration says of an alias.
pub open spec fn resolved(text: Seq<char>, alias: Seq<char>) -> HostView {
    let l = crate::text::lines_of(text);
    after_lines(l, l.len() as int, alias).0
}

fn find_separator(chars: &[char]) -> (r: Option<usize>)
    ensures
        match separator_from(chars@, 0) {
            Some(i) => r matches Some(k) && k == i && i < chars@.len(),
            None => r is None,
        },
{
    let mut i: usize = 0;
    while i < chars.len()
        invariant
            separator_from(chars@, i as int) == separator_from(chars@, 0),
        decreases chars@.len() - i,
    {
        if is_white(chars[i]) || chars[i] == '=' {
            return Some(i);
        }
        i += 1;
    }
    None
}

fn unpad(chars: &[char]) -> (out: Vec<char>)
    ensures
        out@ == unpadded(chars@),
{
    let mut i: usize = 0;
    assert(chars@.skip(0) =~= chars@);
    while i < chars.len() && (chars[i] == '=' || chars[i] == ' ' || chars[i] == '\t')
        invariant
            i <= chars@.len(),
            unpadded(chars@.skip(i as int)) == unpadded(chars@),
        decreases chars@.len() - i,
    {
        assert(chars@.skip(i as int).skip(1) =~= chars@.skip(i + 1));
        i += 1;
    }
    let out: Vec<char> = part(chars, i, chars.len());
    assert(out@ =~= chars@.skip(i as int));
    out
}

fn read_setting(line: &[char]) -> (r: Option<(Vec<char>, Vec<char>)>)
    ensures
        match setting(line@) {
            Some(s) => r matches Some(x) && x.0@ == s.0 && x.1@ == s.1,
            None => r is None,
        },
{
    let end: usize = match find(line, '#', 0) {
        Some(i) => i,
        None => line.len(),
    };
    let bare: Vec<char> = part(line, 0, end);
    assert(bare@ =~= before_comment(line@));
    let l: Vec<char> = trim(&bare);
    match find_separator(&l) {
        None => None,
        Some(i) => {
            let n: usize = l.len();
            let rest: Vec<char> = part(&l, i + 1, n);
            assert(rest@ =~= l@.skip(i + 1));
            let value: Vec<char> = trim(&unpad(&rest));
            if value.len() == 0 {
                return None;
            }
            let key: Vec<char> = part(&l, 0, i);
            assert(key@ =~= l@.take(i as int));
            Some((lower(&trim(&key)), value))
        },
    }
}

impl HostConfig {
    /// Take a line into account. Returns whether the block that it stands in
    /// applies.
    fn take_line(&mut self, active: bool, line: &[char], alias: &str) -> (r: bool)
        ensures
            (final(self)@, r) == after_line(old(self)@, active, line@, alias@),
    {
        let (key, value) = match read_setting(line) {
            Some(s) => s,
            None => return active,
        };
        if is_text(&key, "host") {
            return host_patterns_match(string_of(&value).as_str(), alias);
        }
        if !active {
            return active;
        }
        if is_text(&key, "hostname") {
            if self.hostname.is_none() {
                self.hostname = Some(string_of(&value));
            }
        } else if is_text(&key, "user") {
            if self.user.is_none() {
                self.user = Some(string_of(&value));
            }
        } else if is_text(&key, "port") && self.port.is_none() {
            if let Some(p) = parse_number(&value, u16::MAX as u64) {
                self.port = Some(p as u16);
            }
        }
        active
    }
}

/// Resolve `alias` against the contents of an ssh_config file.
///
/// Keys are scanned top-to-bottom and the *first* value seen for each key (within
/// any `Host` block whose pattern matches the alias) wins. A bare `Host *` block
/// therefore provides defaults that an earlier, more specific block can override.
pub fn resolve(config_text: &str, alias: &str) -> (r: HostConfig)
    ensures
        r@ == resolved(config_text@, alias@),
{
    let chars: Vec<char> = chars_of(config_text);
    let all: Vec<Vec<char>> = lines(&chars);
    let ghost l = crate::text::lines_of(config_text@);
    let mut out: HostConfig = HostConfig { hostname: None, user: None, port: None };
    let mut active: bool = false;
    let mut i: usize = 0;
    while i < all.len()
        invariant
            i <= all@.len(),
            crate::text::views(all@) == l,
            (out@, active) == after_lines(l, i as int, alias@),
        decreases all@.len() - i,
    {
        assert(l[i as int] == all@[i as int]@);
        active = out.take_line(active, &all[i], alias);
        i += 1;
    }
    out
}

/// Where the user's SSH configuration is, if there is a home directory.
pub fn default_path(home: Option<String>) -> (r: Option<String>)
    ensures
        maybe(r) == match home {
            Some(h) => Some(
                crate::config::joined(crate::config::joined(h@, ".ssh"@), "config"@),
            ),
            None => None,
        },
{
    match home {
        Some(h) => Some(join(join(h.as_str(), ".ssh").as_str(), "config")),
        None => None,
    }
}

/// The host that an alias stands for: the one that the configuration names, or the
/// alias itself.
pub fn real_host(alias: &str, config: &HostConfig) -> (r: String)
    ensures
        r@ == match config@.hostname {
            Some(h) => h,
            None => alias@,
        },
{
    match &config.hostname {
        Some(h) => h.as_str().to_owned(),
        None => alias.to_owned(),
    }
}

// ---------------------------------------------------------------------------
// Laws
// ---------------------------------------------------------------------------

/// What is known of an alias stays: the first value seen for a key wins, whatever
/// lines follow.
pub proof fn law_first_value_wins(lines: Seq<Seq<char>>, n: int, m: int, alias: Seq<char>)
    requires
        0 <= n <= m <= lines.len(),
    ensures
        ({
            let early = after_lines(lines, n, alias).0;
            let late = after_lines(lines, m, alias).0;
            &&& early.hostname is Some ==> late.hostname == early.hostname
            &&& early.user is Some ==> late.user == early.user
            &&& early.port is Some ==> late.port == early.port
        }),
    decreases m - n,
{
    if n < m {
        law_first_value_wins(lines, n, m - 1, alias);
    }
}

/// A pattern without wildcards matches itself and nothing else, and `*` matches
/// everything.
pub proof fn law_globs(p: Seq<char>, t: Seq<char>)
    requires
        forall|i: int| 0 <= i < p.len() ==> p[i] != '*' && p[i] != '?',
    ensures
        globs(p, t) == (p == t),
        globs(seq!['*'], t),
    decreases p.len(), t.len(),
{
    let star = seq!['*'];
    lemma_star_absorbs_all(star, t);
    if p.len() == 0 {
        assert(t.len() == 0 ==> p =~= t);
    } else if t.len() > 0 {
        let q = p.skip(1);
        assert forall|i: int| 0 <= i < q.len() implies q[i] != '*' && q[i] != '?' by {
            assert(q[i] == p[i + 1]);
        }
        law_globs(q, t.skip(1));
        if p[0] == t[0] && q == t.skip(1) {
            assert(p =~= seq![p[0]] + q);
            assert(t =~= seq![t[0]] + t.skip(1));
        }
    }
}

proof fn lemma_star_absorbs_all(star: Seq<char>, t: Seq<char>)
    requires
        star == seq!['*'],
    ensures
        globs(star, t),
{
    let end = t.skip(t.len() as int);
    assert(star.skip(1) =~= Seq::<char>::empty());
    assert(globs(star.skip(1), end));
    assert(globs(star, end));
    lemma_star_absorbs(star, t, t.len() as int);
}

/// A setting is a keyword, in whatever case, and a value, with a blank or an equals sign
/// between them.
pub proof fn law_setting(word: Seq<char>, value: Seq<char>)
    requires
        crate::text::plain(word),
        crate::text::plain(value),
        forall|i: int| 0 <= i < word.len() ==> word[i] != '#' && word[i] != '=',
        forall|i: int| 0 <= i < value.len() ==> value[i] != '#',
        value[0] != '=',
    ensures
        setting(word + " "@ + value) == Some((crate::text::lowered(word), value)),
        setting(word + "="@ + value) == Some((crate::text::lowered(word), value)),
{
    reveal_strlit(" ");
    reveal_strlit("=");
    lemma_setting(word, ' ', value);
    lemma_setting(word, '=', value);
    assert(word + " "@ + value =~= word + seq![' '] + value);
    assert(word + "="@ + value =~= word + seq!['='] + value);
}

proof fn lemma_setting(word: Seq<char>, c: char, value: Seq<char>)
    requires
        c == ' ' || c == '=',
        crate::text::plain(word),
        crate::text::plain(value),
        forall|i: int| 0 <= i < word.len() ==> word[i] != '#' && word[i] != '=',
        forall|i: int| 0 <= i < value.len() ==> value[i] != '#',
        value[0] != '=',
    ensures
        setting(word + seq![c] + value) == Some((crate::text::lowered(word), value)),
{
    let s = word + seq![c] + value;
    let n = word.len() as int;
    assert forall|j: int| 0 <= j < s.len() implies s[j] != '#' by {
        if j < n {
            assert(s[j] == word[j]);
        } else if j > n {
            assert(s[j] == value[j - n - 1]);
        }
    }
    crate::text::lemma_find_from(s, '#', 0);
    assert(before_comment(s) == s);
    assert(!crate::text::white(word[0]));
    assert(!crate::text::white(value[value.len() - 1]));
    assert(s.last() == value[value.len() - 1]);
    assert(s[0] == word[0]);
    crate::text::lemma_trimmed_same(s);
    assert forall|j: int| 0 <= j < n implies !separates(s[j]) by {
        assert(s[j] == word[j]);
        assert(!crate::text::white(word[j]));
    }
    assert(separates(s[n]));
    lemma_separator_at(s, 0, n);
    assert(s.take(n) =~= word);
    assert(s.skip(n + 1) =~= value);
    assert(!crate::text::white(value[0]));
    assert(unpadded(value) == value);
    crate::text::lemma_trimmed_same(value);
    assert(!crate::text::white(word[n - 1]));
    crate::text::lemma_trimmed_same(word);
}

proof fn lemma_separator_at(s: Seq<char>, from: int, at: int)
    requires
        0 <= from <= at < s.len(),
        separates(s[at]),
        forall|j: int| from <= j < at ==> !separates(#[trigger] s[j]),
    ensures
        separator_from(s, from) == Some(at),
    decreases at - from,
{
    if from < at {
        lemma_separator_at(s, from + 1, at);
    }
}

/// In a section that applies, `HostName`, `User` and `Port` set what they are named for
/// and nothing else, each if it was not set before; in one that does not they set
/// nothing. `Host` begins a section, which applies if one of its patterns matches.
pub proof fn law_sections(
    known: HostView,
    active: bool,
    line: Seq<char>,
    alias: Seq<char>,
    value: Seq<char>,
    p: u16,
)
    ensures
        setting(line) == Some(("host"@, value)) ==> after_line(known, active, line, alias) == (
            known,
            applies(value, alias),
        ),
        setting(line) == Some(("hostname"@, value)) ==> after_line(known, active, line, alias) == (
            if active && known.hostname is None {
                HostView { hostname: Some(value), ..known }
            } else {
                known
            },
            active,
        ),
        setting(line) == Some(("user"@, value)) ==> after_line(known, active, line, alias) == (
            if active && known.user is None {
                HostView { user: Some(value), ..known }
            } else {
                known
            },
            active,
        ),
        setting(line) == Some(("port"@, crate::text::decimal(p as nat))) ==> after_line(
            known,
            active,
            line,
            alias,
        ) == (
            if active && known.port is None {
                HostView { port: Some(p), ..known }
            } else {
                known
            },
            active,
        ),
{
    reveal_strlit("host");
    reveal_strlit("hostname");
    reveal_strlit("user");
    reveal_strlit("port");
    crate::text::law_decimal_roundtrip(p as nat, u16::MAX as nat);
    assert("host"@[0] == 'h' && "user"@[0] == 'u' && "port"@[0] == 'p');
    assert("hostname"@.len() == 8 && "host"@.len() == 4 && "user"@.len() == 4 && "port"@.len() == 4);
}

/// A section for an alias by its name applies to it and to no other name; one for `*`
/// applies to every name; and a name that is excluded is not matched whatever else does.
pub proof fn law_patterns(name: Seq<char>, alias: Seq<char>)
    requires
        crate::text::plain(name),
        forall|i: int| 0 <= i < name.len() ==> name[i] != '*' && name[i] != '?' && name[i] != '!',
    ensures
        applies(name, alias) <==> alias == name,
        applies("*"@, alias),
        applies("* !"@ + name, alias) <==> alias != name,
{
    reveal_strlit("*");
    reveal_strlit("* !");
    reveal_strlit(" ");
    crate::text::lemma_words_plain(name);
    law_globs(name, alias);
    let w = crate::text::words_of(name);
    assert(w[0] == name);
    assert(admits(w[0], alias) == (alias == name));
    let star = "*"@;
    assert(star =~= seq!['*']);
    assert(!crate::text::white('*'));
    crate::text::lemma_words_plain(star);
    let v = crate::text::words_of(star);
    assert(admits(v[0], alias));
    let not = seq!['!'] + name;
    assert(crate::text::plain(not)) by {
        assert forall|i: int| 0 <= i < not.len() implies !crate::text::white(#[trigger] not[i]) by {
            if i > 0 {
                assert(not[i] == name[i - 1]);
                assert(!crate::text::white(name[i - 1]));
            }
        }
    }
    crate::text::lemma_two_words(star, not);
    assert("* !"@ + name =~= star + " "@ + not);
    let u = crate::text::words_of(star + " "@ + not);
    assert(u[0] == star && u[1] == not);
    assert(admits(u[0], alias));
    assert(not.skip(1) =~= name);
    assert(excludes(u[1], alias) == (alias == name));
    assert(!excludes(u[0], alias));
}

} // verus!
