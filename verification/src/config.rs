//! Configuration: the key file, the settings file and where they are.

use crate::auth::{decode_base64, encode_base64};
use crate::error::{RuntimeError, RuntimeErrorView};
use crate::noise::Keypair;
use crate::text::{
    chars_of, find, first_white, is_text, lines, parse_number, part, string_of, trim, words,
};
use vstd::prelude::*;

verus! {

// ---------------------------------------------------------------------------
// Places
// ---------------------------------------------------------------------------

/// A path extended by a name.
pub open spec fn joined(base: Seq<char>, name: Seq<char>) -> Seq<char> {
    if base.len() == 0 || base.last() == '/' {
        base + name
    } else {
        base + "/"@ + name
    }
}

/// A path extended by a name.
pub fn join(base: &str, name: &str) -> (r: String)
    ensures
        r@ == joined(base@, name@),
{
    let chars: Vec<char> = chars_of(base);
    let mut r: String = base.to_owned();
    if chars.len() > 0 && chars[chars.len() - 1] != '/' {
        r.push_str("/");
    }
    r.push_str(name);
    r
}

/// Where the configuration is.
pub open spec fn config_place(xdg: Option<Seq<char>>, home: Option<Seq<char>>) -> Seq<char> {
    if xdg is Some && xdg.unwrap().len() > 0 {
        joined(xdg.unwrap(), "noissh"@)
    } else {
        joined(
            joined(
                match home {
                    Some(h) => h,
                    None => "."@,
                },
                ".config"@,
            ),
            "noissh"@,
        )
    }
}

/// The config directory (`$XDG_CONFIG_HOME/noissh` or `~/.config/noissh`), by what
/// these two variables hold.
pub fn config_dir(xdg: Option<String>, home: Option<String>) -> (r: String)
    ensures
        r@ == config_place(crate::sshconfig::maybe(xdg), crate::sshconfig::maybe(home)),
{
    if let Some(x) = xdg {
        let chars: Vec<char> = chars_of(x.as_str());
        if chars.len() > 0 {
            return join(x.as_str(), "noissh");
        }
    }
    let base: String = match home {
        Some(h) => h,
        None => ".".to_owned(),
    };
    join(join(base.as_str(), ".config").as_str(), "noissh")
}

/// Path to the optional settings file in a config directory.
pub fn config_file_path(dir: &str) -> (r: String)
    ensures
        r@ == joined(dir@, "config"@),
{
    join(dir, "config")
}

/// A file's permissions let others than its owner at it.
pub fn is_loose(mode: u32) -> (r: bool)
    ensures
        r == (mode & 0o077 != 0),
{
    mode & 0o077 != 0
}

// ---------------------------------------------------------------------------
// The key file
// ---------------------------------------------------------------------------

/// The private and the public key that were read.
pub type Keys = (Option<Seq<u8>>, Option<Seq<u8>>);

/// The keys after a line, by its words; none if one of them is malformed.
pub open spec fn keys_after(before: Keys, w: Seq<Seq<char>>) -> Option<Keys> {
    if w.len() >= 2 && w[0] == "private"@ {
        match crate::auth::base64_bytes(w[1]) {
            Some(k) => Some((Some(k), before.1)),
            None => None,
        }
    } else if w.len() >= 2 && w[0] == "public"@ {
        match crate::auth::base64_bytes(w[1]) {
            Some(k) => Some((before.0, Some(k))),
            None => None,
        }
    } else {
        Some(before)
    }
}

/// The keys of the first `n` lines; none if one of them is malformed.
pub open spec fn keys_of(lines: Seq<Seq<char>>, n: int) -> Option<Keys>
    decreases n,
{
    if n <= 0 {
        Some((None, None))
    } else {
        match keys_of(lines, n - 1) {
            Some(before) => keys_after(before, crate::text::words_of(lines[n - 1])),
            None => None,
        }
    }
}

/// The private and the public key of a key file, if it is well formed.
pub open spec fn key_file(text: Seq<char>) -> Option<(Seq<u8>, Seq<u8>)> {
    let l = crate::text::lines_of(text);
    match keys_of(l, l.len() as int) {
        Some((Some(private), Some(public))) => Some((private, public)),
        _ => None,
    }
}

/// The text of a key file: two lines, `private <base64>` and `public <base64>`.
pub open spec fn key_file_text(private: Seq<u8>, public: Seq<u8>) -> Seq<char> {
    "private "@ + crate::auth::base64_text(private) + "\npublic "@ + crate::auth::base64_text(public)
        + "\n"@
}

proof fn lemma_bad_line(lines: Seq<Seq<char>>, k: int, n: int)
    requires
        0 <= k <= n,
        keys_of(lines, k) is None,
    ensures
        keys_of(lines, n) is None,
    decreases n - k,
{
    if k < n {
        lemma_bad_line(lines, k, n - 1);
    }
}

/// Read a key file. The last line of each kind counts.
pub fn parse_keypair(contents: &str) -> (r: Result<Keypair, RuntimeError>)
    ensures
        match key_file(contents@) {
            Some(k) => r matches Ok(x) && x.private@ == k.0 && x.public@ == k.1,
            None => r matches Err(e) && e@ == RuntimeErrorView::BadKeyFile,
        },
{
    let chars: Vec<char> = chars_of(contents);
    let all: Vec<Vec<char>> = lines(&chars);
    let ghost l = crate::text::lines_of(contents@);
    let mut private: Option<Vec<u8>> = None;
    let mut public: Option<Vec<u8>> = None;
    let mut i: usize = 0;
    while i < all.len()
        invariant
            i <= all@.len(),
            crate::text::views(all@) == l,
            l == crate::text::lines_of(contents@),
            keys_of(l, i as int) == Some((seen(private), seen(public))),
        decreases all@.len() - i,
    {
        assert(l[i as int] == all@[i as int]@);
        let w: Vec<Vec<char>> = words(&all[i]);
        let ghost v = crate::text::words_of(l[i as int]);
        assert(v.len() == w@.len());
        if w.len() >= 2 {
            assert(v[0] == w@[0]@ && v[1] == w@[1]@);
            if is_text(&w[0], "private") {
                match decode_base64(string_of(&w[1]).as_str()) {
                    Some(k) => {
                        private = Some(k);
                    },
                    None => {
                        proof {
                            lemma_bad_line(l, i + 1, l.len() as int);
                        }
                        return Err(RuntimeError::BadKeyFile);
                    },
                }
            } else if is_text(&w[0], "public") {
                match decode_base64(string_of(&w[1]).as_str()) {
                    Some(k) => {
                        public = Some(k);
                    },
                    None => {
                        proof {
                            lemma_bad_line(l, i + 1, l.len() as int);
                        }
                        return Err(RuntimeError::BadKeyFile);
                    },
                }
            }
        }
        i += 1;
    }
    match (private, public) {
        (Some(private), Some(public)) => Ok(Keypair { private, public }),
        _ => Err(RuntimeError::BadKeyFile),
    }
}

spec fn seen(k: Option<Vec<u8>>) -> Option<Seq<u8>> {
    match k {
        Some(v) => Some(v@),
        None => None,
    }
}

/// The text of a key file, from which the same keys are read.
pub fn keypair_text(keypair: &Keypair) -> (r: String)
    requires
        4 * ((keypair.private@.len() + 2) / 3) <= usize::MAX,
        4 * ((keypair.public@.len() + 2) / 3) <= usize::MAX,
    ensures
        r@ == key_file_text(keypair.private@, keypair.public@),
        keypair.private@.len() > 0 && keypair.public@.len() > 0 ==> key_file(r@) == Some(
            (keypair.private@, keypair.public@),
        ),
{
    let private: String = encode_base64(keypair.private.as_slice());
    let public: String = encode_base64(keypair.public.as_slice());
    let mut r: String = "private ".to_owned();
    r.push_str(private.as_str());
    r.push_str("\npublic ");
    r.push_str(public.as_str());
    r.push_str("\n");
    proof {
        assert(r@ =~= key_file_text(keypair.private@, keypair.public@));
        if keypair.private@.len() > 0 && keypair.public@.len() > 0 {
            assert forall|i: int| 0 <= i < private@.len() implies !crate::text::white(
                #[trigger] private@[i],
            ) by {
                assert(crate::auth::base64_char(private@[i]));
            }
            assert forall|i: int| 0 <= i < public@.len() implies !crate::text::white(
                #[trigger] public@[i],
            ) by {
                assert(crate::auth::base64_char(public@[i]));
            }
            lemma_key_lines(private@, public@);
            let l = crate::text::lines_of(r@);
            assert(keys_of(l, 0) == Some((None::<Seq<u8>>, None::<Seq<u8>>)));
            assert(keys_of(l, 1) == Some((Some(keypair.private@), None::<Seq<u8>>)));
            assert(keys_of(l, 2) == Some((Some(keypair.private@), Some(keypair.public@))));
        }
    }
    r
}

proof fn lemma_key_lines(private: Seq<char>, public: Seq<char>)
    requires
        crate::text::plain(private),
        crate::text::plain(public),
    ensures
        ({
            let l = crate::text::lines_of(
                "private "@ + private + "\npublic "@ + public + "\n"@,
            );
            &&& l.len() == 2
            &&& crate::text::words_of(l[0]) == seq!["private"@, private]
            &&& crate::text::words_of(l[1]) == seq!["public"@, public]
            &&& "private"@ != "public"@
        }),
{
    reveal_strlit("private ");
    reveal_strlit("private");
    reveal_strlit("public");
    reveal_strlit("\npublic ");
    reveal_strlit("\n");
    reveal_strlit(" ");
    let first = "private"@ + " "@ + private;
    let second = "public"@ + " "@ + public;
    let end = Seq::<char>::empty();
    let text = "private "@ + private + "\npublic "@ + public + "\n"@;
    let rest = second.push('\n') + end;
    assert(text =~= first.push('\n') + rest);
    assert forall|i: int| 0 <= i < first.len() implies first[i] != '\n' by {
        if i >= 8 {
            assert(first[i] == private[i - 8]);
        }
    }
    assert forall|i: int| 0 <= i < second.len() implies second[i] != '\n' by {
        if i >= 7 {
            assert(second[i] == public[i - 7]);
        }
    }
    assert(first.last() == private.last() && !crate::text::white(private.last()));
    assert(second.last() == public.last() && !crate::text::white(public.last()));
    crate::text::lemma_lines_cons(first, rest);
    crate::text::lemma_lines_cons(second, end);
    assert(crate::text::lines_of(end) =~= Seq::<Seq<char>>::empty());
    assert(crate::text::lines_of(text) =~= seq![first, second]);
    crate::text::lemma_two_words("private"@, private);
    crate::text::lemma_two_words("public"@, public);
    assert("private"@.len() == 7 && "public"@.len() == 6);
}

// ---------------------------------------------------------------------------
// The settings file
// ---------------------------------------------------------------------------

/// Parsed config-file settings. All fields are optional so callers can fall back
/// to their own defaults; the file itself is optional too.
#[derive(Debug, Clone, PartialEq, Eq)]
pub struct Config {
    /// Default UDP port for direct connections.
    pub port: Option<u16>,
}

impl Default for Config {
    fn default() -> (r: Config)
        ensures
            r.port is None,
    {
        Config { port: None }
    }
}

/// The key and the value of a line: around the first `=`, or else around the first
/// white space.
pub open spec fn key_value(line: Seq<char>) -> Option<(Seq<char>, Seq<char>)> {
    let i = match crate::text::find_from(line, '=', 0) {
        Some(i) => i,
        None => crate::text::word_len(line),
    };
    if i >= line.len() {
        None
    } else {
        Some((crate::text::trimmed(line.take(i)), crate::text::trimmed(line.skip(i + 1))))
    }
}

/// The port after a line. What cannot be read is ignored.
pub open spec fn port_after(before: Option<u16>, line: Seq<char>) -> Option<u16> {
    let l = crate::text::trimmed(line);
    if l.len() == 0 || l[0] == '#' {
        before
    } else {
        match key_value(l) {
            Some((key, value)) => if key == "port"@ && value.len() > 0 {
                match crate::text::parsed_number(value, u16::MAX as nat) {
                    Some(p) => Some(p as u16),
                    None => before,
                }
            } else {
                before
            },
            None => before,
        }
    }
}

/// The port after the first `n` lines.
pub open spec fn port_of_lines(lines: Seq<Seq<char>>, n: int) -> Option<u16>
    decreases n,
{
    if n <= 0 {
        None
    } else {
        port_after(port_of_lines(lines, n - 1), lines[n - 1])
    }
}

/// The port that a settings file sets.
pub open spec fn configured_port(text: Seq<char>) -> Option<u16> {
    let l = crate::text::lines_of(text);
    port_of_lines(l, l.len() as int)
}

fn read_key_value(line: &[char]) -> (r: Option<(Vec<char>, Vec<char>)>)
    ensures
        match key_value(line@) {
            Some(k) => r matches Some(x) && x.0@ == k.0 && x.1@ == k.1,
            None => r is None,
        },
{
    let i: usize = match find(line, '=', 0) {
        Some(i) => i,
        None => first_white(line),
    };
    if i >= line.len() {
        return None;
    }
    let head: Vec<char> = part(line, 0, i);
    let tail: Vec<char> = part(line, i + 1, line.len());
    assert(head@ =~= line@.take(i as int));
    assert(tail@ =~= line@.skip(i + 1));
    Some((trim(&head), trim(&tail)))
}

/// Parse a simple config file. The format is one setting per line as either
/// `key = value` or `key value`. Blank lines and lines beginning with `#` (after
/// optional leading whitespace) are ignored. Unknown keys and lines that fail to
/// parse are ignored, so a malformed file never aborts startup.
pub fn parse_config(contents: &str) -> (r: Config)
    ensures
        r.port == configured_port(contents@),
{
    let chars: Vec<char> = chars_of(contents);
    let all: Vec<Vec<char>> = lines(&chars);
    let ghost l = crate::text::lines_of(contents@);
    let mut port: Option<u16> = None;
    let mut i: usize = 0;
    while i < all.len()
        invariant
            i <= all@.len(),
            crate::text::views(all@) == l,
            l == crate::text::lines_of(contents@),
            port == port_of_lines(l, i as int),
        decreases all@.len() - i,
    {
        assert(l[i as int] == all@[i as int]@);
        let line: Vec<char> = trim(&all[i]);
        if !(line.len() == 0 || line[0] == '#') {
            if let Some((key, value)) = read_key_value(&line) {
                if is_text(&key, "port") && value.len() > 0 {
                    if let Some(p) = parse_number(&value, u16::MAX as u64) {
                        port = Some(p as u16);
                    }
                }
            }
        }
        i += 1;
    }
    Config { port }
}

// ---------------------------------------------------------------------------
// Laws
// ---------------------------------------------------------------------------

/// A path is joined with one slash between its parts, whether or not the first ends in
/// one.
pub proof fn law_one_slash(base: Seq<char>, name: Seq<char>)
    requires
        base.len() > 0,
        base.last() != '/',
    ensures
        joined(base, name) == base + "/"@ + name,
        joined(base + "/"@, name) == joined(base, name),
        joined(Seq::empty(), name) == name,
{
    reveal_strlit("/");
    assert((base + "/"@).last() == '/');
    assert(Seq::<char>::empty() + name =~= name);
}

/// The configuration is where the environment says, or else in the home directory.
pub proof fn law_config_place(xdg: Seq<char>, home: Seq<char>)
    requires
        xdg.len() > 0,
        xdg.last() != '/',
        home.len() > 0,
        home.last() != '/',
    ensures
        config_place(Some(xdg), Some(home)) == xdg + "/"@ + "noissh"@,
        config_place(None, Some(home)) == home + "/"@ + ".config"@ + "/"@ + "noissh"@,
        config_place(Some(Seq::empty()), Some(home)) == config_place(None, Some(home)),
{
    reveal_strlit("/");
    reveal_strlit(".config");
    law_one_slash(xdg, "noissh"@);
    law_one_slash(home, ".config"@);
    let c = home + "/"@ + ".config"@;
    assert(c.last() == 'g');
    law_one_slash(c, "noissh"@);
}

/// A line `port=N` sets the port, over what lines before it set; a remark, an empty line
/// and a line of another key leave it.
pub proof fn law_port_line(before: Option<u16>, p: u16, line: Seq<char>)
    ensures
        port_after(before, "port="@ + crate::text::decimal(p as nat)) == Some(p),
        line.len() > 0 && line[0] == '#' ==> port_after(before, line) == before,
        port_after(before, Seq::empty()) == before,
{
    reveal_strlit("port=");
    reveal_strlit("port");
    let d = crate::text::decimal(p as nat);
    crate::text::law_decimal_roundtrip(p as nat, u16::MAX as nat);
    let l = "port="@ + d;
    assert(l.last() == d.last());
    assert(crate::text::is_digit(d[d.len() - 1]));
    crate::text::lemma_trimmed_same(l);
    crate::text::lemma_found_at(l, '=', 0, 4);
    assert(l.take(4) =~= "port"@);
    assert(l.skip(5) =~= d);
    crate::text::lemma_trimmed_same("port"@);
    assert(crate::text::is_digit(d[0]));
    crate::text::lemma_trimmed_same(d);
    if line.len() > 0 && line[0] == '#' {
        lemma_remark_stays(line);
    }
    crate::text::lemma_trimmed_same(Seq::<char>::empty());
}

/// A remark is still one with the white space behind it taken off.
proof fn lemma_remark_stays(line: Seq<char>)
    requires
        line.len() > 0,
        line[0] == '#',
    ensures
        crate::text::trimmed(line).len() > 0,
        crate::text::trimmed(line)[0] == '#',
{
    lemma_end_keeps_start(line);
}

proof fn lemma_end_keeps_start(s: Seq<char>)
    requires
        s.len() > 0,
        !crate::text::white(s[0]),
    ensures
        crate::text::trimmed_end(s).len() > 0,
        crate::text::trimmed_end(s)[0] == s[0],
        crate::text::trimmed_start(s) == s,
    decreases s.len(),
{
    if crate::text::white(s.last()) {
        lemma_end_keeps_start(s.drop_last());
    }
}

} // verus!
