//! Authentication and trust model.
//!
//! - `authorized_keys`: the set of client static public keys a server user
//!   permits.
//! - `known_hosts` with TOFU (trust on first use): the client pins a server's
//!   static public key on first contact; a later mismatch is a hard failure.
//!
//! Keys are X25519 public keys in the text form `noissh-x25519 <base64>`.

use crate::order::is_before;
use crate::text::{chars_of, find_last, first_white, is_text, lines, part, same, string_of, trim, words};
use base64::engine::general_purpose::STANDARD;
use base64::Engine;
use vstd::prelude::*;
use vstd::slice::slice_to_vec;

verus! {

/// Length of an X25519 public key.
pub const KEY_LEN: usize = 32;

/// The textual algorithm tag for keys.
pub const KEY_TYPE: &'static str = "noissh-x25519";

/// The standard base64 form of bytes, with padding.
pub uninterp spec fn base64_text(bytes: Seq<u8>) -> Seq<char>;

/// The bytes that a standard base64 text stands for, if it is one.
pub uninterp spec fn base64_bytes(text: Seq<char>) -> Option<Seq<u8>>;

/// A character of the standard base64 alphabet, or the padding.
pub open spec fn base64_char(c: char) -> bool {
    ('A' <= c <= 'Z') || ('a' <= c <= 'z') || ('0' <= c <= '9') || c == '+' || c == '/' || c == '='
}

/// `base64::Engine::encode` of the standard engine: four characters of the
/// alphabet for every three bytes begun, from which `decode` gives back the
/// bytes.
#[verifier::external_body]
pub(crate) fn encode_base64(bytes: &[u8]) -> (r: String)
    requires
        4 * ((bytes@.len() + 2) / 3) <= usize::MAX,
    ensures
        r@ == base64_text(bytes@),
        base64_bytes(r@) == Some(bytes@),
        r@.len() == 4 * ((bytes@.len() + 2) / 3),
        forall|i: int| 0 <= i < r@.len() ==> base64_char(#[trigger] r@[i]),
{
    STANDARD.encode(bytes)
}

/// `base64::Engine::decode` of the standard engine: the bytes that the text
/// stands for, or an error. Which texts are refused is not stated.
#[verifier::external_body]
pub(crate) fn decode_base64(text: &str) -> (r: Option<Vec<u8>>)
    ensures
        match base64_bytes(text@) {
            Some(b) => r matches Some(v) && v@ == b,
            None => r is None,
        },
{
    STANDARD.decode(text).ok()
}

/// Why a key could not be read.
#[derive(Debug, PartialEq, Eq)]
pub enum AuthError {
    /// Not a key line.
    MalformedLine,
    /// A key of another type.
    BadKeyType(String),
    /// Not base64.
    BadBase64,
    /// A key of another length.
    BadKeyLen(usize),
}

/// What an error says.
pub enum AuthErrorView {
    MalformedLine,
    BadKeyType(Seq<char>),
    BadBase64,
    BadKeyLen(nat),
}

impl View for AuthError {
    type V = AuthErrorView;

    open spec fn view(&self) -> AuthErrorView {
        match *self {
            AuthError::MalformedLine => AuthErrorView::MalformedLine,
            AuthError::BadKeyType(s) => AuthErrorView::BadKeyType(s@),
            AuthError::BadBase64 => AuthErrorView::BadBase64,
            AuthError::BadKeyLen(n) => AuthErrorView::BadKeyLen(n as nat),
        }
    }
}

/// A key that was read, or why none was.
pub type KeyResult = Result<Seq<u8>, AuthErrorView>;

/// The outcome of reading a key is as stated.
pub open spec fn key_outcome(r: Result<PublicKey, AuthError>, spec: KeyResult) -> bool {
    match spec {
        Ok(k) => r matches Ok(key) && key@ == k,
        Err(e) => r matches Err(err) && err@ == e,
    }
}

/// Reading a key from raw bytes.
pub open spec fn key_of_bytes(bytes: Seq<u8>) -> KeyResult {
    if bytes.len() == KEY_LEN {
        Ok(bytes)
    } else {
        Err(AuthErrorView::BadKeyLen(bytes.len()))
    }
}

/// Reading a key from base64; white space around it is ignored.
pub open spec fn key_of_base64(text: Seq<char>) -> KeyResult {
    match base64_bytes(crate::text::trimmed(text)) {
        None => Err(AuthErrorView::BadBase64),
        Some(bytes) => key_of_bytes(bytes),
    }
}

/// Reading a key from the words of a line: type, base64, and maybe more.
pub open spec fn key_of_words(words: Seq<Seq<char>>) -> KeyResult {
    if words.len() == 0 {
        Err(AuthErrorView::MalformedLine)
    } else if words[0] != KEY_TYPE@ {
        Err(AuthErrorView::BadKeyType(words[0]))
    } else if words.len() < 2 {
        Err(AuthErrorView::MalformedLine)
    } else {
        key_of_base64(words[1])
    }
}

/// Reading a key from its text form.
pub open spec fn key_of_text(text: Seq<char>) -> KeyResult {
    key_of_words(crate::text::words_of(text))
}

/// The text form of a key.
pub open spec fn key_text(key: Seq<u8>) -> Seq<char> {
    KEY_TYPE@ + " "@ + base64_text(key)
}

/// A 32-byte X25519 public key.
#[derive(Debug, Clone, Copy, PartialEq, Eq, PartialOrd, Ord, Hash)]
pub struct PublicKey(pub [u8; 32]);

impl View for PublicKey {
    type V = Seq<u8>;

    open spec fn view(&self) -> Seq<u8> {
        self.0@
    }
}

impl PublicKey {
    /// Take a key from raw bytes.
    pub fn from_bytes(bytes: &[u8]) -> (r: Result<PublicKey, AuthError>)
        ensures
            key_outcome(r, key_of_bytes(bytes@)),
    {
        if bytes.len() != KEY_LEN {
            return Err(AuthError::BadKeyLen(bytes.len()));
        }
        let mut k: [u8; 32] = [0u8; 32];
        let mut i: usize = 0;
        while i < KEY_LEN
            invariant
                i <= KEY_LEN,
                bytes@.len() == KEY_LEN,
                k@.len() == KEY_LEN,
                forall|j: int| 0 <= j < i ==> k@[j] == bytes@[j],
            decreases KEY_LEN - i,
        {
            k[i] = bytes[i];
            i += 1;
        }
        assert(k@ =~= bytes@);
        Ok(PublicKey(k))
    }

    /// Parse from base64 (no algorithm tag).
    pub fn from_base64(b64: &str) -> (r: Result<PublicKey, AuthError>)
        ensures
            key_outcome(r, key_of_base64(b64@)),
    {
        let chars: Vec<char> = chars_of(b64);
        let trimmed: Vec<char> = trim(&chars);
        let text: String = string_of(&trimmed);
        match decode_base64(text.as_str()) {
            Some(raw) => PublicKey::from_bytes(&raw),
            None => Err(AuthError::BadBase64),
        }
    }

    /// The base64 form (no algorithm tag).
    pub fn to_base64(&self) -> (r: String)
        ensures
            r@ == base64_text(self@),
            key_of_base64(r@) == Ok::<Seq<u8>, AuthErrorView>(self@),
            crate::text::plain(r@),
    {
        let r: String = encode_base64(&self.0);
        proof {
            assert forall|i: int| 0 <= i < r@.len() implies !crate::text::white(#[trigger] r@[i]) by {
                assert(base64_char(r@[i]));
            }
            crate::text::lemma_trimmed_same(r@);
        }
        r
    }

    /// Full text form: `noissh-x25519 <base64>`, from which the key can be read
    /// back.
    pub fn to_text(&self) -> (r: String)
        ensures
            r@ == key_text(self@),
            key_of_text(r@) == Ok::<Seq<u8>, AuthErrorView>(self@),
            crate::text::plain(base64_text(self@)),
    {
        let mut s: String = String::new();
        let b64: String = self.to_base64();
        s.push_str(KEY_TYPE);
        s.push_str(" ");
        s.push_str(b64.as_str());
        proof {
            assert(s@ =~= key_text(self@));
            lemma_key_type_plain();
            crate::text::lemma_two_words(KEY_TYPE@, b64@);
            crate::text::lemma_trimmed_same(b64@);
        }
        s
    }

    /// Parse `noissh-x25519 <base64> [comment...]` (comment ignored).
    pub fn from_text(line: &str) -> (r: Result<PublicKey, AuthError>)
        ensures
            key_outcome(r, key_of_text(line@)),
    {
        let chars: Vec<char> = chars_of(line);
        let ws: Vec<Vec<char>> = words(&chars);
        PublicKey::from_words(&ws)
    }

    fn from_words(ws: &Vec<Vec<char>>) -> (r: Result<PublicKey, AuthError>)
        ensures
            key_outcome(r, key_of_words(crate::text::views(ws@))),
    {
        if ws.len() == 0 {
            return Err(AuthError::MalformedLine);
        }
        if !is_text(&ws[0], KEY_TYPE) {
            return Err(AuthError::BadKeyType(string_of(&ws[0])));
        }
        if ws.len() < 2 {
            return Err(AuthError::MalformedLine);
        }
        let b64: String = string_of(&ws[1]);
        PublicKey::from_base64(b64.as_str())
    }

    /// Whether two keys are the same.
    pub fn is_same(&self, other: &PublicKey) -> (r: bool)
        ensures
            r == (self@ == other@),
    {
        let mut i: usize = 0;
        while i < KEY_LEN
            invariant
                i <= KEY_LEN,
                self@.len() == KEY_LEN,
                other@.len() == KEY_LEN,
                forall|j: int| 0 <= j < i ==> self@[j] == other@[j],
            decreases KEY_LEN - i,
        {
            if self.0[i] != other.0[i] {
                return false;
            }
            i += 1;
        }
        assert(self@ =~= other@);
        true
    }
}

proof fn lemma_key_type_plain()
    ensures
        crate::text::plain(KEY_TYPE@),
{
    reveal_strlit("noissh-x25519");
}

// ---------------------------------------------------------------------------
// Authorized keys
// ---------------------------------------------------------------------------

/// A key with its comment.
pub type KeyEntry = (Seq<u8>, Seq<char>);

/// A line that states nothing: blank, or a comment.
pub open spec fn is_remark(line: Seq<char>) -> bool {
    line.len() == 0 || line[0] == '#'
}

/// The entry of a line: the key, and the third word as its comment.
pub open spec fn entry_of(line: Seq<char>) -> Result<KeyEntry, AuthErrorView> {
    let words = crate::text::words_of(line);
    match key_of_words(words) {
        Ok(k) => Ok(
            (
                k,
                if words.len() > 2 {
                    words[2]
                } else {
                    Seq::empty()
                },
            ),
        ),
        Err(e) => Err(e),
    }
}

/// The entries of the first `n` lines that state a key.
pub open spec fn entries_of(lines: Seq<Seq<char>>, n: int) -> Seq<KeyEntry>
    decreases n,
{
    if n <= 0 {
        Seq::empty()
    } else {
        let line = crate::text::trimmed(lines[n - 1]);
        let before = entries_of(lines, n - 1);
        if is_remark(line) {
            before
        } else {
            match entry_of(line) {
                Ok(e) => before.push(e),
                Err(_) => before,
            }
        }
    }
}

/// The entries of the first `n` lines, or the first error among them.
pub open spec fn strict_entries_of(lines: Seq<Seq<char>>, n: int) -> Result<
    Seq<KeyEntry>,
    AuthErrorView,
>
    decreases n,
{
    if n <= 0 {
        Ok(Seq::empty())
    } else {
        let line = crate::text::trimmed(lines[n - 1]);
        match strict_entries_of(lines, n - 1) {
            Err(e) => Err(e),
            Ok(before) => if is_remark(line) {
                Ok(before)
            } else {
                match entry_of(line) {
                    Ok(e) => Ok(before.push(e)),
                    Err(e) => Err(e),
                }
            },
        }
    }
}

/// The set of client keys a server user authorizes.
#[derive(Debug, Clone)]
pub struct AuthorizedKeys {
    keys: Vec<(PublicKey, String)>,
}

spec fn entry_views(v: Seq<(PublicKey, String)>) -> Seq<KeyEntry> {
    Seq::new(v.len(), |i: int| (v[i].0@, v[i].1@))
}

impl View for AuthorizedKeys {
    type V = Seq<KeyEntry>;

    closed spec fn view(&self) -> Seq<KeyEntry> {
        entry_views(self.keys@)
    }
}

impl Default for AuthorizedKeys {
    fn default() -> (r: AuthorizedKeys)
        ensures
            r@ == Seq::<KeyEntry>::empty(),
    {
        AuthorizedKeys::new()
    }
}

fn read_entry(line: &Vec<char>) -> (r: Result<(PublicKey, String), AuthError>)
    ensures
        match entry_of(line@) {
            Ok(e) => r matches Ok(x) && (x.0@, x.1@) == e,
            Err(e) => r matches Err(x) && x@ == e,
        },
{
    let ws: Vec<Vec<char>> = words(line);
    let key: PublicKey = PublicKey::from_words(&ws)?;
    let comment: String = if ws.len() > 2 { string_of(&ws[2]) } else { String::new() };
    assert(crate::text::views(ws@).len() > 2 ==> crate::text::views(ws@)[2] == ws@[2]@);
    Ok((key, comment))
}

impl AuthorizedKeys {
    /// No keys.
    pub fn new() -> (r: AuthorizedKeys)
        ensures
            r@ == Seq::<KeyEntry>::empty(),
    {
        let r = AuthorizedKeys { keys: Vec::new() };
        assert(r@ =~= Seq::<KeyEntry>::empty());
        r
    }

    /// Parse a file's contents. Blank lines and `#` comments are ignored.
    /// Malformed lines are skipped; a strict parse is available via
    /// [`AuthorizedKeys::parse_strict`].
    pub fn parse(contents: &str) -> (r: AuthorizedKeys)
        ensures
            r@ == entries_of(
                crate::text::lines_of(contents@),
                crate::text::lines_of(contents@).len() as int,
            ),
    {
        let chars: Vec<char> = chars_of(contents);
        let all: Vec<Vec<char>> = lines(&chars);
        let ghost ls = crate::text::lines_of(contents@);
        let mut r: AuthorizedKeys = AuthorizedKeys::new();
        let mut i: usize = 0;
        while i < all.len()
            invariant
                i <= all@.len(),
                ls == crate::text::views(all@),
                r@ == entries_of(ls, i as int),
            decreases all@.len() - i,
        {
            let line: Vec<char> = trim(&all[i]);
            assert(line@ == crate::text::trimmed(ls[i as int]));
            if !(line.len() == 0 || line[0] == '#') {
                if let Ok((key, comment)) = read_entry(&line) {
                    r.push(key, comment);
                }
            }
            i += 1;
        }
        r
    }

    /// Strict parse: errors on the first malformed non-comment line.
    pub fn parse_strict(contents: &str) -> (r: Result<AuthorizedKeys, AuthError>)
        ensures
            match strict_entries_of(
                crate::text::lines_of(contents@),
                crate::text::lines_of(contents@).len() as int,
            ) {
                Ok(es) => r matches Ok(x) && x@ == es,
                Err(e) => r matches Err(x) && x@ == e,
            },
    {
        let chars: Vec<char> = chars_of(contents);
        let all: Vec<Vec<char>> = lines(&chars);
        let ghost ls = crate::text::lines_of(contents@);
        let mut r: AuthorizedKeys = AuthorizedKeys::new();
        let mut i: usize = 0;
        while i < all.len()
            invariant
                i <= all@.len(),
                ls == crate::text::views(all@),
                ls == crate::text::lines_of(contents@),
                strict_entries_of(ls, i as int) == Ok::<Seq<KeyEntry>, AuthErrorView>(r@),
            decreases all@.len() - i,
        {
            let line: Vec<char> = trim(&all[i]);
            assert(line@ == crate::text::trimmed(ls[i as int]));
            if !(line.len() == 0 || line[0] == '#') {
                match read_entry(&line) {
                    Ok((key, comment)) => r.push(key, comment),
                    Err(e) => {
                        proof {
                            lemma_first_error(ls, i + 1, ls.len() as int);
                        }
                        return Err(e);
                    },
                }
            }
            i += 1;
        }
        Ok(r)
    }

    fn push(&mut self, key: PublicKey, comment: String)
        ensures
            final(self)@ == old(self)@.push((key@, comment@)),
    {
        let ghost before = self.keys@;
        self.keys.push((key, comment));
        assert(entry_views(self.keys@) =~= entry_views(before).push((key@, comment@)));
    }

    /// Authorize a key.
    pub fn add(&mut self, key: PublicKey, comment: &str)
        ensures
            final(self)@ == old(self)@.push((key@, comment@)),
    {
        self.push(key, comment.to_owned());
    }

    /// Whether `key` is authorized.
    pub fn contains(&self, key: &PublicKey) -> (r: bool)
        ensures
            r <==> exists|i: int| 0 <= i < self@.len() && (#[trigger] self@[i]).0 == key@,
    {
        let mut i: usize = 0;
        while i < self.keys.len()
            invariant
                i <= self.keys@.len(),
                forall|j: int| 0 <= j < i ==> (#[trigger] self@[j]).0 != key@,
            decreases self.keys@.len() - i,
        {
            if self.keys[i].0.is_same(key) {
                assert(self@[i as int].0 == key@);
                return true;
            }
            i += 1;
        }
        false
    }

    /// How many keys are authorized.
    pub fn len(&self) -> (r: usize)
        ensures
            r == self@.len(),
    {
        self.keys.len()
    }

    /// Whether no key is authorized.
    pub fn is_empty(&self) -> (r: bool)
        ensures
            r == (self@.len() == 0),
    {
        self.keys.len() == 0
    }
}

/// An error among the first lines is that of all lines.
proof fn lemma_first_error(lines: Seq<Seq<char>>, k: int, n: int)
    requires
        0 <= k <= n <= lines.len(),
        strict_entries_of(lines, k) is Err,
    ensures
        strict_entries_of(lines, n) == strict_entries_of(lines, k),
    decreases n - k,
{
    if k < n {
        lemma_first_error(lines, k, n - 1);
    }
}

// ---------------------------------------------------------------------------
// Known hosts
// ---------------------------------------------------------------------------

/// Outcome of a trust-on-first-use check.
#[derive(Debug, Clone, Copy, PartialEq, Eq, Structural)]
pub enum Tofu {
    /// First time seeing this host; the key was recorded.
    New,
    /// The pinned key matches.
    Match,
    /// The host presented a different key than pinned. Hard failure.
    Mismatch,
}

/// A host with its pinned key.
pub type HostEntry = (Seq<char>, Seq<u8>);

/// The pinned keys by host.
pub type Pins = Map<Seq<char>, Seq<u8>>;

/// Host names in order, none twice.
pub open spec fn sorted(l: Seq<HostEntry>) -> bool {
    forall|i: int, j: int|
        0 <= i < j < l.len() ==> crate::order::before((#[trigger] l[i]).0, (#[trigger] l[j]).0)
}

/// `l[i]` is the entry of `host`.
pub open spec fn lists(l: Seq<HostEntry>, host: Seq<char>, i: int) -> bool {
    0 <= i < l.len() && l[i].0 == host
}

/// The pins that a list of entries states.
pub open spec fn pins(l: Seq<HostEntry>) -> Pins {
    Map::new(
        |host: Seq<char>| exists|i: int| lists(l, host, i),
        |host: Seq<char>| l[choose|i: int| lists(l, host, i)].1,
    )
}

/// What a TOFU check says of a host that presents a key.
pub open spec fn trusted(p: Pins, host: Seq<char>, key: Seq<u8>) -> Tofu {
    if !p.dom().contains(host) {
        Tofu::New
    } else if p[host] == key {
        Tofu::Match
    } else {
        Tofu::Mismatch
    }
}

/// The pins after a TOFU check: a host seen for the first time is recorded.
pub open spec fn remembered(p: Pins, host: Seq<char>, key: Seq<u8>) -> Pins {
    if p.dom().contains(host) {
        p
    } else {
        p.insert(host, key)
    }
}

/// Reading an entry from a line: a host, white space, a key.
pub open spec fn host_of_line(line: Seq<char>) -> Result<HostEntry, AuthErrorView> {
    let n = crate::text::word_len(line);
    if n >= line.len() {
        Err(AuthErrorView::MalformedLine)
    } else {
        match key_of_text(crate::text::trimmed(line.skip(n + 1))) {
            Ok(k) => Ok((line.take(n), k)),
            Err(e) => Err(e),
        }
    }
}

/// The pins of the first `n` lines, or the first error among them. A later
/// line for a host takes the place of an earlier one.
pub open spec fn pins_of(lines: Seq<Seq<char>>, n: int) -> Result<Pins, AuthErrorView>
    decreases n,
{
    if n <= 0 {
        Ok(Map::empty())
    } else {
        let line = crate::text::trimmed(lines[n - 1]);
        match pins_of(lines, n - 1) {
            Err(e) => Err(e),
            Ok(before) => if is_remark(line) {
                Ok(before)
            } else {
                match host_of_line(line) {
                    Ok((host, key)) => Ok(before.insert(host, key)),
                    Err(e) => Err(e),
                }
            },
        }
    }
}

/// The pins of those of the first `n` lines that can be read. A later line for a host
/// takes the place of an earlier one.
pub open spec fn legible_pins_of(lines: Seq<Seq<char>>, n: int) -> Pins
    decreases n,
{
    if n <= 0 {
        Map::empty()
    } else {
        let line = crate::text::trimmed(lines[n - 1]);
        let before = legible_pins_of(lines, n - 1);
        if is_remark(line) {
            before
        } else {
            match host_of_line(line) {
                Ok((host, key)) => before.insert(host, key),
                Err(_) => before,
            }
        }
    }
}

/// The pins that the legible lines of a text state.
pub open spec fn legible_pins_of_text(text: Seq<char>) -> Pins {
    let lines = crate::text::lines_of(text);
    legible_pins_of(lines, lines.len() as int)
}

/// The pins that a text states.
pub open spec fn pins_of_text(text: Seq<char>) -> Result<Pins, AuthErrorView> {
    let lines = crate::text::lines_of(text);
    pins_of(lines, lines.len() as int)
}

/// The line of an entry.
pub open spec fn host_line(e: HostEntry) -> Seq<char> {
    e.0 + " "@ + key_text(e.1)
}

/// The text of a list of entries: a line for each.
pub open spec fn hosts_text(l: Seq<HostEntry>) -> Seq<char>
    decreases l.len(),
{
    if l.len() == 0 {
        Seq::empty()
    } else {
        host_line(l[0]).push('\n') + hosts_text(l.skip(1))
    }
}

/// A host name that a line can state: a word that does not begin a remark.
pub open spec fn host_name(host: Seq<char>) -> bool {
    crate::text::plain(host) && host[0] != '#'
}

/// Pinned server keys, by host name.
#[derive(Debug, Clone)]
pub struct KnownHosts {
    hosts: Vec<(String, PublicKey)>,
}

spec fn host_views(v: Seq<(String, PublicKey)>) -> Seq<HostEntry> {
    Seq::new(v.len(), |i: int| (v[i].0@, v[i].1@))
}

impl View for KnownHosts {
    type V = Pins;

    open spec fn view(&self) -> Pins {
        pins(self.listed())
    }
}

impl Default for KnownHosts {
    fn default() -> (r: KnownHosts)
        ensures
            r.wf(),
            r@ == Map::<Seq<char>, Seq<u8>>::empty(),
    {
        KnownHosts::new()
    }
}

impl KnownHosts {
    /// The entries in the order of their host names.
    pub closed spec fn listed(&self) -> Seq<HostEntry> {
        host_views(self.hosts@)
    }

    /// The entries are in order and no host has two.
    pub open spec fn wf(&self) -> bool {
        sorted(self.listed())
    }

    /// No hosts.
    pub fn new() -> (r: KnownHosts)
        ensures
            r.wf(),
            r@ == Map::<Seq<char>, Seq<u8>>::empty(),
    {
        let r = KnownHosts { hosts: Vec::new() };
        assert(r@ =~= Map::empty());
        r
    }

    /// Parse `known_hosts` contents: `<host> noissh-x25519 <base64>` per line.
    pub fn parse(contents: &str) -> (r: Result<KnownHosts, AuthError>)
        ensures
            match pins_of_text(contents@) {
                Ok(p) => r matches Ok(x) && x.wf() && x@ == p,
                Err(e) => r matches Err(x) && x@ == e,
            },
    {
        let chars: Vec<char> = chars_of(contents);
        let all: Vec<Vec<char>> = lines(&chars);
        let ghost ls = crate::text::lines_of(contents@);
        let mut r: KnownHosts = KnownHosts::new();
        let mut i: usize = 0;
        while i < all.len()
            invariant
                i <= all@.len(),
                ls == crate::text::views(all@),
                ls == crate::text::lines_of(contents@),
                r.wf(),
                pins_of(ls, i as int) == Ok::<Pins, AuthErrorView>(r@),
            decreases all@.len() - i,
        {
            let line: Vec<char> = trim(&all[i]);
            assert(line@ == crate::text::trimmed(ls[i as int]));
            if !(line.len() == 0 || line[0] == '#') {
                match read_host(&line) {
                    Ok((host, key)) => r.put(host, key),
                    Err(e) => {
                        proof {
                            lemma_first_bad_host(ls, i + 1, ls.len() as int);
                        }
                        return Err(e);
                    },
                }
            }
            i += 1;
        }
        Ok(r)
    }

    /// Read `known_hosts` contents, skipping lines that cannot be read: one bad line
    /// does not lock the user out of every other host.
    pub fn parse_lenient(contents: &str) -> (r: KnownHosts)
        ensures
            r.wf(),
            r@ == legible_pins_of_text(contents@),
    {
        let chars: Vec<char> = chars_of(contents);
        let all: Vec<Vec<char>> = lines(&chars);
        let ghost ls = crate::text::lines_of(contents@);
        let mut r: KnownHosts = KnownHosts::new();
        let mut i: usize = 0;
        while i < all.len()
            invariant
                i <= all@.len(),
                ls == crate::text::views(all@),
                ls == crate::text::lines_of(contents@),
                r.wf(),
                legible_pins_of(ls, i as int) == r@,
            decreases all@.len() - i,
        {
            let line: Vec<char> = trim(&all[i]);
            assert(line@ == crate::text::trimmed(ls[i as int]));
            if !(line.len() == 0 || line[0] == '#') {
                if let Ok((host, key)) = read_host(&line) {
                    r.put(host, key);
                }
            }
            i += 1;
        }
        r
    }

    /// Serialize back to `known_hosts` text form, from which the same pins are
    /// read, provided that every host name is one that a line can state.
    pub fn to_text(&self) -> (r: String)
        requires
            self.wf(),
        ensures
            r@ == hosts_text(self.listed()),
            (forall|h: Seq<char>| self@.dom().contains(h) ==> #[trigger] host_name(h))
                ==> pins_of_text(r@) == Ok::<Pins, AuthErrorView>(self@),
    {
        let ghost l = self.listed();
        let mut s: String = String::new();
        let mut i: usize = 0;
        assert(l.skip(0) =~= l);
        while i < self.hosts.len()
            invariant
                i <= self.hosts@.len(),
                l == self.listed(),
                s@ + hosts_text(l.skip(i as int)) == hosts_text(l),
                forall|j: int| 0 <= j < i ==> legible(#[trigger] l[j]),
            decreases self.hosts@.len() - i,
        {
            let ghost s0 = s@;
            let text: String = self.hosts[i].1.to_text();
            s.push_str(self.hosts[i].0.as_str());
            s.push(' ');
            s.push_str(text.as_str());
            s.push('\n');
            proof {
                reveal_strlit(" ");
                let rest = l.skip(i as int);
                assert(rest[0] == l[i as int]);
                assert(rest.skip(1) =~= l.skip(i + 1));
                assert(s@ =~= s0 + host_line(l[i as int]).push('\n'));
                assert(s@ + hosts_text(l.skip(i + 1)) =~= s0 + hosts_text(rest));
            }
            i += 1;
        }
        proof {
            assert(l.skip(i as int) =~= Seq::<HostEntry>::empty());
            assert(s@ =~= hosts_text(l));
            if forall|h: Seq<char>| self@.dom().contains(h) ==> #[trigger] host_name(h) {
                assert forall|j: int| 0 <= j < l.len() implies host_name((#[trigger] l[j]).0) by {
                    assert(lists(l, l[j].0, j));
                    assert(self@.dom().contains(l[j].0));
                }
                lemma_hosts_roundtrip(l);
            }
        }
        s
    }

    fn position(&self, host: &Vec<char>) -> (r: (usize, bool))
        requires
            self.wf(),
        ensures
            r.0 <= self.listed().len(),
            forall|j: int|
                0 <= j < r.0 ==> crate::order::before((#[trigger] self.listed()[j]).0, host@),
            r.1 ==> lists(self.listed(), host@, r.0 as int),
            !r.1 ==> forall|j: int|
                r.0 <= j < self.listed().len() ==> crate::order::before(
                    host@,
                    (#[trigger] self.listed()[j]).0,
                ),
    {
        let ghost l = self.listed();
        let mut i: usize = 0;
        while i < self.hosts.len()
            invariant
                i <= self.hosts@.len(),
                l == self.listed(),
                self.wf(),
                forall|j: int| 0 <= j < i ==> crate::order::before((#[trigger] l[j]).0, host@),
            decreases self.hosts@.len() - i,
        {
            let here: Vec<char> = chars_of(self.hosts[i].0.as_str());
            assert(here@ == l[i as int].0);
            if same(&here, host) {
                return (i, true);
            }
            if !is_before(&here, host) {
                proof {
                    crate::order::lemma_total(here@, host@);
                    assert forall|j: int| i <= j < l.len() implies crate::order::before(
                        host@,
                        (#[trigger] l[j]).0,
                    ) by {
                        if j > i {
                            assert(crate::order::before(l[i as int].0, l[j].0));
                            crate::order::lemma_transitive(host@, here@, l[j].0);
                        }
                    }
                }
                return (i, false);
            }
            i += 1;
        }
        (i, false)
    }

    fn put(&mut self, host: String, key: PublicKey)
        requires
            old(self).wf(),
        ensures
            final(self).wf(),
            final(self)@ == old(self)@.insert(host@, key@),
    {
        let ghost l = self.listed();
        let name: Vec<char> = chars_of(host.as_str());
        let (i, found) = self.position(&name);
        if found {
            self.hosts.set(i, (host, key));
            proof {
                let m = self.listed();
                assert(m =~= l.update(i as int, (name@, key@)));
                lemma_pins_replaced(l, i as int, key@);
            }
        } else {
            self.hosts.insert(i, (host, key));
            proof {
                let m = self.listed();
                assert(m =~= l.insert(i as int, (name@, key@)));
                lemma_pins_inserted(l, i as int, (name@, key@));
            }
        }
    }

    /// Look up the pinned key for `host`.
    pub fn get(&self, host: &str) -> (r: Option<&PublicKey>)
        requires
            self.wf(),
        ensures
            match r {
                Some(k) => self@.dom().contains(host@) && k@ == self@[host@],
                None => !self@.dom().contains(host@),
            },
    {
        let name: Vec<char> = chars_of(host);
        let (i, found) = self.position(&name);
        let ghost l = self.listed();
        if found {
            proof {
                lemma_pin_at(l, i as int);
            }
            assert(l[i as int].1 == self.hosts@[i as int].1@);
            Some(&self.hosts[i].1)
        } else {
            proof {
                lemma_not_pinned(l, name@, i as int);
            }
            None
        }
    }

    /// TOFU check. On first contact the key is recorded and `New` returned.
    /// On a later visit, `Match` or `Mismatch` is returned without mutating.
    pub fn check_or_add(&mut self, host: &str, key: &PublicKey) -> (r: Tofu)
        requires
            old(self).wf(),
        ensures
            final(self).wf(),
            r == trusted(old(self)@, host@, key@),
            final(self)@ == remembered(old(self)@, host@, key@),
    {
        let found: Option<bool> = match self.get(host) {
            None => None,
            Some(pinned) => Some(pinned.is_same(key)),
        };
        match found {
            None => {
                self.put(host.to_owned(), *key);
                Tofu::New
            },
            Some(true) => Tofu::Match,
            Some(false) => Tofu::Mismatch,
        }
    }

    /// Forget every pinned label for `host`, whatever its port. Returns the labels.
    pub fn remove_matching(&mut self, host: &str) -> (r: Vec<String>)
        requires
            old(self).wf(),
        ensures
            final(self).wf(),
            final(self).listed() == without(old(self).listed(), host@),
            final(self)@ == forgotten(old(self)@, host@),
            crate::login::texts(r@) == labels_for(old(self).listed(), host@),
    {
        let name: Vec<char> = chars_of(host);
        let ghost l = self.listed();
        let mut kept: Vec<(String, PublicKey)> = Vec::new();
        let mut removed: Vec<String> = Vec::new();
        let mut i: usize = 0;
        assert(host_views(kept@) =~= without(l.take(0), host@));
        assert(crate::login::texts(removed@) =~= labels_for(l.take(0), host@));
        while i < self.hosts.len()
            invariant
                i <= self.hosts@.len(),
                name@ == host@,
                l == self.listed(),
                host_views(kept@) == without(l.take(i as int), host@),
                crate::login::texts(removed@) == labels_for(l.take(i as int), host@),
            decreases self.hosts@.len() - i,
        {
            let label: Vec<char> = chars_of(self.hosts[i].0.as_str());
            let ghost kept0 = kept@;
            let ghost removed0 = removed@;
            assert(l.take(i + 1).drop_last() =~= l.take(i as int));
            assert(l.take(i + 1).last() == l[i as int]);
            assert(l[i as int].0 == label@);
            if is_label(&label, &name) {
                removed.push(self.hosts[i].0.as_str().to_owned());
                assert(crate::login::texts(removed@) =~= crate::login::texts(removed0).push(label@));
            } else {
                kept.push((self.hosts[i].0.as_str().to_owned(), self.hosts[i].1));
                assert(host_views(kept@) =~= host_views(kept0).push(l[i as int]));
            }
            i += 1;
        }
        assert(l.take(l.len() as int) =~= l);
        self.hosts = kept;
        proof {
            lemma_without(l, host@);
        }
        removed
    }
}

/// A label is that of a host: the host itself, or with a port.
pub open spec fn label_of(label: Seq<char>, host: Seq<char>) -> bool {
    label == host || match crate::text::last_place(label, ':', label.len() as int) {
        Some(i) => label.take(i) == host,
        None => false,
    }
}

/// The entries that are not of a host.
pub open spec fn without(l: Seq<HostEntry>, host: Seq<char>) -> Seq<HostEntry>
    decreases l.len(),
{
    if l.len() == 0 {
        Seq::empty()
    } else if label_of(l.last().0, host) {
        without(l.drop_last(), host)
    } else {
        without(l.drop_last(), host).push(l.last())
    }
}

/// The labels of a host among entries.
pub open spec fn labels_for(l: Seq<HostEntry>, host: Seq<char>) -> Seq<Seq<char>>
    decreases l.len(),
{
    if l.len() == 0 {
        Seq::empty()
    } else if label_of(l.last().0, host) {
        labels_for(l.drop_last(), host).push(l.last().0)
    } else {
        labels_for(l.drop_last(), host)
    }
}

/// The pins without those of a host.
pub open spec fn forgotten(p: Pins, host: Seq<char>) -> Pins {
    p.remove_keys(Set::new(|label: Seq<char>| label_of(label, host)))
}

fn is_label(label: &Vec<char>, host: &Vec<char>) -> (r: bool)
    ensures
        r == label_of(label@, host@),
{
    if same(label, host) {
        return true;
    }
    match find_last(label, ':') {
        Some(i) => {
            let head: Vec<char> = part(label, 0, i);
            assert(head@ =~= label@.take(i as int));
            same(&head, host)
        },
        None => false,
    }
}

proof fn lemma_without(l: Seq<HostEntry>, host: Seq<char>)
    requires
        sorted(l),
    ensures
        sorted(without(l, host)),
        pins(without(l, host)) == forgotten(pins(l), host),
{
    let w = without(l, host);
    lemma_without_sorted(l, host);
    assert forall|h: Seq<char>| #[trigger]
        pins(w).dom().contains(h) == forgotten(pins(l), host).dom().contains(h) by {
        if pins(w).dom().contains(h) {
            let i = choose|i: int| lists(w, h, i);
            lemma_without_holds(l, host, w[i]);
            assert(w.contains(w[i]));
            let k = choose|k: int| 0 <= k < l.len() && l[k] == w[i];
            assert(lists(l, h, k));
        }
        if pins(l).dom().contains(h) && !label_of(h, host) {
            let k = choose|k: int| lists(l, h, k);
            lemma_without_holds(l, host, l[k]);
            assert(l.contains(l[k]));
            let i = choose|i: int| 0 <= i < w.len() && w[i] == l[k];
            assert(lists(w, h, i));
        }
    }
    assert forall|h: Seq<char>| #[trigger] pins(w).dom().contains(h) implies pins(w)[h]
        == forgotten(pins(l), host)[h] by {
        let i = choose|i: int| lists(w, h, i);
        lemma_without_holds(l, host, w[i]);
        assert(w.contains(w[i]));
        let k = choose|k: int| 0 <= k < l.len() && l[k] == w[i];
        lemma_pin_at(w, i);
        lemma_pin_at(l, k);
    }
    assert(pins(w) =~= forgotten(pins(l), host));
}

/// What is left are the entries that are not of the host.
proof fn lemma_without_holds(l: Seq<HostEntry>, host: Seq<char>, e: HostEntry)
    ensures
        without(l, host).contains(e) == (l.contains(e) && !label_of(e.0, host)),
    decreases l.len(),
{
    if l.len() > 0 {
        let head = l.drop_last();
        lemma_without_holds(head, host, e);
        lemma_contains_last(l, e);
        if !label_of(l.last().0, host) {
            let w = without(l, host);
            assert(w.drop_last() =~= without(head, host));
            lemma_contains_last(w, e);
        }
    }
}

proof fn lemma_contains_last(l: Seq<HostEntry>, e: HostEntry)
    requires
        l.len() > 0,
    ensures
        l.contains(e) == (l.drop_last().contains(e) || l.last() == e),
{
    if l.contains(e) {
        let k = choose|k: int| 0 <= k < l.len() && l[k] == e;
        if k < l.len() - 1 {
            assert(l.drop_last()[k] == e);
        }
    }
    if l.drop_last().contains(e) {
        let k = choose|k: int| 0 <= k < l.drop_last().len() && l.drop_last()[k] == e;
        assert(l[k] == e);
    }
    if l.last() == e {
        assert(l[l.len() - 1] == e);
    }
}

proof fn lemma_without_sorted(l: Seq<HostEntry>, host: Seq<char>)
    requires
        sorted(l),
    ensures
        sorted(without(l, host)),
    decreases l.len(),
{
    if l.len() > 0 {
        let head = l.drop_last();
        assert(sorted(head)) by {
            assert forall|i: int, j: int| 0 <= i < j < head.len() implies crate::order::before(
                (#[trigger] head[i]).0,
                (#[trigger] head[j]).0,
            ) by {
                assert(head[i] == l[i] && head[j] == l[j]);
            }
        }
        lemma_without_sorted(head, host);
        let v = without(head, host);
        if !label_of(l.last().0, host) {
            let w = v.push(l.last());
            assert forall|i: int, j: int| 0 <= i < j < w.len() implies crate::order::before(
                (#[trigger] w[i]).0,
                (#[trigger] w[j]).0,
            ) by {
                assert(w[i] == v[i]);
                if j < v.len() {
                    assert(w[j] == v[j]);
                } else {
                    lemma_without_holds(head, host, v[i]);
                    assert(v.contains(v[i]));
                    let k = choose|k: int| 0 <= k < head.len() && head[k] == v[i];
                    assert(l[k] == v[i]);
                    assert(l[l.len() - 1] == w[j]);
                }
            }
        }
    }
}

fn read_host(line: &Vec<char>) -> (r: Result<(String, PublicKey), AuthError>)
    ensures
        match host_of_line(line@) {
            Ok(e) => r matches Ok(x) && (x.0@, x.1@) == e,
            Err(e) => r matches Err(x) && x@ == e,
        },
{
    let n: usize = first_white(line);
    if n >= line.len() {
        return Err(AuthError::MalformedLine);
    }
    let rest: Vec<char> = part(line, n + 1, line.len());
    assert(rest@ =~= line@.skip(n + 1));
    let rest: Vec<char> = trim(&rest);
    let key: PublicKey = PublicKey::from_words(&words(&rest))?;
    let host: Vec<char> = part(line, 0, n);
    assert(host@ =~= line@.take(n as int));
    Ok((string_of(&host), key))
}

/// An error among the first lines is that of all lines.
proof fn lemma_first_bad_host(lines: Seq<Seq<char>>, k: int, n: int)
    requires
        0 <= k <= n <= lines.len(),
        pins_of(lines, k) is Err,
    ensures
        pins_of(lines, n) == pins_of(lines, k),
    decreases n - k,
{
    if k < n {
        lemma_first_bad_host(lines, k, n - 1);
    }
}

proof fn lemma_pin_at(l: Seq<HostEntry>, i: int)
    requires
        sorted(l),
        0 <= i < l.len(),
    ensures
        pins(l).dom().contains(l[i].0),
        pins(l)[l[i].0] == l[i].1,
{
    let host = l[i].0;
    assert(lists(l, host, i));
    let j = choose|j: int| lists(l, host, j);
    assert(lists(l, host, j));
    crate::order::lemma_irreflexive(host);
    assert(i == j);
}

proof fn lemma_not_pinned(l: Seq<HostEntry>, host: Seq<char>, i: int)
    requires
        0 <= i <= l.len(),
        forall|j: int| 0 <= j < i ==> crate::order::before((#[trigger] l[j]).0, host),
        forall|j: int| i <= j < l.len() ==> crate::order::before(host, (#[trigger] l[j]).0),
    ensures
        !pins(l).dom().contains(host),
{
    crate::order::lemma_irreflexive(host);
}

proof fn lemma_pins_replaced(l: Seq<HostEntry>, i: int, key: Seq<u8>)
    requires
        sorted(l),
        0 <= i < l.len(),
    ensures
        sorted(l.update(i, (l[i].0, key))),
        pins(l.update(i, (l[i].0, key))) == pins(l).insert(l[i].0, key),
{
    let host = l[i].0;
    let m = l.update(i, (host, key));
    assert(sorted(m)) by {
        assert forall|a: int, b: int| 0 <= a < b < m.len() implies crate::order::before(
            (#[trigger] m[a]).0,
            (#[trigger] m[b]).0,
        ) by {
            assert(m[a].0 == l[a].0 && m[b].0 == l[b].0);
        }
    }
    let p = pins(l).insert(host, key);
    assert forall|h: Seq<char>| pins(m).dom().contains(h) == p.dom().contains(h) by {
        if pins(m).dom().contains(h) {
            let j = choose|j: int| lists(m, h, j);
            assert(lists(l, h, j));
        }
        if p.dom().contains(h) {
            if h == host {
                assert(lists(m, h, i));
            } else {
                let j = choose|j: int| lists(l, h, j);
                assert(lists(m, h, j));
            }
        }
    }
    assert forall|h: Seq<char>| pins(m).dom().contains(h) implies #[trigger] pins(m)[h] == p[h] by {
        let j = choose|j: int| lists(m, h, j);
        lemma_pin_at(m, j);
        lemma_pin_at(l, j);
        lemma_pin_at(m, i);
    }
    assert(pins(m) =~= p);
}

proof fn lemma_pins_inserted(l: Seq<HostEntry>, i: int, e: HostEntry)
    requires
        sorted(l),
        0 <= i <= l.len(),
        forall|j: int| 0 <= j < i ==> crate::order::before((#[trigger] l[j]).0, e.0),
        forall|j: int| i <= j < l.len() ==> crate::order::before(e.0, (#[trigger] l[j]).0),
    ensures
        sorted(l.insert(i, e)),
        pins(l.insert(i, e)) == pins(l).insert(e.0, e.1),
{
    let m = l.insert(i, e);
    assert forall|a: int| 0 <= a < m.len() implies #[trigger] m[a] == if a < i {
        l[a]
    } else if a == i {
        e
    } else {
        l[a - 1]
    } by {}
    assert(sorted(m)) by {
        assert forall|a: int, b: int| 0 <= a < b < m.len() implies crate::order::before(
            (#[trigger] m[a]).0,
            (#[trigger] m[b]).0,
        ) by {}
    }
    let p = pins(l).insert(e.0, e.1);
    assert forall|h: Seq<char>| pins(m).dom().contains(h) == p.dom().contains(h) by {
        if pins(m).dom().contains(h) {
            let j = choose|j: int| lists(m, h, j);
            if j < i {
                assert(lists(l, h, j));
            } else if j > i {
                assert(lists(l, h, j - 1));
            }
        }
        if p.dom().contains(h) {
            if h == e.0 {
                assert(lists(m, h, i));
            } else {
                let j = choose|j: int| lists(l, h, j);
                if j < i {
                    assert(lists(m, h, j));
                } else {
                    assert(lists(m, h, j + 1));
                }
            }
        }
    }
    assert forall|h: Seq<char>| pins(m).dom().contains(h) implies #[trigger] pins(m)[h] == p[h] by {
        let j = choose|j: int| lists(m, h, j);
        lemma_pin_at(m, j);
        crate::order::lemma_irreflexive(e.0);
        if j < i {
            lemma_pin_at(l, j);
        } else if j > i {
            lemma_pin_at(l, j - 1);
        }
    }
    assert(pins(m) =~= p);
}

// ---------------------------------------------------------------------------
// Laws
// ---------------------------------------------------------------------------

/// The key of an entry can be read back from its text.
spec fn legible(e: HostEntry) -> bool {
    key_of_text(key_text(e.1)) == Ok::<Seq<u8>, AuthErrorView>(e.1) && crate::text::plain(
        base64_text(e.1),
    )
}

proof fn lemma_host_line(e: HostEntry)
    requires
        host_name(e.0),
        legible(e),
    ensures
        crate::text::trimmed(host_line(e)) == host_line(e),
        !is_remark(host_line(e)),
        host_of_line(host_line(e)) == Ok::<HostEntry, AuthErrorView>(e),
        forall|i: int| 0 <= i < host_line(e).len() ==> host_line(e)[i] != '\n',
        host_line(e).len() > 0,
        host_line(e).last() != '\r',
{
    let line = host_line(e);
    let k = key_text(e.1);
    let b = base64_text(e.1);
    reveal_strlit(" ");
    lemma_key_type_plain();
    assert(k[0] == KEY_TYPE@[0]);
    assert(k.last() == b.last());
    assert(line.last() == b.last());
    assert(line[0] == e.0[0]);
    crate::text::lemma_trimmed_same(line);
    crate::text::lemma_trimmed_same(k);
    let n = e.0.len() as int;
    assert forall|i: int| 0 <= i < n implies !crate::text::white(#[trigger] line[i]) by {
        assert(line[i] == e.0[i]);
    }
    assert(line[n] == ' ');
    crate::text::lemma_word_len_is(line, n);
    assert(line.take(n) =~= e.0);
    assert(line.skip(n + 1) =~= k);
    assert forall|i: int| 0 <= i < line.len() implies line[i] != '\n' by {
        let t = KEY_TYPE@.len();
        if i < n {
            assert(line[i] == e.0[i]);
        } else if i > n {
            let j = i - n - 1;
            assert(line[i] == k[j]);
            if j < t {
                assert(k[j] == KEY_TYPE@[j]);
            } else if j > t {
                assert(k[j] == b[j - t - 1]);
            }
        }
    }
}

proof fn lemma_lines_of_hosts(l: Seq<HostEntry>)
    requires
        forall|j: int| 0 <= j < l.len() ==> host_name((#[trigger] l[j]).0) && legible(l[j]),
    ensures
        crate::text::lines_of(hosts_text(l)) == Seq::new(l.len(), |j: int| host_line(l[j])),
    decreases l.len(),
{
    if l.len() > 0 {
        let rest = l.skip(1);
        lemma_host_line(l[0]);
        assert forall|j: int| 0 <= j < rest.len() implies host_name((#[trigger] rest[j]).0)
            && legible(rest[j]) by {
            assert(rest[j] == l[j + 1]);
        }
        lemma_lines_of_hosts(rest);
        crate::text::lemma_lines_cons(host_line(l[0]), hosts_text(rest));
        assert(crate::text::lines_of(hosts_text(l)) =~= Seq::new(
            l.len(),
            |j: int| host_line(l[j]),
        ));
    } else {
        assert(crate::text::lines_of(hosts_text(l)) =~= Seq::new(
            l.len(),
            |j: int| host_line(l[j]),
        ));
    }
}

proof fn lemma_pins_of_hosts(l: Seq<HostEntry>, n: int)
    requires
        sorted(l),
        0 <= n <= l.len(),
        forall|j: int| 0 <= j < l.len() ==> host_name((#[trigger] l[j]).0) && legible(l[j]),
    ensures
        pins_of(Seq::new(l.len(), |j: int| host_line(l[j])), n) == Ok::<Pins, AuthErrorView>(
            pins(l.take(n)),
        ),
    decreases n,
{
    if n == 0 {
        assert(pins(l.take(0)) =~= Map::empty());
    } else {
        lemma_pins_of_hosts(l, n - 1);
        let e = l[n - 1];
        lemma_host_line(e);
        let before = l.take(n - 1);
        lemma_pins_inserted(before, n - 1, e);
        assert(before.insert(n - 1, e) =~= l.take(n));
    }
}

proof fn lemma_hosts_roundtrip(l: Seq<HostEntry>)
    requires
        sorted(l),
        forall|j: int| 0 <= j < l.len() ==> host_name((#[trigger] l[j]).0) && legible(l[j]),
    ensures
        pins_of_text(hosts_text(l)) == Ok::<Pins, AuthErrorView>(pins(l)),
{
    lemma_lines_of_hosts(l);
    lemma_pins_of_hosts(l, l.len() as int);
    assert(l.take(l.len() as int) =~= l);
}

/// A host is new once: when its key was recorded, or seen before, the same key
/// matches, and any other key is a mismatch, whatever keys other hosts and the
/// host itself present in between.
pub proof fn law_tofu(p: Pins, host: Seq<char>, key: Seq<u8>, other: Seq<char>, shown: Seq<u8>)
    ensures
        trusted(p, host, key) == Tofu::New ==> trusted(remembered(p, host, key), host, key)
            == Tofu::Match,
        p.dom().contains(host) ==> {
            &&& remembered(p, other, shown).dom().contains(host)
            &&& remembered(p, other, shown)[host] == p[host]
            &&& trusted(remembered(p, other, shown), host, key) == trusted(p, host, key)
            &&& trusted(p, host, key) == if p[host] == key {
                Tofu::Match
            } else {
                Tofu::Mismatch
            }
        },
{
}

/// Where every line can be read, reading with and without skipping gives the same
/// pins.
pub proof fn law_lenient_reads_alike(lines: Seq<Seq<char>>, n: int)
    requires
        0 <= n <= lines.len(),
        pins_of(lines, n) is Ok,
    ensures
        pins_of(lines, n) == Ok::<Pins, AuthErrorView>(legible_pins_of(lines, n)),
    decreases n,
{
    if n > 0 {
        law_lenient_reads_alike(lines, n - 1);
    }
}

/// A bad line among those of a file changes nothing of what the others state.
pub proof fn law_bad_line_is_skipped(lines: Seq<Seq<char>>, k: int, n: int)
    requires
        0 <= k < n <= lines.len(),
        host_of_line(crate::text::trimmed(lines[k])) is Err,
    ensures
        legible_pins_of(lines, n) == legible_pins_of(lines.remove(k), n - 1),
    decreases n,
{
    if n - 1 > k {
        law_bad_line_is_skipped(lines, k, n - 1);
        assert(lines.remove(k)[n - 2] == lines[n - 1]);
    } else {
        lemma_same_front(lines, lines.remove(k), k);
    }
}

proof fn lemma_same_front(a: Seq<Seq<char>>, b: Seq<Seq<char>>, n: int)
    requires
        0 <= n <= a.len(),
        n <= b.len(),
        forall|i: int| 0 <= i < n ==> a[i] == b[i],
    ensures
        legible_pins_of(a, n) == legible_pins_of(b, n),
    decreases n,
{
    if n > 0 {
        lemma_same_front(a, b, n - 1);
    }
}

/// A mismatch, like a match, leaves every pin as it was.
pub proof fn law_mismatch_keeps_pins(p: Pins, host: Seq<char>, key: Seq<u8>)
    requires
        trusted(p, host, key) != Tofu::New,
    ensures
        remembered(p, host, key) == p,
{
}

/// A host is forgotten under its name and under its name with any port, and no other
/// host is forgotten with it.
pub proof fn law_forget_host(p: Pins, host: Seq<char>, other: Seq<char>, port: u16)
    requires
        forall|i: int| 0 <= i < host.len() ==> host[i] != ':',
        forall|i: int| 0 <= i < other.len() ==> other[i] != ':',
        other != host,
    ensures
        ({
            let d = crate::text::decimal(port as nat);
            let q = forgotten(p, host);
            &&& !q.dom().contains(host)
            &&& !q.dom().contains(host + ":"@ + d)
            &&& q.dom().contains(other) == p.dom().contains(other)
            &&& q.dom().contains(other + ":"@ + d) == p.dom().contains(other + ":"@ + d)
            &&& p.dom().contains(other) ==> q[other] == p[other]
            &&& p.dom().contains(other + ":"@ + d) ==> q[other + ":"@ + d] == p[other + ":"@ + d]
        }),
{
    lemma_label(host, host, port);
    lemma_label(other, host, port);
}

proof fn lemma_label(name: Seq<char>, host: Seq<char>, port: u16)
    requires
        forall|i: int| 0 <= i < host.len() ==> host[i] != ':',
        forall|i: int| 0 <= i < name.len() ==> name[i] != ':',
    ensures
        label_of(name, host) == (name == host),
        label_of(name + ":"@ + crate::text::decimal(port as nat), host) == (name == host),
{
    reveal_strlit(":");
    let d = crate::text::decimal(port as nat);
    crate::text::law_decimal_roundtrip(port as nat, u16::MAX as nat);
    let l = name + ":"@ + d;
    let k = name.len() as int;
    assert forall|j: int| k < j < l.len() implies l[j] != ':' by {
        assert(l[j] == d[j - k - 1]);
    }
    assert(l[k] == ':');
    lemma_last_colon(l, k, l.len() as int);
    assert(l.take(k) =~= name);
    if l == host {
        assert(host[k] == ':');
    }
    lemma_no_colon(name, k);
}

proof fn lemma_last_colon(s: Seq<char>, at: int, n: int)
    requires
        0 <= at < n <= s.len(),
        s[at] == ':',
        forall|j: int| at < j < n ==> s[j] != ':',
    ensures
        crate::text::last_place(s, ':', n) == Some(at),
    decreases n - at,
{
    if at < n - 1 {
        lemma_last_colon(s, at, n - 1);
    }
}

proof fn lemma_no_colon(s: Seq<char>, n: int)
    requires
        n <= s.len(),
        forall|j: int| 0 <= j < n ==> s[j] != ':',
    ensures
        crate::text::last_place(s, ':', n) is None,
    decreases n,
{
    if n > 0 {
        lemma_no_colon(s, n - 1);
    }
}

/// A line of a key's type and its base64 form authorizes the key, under the word that
/// follows; what follows that word does not count. A remark and an empty line authorize
/// none, and a line of another type is refused by its type.
pub proof fn law_authorized_line(key: Seq<u8>, comment: Seq<char>, more: Seq<char>, kind: Seq<char>)
    requires
        key.len() == 32,
        base64_bytes(base64_text(key)) == Some(key),
        crate::text::plain(base64_text(key)),
        crate::text::plain(comment),
        crate::text::plain(more),
        crate::text::plain(kind),
        kind != KEY_TYPE@,
    ensures
        entry_of(key_text(key)) == Ok::<KeyEntry, AuthErrorView>((key, Seq::empty())),
        entry_of(key_text(key) + " "@ + comment) == Ok::<KeyEntry, AuthErrorView>((key, comment)),
        entry_of(key_text(key) + " "@ + comment + " "@ + more) == Ok::<KeyEntry, AuthErrorView>(
            (key, comment),
        ),
        entry_of(kind + " "@ + base64_text(key)) == Err::<KeyEntry, AuthErrorView>(
            AuthErrorView::BadKeyType(kind),
        ),
        entry_of(KEY_TYPE@) == Err::<KeyEntry, AuthErrorView>(AuthErrorView::MalformedLine),
        is_remark(Seq::empty()),
        is_remark(seq!['#'] + more),
        !is_remark(key_text(key)),
{
    reveal_strlit(" ");
    reveal_strlit("noissh-x25519");
    let b = base64_text(key);
    let t = KEY_TYPE@;
    lemma_key_type_plain();
    crate::text::lemma_trimmed_same(b);
    crate::text::lemma_two_words(t, b);
    crate::text::lemma_two_words(kind, b);
    crate::text::lemma_words_plain(t);
    crate::text::lemma_two_words(b, comment);
    let one = b + " "@ + comment;
    crate::text::lemma_words_after_space(' ', one);
    crate::text::lemma_words_cons(t, seq![' '] + one);
    assert(key_text(key) + " "@ + comment =~= t + (seq![' '] + one));
    assert(crate::text::words_of(t + (seq![' '] + one)) =~= seq![t, b, comment]);
    crate::text::lemma_two_words(comment, more);
    let two = comment + " "@ + more;
    crate::text::lemma_words_after_space(' ', two);
    crate::text::lemma_words_cons(b, seq![' '] + two);
    let three = b + (seq![' '] + two);
    crate::text::lemma_words_after_space(' ', three);
    crate::text::lemma_words_cons(t, seq![' '] + three);
    assert(key_text(key) + " "@ + comment + " "@ + more =~= t + (seq![' '] + three));
    assert(crate::text::words_of(t + (seq![' '] + three)) =~= seq![t, b, comment, more]);
    assert(key_text(key)[0] == t[0]);
}

/// A line that states no key does not keep the others from counting, where such lines
/// are passed over; where they are not, the first of them is the error.
pub proof fn law_bad_entry(lines: Seq<Seq<char>>, n: int)
    requires
        0 < n <= lines.len(),
    ensures
        ({
            let line = crate::text::trimmed(lines[n - 1]);
            let bad = !is_remark(line) && entry_of(line) is Err;
            &&& bad || is_remark(line) ==> entries_of(lines, n) == entries_of(lines, n - 1)
            &&& !bad && !is_remark(line) ==> entries_of(lines, n) == entries_of(lines, n - 1).push(
                entry_of(line)->Ok_0,
            )
            &&& strict_entries_of(lines, n) is Ok ==> strict_entries_of(lines, n)->Ok_0
                == entries_of(lines, n)
            &&& bad ==> strict_entries_of(lines, n) is Err
            &&& bad && strict_entries_of(lines, n - 1) is Ok ==> strict_entries_of(lines, n)->Err_0
                == entry_of(line)->Err_0
            &&& strict_entries_of(lines, n - 1) is Err ==> strict_entries_of(lines, n)
                == strict_entries_of(lines, n - 1)
        }),
    decreases n,
{
    if n > 1 {
        law_bad_entry(lines, n - 1);
    }
}

} // verus!
