//! Text as sequences of characters.

use vstd::prelude::*;
use vstd::slice::{slice_subrange, slice_to_vec};

verus! {

/// `String::push`: the character is appended to the text.
pub assume_specification[ String::push ](s: &mut String, c: char)
    ensures
        final(s)@ == old(s)@.push(c),
;

/// `String::push_str`: the text is appended.
pub assume_specification[ String::push_str ](s: &mut String, other: &str)
    ensures
        final(s)@ == old(s)@ + other@,
;

/// `std::str::from_utf8`: the text that bytes encode, if they are UTF-8.
#[verifier::external_body]
pub(crate) fn utf8_text(bytes: &[u8]) -> (r: Option<String>)
    ensures
        r is Some <==> vstd::utf8::valid_utf8(bytes@),
        r matches Some(s) ==> s@ == vstd::utf8::decode_utf8(bytes@),
{
    match std::str::from_utf8(bytes) {
        Ok(s) => Some(String::from(s)),
        Err(_) => None,
    }
}

/// The text of bytes of which some may not be UTF-8.
pub uninterp spec fn lossy_text(bytes: Seq<u8>) -> Seq<char>;

/// `String::from_utf8_lossy`: the text that bytes encode. What stands in the place
/// of bytes that are not UTF-8 is not stated.
#[verifier::external_body]
pub(crate) fn lossy(bytes: &[u8]) -> (r: String)
    ensures
        r@ == lossy_text(bytes@),
        vstd::utf8::valid_utf8(bytes@) ==> r@ == vstd::utf8::decode_utf8(bytes@),
{
    String::from_utf8_lossy(bytes).into_owned()
}

/// A text in small letters.
pub uninterp spec fn lowercase_of(text: Seq<char>) -> Seq<char>;

/// `str::to_lowercase`: the text in small letters, as Unicode has them.
#[verifier::external_body]
pub(crate) fn lowercase(text: &str) -> (r: String)
    ensures
        r@ == lowercase_of(text@),
{
    text.to_lowercase()
}

/// The characters that count as white space.
pub open spec fn white(c: char) -> bool {
    ||| '\u{9}' <= c <= '\u{d}'
    ||| c == '\u{20}'
    ||| c == '\u{85}'
    ||| c == '\u{a0}'
    ||| c == '\u{1680}'
    ||| '\u{2000}' <= c <= '\u{200a}'
    ||| c == '\u{2028}'
    ||| c == '\u{2029}'
    ||| c == '\u{202f}'
    ||| c == '\u{205f}'
    ||| c == '\u{3000}'
}

/// Whether a character is white space.
pub fn is_white(c: char) -> (r: bool)
    ensures
        r == white(c),
{
    ('\u{9}' <= c && c <= '\u{d}') || c == '\u{20}' || c == '\u{85}' || c == '\u{a0}' || c == '\u{1680}'
        || ('\u{2000}' <= c && c <= '\u{200a}') || c == '\u{2028}' || c == '\u{2029}' || c == '\u{202f}'
        || c == '\u{205f}' || c == '\u{3000}'
}

/// Without the white space at the end.
pub open spec fn trimmed_end(s: Seq<char>) -> Seq<char>
    decreases s.len(),
{
    if s.len() > 0 && white(s.last()) {
        trimmed_end(s.drop_last())
    } else {
        s
    }
}

/// Without the white space at the start.
pub open spec fn trimmed_start(s: Seq<char>) -> Seq<char>
    decreases s.len(),
{
    if s.len() > 0 && white(s[0]) {
        trimmed_start(s.skip(1))
    } else {
        s
    }
}

/// Without the white space at either end.
pub open spec fn trimmed(s: Seq<char>) -> Seq<char> {
    trimmed_end(trimmed_start(s))
}

/// The characters of a text.
pub fn chars_of(s: &str) -> (out: Vec<char>)
    ensures
        out@ == s@,
{
    let mut out: Vec<char> = Vec::new();
    for c in it: s.chars()
        invariant
            out@ == it.seq().take(it.index()),
            it.seq() == s@,
    {
        out.push(c);
        assert(it.seq().take(it.index() + 1) =~= it.seq().take(it.index()).push(c));
    }
    assert(out@ =~= s@);
    out
}

/// The text of a run of characters.
pub fn string_of(chars: &[char]) -> (out: String)
    ensures
        out@ == chars@,
{
    let mut out: String = String::new();
    let mut i: usize = 0;
    while i < chars.len()
        invariant
            i <= chars.len(),
            out@ == chars@.take(i as int),
        decreases chars.len() - i,
    {
        out.push(chars[i]);
        assert(chars@.take(i + 1) =~= chars@.take(i as int).push(chars@[i as int]));
        i += 1;
    }
    assert(chars@.take(i as int) =~= chars@);
    out
}

/// Drop the white space at the end.
pub fn trim_end(chars: &mut Vec<char>)
    ensures
        final(chars)@ == trimmed_end(old(chars)@),
{
    let ghost whole = chars@;
    while chars.len() > 0 && is_white(chars[chars.len() - 1])
        invariant
            trimmed_end(chars@) == trimmed_end(whole),
        decreases chars@.len(),
    {
        let ghost before = chars@;
        chars.truncate(chars.len() - 1);
        assert(chars@ =~= before.drop_last());
    }
}

/// Drop the white space at the start.
pub fn trim_start(chars: &[char]) -> (out: Vec<char>)
    ensures
        out@ == trimmed_start(chars@),
{
    let mut i: usize = 0;
    assert(chars@.skip(0) =~= chars@);
    while i < chars.len() && is_white(chars[i])
        invariant
            i <= chars@.len(),
            trimmed_start(chars@.skip(i as int)) == trimmed_start(chars@),
        decreases chars@.len() - i,
    {
        assert(chars@.skip(i as int).skip(1) =~= chars@.skip(i + 1));
        i += 1;
    }
    let out: Vec<char> = slice_to_vec(slice_subrange(chars, i, chars.len()));
    assert(out@ =~= chars@.skip(i as int));
    out
}

/// Drop the white space at either end.
pub fn trim(chars: &[char]) -> (out: Vec<char>)
    ensures
        out@ == trimmed(chars@),
{
    let mut out: Vec<char> = trim_start(chars);
    trim_end(&mut out);
    out
}

/// The characters `from..to`.
pub fn part(chars: &[char], from: usize, to: usize) -> (out: Vec<char>)
    requires
        from <= to <= chars@.len(),
    ensures
        out@ == chars@.subrange(from as int, to as int),
{
    slice_to_vec(slice_subrange(chars, from, to))
}

/// Whether two runs of characters are the same.
pub fn same(a: &[char], b: &[char]) -> (r: bool)
    ensures
        r == (a@ == b@),
{
    if a.len() != b.len() {
        return false;
    }
    let mut i: usize = 0;
    while i < a.len()
        invariant
            i <= a@.len() == b@.len(),
            forall|j: int| 0 <= j < i ==> a@[j] == b@[j],
        decreases a@.len() - i,
    {
        if a[i] != b[i] {
            return false;
        }
        i += 1;
    }
    assert(a@ =~= b@);
    true
}

/// Whether a run of characters is the given text.
pub fn is_text(chars: &[char], text: &str) -> (r: bool)
    ensures
        r == (chars@ == text@),
{
    let other: Vec<char> = chars_of(text);
    same(chars, &other)
}

/// Whether a run of characters starts with the given text.
pub fn starts_with(chars: &[char], text: &str) -> (r: bool)
    ensures
        r == text@.is_prefix_of(chars@),
{
    let other: Vec<char> = chars_of(text);
    if other.len() > chars.len() {
        return false;
    }
    let head: Vec<char> = part(chars, 0, other.len());
    same(&head, &other)
}

/// The first place of `c` from `from` on.
pub open spec fn find_from(s: Seq<char>, c: char, from: int) -> Option<int>
    decreases s.len() - from,
{
    if from >= s.len() {
        None
    } else if s[from] == c {
        Some(from)
    } else {
        find_from(s, c, from + 1)
    }
}

/// What the search for a character finds is its first place.
pub proof fn lemma_find_from(s: Seq<char>, c: char, from: int)
    requires
        0 <= from,
    ensures
        find_from(s, c, from) matches Some(i) ==> from <= i < s.len() && s[i] == c && forall|j: int|
            from <= j < i ==> s[j] != c,
        find_from(s, c, from) is None ==> forall|j: int| from <= j < s.len() ==> s[j] != c,
    decreases s.len() - from,
{
    if from < s.len() && s[from] != c {
        lemma_find_from(s, c, from + 1);
    }
}

/// A character that stands at `i` and nowhere before is found there.
pub proof fn lemma_found_at(s: Seq<char>, c: char, from: int, i: int)
    requires
        0 <= from <= i < s.len(),
        s[i] == c,
        forall|j: int| from <= j < i ==> s[j] != c,
    ensures
        find_from(s, c, from) == Some(i),
    decreases i - from,
{
    if from < i {
        lemma_found_at(s, c, from + 1, i);
    }
}

/// The last place of `c` among the first `n` characters.
pub open spec fn last_place(s: Seq<char>, c: char, n: int) -> Option<int>
    decreases n,
{
    if n <= 0 {
        None
    } else if s[n - 1] == c {
        Some(n - 1)
    } else {
        last_place(s, c, n - 1)
    }
}

/// Find the last place of `c`.
pub fn find_last(chars: &[char], c: char) -> (r: Option<usize>)
    ensures
        match last_place(chars@, c, chars@.len() as int) {
            Some(i) => r matches Some(k) && k == i && i < chars@.len(),
            None => r is None,
        },
{
    let mut n: usize = chars.len();
    while n > 0
        invariant
            n <= chars@.len(),
            last_place(chars@, c, chars@.len() as int) == last_place(chars@, c, n as int),
        decreases n,
    {
        if chars[n - 1] == c {
            return Some(n - 1);
        }
        n -= 1;
    }
    None
}

/// A text stands somewhere in another.
pub open spec fn holds(s: Seq<char>, part: Seq<char>) -> bool {
    exists|i: int| part_at(s, part, i)
}

/// A text stands in another, from `i` on.
pub open spec fn part_at(s: Seq<char>, part: Seq<char>, i: int) -> bool {
    0 <= i <= s.len() - part.len() && s.subrange(i, i + part.len()) == part
}

/// Whether a text stands somewhere in another.
pub fn contains(chars: &[char], text: &str) -> (r: bool)
    ensures
        r == holds(chars@, text@),
{
    let other: Vec<char> = chars_of(text);
    if other.len() > chars.len() {
        return false;
    }
    let mut i: usize = 0;
    while i <= chars.len() - other.len()
        invariant
            other@ == text@,
            i <= chars@.len() - other@.len() + 1,
            other@.len() <= chars@.len(),
            forall|j: int| 0 <= j < i ==> !part_at(chars@, other@, j),
        decreases chars@.len() - other@.len() + 1 - i,
    {
        let piece: Vec<char> = part(chars, i, i + other.len());
        if same(&piece, &other) {
            assert(part_at(chars@, other@, i as int));
            return true;
        }
        if i == chars.len() - other.len() {
            return false;
        }
        i += 1;
    }
    false
}

/// A character with its ASCII capital made small.
pub open spec fn small(c: char) -> char {
    if 'A' <= c && c <= 'Z' {
        (c as u32 + 32) as char
    } else {
        c
    }
}

/// A text with its ASCII capitals made small.
pub open spec fn lowered(s: Seq<char>) -> Seq<char> {
    Seq::new(s.len(), |i: int| small(s[i]))
}

/// Make ASCII capitals small.
pub fn lower(chars: &[char]) -> (out: Vec<char>)
    ensures
        out@ == lowered(chars@),
{
    let mut out: Vec<char> = Vec::new();
    let mut i: usize = 0;
    while i < chars.len()
        invariant
            i <= chars@.len(),
            out@ == lowered(chars@).take(i as int),
        decreases chars@.len() - i,
    {
        let c: char = chars[i];
        if 'A' <= c && c <= 'Z' {
            out.push((c as u8 + 32) as char);
        } else {
            out.push(c);
        }
        assert(out@ =~= lowered(chars@).take(i + 1));
        i += 1;
    }
    assert(out@ =~= lowered(chars@));
    out
}

/// Find the first place of `c` from `from` on.
pub fn find(chars: &[char], c: char, from: usize) -> (r: Option<usize>)
    ensures
        match find_from(chars@, c, from as int) {
            Some(i) => r matches Some(k) && k == i && from <= i < chars@.len(),
            None => r is None,
        },
{
    let mut i: usize = from;
    while i < chars.len()
        invariant
            from <= i,
            find_from(chars@, c, i as int) == find_from(chars@, c, from as int),
        decreases chars@.len() - i,
    {
        if chars[i] == c {
            return Some(i);
        }
        i += 1;
    }
    None
}

// ---------------------------------------------------------------------------
// Lines and words
// ---------------------------------------------------------------------------

/// Runs of characters as sequences.
pub open spec fn views(v: Seq<Vec<char>>) -> Seq<Seq<char>> {
    Seq::new(v.len(), |i: int| v[i]@)
}

/// Without a carriage return at the end.
pub open spec fn without_cr(s: Seq<char>) -> Seq<char> {
    if s.len() > 0 && s.last() == '\r' {
        s.drop_last()
    } else {
        s
    }
}

/// The lines of a text. A line ends in a line feed, with or without a carriage
/// return before it; the last line may lack it.
pub open spec fn lines_of(s: Seq<char>) -> Seq<Seq<char>>
    decreases s.len(),
{
    match find_from(s, '\n', 0) {
        Some(i) => if 0 <= i < s.len() {
            seq![without_cr(s.take(i))] + lines_of(s.skip(i + 1))
        } else {
            Seq::empty()
        },
        None => if s.len() == 0 {
            Seq::empty()
        } else {
            seq![s]
        },
    }
}

/// How many characters stand before the first white space.
pub open spec fn word_len(s: Seq<char>) -> int
    decreases s.len(),
{
    if s.len() == 0 || white(s[0]) {
        0
    } else {
        1 + word_len(s.skip(1))
    }
}

/// The length of a word lies within the text.
pub proof fn lemma_word_len(s: Seq<char>)
    ensures
        0 <= word_len(s) <= s.len(),
        s.len() > 0 && !white(s[0]) ==> word_len(s) > 0,
        forall|i: int| 0 <= i < word_len(s) ==> !white(#[trigger] s[i]),
        word_len(s) < s.len() ==> white(s[word_len(s)]),
    decreases s.len(),
{
    if s.len() > 0 && !white(s[0]) {
        let t = s.skip(1);
        lemma_word_len(t);
        assert forall|i: int| 0 <= i < word_len(s) implies !white(#[trigger] s[i]) by {
            if i > 0 {
                assert(s[i] == t[i - 1]);
            }
        }
        assert(word_len(s) < s.len() ==> s[word_len(s)] == t[word_len(t)]);
    }
}

/// How many characters stand before the first white space.
pub fn first_white(chars: &[char]) -> (n: usize)
    ensures
        n == word_len(chars@),
        n <= chars@.len(),
{
    let mut n: usize = 0;
    while n < chars.len() && !is_white(chars[n])
        invariant
            n <= chars@.len(),
            forall|i: int| 0 <= i < n ==> !white(#[trigger] chars@[i]),
        decreases chars@.len() - n,
    {
        n += 1;
    }
    proof {
        lemma_word_len_is(chars@, n as int);
    }
    n
}

/// Trimming at the start leaves a text that does not start with white space
/// and is no longer.
pub proof fn lemma_trimmed_start(s: Seq<char>)
    ensures
        trimmed_start(s).len() <= s.len(),
        trimmed_start(s).len() > 0 ==> !white(trimmed_start(s)[0]),
    decreases s.len(),
{
    if s.len() > 0 && white(s[0]) {
        lemma_trimmed_start(s.skip(1));
    }
}

/// The words of a text: what stands between white space.
pub open spec fn words_of(s: Seq<char>) -> Seq<Seq<char>>
    decreases s.len(),
{
    let t = trimmed_start(s);
    if t.len() == 0 {
        Seq::empty()
    } else {
        proof {
            lemma_trimmed_start(s);
            lemma_word_len(t);
        }
        seq![t.take(word_len(t))] + words_of(t.skip(word_len(t)))
    }
}

fn push_run(out: &mut Vec<Vec<char>>, run: Vec<char>)
    ensures
        views(final(out)@) == views(old(out)@).push(run@),
{
    let ghost before = out@;
    out.push(run);
    assert(views(out@) =~= views(before).push(run@));
}

/// Split a text into lines.
pub fn lines(chars: &[char]) -> (out: Vec<Vec<char>>)
    ensures
        views(out@) == lines_of(chars@),
{
    let mut out: Vec<Vec<char>> = Vec::new();
    let mut from: usize = 0;
    assert(chars@.skip(0) =~= chars@);
    assert(views(out@) + lines_of(chars@) =~= lines_of(chars@));
    while from < chars.len()
        invariant
            from <= chars@.len(),
            views(out@) + lines_of(chars@.skip(from as int)) == lines_of(chars@),
        decreases chars@.len() - from,
    {
        let ghost rest = chars@.skip(from as int);
        let ghost seen = views(out@);
        proof {
            lemma_find_from(chars@, '\n', from as int);
        }
        match find(chars, '\n', from) {
            Some(i) => {
                let mut end: usize = i;
                if end > from && chars[end - 1] == '\r' {
                    end -= 1;
                }
                let line: Vec<char> = part(chars, from, end);
                let ghost l = line@;
                proof {
                    lemma_found_at(rest, '\n', 0, i - from);
                    assert(l =~= without_cr(rest.take(i - from)));
                    assert(rest.skip(i - from + 1) =~= chars@.skip(i + 1));
                }
                push_run(&mut out, line);
                from = i + 1;
                assert(views(out@) + lines_of(chars@.skip(from as int)) =~= seen + lines_of(rest));
            },
            None => {
                let line: Vec<char> = part(chars, from, chars.len());
                let ghost l = line@;
                proof {
                    lemma_find_from(rest, '\n', 0);
                    if let Some(i) = find_from(rest, '\n', 0) {
                        assert(chars@[from + i] == rest[i]);
                    }
                    assert(l =~= rest);
                }
                push_run(&mut out, line);
                from = chars.len();
                assert(chars@.skip(from as int) =~= Seq::<char>::empty());
                assert(views(out@) + lines_of(chars@.skip(from as int)) =~= seen + lines_of(rest));
            },
        }
    }
    assert(chars@.skip(from as int) =~= Seq::<char>::empty());
    assert(views(out@) =~= lines_of(chars@));
    out
}

/// Split a text into words.
pub fn words(chars: &[char]) -> (out: Vec<Vec<char>>)
    ensures
        views(out@) == words_of(chars@),
{
    let mut out: Vec<Vec<char>> = Vec::new();
    let mut rest: Vec<char> = trim_start(chars);
    proof {
        lemma_trim_start_again(chars@);
        assert(views(out@) + words_of(rest@) =~= words_of(chars@));
    }
    while rest.len() > 0
        invariant
            trimmed_start(rest@) == rest@,
            views(out@) + words_of(rest@) == words_of(chars@),
        decreases rest@.len(),
    {
        let ghost before = rest@;
        let ghost seen = views(out@);
        let n: usize = first_white(&rest);
        let word: Vec<char> = part(&rest, 0, n);
        let ghost w = word@;
        proof {
            lemma_trimmed_start(before);
            lemma_word_len(before);
            assert(w =~= before.take(n as int));
        }
        push_run(&mut out, word);
        let tail: Vec<char> = part(&rest, n, rest.len());
        assert(tail@ =~= before.skip(n as int));
        rest = trim_start(&tail);
        proof {
            lemma_trimmed_start(tail@);
            lemma_trim_start_again(tail@);
            assert(views(out@) + words_of(rest@) =~= seen + words_of(before));
        }
    }
    assert(words_of(rest@) =~= Seq::<Seq<char>>::empty());
    assert(views(out@) =~= words_of(chars@));
    out
}

proof fn lemma_trim_start_again(s: Seq<char>)
    ensures
        trimmed_start(trimmed_start(s)) == trimmed_start(s),
        words_of(trimmed_start(s)) == words_of(s),
{
    lemma_trimmed_start(s);
}

// ---------------------------------------------------------------------------
// Decimal numbers
// ---------------------------------------------------------------------------

pub open spec fn is_digit(c: char) -> bool {
    '0' <= c <= '9'
}

/// The decimal digits of a number.
pub open spec fn decimal(n: nat) -> Seq<char>
    decreases n,
{
    if n < 10 {
        seq![('0' as u32 + n) as char]
    } else {
        decimal(n / 10).push(('0' as u32 + n % 10) as char)
    }
}

/// The number that decimal digits stand for.
pub open spec fn digits_value(s: Seq<char>) -> nat
    decreases s.len(),
{
    if s.len() == 0 {
        0
    } else {
        (10 * digits_value(s.drop_last()) + (s.last() as u32 - '0' as u32)) as nat
    }
}

pub open spec fn all_digits(s: Seq<char>) -> bool {
    s.len() > 0 && forall|i: int| 0 <= i < s.len() ==> is_digit(#[trigger] s[i])
}

/// The number that a text stands for, if it is at most `max`: decimal digits,
/// with or without a plus sign before them.
pub open spec fn parsed_number(s: Seq<char>, max: nat) -> Option<nat> {
    let digits = if s.len() > 0 && s[0] == '+' {
        s.skip(1)
    } else {
        s
    };
    if all_digits(digits) && digits_value(digits) <= max {
        Some(digits_value(digits))
    } else {
        None
    }
}

fn digit_char(d: u8) -> (c: char)
    requires
        d < 10,
    ensures
        c == ('0' as u32 + d) as char,
{
    ('0' as u8 + d) as char
}

/// The decimal digits of a number.
pub fn decimal_chars(n: u64) -> (out: Vec<char>)
    ensures
        out@ == decimal(n as nat),
    decreases n,
{
    if n < 10 {
        let mut out: Vec<char> = Vec::new();
        out.push(digit_char(n as u8));
        assert(out@ =~= decimal(n as nat));
        out
    } else {
        let mut out: Vec<char> = decimal_chars(n / 10);
        out.push(digit_char((n % 10) as u8));
        out
    }
}

proof fn lemma_value_grows(s: Seq<char>, n: int)
    requires
        all_digits(s),
        0 < n <= s.len(),
    ensures
        digits_value(s.take(n)) <= digits_value(s),
    decreases s.len(),
{
    if n < s.len() {
        assert(all_digits(s.drop_last()));
        lemma_value_grows(s.drop_last(), n);
        assert(s.drop_last().take(n) =~= s.take(n));
    } else {
        assert(s.take(n) =~= s);
    }
}

/// Read a decimal number of at most `max`.
pub fn parse_number(chars: &[char], max: u64) -> (r: Option<u64>)
    ensures
        match parsed_number(chars@, max as nat) {
            Some(v) => r matches Some(x) && x == v,
            None => r is None,
        },
{
    let from: usize = if chars.len() > 0 && chars[0] == '+' { 1 } else { 0 };
    let ghost digits = chars@.skip(from as int);
    assert(from == 0 ==> digits =~= chars@);
    if from == chars.len() {
        return None;
    }
    let mut value: u64 = 0;
    let mut i: usize = from;
    while i < chars.len()
        invariant
            from <= i <= chars@.len(),
            from < chars@.len(),
            digits == chars@.skip(from as int),
            parsed_number(chars@, max as nat) == (if all_digits(digits) && digits_value(digits) <= max {
                Some(digits_value(digits))
            } else {
                None::<nat>
            }),
            forall|j: int| 0 <= j < i - from ==> is_digit(#[trigger] digits[j]),
            value == digits_value(digits.take(i - from)),
            value <= max,
        decreases chars@.len() - i,
    {
        let c: char = chars[i];
        assert(digits[i - from] == c);
        if !('0' <= c && c <= '9') {
            return None;
        }
        let d: u64 = (c as u32 - '0' as u32) as u64;
        proof {
            let k = i - from;
            assert(digits.take(k + 1).drop_last() =~= digits.take(k));
            if all_digits(digits) {
                lemma_value_grows(digits, k + 1);
            }
        }
        if value > max / 10 || d > max - value * 10 {
            return None;
        }
        value = value * 10 + d;
        i += 1;
    }
    assert(digits.take(i - from) =~= digits);
    Some(value)
}

/// Append the decimal digits of a number.
pub fn push_decimal(out: &mut String, n: u64)
    ensures
        final(out)@ == old(out)@ + decimal(n as nat),
{
    let digits: Vec<char> = decimal_chars(n);
    let text: String = string_of(&digits);
    out.push_str(text.as_str());
}

/// Reading the decimal digits of a number gives the number.
pub proof fn law_decimal_roundtrip(n: nat, max: nat)
    requires
        n <= max,
    ensures
        parsed_number(decimal(n), max) == Some(n),
        all_digits(decimal(n)),
{
    lemma_decimal(n);
}

proof fn lemma_decimal(n: nat)
    ensures
        all_digits(decimal(n)),
        digits_value(decimal(n)) == n,
        decimal(n)[0] != '+',
    decreases n,
{
    if n < 10 {
        assert(decimal(n).drop_last() =~= Seq::<char>::empty());
        assert(digits_value(decimal(n).drop_last()) == 0);
    } else {
        lemma_decimal(n / 10);
        assert(decimal(n).drop_last() =~= decimal(n / 10));
    }
}

// ---------------------------------------------------------------------------
// Plain words
// ---------------------------------------------------------------------------

/// A word: some characters, none of them white space.
pub open spec fn plain(s: Seq<char>) -> bool {
    s.len() > 0 && forall|i: int| 0 <= i < s.len() ==> !white(#[trigger] s[i])
}

/// A text without white space at its ends is not changed by trimming.
pub proof fn lemma_trimmed_same(s: Seq<char>)
    requires
        s.len() > 0 ==> !white(s[0]) && !white(s.last()),
    ensures
        trimmed_start(s) == s,
        trimmed(s) == s,
{
}

/// The first word ends where white space begins.
pub proof fn lemma_word_len_is(s: Seq<char>, n: int)
    requires
        0 <= n <= s.len(),
        forall|i: int| 0 <= i < n ==> !white(#[trigger] s[i]),
        n < s.len() ==> white(s[n]),
    ensures
        word_len(s) == n,
{
    lemma_word_len(s);
    let m = word_len(s);
    if m < n {
        assert(!white(s[m]));
    } else if n < m {
        assert(!white(s[n]));
    }
}

/// The words of a word are the word itself.
pub proof fn lemma_words_plain(s: Seq<char>)
    requires
        plain(s),
    ensures
        words_of(s) == seq![s],
{
    assert(!white(s[0]));
    lemma_word_len_is(s, s.len() as int);
    assert(s.take(s.len() as int) =~= s);
    let rest = s.skip(s.len() as int);
    assert(rest =~= Seq::<char>::empty());
    assert(words_of(rest) =~= Seq::<Seq<char>>::empty());
    assert(words_of(s) =~= seq![s]);
}

/// A word in front of white space is the first of the words.
pub proof fn lemma_words_cons(a: Seq<char>, rest: Seq<char>)
    requires
        plain(a),
        rest.len() > 0,
        white(rest[0]),
    ensures
        words_of(a + rest) == seq![a] + words_of(rest),
{
    let s = a + rest;
    assert(s[0] == a[0]);
    assert forall|i: int| 0 <= i < a.len() implies !white(#[trigger] s[i]) by {
        assert(s[i] == a[i]);
    }
    assert(s[a.len() as int] == rest[0]);
    lemma_word_len_is(s, a.len() as int);
    assert(s.take(a.len() as int) =~= a);
    assert(s.skip(a.len() as int) =~= rest);
}

/// White space in front makes no difference to the words.
pub proof fn lemma_words_after_space(c: char, s: Seq<char>)
    requires
        white(c),
    ensures
        words_of(seq![c] + s) == words_of(s),
{
    let t = seq![c] + s;
    assert(t.skip(1) =~= s);
    assert(trimmed_start(t) == trimmed_start(s));
}

/// Two words with a blank between them.
pub proof fn lemma_two_words(a: Seq<char>, b: Seq<char>)
    requires
        plain(a),
        plain(b),
    ensures
        words_of(a + " "@ + b) == seq![a, b],
{
    reveal_strlit(" ");
    let rest = " "@ + b;
    assert(a + " "@ + b =~= a + rest);
    lemma_words_cons(a, rest);
    assert(rest =~= seq![' '] + b);
    lemma_words_after_space(' ', b);
    lemma_words_plain(b);
    assert(words_of(a + rest) =~= seq![a, b]);
}

/// A text that ends in a line feed and has none before is a line by itself.
pub proof fn lemma_lines_cons(line: Seq<char>, rest: Seq<char>)
    requires
        forall|i: int| 0 <= i < line.len() ==> line[i] != '\n',
        line.len() > 0 ==> line.last() != '\r',
    ensures
        lines_of(line.push('\n') + rest) == seq![line] + lines_of(rest),
{
    let s = line.push('\n') + rest;
    let n = line.len() as int;
    assert forall|j: int| 0 <= j < n implies s[j] != '\n' by {
        assert(s[j] == line[j]);
    }
    lemma_found_at(s, '\n', 0, n);
    assert(s.take(n) =~= line);
    assert(s.skip(n + 1) =~= rest);
}

// ---------------------------------------------------------------------------
// Laws
// ---------------------------------------------------------------------------

/// Every character is white space.
pub open spec fn all_white(s: Seq<char>) -> bool {
    forall|i: int| 0 <= i < s.len() ==> white(#[trigger] s[i])
}

/// Trimming takes off the white space at both ends, however much, and nothing else.
pub proof fn law_trimmed(a: Seq<char>, s: Seq<char>, b: Seq<char>)
    requires
        all_white(a),
        all_white(b),
        s.len() > 0,
        !white(s[0]),
        !white(s.last()),
    ensures
        trimmed(a + s + b) == s,
    decreases a.len() + b.len(),
{
    let t = a + s + b;
    if a.len() > 0 {
        let rest = a.skip(1);
        assert forall|i: int| 0 <= i < rest.len() implies white(#[trigger] rest[i]) by {
            assert(rest[i] == a[i + 1]);
        }
        assert(white(a[0]));
        assert(t[0] == a[0]);
        assert(t.skip(1) =~= rest + s + b);
        law_trimmed(rest, s, b);
    } else {
        assert(t =~= s + b);
        assert(t[0] == s[0]);
        lemma_end_trimmed(s, b);
    }
}

proof fn lemma_end_trimmed(s: Seq<char>, b: Seq<char>)
    requires
        all_white(b),
        s.len() > 0,
        !white(s.last()),
    ensures
        trimmed_end(s + b) == s,
    decreases b.len(),
{
    let t = s + b;
    if b.len() > 0 {
        let rest = b.drop_last();
        assert forall|i: int| 0 <= i < rest.len() implies white(#[trigger] rest[i]) by {
            assert(rest[i] == b[i]);
        }
        assert(white(b[b.len() - 1]));
        assert(t.last() == b[b.len() - 1]);
        assert(t.drop_last() =~= s + rest);
        lemma_end_trimmed(s, rest);
    } else {
        assert(t =~= s);
    }
}

/// A line ends in a line feed, or in a carriage return and a line feed; what follows is
/// read as it would be by itself. The last line needs no end.
pub proof fn law_lines(line: Seq<char>, rest: Seq<char>)
    requires
        line.len() > 0,
        forall|i: int| 0 <= i < line.len() ==> line[i] != '\n',
        line.last() != '\r',
    ensures
        lines_of(line) == seq![line],
        lines_of(line.push('\n') + rest) == seq![line] + lines_of(rest),
        lines_of(line.push('\r').push('\n') + rest) == seq![line] + lines_of(rest),
        lines_of(Seq::empty()) == Seq::<Seq<char>>::empty(),
{
    lemma_lines_cons(line, rest);
    lemma_find_from(line, '\n', 0);
    let s = line.push('\r').push('\n') + rest;
    let n = line.len() as int + 1;
    assert forall|j: int| 0 <= j < n implies s[j] != '\n' by {
        if j < line.len() {
            assert(s[j] == line[j]);
        }
    }
    lemma_found_at(s, '\n', 0, n);
    assert(s.take(n) =~= line.push('\r'));
    assert(line.push('\r').drop_last() =~= line);
    assert(s.skip(n + 1) =~= rest);
}

/// Words are what stands between white space, however much of it, and in their order.
pub proof fn law_words(word: Seq<char>, c: char, rest: Seq<char>)
    requires
        plain(word),
        white(c),
    ensures
        words_of(word) == seq![word],
        words_of(word + seq![c] + rest) == seq![word] + words_of(rest),
        words_of(seq![c] + rest) == words_of(rest),
        words_of(Seq::empty()) == Seq::<Seq<char>>::empty(),
{
    lemma_words_plain(word);
    lemma_words_after_space(c, rest);
    let r = seq![c] + rest;
    lemma_words_cons(word, r);
    assert(word + seq![c] + rest =~= word + r);
}

/// Making small changes the capital letters and no other character, and once is enough.
pub proof fn law_lowered(s: Seq<char>, i: int)
    requires
        0 <= i < s.len(),
    ensures
        lowered(s).len() == s.len(),
        'A' <= s[i] <= 'Z' ==> 'a' <= lowered(s)[i] <= 'z' && lowered(s)[i] as u32 - 'a' as u32
            == s[i] as u32 - 'A' as u32,
        !('A' <= s[i] <= 'Z') ==> lowered(s)[i] == s[i],
        lowered(lowered(s)) == lowered(s),
{
    let t = lowered(s);
    assert forall|k: int| 0 <= k < t.len() implies #[trigger] lowered(t)[k] == t[k] by {
        let c = s[k];
        if 'A' <= c && c <= 'Z' {
            assert(t[k] as u32 == c as u32 + 32);
        }
    }
    assert(lowered(t) =~= t);
}

/// A number is read from its digits, with or without a plus sign and with any zeros in
/// front, if it is not above the bound. A text with any other character, or none, is no
/// number.
pub proof fn law_numbers(n: nat, max: nat, s: Seq<char>, i: int)
    ensures
        n <= max ==> parsed_number(decimal(n), max) == Some(n),
        n <= max ==> parsed_number("+"@ + decimal(n), max) == Some(n),
        n <= max ==> parsed_number("0"@ + decimal(n), max) == Some(n),
        n > max ==> parsed_number(decimal(n), max) is None,
        parsed_number(Seq::empty(), max) is None,
        0 < i < s.len() && !('0' <= s[i] <= '9') ==> parsed_number(s, max) is None,
        s.len() > 0 && !('0' <= s[0] <= '9') && s[0] != '+' ==> parsed_number(s, max) is None,
{
    reveal_strlit("+");
    reveal_strlit("0");
    let d = decimal(n);
    lemma_decimal(n);
    assert(("+"@ + d).skip(1) =~= d);
    assert("0"@ =~= seq!['0']);
    let z = "0"@ + d;
    lemma_leading_zero(d);
    assert forall|j: int| 0 <= j < z.len() implies is_digit(#[trigger] z[j]) by {
        if j > 0 {
            assert(z[j] == d[j - 1]);
        }
    }
    if 0 < i < s.len() && !('0' <= s[i] <= '9') {
        assert(!is_digit(s[i]));
        if s[0] == '+' {
            assert(s.skip(1)[i - 1] == s[i]);
        }
    }
    if s.len() > 0 {
        assert(is_digit(s[0]) == ('0' <= s[0] <= '9'));
    }
}

proof fn lemma_leading_zero(d: Seq<char>)
    requires
        forall|i: int| 0 <= i < d.len() ==> is_digit(#[trigger] d[i]),
    ensures
        digits_value(seq!['0'] + d) == digits_value(d),
    decreases d.len(),
{
    let z = seq!['0'] + d;
    if d.len() == 0 {
        assert(z.drop_last() =~= Seq::<char>::empty());
        assert(digits_value(z.drop_last()) == 0);
        assert(z.last() == '0');
    } else {
        let e = d.drop_last();
        assert forall|i: int| 0 <= i < e.len() implies is_digit(#[trigger] e[i]) by {
            assert(e[i] == d[i]);
        }
        lemma_leading_zero(e);
        assert(z.drop_last() =~= seq!['0'] + e);
        assert(z.last() == d.last());
    }
}

} // verus!
