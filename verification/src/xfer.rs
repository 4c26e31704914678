//! File transfer: the request header carried in a stream's open metadata, and
//! what is shown of its progress.
//!
//! The byte stream that follows a request is the file contents (for `Put`) or
//! is sent back by the server (for `Get`). Integrity is guaranteed by the
//! reliable, authenticated stream; no separate checksum is required.

use crate::text::{chars_of, find, parse_number, part, push_decimal, starts_with, string_of, utf8_text};
use vstd::prelude::*;
use vstd::slice::slice_to_vec;

verus! {

/// A file-transfer request, encoded into the stream's open metadata.
#[derive(Debug, Clone, PartialEq, Eq)]
pub enum XferRequest {
    /// Upload: the client will send `size` bytes to be written at `path`.
    Put { path: String, size: u64 },
    /// Download: the server should send the contents of `path`.
    Get { path: String },
}

/// What a request says.
pub enum XferView {
    Put { path: Seq<char>, size: u64 },
    Get { path: Seq<char> },
}

impl View for XferRequest {
    type V = XferView;

    open spec fn view(&self) -> XferView {
        match *self {
            XferRequest::Put { path, size } => XferView::Put { path: path@, size },
            XferRequest::Get { path } => XferView::Get { path: path@ },
        }
    }
}

/// The text of a request: `PUT <size> <path>` or `GET <path>`. The path is the
/// remainder, so it may contain spaces.
pub open spec fn request_text(r: XferView) -> Seq<char> {
    match r {
        XferView::Put { path, size } => "PUT "@ + crate::text::decimal(size as nat) + " "@ + path,
        XferView::Get { path } => "GET "@ + path,
    }
}

/// The request that a text states, if it states one.
pub open spec fn request_of(s: Seq<char>) -> Option<XferView> {
    if "PUT "@.is_prefix_of(s) {
        let rest = s.skip("PUT "@.len() as int);
        match crate::text::find_from(rest, ' ', 0) {
            None => None,
            Some(i) => match crate::text::parsed_number(rest.take(i), u64::MAX as nat) {
                None => None,
                Some(size) => if rest.skip(i + 1).len() == 0 {
                    None
                } else {
                    Some(XferView::Put { path: rest.skip(i + 1), size: size as u64 })
                },
            },
        }
    } else if "GET "@.is_prefix_of(s) {
        let path = s.skip("GET "@.len() as int);
        if path.len() == 0 {
            None
        } else {
            Some(XferView::Get { path })
        }
    } else {
        None
    }
}

impl XferRequest {
    /// The bytes of this request.
    pub fn encode(&self) -> (out: Vec<u8>)
        ensures
            out@ == vstd::utf8::encode_utf8(request_text(self@)),
    {
        let mut s: String = String::new();
        match self {
            XferRequest::Put { path, size } => {
                s.push_str("PUT ");
                push_decimal(&mut s, *size);
                s.push_str(" ");
                s.push_str(path.as_str());
            },
            XferRequest::Get { path } => {
                s.push_str("GET ");
                s.push_str(path.as_str());
            },
        }
        assert(s@ =~= request_text(self@));
        slice_to_vec(s.as_str().as_bytes())
    }

    /// Read a request; `None` if the metadata states none.
    pub fn parse(meta: &[u8]) -> (r: Option<XferRequest>)
        ensures
            match (if vstd::utf8::valid_utf8(meta@) {
                request_of(vstd::utf8::decode_utf8(meta@))
            } else {
                None
            }) {
                Some(v) => r matches Some(x) && x@ == v,
                None => r is None,
            },
    {
        let text: String = match utf8_text(meta) {
            Some(t) => t,
            None => return None,
        };
        let chars: Vec<char> = chars_of(text.as_str());
        proof {
            reveal_strlit("PUT ");
            reveal_strlit("GET ");
        }
        if starts_with(&chars, "PUT ") {
            let rest: Vec<char> = part(&chars, 4, chars.len());
            assert(rest@ =~= chars@.skip(4));
            let i: usize = match find(&rest, ' ', 0) {
                Some(i) => i,
                None => return None,
            };
            let digits: Vec<char> = part(&rest, 0, i);
            assert(digits@ =~= rest@.take(i as int));
            let size: u64 = match parse_number(&digits, u64::MAX) {
                Some(n) => n,
                None => return None,
            };
            let path: Vec<char> = part(&rest, i + 1, rest.len());
            assert(path@ =~= rest@.skip(i + 1));
            if path.len() == 0 {
                return None;
            }
            Some(XferRequest::Put { path: string_of(&path), size })
        } else if starts_with(&chars, "GET ") {
            let path: Vec<char> = part(&chars, 4, chars.len());
            assert(path@ =~= chars@.skip(4));
            if path.len() == 0 {
                return None;
            }
            Some(XferRequest::Get { path: string_of(&path) })
        } else {
            None
        }
    }
}

/// The path that a request names.
pub open spec fn path_of(r: XferView) -> Seq<char> {
    match r {
        XferView::Put { path, .. } => path,
        XferView::Get { path } => path,
    }
}

/// Reading an encoded request that names a path gives the request.
pub proof fn law_request_roundtrip(r: XferView)
    requires
        path_of(r).len() > 0,
    ensures
        vstd::utf8::valid_utf8(vstd::utf8::encode_utf8(request_text(r))),
        request_of(vstd::utf8::decode_utf8(vstd::utf8::encode_utf8(request_text(r)))) == Some(r),
{
    let s = request_text(r);
    vstd::utf8::encode_utf8_valid_utf8(s);
    vstd::utf8::encode_utf8_decode_utf8(s);
    reveal_strlit("PUT ");
    reveal_strlit("GET ");
    reveal_strlit(" ");
    match r {
        XferView::Put { path, size } => {
            let digits = crate::text::decimal(size as nat);
            let rest = s.skip(4);
            assert(rest =~= digits + " "@ + path);
            crate::text::law_decimal_roundtrip(size as nat, u64::MAX as nat);
            assert forall|j: int| 0 <= j < digits.len() implies rest[j] != ' ' by {
                assert(crate::text::is_digit(digits[j]));
            }
            crate::text::lemma_found_at(rest, ' ', 0, digits.len() as int);
            assert(rest.take(digits.len() as int) =~= digits);
            assert(rest.skip(digits.len() as int + 1) =~= path);
            assert("PUT "@.is_prefix_of(s));
        },
        XferView::Get { path } => {
            assert(s.skip(4) =~= path);
            assert("GET "@.is_prefix_of(s));
            assert(s[0] == 'G');
            assert(!"PUT "@.is_prefix_of(s)) by {
                if "PUT "@.is_prefix_of(s) {
                    assert("PUT "@[0] == s[0]);
                }
            }
        },
    }
}

// ---------------------------------------------------------------------------
// Progress
// ---------------------------------------------------------------------------

/// `a / b` rounded to the nearest whole number, ties to the even one.
pub open spec fn rounded(a: nat, b: nat) -> nat {
    let q = a / b;
    let r = a % b;
    if 2 * r > b || (2 * r == b && q % 2 == 1) {
        q + 1
    } else {
        q
    }
}

/// The smallest power of two by which `n` has to be divided to leave no more
/// than 53 bits before the point.
pub open spec fn unit_in_last_place(n: nat) -> nat
    decreases n,
{
    if n < 0x20_0000_0000_0000 {
        1
    } else {
        2 * unit_in_last_place(n / 2)
    }
}

/// `n` as a binary number of 53 significant bits.
pub open spec fn double_of(n: nat) -> nat {
    rounded(n, unit_in_last_place(n)) * unit_in_last_place(n)
}

/// How often `v` can be divided by 1024, up to five times.
pub open spec fn unit_index(v: nat, u: nat) -> nat
    decreases 5 - u,
{
    if u >= 5 || v < 1024 {
        u
    } else {
        unit_index(v / 1024, u + 1)
    }
}

pub open spec fn unit_size(u: nat) -> nat
    decreases u,
{
    if u == 0 {
        1
    } else {
        1024 * unit_size((u - 1) as nat)
    }
}

pub open spec fn unit_name(u: nat) -> Seq<char> {
    if u == 0 {
        "B"@
    } else if u == 1 {
        "KB"@
    } else if u == 2 {
        "MB"@
    } else if u == 3 {
        "GB"@
    } else if u == 4 {
        "TB"@
    } else {
        "PB"@
    }
}

/// A number of tenths with one digit behind the point.
pub open spec fn tenths_text(t: nat) -> Seq<char> {
    crate::text::decimal(t / 10) + "."@ + crate::text::decimal(t % 10)
}

/// A byte count in the largest unit that it fills: whole bytes, or the count
/// with one digit behind the point.
pub open spec fn human(n: u64) -> Seq<char> {
    let v = double_of(n as nat);
    let u = unit_index(v, 0);
    if u == 0 {
        crate::text::decimal(n as nat) + " "@ + unit_name(0)
    } else {
        tenths_text(rounded(10 * v, unit_size(u))) + " "@ + unit_name(u)
    }
}

fn rounded_div(a: u128, b: u128) -> (r: u128)
    requires
        0 < b <= 0x4000_0000_0000_0000_0000_0000_0000_0000,
    ensures
        r == rounded(a as nat, b as nat),
{
    let q: u128 = a / b;
    let r: u128 = a % b;
    if 2 * r > b || (2 * r == b && q % 2 == 1) {
        assert(q < u128::MAX) by {
            assert(b >= 2);
            assert(q <= a / 2) by (nonlinear_arith)
                requires
                    q == a / b,
                    b >= 2,
            ;
        }
        q + 1
    } else {
        q
    }
}

fn last_place(n: u64) -> (k: u64)
    ensures
        k == unit_in_last_place(n as nat),
        1 <= k <= 0x800,
{
    let mut m: u64 = n;
    let mut k: u64 = 1;
    while m >= 0x20_0000_0000_0000
        invariant
            1 <= k,
            unit_in_last_place(n as nat) == k * unit_in_last_place(m as nat),
            k * m <= n,
        decreases m,
    {
        proof {
            let h = m / 2;
            let w = unit_in_last_place(h as nat);
            assert(k * (2 * w) == (2 * k) * w) by (nonlinear_arith);
            assert((2 * k) * h <= k * m) by (nonlinear_arith)
                requires
                    h == m / 2,
            ;
            assert(2 * k <= 0xfff) by (nonlinear_arith)
                requires
                    (2 * k) * h <= u64::MAX,
                    h >= 0x10_0000_0000_0000,
            ;
        }
        m = m / 2;
        k = 2 * k;
    }
    proof {
        assert(k * 1 == k);
        lemma_place_small(n as nat);
    }
    k
}

proof fn lemma_place_small(n: nat)
    requires
        n <= u64::MAX,
    ensures
        unit_in_last_place(n) <= 0x800,
{
    reveal_with_fuel(unit_in_last_place, 13);
}

fn as_double(n: u64) -> (v: u128)
    ensures
        v == double_of(n as nat),
        v <= n + 0x800,
{
    let k: u64 = last_place(n);
    let q: u128 = rounded_div(n as u128, k as u128);
    proof {
        let nn = n as nat;
        let kk = k as nat;
        assert(q <= nn / kk + 1);
        assert((nn / kk + 1) * kk <= nn + kk) by (nonlinear_arith)
            requires
                kk >= 1,
        ;
        assert(q * kk <= (nn / kk + 1) * kk) by (nonlinear_arith)
            requires
                q <= nn / kk + 1,
        ;
    }
    q * k as u128
}

/// Append a number of tenths with one digit behind the point.
fn push_tenths(out: &mut String, t: u64)
    ensures
        final(out)@ == old(out)@ + tenths_text(t as nat),
{
    let ghost before = out@;
    push_decimal(out, t / 10);
    out.push_str(".");
    push_decimal(out, t % 10);
    assert(out@ =~= before + tenths_text(t as nat));
}

/// Format a byte count in human-readable units (e.g. `4.5 MB`).
pub fn human_bytes(n: u64) -> (r: String)
    ensures
        r@ == human(n),
{
    let v: u128 = as_double(n);
    let mut rest: u128 = v;
    let mut u: u64 = 0;
    let mut size: u128 = 1;
    while u < 5 && rest >= 1024
        invariant
            u <= 5,
            unit_index(v as nat, 0) == unit_index(rest as nat, u as nat),
            size == unit_size(u as nat),
            u == 0 ==> size == 1,
            u == 1 ==> size == 0x400,
            u == 2 ==> size == 0x10_0000,
            u == 3 ==> size == 0x4000_0000,
            u == 4 ==> size == 0x100_0000_0000,
            u == 5 ==> size == 0x4_0000_0000_0000,
        decreases 5 - u,
    {
        rest = rest / 1024;
        u += 1;
        size = size * 1024;
    }
    let mut out: String = String::new();
    if u == 0 {
        push_decimal(&mut out, n);
        out.push_str(" B");
        proof {
            reveal_strlit(" B");
            reveal_strlit(" ");
            reveal_strlit("B");
            assert(out@ =~= human(n));
        }
        return out;
    }
    let t: u128 = rounded_div(10 * v, size);
    proof {
        let vv = 10 * (v as nat);
        let ss = size as nat;
        assert(t <= vv / ss + 1);
        assert(vv / ss <= vv / 0x400) by (nonlinear_arith)
            requires
                ss >= 0x400,
        ;
    }
    push_tenths(&mut out, t as u64);
    out.push_str(" ");
    match u {
        1 => out.push_str("KB"),
        2 => out.push_str("MB"),
        3 => out.push_str("GB"),
        4 => out.push_str("TB"),
        _ => out.push_str("PB"),
    }
    assert(out@ =~= human(n));
    out
}

/// The power of two by which `a` has to be multiplied for the quotient by `b` to
/// have 53 bits before the point.
pub open spec fn quotient_scale(a: nat, b: nat) -> nat
    decreases 0x20_0000_0000_0000 * b - a,
{
    if a == 0 || a >= 0x10_0000_0000_0000 * b {
        1
    } else {
        2 * quotient_scale(2 * a, b)
    }
}

/// `done` of `total` in tenths of a percent, at most a hundred percent: the
/// quotient and its hundredfold are taken with 53 significant bits each.
pub open spec fn percent_tenths(done: u64, total: u64) -> nat {
    let a = double_of(done as nat);
    let b = double_of(total as nat);
    if a >= b {
        1000
    } else {
        let scale = quotient_scale(a, b);
        rounded(10 * double_of(rounded(a * scale, b) * 100), scale)
    }
}

/// With blanks in front up to a width of five.
pub open spec fn padded(s: Seq<char>) -> Seq<char> {
    if s.len() >= 5 {
        s
    } else if s.len() == 4 {
        " "@ + s
    } else {
        "  "@ + s
    }
}

/// The progress of `done` of `total` bytes (`None` when the size is not known).
pub open spec fn progress(done: u64, total: Option<u64>) -> Seq<char> {
    match total {
        Some(t) if t > 0 => padded(tenths_text(percent_tenths(done, t))) + "%  "@ + human(done)
            + " / "@ + human(t),
        _ => human(done) + " transferred"@,
    }
}

fn percent(done: u64, total: u64) -> (r: u64)
    requires
        total > 0,
    ensures
        r == percent_tenths(done, total),
{
    let a: u128 = as_double(done);
    let b: u128 = as_double(total);
    if a >= b {
        return 1000;
    }
    let mut x: u128 = a;
    let mut scale: u128 = 1;
    let ghost goal = quotient_scale(a as nat, b as nat);
    while x != 0 && x < 0x10_0000_0000_0000 * b
        invariant
            a < b <= 0x1_0000_0000_0000_0800,
            x == a * scale,
            1 <= scale <= 0x40_0000_0000_0000_0000_0000_0000_0000,
            goal == scale * quotient_scale(x as nat, b as nat),
            goal == quotient_scale(a as nat, b as nat),
            x < 0x20_0000_0000_0000 * b,
        decreases 0x20_0000_0000_0000 * b - x,
    {
        proof {
            let w = quotient_scale(2 * (x as nat), b as nat);
            assert(scale * (2 * w) == (2 * scale) * w) by (nonlinear_arith);
            assert(2 * (a * scale) == a * (2 * scale)) by (nonlinear_arith);
            assert(2 * scale <= 2 * x) by (nonlinear_arith)
                requires
                    x == a * scale,
                    a >= 1,
            ;
        }
        x = 2 * x;
        scale = 2 * scale;
    }
    assert(scale * 1 == scale);
    let m: u128 = rounded_div(x, b);
    proof {
        assert(x / b < 0x20_0000_0000_0000) by (nonlinear_arith)
            requires
                x < 0x20_0000_0000_0000 * b,
                b > 0,
        ;
    }
    let p: u128 = as_double(m as u64 * 100);
    let t: u128 = rounded_div(10 * p, scale);
    proof {
        assert(t <= 10 * p + 1) by (nonlinear_arith)
            requires
                t <= (10 * p) / scale as int + 1,
                scale >= 1,
        ;
    }
    t as u64
}

/// Render a one-line progress string for `done` of `total` bytes (total `None`
/// when the size isn't known, e.g. a download).
pub fn progress_line(done: u64, total: Option<u64>) -> (r: String)
    ensures
        r@ == progress(done, total),
{
    let mut out: String = String::new();
    if let Some(t) = total {
        if t > 0 {
            let mut pct: String = String::new();
            push_tenths(&mut pct, percent(done, t));
            let width: usize = chars_of(pct.as_str()).len();
            if width == 4 {
                out.push_str(" ");
            } else if width < 4 {
                out.push_str("  ");
            }
            out.push_str(pct.as_str());
            assert(out@ =~= padded(pct@));
            out.push_str("%  ");
            out.push_str(human_bytes(done).as_str());
            out.push_str(" / ");
            out.push_str(human_bytes(t).as_str());
            assert(out@ =~= progress(done, total));
            return out;
        }
    }
    out.push_str(human_bytes(done).as_str());
    out.push_str(" transferred");
    assert(out@ =~= progress(done, total));
    out
}

// ---------------------------------------------------------------------------
// Laws
// ---------------------------------------------------------------------------

/// A quotient is rounded to the nearest whole number: the rest is at most a half, and
/// where it is a half the number is even.
pub proof fn law_rounded_is_nearest(a: nat, b: nat)
    requires
        b > 0,
    ensures
        2 * (rounded(a, b) * b - a) <= b,
        2 * (a - rounded(a, b) * b) <= b,
        2 * (rounded(a, b) * b - a) == b || 2 * (a - rounded(a, b) * b) == b ==> rounded(a, b) % 2
            == 0,
        a % b == 0 ==> rounded(a, b) * b == a,
{
    vstd::arithmetic::div_mod::lemma_fundamental_div_mod(a as int, b as int);
    let q = a / b;
    assert((q + 1) * b == q * b + b && b * q == q * b) by (nonlinear_arith);
}

/// The unit is the largest that the count fills, up to the last.
pub proof fn law_largest_unit(v: nat)
    ensures
        ({
            let u = unit_index(v, 0);
            &&& u <= 5
            &&& u > 0 ==> unit_size(u) <= v
            &&& u < 5 ==> v < 1024 * unit_size(u)
        }),
{
    reveal_with_fuel(unit_index, 6);
    reveal_with_fuel(unit_size, 6);
}

/// A count of less than 1024 bytes is shown as it is. A larger one that fills a unit so
/// many times exactly is shown as that number with a zero behind the point, and the
/// unit.
pub proof fn law_counts_are_shown(n: u64, k: nat)
    requires
        0 < k < 1024,
    ensures
        n < 1024 ==> human(n) == crate::text::decimal(n as nat) + " "@ + "B"@,
        human((k * 1024) as u64) == crate::text::decimal(k) + "."@ + crate::text::decimal(0) + " "@
            + "KB"@,
        human((k * 1048576) as u64) == crate::text::decimal(k) + "."@ + crate::text::decimal(0)
            + " "@ + "MB"@,
        human((k * 1073741824) as u64) == crate::text::decimal(k) + "."@ + crate::text::decimal(0)
            + " "@ + "GB"@,
        human((k * 1099511627776) as u64) == crate::text::decimal(k) + "."@ + crate::text::decimal(
            0,
        ) + " "@ + "TB"@,
{
    reveal_with_fuel(unit_index, 6);
    reveal_with_fuel(unit_size, 6);
    lemma_small_is_exact(n as nat);
    lemma_small_is_exact(k * 1024);
    lemma_small_is_exact(k * 1048576);
    lemma_small_is_exact(k * 1073741824);
    lemma_small_is_exact(k * 1099511627776);
    assert(unit_size(1) == 1024);
    assert(unit_size(2) == 1048576);
    assert(unit_size(3) == 1073741824);
    assert(unit_size(4) == 1099511627776);
    assert(unit_index(k * 1024, 0) == 1);
    assert(unit_index(k * 1048576, 0) == 2);
    assert(unit_index(k * 1073741824, 0) == 3);
    assert(unit_index(k * 1099511627776, 0) == 4);
    assert(rounded(10 * (k * 1024), 1024) == 10 * k);
    assert(rounded(10 * (k * 1048576), 1048576) == 10 * k);
    assert(rounded(10 * (k * 1073741824), 1073741824) == 10 * k);
    assert(rounded(10 * (k * 1099511627776), 1099511627776) == 10 * k);
    assert((10 * k) / 10 == k && (10 * k) % 10 == 0);
}

/// A number of up to 53 bits is its own double.
proof fn lemma_small_is_exact(n: nat)
    ensures
        n < 0x20_0000_0000_0000 ==> double_of(n) == n,
{
    if n < 0x20_0000_0000_0000 {
        assert(unit_in_last_place(n) == 1);
        assert(rounded(n, 1) == n);
        assert(n * 1 == n);
    }
}

/// Progress is told in percent where the size is known, from nothing to all; otherwise
/// by what was moved.
pub proof fn law_progress(done: u64, total: u64)
    requires
        0 < total < 0x20_0000_0000_0000,
        done < 0x20_0000_0000_0000,
    ensures
        percent_tenths(0, total) == 0,
        done >= total ==> percent_tenths(done, total) == 1000,
        progress(done, None) == human(done) + " transferred"@,
        progress(done, Some(0)) == progress(done, None),
{
    lemma_small_is_exact(done as nat);
    lemma_small_is_exact(total as nat);
    lemma_small_is_exact(0);
    assert(rounded(0, total as nat) == 0) by {
        assert(0nat / (total as nat) == 0) by (nonlinear_arith)
            requires
                total > 0,
        ;
    }
    assert(quotient_scale(0, total as nat) == 1);
    assert(0 * quotient_scale(0, total as nat) == 0);
    assert(rounded(0, 1) == 0);
}

} // verus!
