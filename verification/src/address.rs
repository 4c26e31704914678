//! The text form of network addresses.

use crate::text::push_decimal;
use vstd::prelude::*;

verus! {

/// An IPv4 address in dotted decimal form.
pub open spec fn dotted(ip: Seq<u8>) -> Seq<char> {
    crate::text::decimal(ip[0] as nat) + "."@ + crate::text::decimal(ip[1] as nat) + "."@
        + crate::text::decimal(ip[2] as nat) + "."@ + crate::text::decimal(ip[3] as nat)
}

/// The hexadecimal digit of a number below 16.
pub open spec fn hex_digit(n: nat) -> char {
    if n < 10 {
        ('0' as u32 + n) as char
    } else {
        ('a' as u32 + (n - 10)) as char
    }
}

/// The hexadecimal digits of a number.
pub open spec fn hex(n: nat) -> Seq<char>
    decreases n,
{
    if n < 16 {
        seq![hex_digit(n)]
    } else {
        hex(n / 16).push(hex_digit(n % 16))
    }
}

/// The segments from `from` to `to`, with colons between them.
pub open spec fn joined(seg: Seq<u16>, from: int, to: int) -> Seq<char>
    decreases to - from,
{
    if from >= to {
        Seq::empty()
    } else if from + 1 == to {
        hex(seg[from] as nat)
    } else {
        joined(seg, from, to - 1) + ":"@ + hex(seg[to - 1] as nat)
    }
}

/// How many zero segments stand in a row from `i` on.
pub open spec fn zeros_from(seg: Seq<u16>, i: int) -> int
    decreases seg.len() - i,
{
    if i < 0 || i >= seg.len() || seg[i] != 0 {
        0
    } else {
        1 + zeros_from(seg, i + 1)
    }
}

/// Where the longest row of zero segments among the first `n` begins, and how
/// long it is; the first of several.
pub open spec fn longest_zeros(seg: Seq<u16>, n: int) -> (int, int)
    decreases n,
{
    if n <= 0 {
        (0, 0)
    } else {
        let best = longest_zeros(seg, n - 1);
        if zeros_from(seg, n - 1) > best.1 {
            (n - 1, zeros_from(seg, n - 1))
        } else {
            best
        }
    }
}

/// An IPv6 address that stands for an IPv4 address.
pub open spec fn is_mapped(seg: Seq<u16>) -> bool {
    seg[0] == 0 && seg[1] == 0 && seg[2] == 0 && seg[3] == 0 && seg[4] == 0 && seg[5] == 0xffff
}

/// The IPv4 address that an IPv6 address stands for.
pub open spec fn mapped(seg: Seq<u16>) -> Seq<u8> {
    seq![
        (seg[6] / 256) as u8,
        (seg[6] % 256) as u8,
        (seg[7] / 256) as u8,
        (seg[7] % 256) as u8,
    ]
}

/// An IPv6 address: hexadecimal segments, the longest row of two or more zero
/// segments left out; the dotted form where it stands for an IPv4 address.
pub open spec fn ipv6_text(seg: Seq<u16>) -> Seq<char> {
    if is_mapped(seg) {
        "::ffff:"@ + dotted(mapped(seg))
    } else {
        let (start, len) = longest_zeros(seg, 8);
        if len > 1 {
            joined(seg, 0, start) + "::"@ + joined(seg, start + len, 8)
        } else {
            joined(seg, 0, 8)
        }
    }
}

/// Append an IPv4 address.
pub fn push_dotted(out: &mut String, a: u8, b: u8, c: u8, d: u8)
    ensures
        final(out)@ == old(out)@ + dotted(seq![a, b, c, d]),
{
    let ghost before = out@;
    push_decimal(out, a as u64);
    out.push_str(".");
    push_decimal(out, b as u64);
    out.push_str(".");
    push_decimal(out, c as u64);
    out.push_str(".");
    push_decimal(out, d as u64);
    assert(out@ =~= before + dotted(seq![a, b, c, d]));
}

fn hex_char(n: u16) -> (c: char)
    requires
        n < 16,
    ensures
        c == hex_digit(n as nat),
{
    if n < 10 {
        ('0' as u8 + n as u8) as char
    } else {
        ('a' as u8 + (n as u8 - 10)) as char
    }
}

fn push_hex(out: &mut String, n: u16)
    ensures
        final(out)@ == old(out)@ + hex(n as nat),
    decreases n,
{
    let ghost before = out@;
    if n < 16 {
        out.push(hex_char(n));
        assert(out@ =~= before + hex(n as nat));
    } else {
        push_hex(out, n / 16);
        out.push(hex_char(n % 16));
        assert(out@ =~= before + hex(n as nat));
    }
}

fn push_joined(out: &mut String, seg: &[u16], from: usize, to: usize)
    requires
        from <= to <= seg@.len(),
    ensures
        final(out)@ == old(out)@ + joined(seg@, from as int, to as int),
{
    let ghost before = out@;
    let mut i: usize = from;
    assert(before + joined(seg@, from as int, i as int) =~= before);
    while i < to
        invariant
            from <= i <= to <= seg@.len(),
            out@ == before + joined(seg@, from as int, i as int),
        decreases to - i,
    {
        if i > from {
            out.push_str(":");
        }
        push_hex(out, seg[i]);
        proof {
            if i > from {
                assert(out@ =~= before + joined(seg@, from as int, i + 1));
            } else {
                assert(out@ =~= before + joined(seg@, from as int, i + 1));
            }
        }
        i += 1;
    }
}

proof fn lemma_zeros_from(seg: Seq<u16>, i: int)
    requires
        0 <= i <= seg.len(),
    ensures
        0 <= zeros_from(seg, i) <= seg.len() - i,
    decreases seg.len() - i,
{
    if i < seg.len() && seg[i] == 0 {
        lemma_zeros_from(seg, i + 1);
    }
}

proof fn lemma_longest_zeros(seg: Seq<u16>, n: int)
    requires
        0 <= n <= seg.len(),
    ensures
        0 <= longest_zeros(seg, n).0,
        0 <= longest_zeros(seg, n).1,
        longest_zeros(seg, n).0 + longest_zeros(seg, n).1 <= seg.len(),
    decreases n,
{
    if n > 0 {
        lemma_longest_zeros(seg, n - 1);
        lemma_zeros_from(seg, n - 1);
    }
}

fn count_zeros(seg: &[u16], i: usize) -> (n: usize)
    requires
        i <= seg@.len(),
    ensures
        n == zeros_from(seg@, i as int),
        n <= seg@.len() - i,
    decreases seg@.len() - i,
{
    if i >= seg.len() || seg[i] != 0 {
        0
    } else {
        1 + count_zeros(seg, i + 1)
    }
}

fn find_zeros(seg: &[u16]) -> (r: (usize, usize))
    requires
        seg@.len() == 8,
    ensures
        (r.0 as int, r.1 as int) == longest_zeros(seg@, 8),
        r.0 + r.1 <= 8,
{
    let mut best: (usize, usize) = (0, 0);
    let mut i: usize = 0;
    while i < 8
        invariant
            seg@.len() == 8,
            i <= 8,
            (best.0 as int, best.1 as int) == longest_zeros(seg@, i as int),
        decreases 8 - i,
    {
        let n: usize = count_zeros(seg, i);
        if n > best.1 {
            best = (i, n);
        }
        i += 1;
    }
    proof {
        lemma_longest_zeros(seg@, 8);
    }
    best
}

/// Append an IPv6 address.
pub fn push_ipv6(out: &mut String, seg: &[u16])
    requires
        seg@.len() == 8,
    ensures
        final(out)@ == old(out)@ + ipv6_text(seg@),
{
    let ghost before = out@;
    if seg[0] == 0 && seg[1] == 0 && seg[2] == 0 && seg[3] == 0 && seg[4] == 0 && seg[5]
        == 0xffff {
        out.push_str("::ffff:");
        push_dotted(
            out,
            (seg[6] / 256) as u8,
            (seg[6] % 256) as u8,
            (seg[7] / 256) as u8,
            (seg[7] % 256) as u8,
        );
        assert(out@ =~= before + ipv6_text(seg@));
        return ;
    }
    let (start, len) = find_zeros(seg);
    if len > 1 {
        push_joined(out, seg, 0, start);
        out.push_str("::");
        push_joined(out, seg, start + len, 8);
    } else {
        push_joined(out, seg, 0, 8);
    }
    assert(out@ =~= before + ipv6_text(seg@));
}

// ---------------------------------------------------------------------------
// Laws
// ---------------------------------------------------------------------------

/// The number that hexadecimal digits spell.
pub open spec fn hex_value(s: Seq<char>) -> nat
    decreases s.len(),
{
    if s.len() == 0 {
        0
    } else {
        let d = s.last();
        16 * hex_value(s.drop_last()) + (if '0' <= d <= '9' {
            (d as u32 - '0' as u32) as nat
        } else {
            (d as u32 - 'a' as u32 + 10) as nat
        })
    }
}

/// The hexadecimal digits of a number spell it, with no zeros in front and in lower
/// case.
pub proof fn law_hex_digits(n: nat)
    ensures
        hex_value(hex(n)) == n,
        hex(n).len() > 0,
        n > 0 ==> hex(n)[0] != '0',
        forall|i: int|
            0 <= i < hex(n).len() ==> ('0' <= #[trigger] hex(n)[i] <= '9') || ('a' <= hex(n)[i]
                <= 'f'),
    decreases n,
{
    if n < 16 {
        assert(hex(n).drop_last() =~= Seq::<char>::empty());
        assert(hex_value(hex(n).drop_last()) == 0);
    } else {
        law_hex_digits(n / 16);
        assert(hex(n).drop_last() =~= hex(n / 16));
    }
}

/// An IPv4 address is its four octets in order, in decimal, with dots between them.
pub proof fn law_dotted_in_order(a: u8, b: u8, c: u8, d: u8)
    ensures
        dotted(seq![a, b, c, d]) == crate::text::decimal(a as nat) + "."@ + crate::text::decimal(
            b as nat,
        ) + "."@ + crate::text::decimal(c as nat) + "."@ + crate::text::decimal(d as nat),
{
}

/// An IPv6 address without a zero segment is its eight segments in order, with colons
/// between them; one of which only the last segment is not zero begins with two colons.
pub proof fn law_ipv6_in_order(s: Seq<u16>, last: u16)
    requires
        s.len() == 8,
        forall|i: int| 0 <= i < 8 ==> s[i] != 0,
        last != 0,
    ensures
        ipv6_text(s) == hex(s[0] as nat) + ":"@ + hex(s[1] as nat) + ":"@ + hex(s[2] as nat) + ":"@
            + hex(s[3] as nat) + ":"@ + hex(s[4] as nat) + ":"@ + hex(s[5] as nat) + ":"@ + hex(
            s[6] as nat,
        ) + ":"@ + hex(s[7] as nat),
        ipv6_text(seq![0u16, 0u16, 0u16, 0u16, 0u16, 0u16, 0u16, last]) == "::"@ + hex(last as nat),
{
    reveal_with_fuel(joined, 9);
    reveal_with_fuel(longest_zeros, 9);
    let z = seq![0u16, 0u16, 0u16, 0u16, 0u16, 0u16, 0u16, last];
    reveal_with_fuel(zeros_from, 9);
    assert(longest_zeros(s, 8).1 == 0);
    assert(longest_zeros(z, 8) == (0int, 7int));
    assert(joined(z, 7, 8) == hex(last as nat));
    assert(joined(z, 0, 0) =~= Seq::<char>::empty());
    assert(Seq::<char>::empty() + "::"@ + hex(last as nat) =~= "::"@ + hex(last as nat));
}

} // verus!
