//! The text form of IP addresses: dotted IPv4, and IPv6 in lower case with the
//! longest run of zero groups left out.
use crate::text::{decimal_text, push_decimal};
use vstd::prelude::*;
use vstd::string::*;

verus! {

// ---- IPv4 ----

/// The four bytes in decimal with dots between.
pub open spec fn ipv4_text(b: Seq<u8>) -> Seq<char> {
    decimal_text(b[0] as nat) + "."@ + decimal_text(b[1] as nat) + "."@ + decimal_text(b[2] as nat)
        + "."@ + decimal_text(b[3] as nat)
}

fn push_ipv4(out: &mut String, a: u8, b: u8, c: u8, d: u8)
    ensures
        final(out)@ == old(out)@ + ipv4_text(seq![a, b, c, d]),
{
    push_decimal(out, a as u128);
    out.append(".");
    push_decimal(out, b as u128);
    out.append(".");
    push_decimal(out, c as u128);
    out.append(".");
    push_decimal(out, d as u128);
    assert(out@ == old(out)@ + ipv4_text(seq![a, b, c, d]));
}

/// Writes an IPv4 address.
pub fn format_ipv4(bytes: &[u8]) -> (t: String)
    requires
        bytes@.len() == 4,
    ensures
        t@ == ipv4_text(bytes@),
{
    let mut out: String = String::new();
    push_ipv4(&mut out, bytes[0], bytes[1], bytes[2], bytes[3]);
    assert(bytes@ == seq![bytes@[0], bytes@[1], bytes@[2], bytes@[3]]);
    assert(out@ == ipv4_text(bytes@));
    out
}

// ---- IPv6 ----

/// The eight 16-bit groups of an address, each from two bytes, high byte first.
pub open spec fn groups(b: Seq<u8>) -> Seq<u16> {
    Seq::new(8, |k: int| (b[2 * k] * 256 + b[2 * k + 1]) as u16)
}

pub open spec fn hex_char(n: nat) -> char {
    if n < 10 {
        ('0' as u32 + n) as char
    } else {
        ('a' as u32 + n - 10) as char
    }
}

/// A number in lower case hexadecimal, without leading zeros.
pub open spec fn hex_text(n: nat) -> Seq<char>
    decreases n,
{
    if n < 16 {
        seq![hex_char(n)]
    } else {
        hex_text(n / 16).push(hex_char(n % 16))
    }
}

/// Groups `from` up to `to` in hexadecimal with colons between.
pub open spec fn hex_groups(g: Seq<u16>, from: int, to: int) -> Seq<char>
    decreases to - from,
{
    if from >= to {
        seq![]
    } else if from == to - 1 {
        hex_text(g[from] as nat)
    } else {
        hex_groups(g, from, to - 1) + ":"@ + hex_text(g[to - 1] as nat)
    }
}

/// How many zero groups follow one another from position `i` on.
pub open spec fn zero_run(g: Seq<u16>, i: int) -> nat
    decreases g.len() - i,
{
    if 0 <= i < g.len() && g[i] == 0 {
        1 + zero_run(g, i + 1)
    } else {
        0
    }
}

/// Of the positions below `n`, the first from which most zero groups follow.
pub open spec fn longest_run(g: Seq<u16>, n: int) -> int
    decreases n,
{
    if n <= 1 {
        0
    } else {
        let best = longest_run(g, n - 1);
        if zero_run(g, n - 1) > zero_run(g, best) {
            n - 1
        } else {
            best
        }
    }
}

/// Whether the address is `::ffff:a.b.c.d`, an IPv4 address mapped into IPv6.
pub open spec fn is_mapped(g: Seq<u16>) -> bool {
    g[0] == 0 && g[1] == 0 && g[2] == 0 && g[3] == 0 && g[4] == 0 && g[5] == 0xffff
}

/// An IPv6 address: a mapped IPv4 address with its dotted part; otherwise the
/// groups in hexadecimal, where the first longest run of two or more zero
/// groups is written `::`.
pub open spec fn ipv6_text(b: Seq<u8>) -> Seq<char> {
    let g = groups(b);
    let start = longest_run(g, 8);
    let len = zero_run(g, start);
    if is_mapped(g) {
        "::ffff:"@ + ipv4_text(b.subrange(12, 16))
    } else if len >= 2 {
        hex_groups(g, 0, start) + "::"@ + hex_groups(g, start + len, 8)
    } else {
        hex_groups(g, 0, 8)
    }
}

fn hex_digit(n: u8) -> (c: char)
    requires
        n < 16,
    ensures
        c == hex_char(n as nat),
{
    if n < 10 {
        (48u8 + n) as char
    } else {
        (97u8 + (n - 10)) as char
    }
}

fn push_hex(out: &mut String, n: u16)
    ensures
        final(out)@ == old(out)@ + hex_text(n as nat),
    decreases n,
{
    if n >= 16 {
        push_hex(out, n / 16);
    }
    out.push(hex_digit((n % 16) as u8));
    assert(out@ == old(out)@ + hex_text(n as nat));
}

fn push_groups(out: &mut String, g: &Vec<u16>, from: usize, to: usize)
    requires
        from <= to <= g@.len(),
    ensures
        final(out)@ == old(out)@ + hex_groups(g@, from as int, to as int),
{
    let mut i: usize = from;
    assert(out@ == old(out)@ + hex_groups(g@, from as int, from as int));
    while i < to
        invariant
            from <= i <= to <= g@.len(),
            out@ == old(out)@ + hex_groups(g@, from as int, i as int),
        decreases to - i,
    {
        let ghost before = out@;
        if i > from {
            out.append(":");
        }
        push_hex(out, g[i]);
        i = i + 1;
        assert(out@ == old(out)@ + hex_groups(g@, from as int, i as int));
    }
}

fn count_zero_run(g: &Vec<u16>, i: usize) -> (n: usize)
    requires
        i <= g@.len(),
    ensures
        n == zero_run(g@, i as int),
        i + n <= g@.len(),
    decreases g@.len() - i,
{
    if i < g.len() && g[i] == 0 {
        1 + count_zero_run(g, i + 1)
    } else {
        0
    }
}

/// Writes an IPv6 address.
pub fn format_ipv6(bytes: &[u8]) -> (t: String)
    requires
        bytes@.len() == 16,
    ensures
        t@ == ipv6_text(bytes@),
{
    let mut g: Vec<u16> = Vec::new();
    let mut k: usize = 0;
    while k < 8
        invariant
            k <= 8,
            bytes@.len() == 16,
            g@ == groups(bytes@).take(k as int),
        decreases 8 - k,
    {
        let high: u16 = bytes[2 * k] as u16;
        let low: u16 = bytes[2 * k + 1] as u16;
        g.push(high * 256 + low);
        assert(g@ == groups(bytes@).take(k + 1));
        k = k + 1;
    }
    assert(g@ == groups(bytes@));
    let mut out: String = String::new();
    if g[0] == 0 && g[1] == 0 && g[2] == 0 && g[3] == 0 && g[4] == 0 && g[5] == 0xffff {
        out.append("::ffff:");
        push_ipv4(&mut out, bytes[12], bytes[13], bytes[14], bytes[15]);
        assert(bytes@.subrange(12, 16) == seq![bytes@[12], bytes@[13], bytes@[14], bytes@[15]]);
        assert(out@ == ipv6_text(bytes@));
        return out;
    }
    let mut best: usize = 0;
    let mut best_len: usize = count_zero_run(&g, 0);
    let mut i: usize = 1;
    while i < 8
        invariant
            1 <= i <= 8,
            g@.len() == 8,
            best < 8,
            best == longest_run(g@, i as int),
            best_len == zero_run(g@, best as int),
            best + best_len <= 8,
        decreases 8 - i,
    {
        let n: usize = count_zero_run(&g, i);
        if n > best_len {
            best = i;
            best_len = n;
        }
        i = i + 1;
    }
    if best_len >= 2 {
        push_groups(&mut out, &g, 0, best);
        out.append("::");
        push_groups(&mut out, &g, best + best_len, 8);
    } else {
        push_groups(&mut out, &g, 0, 8);
    }
    assert(out@ == ipv6_text(bytes@));
    out
}

/// The run of zero groups that an IPv6 text leaves out is as long as any, and
/// longer than every one that begins before it.
pub proof fn longest_run_is_first_and_longest(g: Seq<u16>, n: int)
    requires
        1 <= n <= g.len(),
    ensures
        0 <= longest_run(g, n) < n,
        forall|i: int| 0 <= i < n ==> #[trigger] zero_run(g, i) <= zero_run(g, longest_run(g, n)),
        forall|i: int|
            0 <= i < longest_run(g, n) ==> #[trigger] zero_run(g, i) < zero_run(
                g,
                longest_run(g, n),
            ),
    decreases n,
{
    if n > 1 {
        longest_run_is_first_and_longest(g, n - 1);
    }
}

} // verus!
