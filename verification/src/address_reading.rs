//! Reading the text of an IP address back: which address it names, and that no
//! two addresses share a text.
use crate::address::{
    groups, hex_char, hex_groups, hex_text, ipv4_text, ipv6_text, is_mapped, longest_run,
    longest_run_is_first_and_longest, zero_run,
};
use crate::colons::{
    colon_outside_brackets_cuts, colon_parts, ends_outside, has_no_brackets, plain_text_is_one_part,
};
use crate::text::{
    decimal_reads_back, decimal_text, is_decimal, is_digit, numbers_are_written_in_decimal,
};
use vstd::prelude::*;

verus! {

// ---- IPv4 ----

pub open spec fn has_no_dot(s: Seq<char>) -> bool {
    forall|i: int| 0 <= i < s.len() ==> #[trigger] s[i] != '.'
}

proof fn lemma_dot()
    ensures
        "."@ == seq!['.'],
{
    reveal_strlit(".");
    assert("."@ == seq!['.']);
}

proof fn lemma_first_dot(a: Seq<char>, x: Seq<char>, b: Seq<char>, y: Seq<char>)
    requires
        has_no_dot(a),
        has_no_dot(b),
        a + seq!['.'] + x == b + seq!['.'] + y,
    ensures
        a == b,
        x == y,
{
    let s = a + seq!['.'] + x;
    let t = b + seq!['.'] + y;
    assert(s[a.len() as int] == '.');
    assert(t[b.len() as int] == '.');
    if a.len() < b.len() {
        assert(t[a.len() as int] == b[a.len() as int]);
    }
    if b.len() < a.len() {
        assert(s[b.len() as int] == a[b.len() as int]);
    }
    assert forall|i: int| 0 <= i < a.len() implies a[i] == b[i] by {
        assert(s[i] == a[i]);
        assert(t[i] == b[i]);
    }
    assert(a == b);
    assert(s.len() == a.len() + 1 + x.len());
    assert(t.len() == b.len() + 1 + y.len());
    assert forall|i: int| 0 <= i < x.len() implies x[i] == y[i] by {
        assert(s[a.len() + 1 + i] == x[i]);
        assert(t[b.len() + 1 + i] == y[i]);
    }
    assert(x == y);
}

proof fn lemma_decimal_plain(n: nat)
    ensures
        has_no_dot(decimal_text(n)),
{
    decimal_reads_back(n);
    assert forall|i: int| 0 <= i < decimal_text(n).len() implies #[trigger] decimal_text(n)[i]
        != '.' by {
        assert(is_digit(decimal_text(n)[i]));
    }
}

proof fn lemma_decimal_unique(m: nat, n: nat)
    requires
        decimal_text(m) == decimal_text(n),
    ensures
        m == n,
{
    decimal_reads_back(m);
    decimal_reads_back(n);
}

/// No two IPv4 addresses share a text.
pub proof fn ipv4_text_is_unique(a: Seq<u8>, b: Seq<u8>)
    requires
        a.len() == 4,
        b.len() == 4,
        ipv4_text(a) == ipv4_text(b),
    ensures
        a == b,
{
    lemma_dot();
    let dot = seq!['.'];
    let d = |s: Seq<u8>, k: int| decimal_text(s[k] as nat);
    let a3 = d(a, 3);
    let a2 = d(a, 2) + dot + a3;
    let a1 = d(a, 1) + dot + a2;
    let b3 = d(b, 3);
    let b2 = d(b, 2) + dot + b3;
    let b1 = d(b, 1) + dot + b2;
    assert(ipv4_text(a) == d(a, 0) + dot + a1);
    assert(ipv4_text(b) == d(b, 0) + dot + b1);
    assert forall|k: int| 0 <= k < 4 implies has_no_dot(#[trigger] d(a, k)) && has_no_dot(
        d(b, k),
    ) by {
        lemma_decimal_plain(a[k] as nat);
        lemma_decimal_plain(b[k] as nat);
    }
    assert(has_no_dot(d(a, 0)) && has_no_dot(d(a, 1)) && has_no_dot(d(a, 2)));
    lemma_first_dot(d(a, 0), a1, d(b, 0), b1);
    lemma_first_dot(d(a, 1), a2, d(b, 1), b2);
    lemma_first_dot(d(a, 2), a3, d(b, 2), b3);
    lemma_decimal_unique(a[0] as nat, b[0] as nat);
    lemma_decimal_unique(a[1] as nat, b[1] as nat);
    lemma_decimal_unique(a[2] as nat, b[2] as nat);
    lemma_decimal_unique(a[3] as nat, b[3] as nat);
    assert(a == b);
}

/// What stands between the dots of a text.
pub open spec fn dot_parts(s: Seq<char>) -> Seq<Seq<char>>
    decreases s.len(),
{
    if s.len() == 0 {
        seq![seq![]]
    } else {
        let before = dot_parts(s.drop_last());
        if s.last() == '.' {
            before.push(seq![])
        } else {
            before.drop_last().push(before.last().push(s.last()))
        }
    }
}

proof fn lemma_dot_parts_add(a: Seq<char>, x: Seq<char>)
    requires
        has_no_dot(x),
    ensures
        dot_parts(a).len() > 0,
        dot_parts(a + x) == dot_parts(a).drop_last().push(dot_parts(a).last() + x),
    decreases a.len() + x.len(),
{
    if x.len() == 0 {
        if a.len() > 0 {
            lemma_dot_parts_add(a.drop_last(), x);
        }
        assert(a + x == a);
        assert(dot_parts(a).last() + x == dot_parts(a).last());
        assert(dot_parts(a) == dot_parts(a).drop_last().push(dot_parts(a).last()));
    } else {
        let less = x.drop_last();
        assert forall|i: int| 0 <= i < less.len() implies #[trigger] less[i] != '.' by {
            assert(x[i] != '.');
        }
        lemma_dot_parts_add(a, less);
        let s = a + x;
        assert(x[x.len() - 1] != '.');
        assert(s.last() == x.last());
        assert(s.drop_last() == a + less);
        let before = dot_parts(a + less);
        assert(before.last() == dot_parts(a).last() + less);
        assert(before.drop_last() == dot_parts(a).drop_last());
        assert((dot_parts(a).last() + less).push(x.last()) == dot_parts(a).last() + x);
    }
}

proof fn lemma_dot_parts_cut(a: Seq<char>, x: Seq<char>)
    requires
        has_no_dot(x),
    ensures
        dot_parts(a + seq!['.'] + x) == dot_parts(a).push(x),
{
    let cut = a + seq!['.'];
    assert(cut.drop_last() == a);
    assert(cut.last() == '.');
    let none = Seq::<char>::empty();
    assert(dot_parts(cut) == dot_parts(a).push(none));
    lemma_dot_parts_add(cut, x);
    assert(none + x == x);
    assert(dot_parts(a).push(none).drop_last() == dot_parts(a));
}

/// Whether a text is that of an IPv4 address with these bytes: four decimal
/// numbers with dots between, the first byte first.
pub open spec fn names_ipv4(text: Seq<char>, b: Seq<u8>) -> bool {
    &&& dot_parts(text).len() == 4
    &&& is_decimal(dot_parts(text)[0], b[0] as int)
    &&& is_decimal(dot_parts(text)[1], b[1] as int)
    &&& is_decimal(dot_parts(text)[2], b[2] as int)
    &&& is_decimal(dot_parts(text)[3], b[3] as int)
}

/// The text of an IPv4 address reads back as that address: between its dots
/// stand its four bytes, in order.
pub proof fn ipv4_text_names_its_address(b: Seq<u8>)
    requires
        b.len() == 4,
    ensures
        names_ipv4(ipv4_text(b), b),
{
    lemma_dot();
    let dot = seq!['.'];
    let d0 = decimal_text(b[0] as nat);
    let d1 = decimal_text(b[1] as nat);
    let d2 = decimal_text(b[2] as nat);
    let d3 = decimal_text(b[3] as nat);
    lemma_decimal_plain(b[0] as nat);
    lemma_decimal_plain(b[1] as nat);
    lemma_decimal_plain(b[2] as nat);
    lemma_decimal_plain(b[3] as nat);
    numbers_are_written_in_decimal(b[0] as int);
    numbers_are_written_in_decimal(b[1] as int);
    numbers_are_written_in_decimal(b[2] as int);
    numbers_are_written_in_decimal(b[3] as int);
    let none = Seq::<char>::empty();
    lemma_dot_parts_add(none, d0);
    assert(none + d0 == d0);
    assert(dot_parts(none) == seq![none]);
    assert(dot_parts(d0) == seq![d0]);
    lemma_dot_parts_cut(d0, d1);
    lemma_dot_parts_cut(d0 + dot + d1, d2);
    lemma_dot_parts_cut(d0 + dot + d1 + dot + d2, d3);
    assert(ipv4_text(b) == d0 + dot + d1 + dot + d2 + dot + d3);
    assert(dot_parts(ipv4_text(b)) == seq![d0].push(d1).push(d2).push(d3));
}

// ---- IPv6 ----

pub open spec fn is_hex(c: char) -> bool {
    '0' <= c <= '9' || 'a' <= c <= 'f'
}

pub open spec fn hex_digit_value(c: char) -> nat {
    if '0' <= c <= '9' {
        (c as u32 - '0' as u32) as nat
    } else {
        (c as u32 - 'a' as u32 + 10) as nat
    }
}

/// The number that a sequence of hexadecimal digits writes.
pub open spec fn hex_value(s: Seq<char>) -> nat
    decreases s.len(),
{
    if s.len() == 0 {
        0
    } else {
        16 * hex_value(s.drop_last()) + hex_digit_value(s.last())
    }
}

/// How many of the first parts hold something.
pub open spec fn leading(parts: Seq<Seq<char>>) -> nat
    decreases parts.len(),
{
    if parts.len() > 0 && parts[0].len() > 0 {
        1 + leading(parts.skip(1))
    } else {
        0
    }
}

/// How many of the last parts hold something.
pub open spec fn trailing(parts: Seq<Seq<char>>) -> nat
    decreases parts.len(),
{
    if parts.len() > 0 && parts.last().len() > 0 {
        1 + trailing(parts.drop_last())
    } else {
        0
    }
}

/// The eight groups that a text of hexadecimal groups stands for: an empty part
/// stands for as many zero groups as are missing.
pub open spec fn groups_of(text: Seq<char>) -> Seq<u16> {
    let parts = colon_parts(text);
    let first = leading(parts);
    let last = trailing(parts);
    Seq::new(
        8,
        |k: int|
            if k < first {
                hex_value(parts[k]) as u16
            } else if k >= 8 - last {
                hex_value(parts[parts.len() - 8 + k]) as u16
            } else {
                0
            },
    )
}

/// Whether a text is a number in lower case hexadecimal, without a digit in
/// front that could be left out.
pub open spec fn is_hex_number(s: Seq<char>) -> bool {
    &&& s.len() > 0
    &&& forall|i: int| 0 <= i < s.len() ==> is_hex(#[trigger] s[i])
    &&& s[0] == '0' ==> s.len() == 1
}

proof fn lemma_no_leading_zero(n: nat)
    ensures
        is_hex_number(hex_text(n)),
        n > 0 ==> hex_text(n)[0] != '0',
        n == 0 ==> hex_text(n).len() == 1,
    decreases n,
{
    lemma_hex_text(n);
    if n >= 16 {
        lemma_no_leading_zero(n / 16);
        assert(hex_text(n)[0] == hex_text(n / 16)[0]);
    }
}

proof fn lemma_hex_text(n: nat)
    ensures
        hex_text(n).len() > 0,
        forall|i: int| 0 <= i < hex_text(n).len() ==> is_hex(#[trigger] hex_text(n)[i]),
        hex_value(hex_text(n)) == n,
    decreases n,
{
    let t = hex_text(n);
    if n < 16 {
        assert(t.drop_last() == Seq::<char>::empty());
        assert(hex_value(t.drop_last()) == 0);
        assert(t.last() == hex_char(n));
    } else {
        lemma_hex_text(n / 16);
        let high = hex_text(n / 16);
        assert(t.drop_last() == high);
        assert(t.last() == hex_char(n % 16));
        assert forall|i: int| 0 <= i < t.len() implies is_hex(#[trigger] t[i]) by {
            if i < t.len() - 1 {
                assert(is_hex(high[i]));
            }
        }
    }
}

proof fn lemma_colons()
    ensures
        ":"@ == seq![':'],
        "::"@ == seq![':', ':'],
{
    reveal_strlit(":");
    reveal_strlit("::");
    assert(":"@ == seq![':']);
    assert("::"@ == seq![':', ':']);
}

/// Whether a text holds hexadecimal digits and colons only.
pub open spec fn is_hex_or_colon(s: Seq<char>) -> bool {
    forall|i: int| 0 <= i < s.len() ==> is_hex(#[trigger] s[i]) || s[i] == ':'
}

proof fn lemma_outside(s: Seq<char>)
    requires
        is_hex_or_colon(s),
    ensures
        has_no_brackets(s),
        has_no_dot(s),
        ends_outside(s),
{
    assert forall|i: int| 0 <= i < s.len() implies #[trigger] s[i] != '[' && s[i] != ']' && s[i]
        != '.' by {
        assert(is_hex(s[i]) || s[i] == ':');
    }
}

/// The parts of groups `from` up to `to`: each in hexadecimal, or one empty part
/// for none.
pub open spec fn group_parts(g: Seq<u16>, from: int, to: int) -> Seq<Seq<char>> {
    if from >= to {
        seq![seq![]]
    } else {
        Seq::new((to - from) as nat, |k: int| hex_text(g[from + k] as nat))
    }
}

proof fn lemma_hex_groups(g: Seq<u16>, from: int, to: int)
    requires
        0 <= from <= to <= g.len(),
    ensures
        is_hex_or_colon(hex_groups(g, from, to)),
        colon_parts(hex_groups(g, from, to)) == group_parts(g, from, to),
    decreases to - from,
{
    let t = hex_groups(g, from, to);
    if from == to {
        plain_text_is_one_part(t);
        assert(group_parts(g, from, to) == seq![t]);
    } else {
        let last = hex_text(g[to - 1] as nat);
        lemma_hex_text(g[to - 1] as nat);
        assert forall|i: int| 0 <= i < last.len() implies #[trigger] last[i] != ':' && last[i]
            != '[' && last[i] != ']' by {
            assert(is_hex(last[i]));
        }
        plain_text_is_one_part(last);
        if from == to - 1 {
            assert(group_parts(g, from, to) == seq![last]);
        } else {
            lemma_hex_groups(g, from, to - 1);
            lemma_colons();
            let before = hex_groups(g, from, to - 1);
            lemma_outside(before);
            assert(t == before.push(':') + last);
            colon_outside_brackets_cuts(before, last);
            assert(group_parts(g, from, to) == group_parts(g, from, to - 1) + seq![last]);
            assert forall|i: int| 0 <= i < t.len() implies is_hex(#[trigger] t[i]) || t[i]
                == ':' by {
                if i < before.len() {
                    assert(t[i] == before[i]);
                } else if i > before.len() {
                    assert(t[i] == last[i - before.len() - 1]);
                }
            }
        }
    }
}

proof fn lemma_leading(parts: Seq<Seq<char>>, n: int)
    requires
        0 <= n <= parts.len(),
        forall|k: int| 0 <= k < n ==> (#[trigger] parts[k]).len() > 0,
        n < parts.len() ==> parts[n].len() == 0,
    ensures
        leading(parts) == n,
    decreases n,
{
    if n > 0 {
        assert(parts[0].len() > 0);
        let rest = parts.skip(1);
        assert forall|k: int| 0 <= k < n - 1 implies (#[trigger] rest[k]).len() > 0 by {
            assert(parts[k + 1].len() > 0);
        }
        lemma_leading(rest, n - 1);
    }
}

proof fn lemma_trailing(parts: Seq<Seq<char>>, n: int)
    requires
        0 <= n <= parts.len(),
        forall|k: int| parts.len() - n <= k < parts.len() ==> (#[trigger] parts[k]).len() > 0,
        n < parts.len() ==> parts[parts.len() - n - 1].len() == 0,
    ensures
        trailing(parts) == n,
    decreases n,
{
    if n > 0 {
        assert(parts[parts.len() - 1].len() > 0);
        let rest = parts.drop_last();
        assert forall|k: int| rest.len() - (n - 1) <= k < rest.len() implies (
        #[trigger] rest[k]).len() > 0 by {
            assert(parts[k].len() > 0);
        }
        lemma_trailing(rest, n - 1);
    }
}

proof fn lemma_run_is_zero(g: Seq<u16>, i: int, k: int)
    requires
        0 <= i <= k < i + zero_run(g, i),
    ensures
        k < g.len(),
        g[k] == 0,
    decreases k - i,
{
    if i < k {
        lemma_run_is_zero(g, i + 1, k);
    }
}

proof fn lemma_run_fits(g: Seq<u16>, i: int)
    requires
        0 <= i <= g.len(),
    ensures
        i + zero_run(g, i) <= g.len(),
    decreases g.len() - i,
{
    if i < g.len() && g[i] == 0 {
        lemma_run_fits(g, i + 1);
    }
}

proof fn lemma_whole(g: Seq<u16>)
    requires
        g.len() == 8,
    ensures
        groups_of(hex_groups(g, 0, 8)) == g,
        colon_parts(hex_groups(g, 0, 8)).len() == 8,
        forall|k: int|
            0 <= k < 8 ==> is_hex_number(#[trigger] colon_parts(hex_groups(g, 0, 8))[k]),
{
    let parts = group_parts(g, 0, 8);
    assert forall|k: int| 0 <= k < 8 implies is_hex_number(#[trigger] parts[k]) by {
        lemma_no_leading_zero(g[k] as nat);
    }
    lemma_hex_groups(g, 0, 8);
    assert forall|k: int| 0 <= k < 8 implies (#[trigger] parts[k]).len() > 0 && hex_value(parts[k])
        == g[k] by {
        lemma_hex_text(g[k] as nat);
    }
    lemma_leading(parts, 8);
    assert(groups_of(hex_groups(g, 0, 8)) == g);
}

proof fn lemma_shortened(g: Seq<u16>, start: int, end: int)
    requires
        g.len() == 8,
        0 <= start < end <= 8,
        forall|k: int| start <= k < end ==> g[k] == 0,
    ensures
        groups_of(hex_groups(g, 0, start) + "::"@ + hex_groups(g, end, 8)) == g,
        is_hex_or_colon(hex_groups(g, 0, start) + "::"@ + hex_groups(g, end, 8)),
        ({
            let parts = colon_parts(hex_groups(g, 0, start) + "::"@ + hex_groups(g, end, 8));
            &&& leading(parts) == start
            &&& trailing(parts) == 8 - end
            &&& parts.len() == (if start == 0 {
                1
            } else {
                start
            }) + 1 + (if end == 8 {
                1
            } else {
                8 - end
            })
            &&& forall|k: int|
                0 <= k < parts.len() && (#[trigger] parts[k]).len() > 0 ==> is_hex_number(parts[k])
        }),
{
    let a = hex_groups(g, 0, start);
    let b = hex_groups(g, end, 8);
    let text = a + "::"@ + b;
    lemma_colons();
    lemma_hex_groups(g, 0, start);
    lemma_hex_groups(g, end, 8);
    lemma_outside(a);
    let none = Seq::<char>::empty();
    lemma_outside(none);
    plain_text_is_one_part(none);
    assert(text == a.push(':') + (none.push(':') + b));
    colon_outside_brackets_cuts(none, b);
    colon_outside_brackets_cuts(a, none.push(':') + b);
    let pa = group_parts(g, 0, start);
    let pb = group_parts(g, end, 8);
    let parts = colon_parts(text);
    assert(parts == pa + (seq![none] + pb));
    assert forall|k: int| 0 <= k < 8 implies hex_text(#[trigger] g[k] as nat).len() > 0
        && hex_value(hex_text(g[k] as nat)) == g[k] by {
        lemma_hex_text(g[k] as nat);
    }
    let n = parts.len() as int;
    assert forall|k: int| 0 <= k < start implies (#[trigger] parts[k]).len() > 0 && hex_value(
        parts[k],
    ) == g[k] by {
        assert(parts[k] == pa[k]);
        assert(pa[k] == hex_text(g[k] as nat));
    }
    if start == 0 {
        assert(parts[0] == pa[0]);
    } else {
        assert(parts[start] == none);
    }
    lemma_leading(parts, start);
    let m = 8 - end;
    assert forall|k: int| n - m <= k < n implies (#[trigger] parts[k]).len() > 0 && hex_value(
        parts[k],
    ) == g[k - n + 8] by {
        let l = k - pa.len() - 1;
        assert(parts[k] == pb[l]);
        assert(pb[l] == hex_text(g[end + l] as nat));
        assert(end + l == k - n + 8);
    }
    if m == 0 {
        assert(parts[n - 1] == pb[0]);
    } else {
        assert(parts[n - m - 1] == none);
    }
    lemma_trailing(parts, m);
    assert forall|k: int| 0 <= k < parts.len() && (#[trigger] parts[k]).len() > 0 implies
        is_hex_number(parts[k]) by {
        if k < pa.len() {
            assert(parts[k] == pa[k]);
            lemma_no_leading_zero(g[k] as nat);
        } else if k > pa.len() {
            let l = k - pa.len() - 1;
            assert(parts[k] == pb[l]);
            lemma_no_leading_zero(g[end + l] as nat);
        }
    }
    assert forall|k: int| 0 <= k < 8 implies groups_of(text)[k] == g[k] by {
        if k >= end {
            assert(hex_value(parts[n - 8 + k]) == g[k]);
        }
    }
    assert(groups_of(text) == g);
    assert forall|i: int| 0 <= i < text.len() implies is_hex(#[trigger] text[i]) || text[i]
        == ':' by {
        if i < a.len() {
            assert(text[i] == a[i]);
        } else if i >= a.len() + 2 {
            assert(text[i] == b[i - a.len() - 2]);
        }
    }
}

proof fn lemma_plain_ipv6(b: Seq<u8>)
    requires
        b.len() == 16,
        !is_mapped(groups(b)),
    ensures
        groups_of(ipv6_text(b)) == groups(b),
        is_hex_or_colon(ipv6_text(b)),
{
    let g = groups(b);
    let start = longest_run(g, 8);
    let len = zero_run(g, start);
    longest_run_is_first_and_longest(g, 8);
    lemma_run_fits(g, start);
    if len >= 2 {
        assert forall|k: int| start <= k < start + len implies g[k] == 0 by {
            lemma_run_is_zero(g, start, k);
        }
        lemma_shortened(g, start, start + len as int);
    } else {
        lemma_whole(g);
        lemma_hex_groups(g, 0, 8);
    }
}

proof fn lemma_mapped_has_dot(b: Seq<u8>)
    requires
        b.len() == 16,
        is_mapped(groups(b)),
    ensures
        !has_no_dot(ipv6_text(b)),
{
    lemma_dot();
    let low = b.subrange(12, 16);
    let first = decimal_text(low[0] as nat);
    let text = ipv6_text(b);
    let at = "::ffff:"@.len() + first.len();
    assert(ipv4_text(low)[first.len() as int] == '.');
    assert(text[at as int] == '.');
}

proof fn lemma_bytes_of_groups(a: Seq<u8>, b: Seq<u8>)
    requires
        a.len() == 16,
        b.len() == 16,
        groups(a) == groups(b),
    ensures
        a == b,
{
    assert forall|i: int| 0 <= i < 16 implies a[i] == b[i] by {
        let k = i / 2;
        assert(groups(a)[k] == groups(b)[k]);
        let x = a[2 * k] * 256 + a[2 * k + 1];
        let y = b[2 * k] * 256 + b[2 * k + 1];
        assert(0 <= x <= 0xffff && 0 <= y <= 0xffff);
        assert(groups(a)[k] == x as u16);
        assert(groups(b)[k] == y as u16);
        assert(x == y);
    }
    assert(a == b);
}

/// The text of an IPv6 address that is no mapped IPv4 address reads back: the
/// hexadecimal groups around `::`, and zeros in its place.
pub proof fn ipv6_text_reads_back(b: Seq<u8>)
    requires
        b.len() == 16,
        !is_mapped(groups(b)),
    ensures
        groups_of(ipv6_text(b)) == groups(b),
{
    lemma_plain_ipv6(b);
}

/// No two IPv6 addresses share a text.
pub proof fn ipv6_text_is_unique(a: Seq<u8>, b: Seq<u8>)
    requires
        a.len() == 16,
        b.len() == 16,
        ipv6_text(a) == ipv6_text(b),
    ensures
        a == b,
{
    let ga = groups(a);
    let gb = groups(b);
    if is_mapped(ga) && is_mapped(gb) {
        let prefix = "::ffff:"@;
        let low_a = a.subrange(12, 16);
        let low_b = b.subrange(12, 16);
        assert(ipv4_text(low_a) == ipv6_text(a).skip(prefix.len() as int));
        assert(ipv4_text(low_b) == ipv6_text(b).skip(prefix.len() as int));
        ipv4_text_is_unique(low_a, low_b);
        assert forall|k: int| 0 <= k < 8 implies ga[k] == gb[k] by {
            if k >= 6 {
                assert(a[2 * k] == low_a[2 * k - 12]);
                assert(a[2 * k + 1] == low_a[2 * k - 11]);
                assert(b[2 * k] == low_b[2 * k - 12]);
                assert(b[2 * k + 1] == low_b[2 * k - 11]);
            }
        }
        assert(ga == gb);
        lemma_bytes_of_groups(a, b);
    } else {
        if is_mapped(ga) {
            lemma_mapped_has_dot(a);
        } else {
            lemma_plain_ipv6(a);
            lemma_outside(ipv6_text(a));
        }
        if is_mapped(gb) {
            lemma_mapped_has_dot(b);
        } else {
            lemma_plain_ipv6(b);
            lemma_outside(ipv6_text(b));
        }
        lemma_bytes_of_groups(a, b);
    }
}

/// The number in bytes `2k` and `2k + 1` of an address, high byte first.
pub open spec fn group_at(b: Seq<u8>, k: int) -> int {
    b[2 * k] * 256 + b[2 * k + 1]
}

/// Whether the bytes are ten zeros and two of all ones, and then those of an
/// IPv4 address.
pub open spec fn maps_ipv4(b: Seq<u8>) -> bool {
    &&& forall|i: int| 0 <= i < 10 ==> #[trigger] b[i] == 0
    &&& b[10] == 255
    &&& b[11] == 255
}

/// Whether groups `from` up to `to` of an address are all zero.
pub open spec fn is_zero_run(b: Seq<u8>, from: int, to: int) -> bool {
    &&& 0 <= from <= to <= 8
    &&& forall|k: int| from <= k < to ==> #[trigger] group_at(b, k) == 0
}

/// Whether groups `from` up to `to` are the first longest run of zero groups,
/// and more than one.
pub open spec fn is_first_longest_run(b: Seq<u8>, from: int, to: int) -> bool {
    &&& is_zero_run(b, from, to)
    &&& to - from >= 2
    &&& forall|f: int, t: int| #[trigger]
        is_zero_run(b, f, t) ==> t - f <= to - from && (t - f == to - from ==> from <= f)
}

proof fn lemma_groups(b: Seq<u8>)
    requires
        b.len() == 16,
    ensures
        forall|k: int| 0 <= k < 8 ==> #[trigger] groups(b)[k] == group_at(b, k),
        is_mapped(groups(b)) == maps_ipv4(b),
{
    let g = groups(b);
    assert forall|k: int| 0 <= k < 8 implies #[trigger] g[k] == group_at(b, k) by {
        let x = b[2 * k] * 256 + b[2 * k + 1];
        assert(0 <= x <= 0xffff);
        assert(g[k] == x as u16);
    }
    assert(g[0] == group_at(b, 0) && g[1] == group_at(b, 1) && g[2] == group_at(b, 2) && g[3]
        == group_at(b, 3) && g[4] == group_at(b, 4) && g[5] == group_at(b, 5));
    if is_mapped(g) {
        assert forall|i: int| 0 <= i < 10 implies #[trigger] b[i] == 0 by {
            let k = i / 2;
            assert(g[k] == 0);
            assert(group_at(b, k) == 0);
        }
    }
}

/// The text of an IPv6 address names that address. That of a mapped IPv4 address
/// is `::ffff:` and the IPv4 address in its last four bytes; any other gives its
/// eight groups in hexadecimal, where `::` stands for the groups left out.
pub proof fn ipv6_text_names_its_address(b: Seq<u8>)
    requires
        b.len() == 16,
    ensures
        maps_ipv4(b) ==> ipv6_text(b).len() > 7 && ipv6_text(b).take(7) == seq![
            ':',
            ':',
            'f',
            'f',
            'f',
            'f',
            ':',
        ] && names_ipv4(ipv6_text(b).skip(7), b.skip(12)),
        !maps_ipv4(b) ==> forall|k: int|
            0 <= k < 8 ==> #[trigger] groups_of(ipv6_text(b))[k] == group_at(b, k),
{
    lemma_groups(b);
    if maps_ipv4(b) {
        reveal_strlit("::ffff:");
        let low = b.subrange(12, 16);
        assert(low == b.skip(12));
        ipv4_text_names_its_address(low);
        let text = ipv6_text(b);
        assert(text.skip(7) == ipv4_text(low));
        assert(text.take(7) == seq![':', ':', 'f', 'f', 'f', 'f', ':']);
        decimal_reads_back(low[0] as nat);
    } else {
        lemma_plain_ipv6(b);
        assert forall|k: int| 0 <= k < 8 implies #[trigger] groups_of(ipv6_text(b))[k] == group_at(
            b,
            k,
        ) by {
            assert(groups(b)[k] == group_at(b, k));
        }
    }
}

proof fn lemma_run_at_least(g: Seq<u16>, i: int, to: int)
    requires
        0 <= i <= to <= g.len(),
        forall|k: int| i <= k < to ==> #[trigger] g[k] == 0,
    ensures
        zero_run(g, i) >= to - i,
    decreases to - i,
{
    if i < to {
        assert(g[i] == 0);
        lemma_run_at_least(g, i + 1, to);
    }
}

/// An IPv6 address is written in its short form. All groups are lower case
/// hexadecimal without leading zeros; the first longest run of two or more zero
/// groups is left out, and where there is none, no group is.
pub proof fn ipv6_text_is_short(b: Seq<u8>, from: int, to: int)
    requires
        b.len() == 16,
        !maps_ipv4(b),
    ensures
        forall|k: int|
            0 <= k < colon_parts(ipv6_text(b)).len() && (#[trigger] colon_parts(
                ipv6_text(b),
            )[k]).len() > 0 ==> is_hex_number(colon_parts(ipv6_text(b))[k]),
        is_first_longest_run(b, from, to) ==> ({
            let parts = colon_parts(ipv6_text(b));
            &&& leading(parts) == from
            &&& trailing(parts) == 8 - to
            &&& parts.len() == (if from == 0 {
                1
            } else {
                from
            }) + 1 + (if to == 8 {
                1
            } else {
                8 - to
            })
        }),
        (forall|f: int, t: int| #[trigger] is_zero_run(b, f, t) ==> t - f < 2) ==> ({
            let parts = colon_parts(ipv6_text(b));
            &&& parts.len() == 8
            &&& forall|k: int| 0 <= k < 8 ==> (#[trigger] parts[k]).len() > 0
        }),
{
    lemma_groups(b);
    let g = groups(b);
    let start = longest_run(g, 8);
    let len = zero_run(g, start);
    let end = start + len as int;
    longest_run_is_first_and_longest(g, 8);
    lemma_run_fits(g, start);
    assert forall|k: int| start <= k < end implies g[k] == 0 && #[trigger] group_at(b, k) == 0 by {
        lemma_run_is_zero(g, start, k);
        assert(g[k] == group_at(b, k));
    }
    assert(is_zero_run(b, start, end));
    if len >= 2 {
        lemma_shortened(g, start, end);
    } else {
        lemma_whole(g);
    }
    if is_first_longest_run(b, from, to) {
        assert forall|k: int| from <= k < to implies #[trigger] g[k] == 0 by {
            assert(group_at(b, k) == 0);
        }
        lemma_run_at_least(g, from, to);
        assert(zero_run(g, from) <= len);
        if start > from {
            assert(zero_run(g, from) < len);
        }
    }
}

} // verus!
