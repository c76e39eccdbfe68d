//! `host:port` texts: splitting at colons, except inside the brackets of an IPv6
//! literal, and taking those brackets off.
use crate::text::{chars_of, text_of};
use vstd::prelude::*;
use vstd::string::*;

verus! {

/// Whether position `i` stands inside square brackets: some `[` before it has
/// no `]` between.
pub open spec fn bracketed(s: Seq<char>, i: int) -> bool {
    exists|j: int| #[trigger] opens_until(s, j, i)
}

pub open spec fn opens_until(s: Seq<char>, j: int, i: int) -> bool {
    &&& 0 <= j < i
    &&& s[j] == '['
    &&& forall|k: int| j < k < i ==> s[k] != ']'
}

/// Whether the character at `i` is a colon outside brackets.
pub open spec fn separates(s: Seq<char>, i: int) -> bool {
    s[i] == ':' && !bracketed(s, i)
}

/// The positions below `n` of the colons outside brackets, in order.
pub open spec fn separators(s: Seq<char>, n: int) -> Seq<int>
    decreases n,
{
    if n <= 0 {
        seq![]
    } else if separates(s, n - 1) {
        separators(s, n - 1).push(n - 1)
    } else {
        separators(s, n - 1)
    }
}

/// Where part number `k` begins.
pub open spec fn part_start(seps: Seq<int>, k: int) -> int {
    if k == 0 {
        0
    } else {
        seps[k - 1] + 1
    }
}

/// Where part number `k` ends.
pub open spec fn part_end(seps: Seq<int>, k: int, len: int) -> int {
    if k < seps.len() {
        seps[k]
    } else {
        len
    }
}

/// What stands between the colons outside brackets.
pub open spec fn colon_parts(s: Seq<char>) -> Seq<Seq<char>> {
    let seps = separators(s, s.len() as int);
    Seq::new(
        seps.len() + 1,
        |k: int| s.subrange(part_start(seps, k), part_end(seps, k, s.len() as int)),
    )
}

proof fn lemma_bracketed_next(s: Seq<char>, i: int)
    requires
        0 <= i < s.len(),
    ensures
        bracketed(s, i + 1) == (s[i] == '[' || (s[i] != ']' && bracketed(s, i))),
{
    if s[i] == '[' {
        assert(opens_until(s, i, i + 1));
    } else if s[i] != ']' && bracketed(s, i) {
        let j = choose|j: int| opens_until(s, j, i);
        assert(opens_until(s, j, i + 1));
    }
    if bracketed(s, i + 1) && s[i] != '[' {
        let next = i + 1;
        let j = choose|j: int| opens_until(s, j, next);
        assert(opens_until(s, j, i));
    }
}

proof fn lemma_separators(s: Seq<char>, n: int)
    requires
        0 <= n <= s.len(),
    ensures
        forall|k: int|
            0 <= k < separators(s, n).len() ==> 0 <= #[trigger] separators(s, n)[k] < n
                && separates(s, separators(s, n)[k]),
        forall|k: int, l: int|
            0 <= k < l < separators(s, n).len() ==> #[trigger] separators(s, n)[k]
                < #[trigger] separators(s, n)[l],
    decreases n,
{
    if n > 0 {
        lemma_separators(s, n - 1);
        let before = separators(s, n - 1);
        if separates(s, n - 1) {
            assert(separators(s, n) == before.push(n - 1));
        } else {
            assert(separators(s, n) == before);
        }
    } else {
        assert(separators(s, n).len() == 0);
    }
}

/// Splits a text at its colons, but not at those inside `[...]`, so that an
/// IPv6 literal in brackets stays in one part.
pub fn split_colon_aware(s: &str) -> (parts: Vec<String>)
    ensures
        parts.deep_view() == colon_parts(s@),
        parts@.len() >= 1,
{
    let v: Vec<char> = chars_of(s);
    let mut parts: Vec<String> = Vec::new();
    let mut start: usize = 0;
    let mut in_brackets: bool = false;
    let mut i: usize = 0;
    proof {
        assert(!bracketed(v@, 0));
    }
    while i < v.len()
        invariant
            start <= i <= v@.len(),
            in_brackets == bracketed(v@, i as int),
            parts@.len() == separators(v@, i as int).len(),
            start == part_start(separators(v@, i as int), parts@.len() as int),
            forall|k: int|
                0 <= k < parts@.len() ==> (#[trigger] parts@[k])@ == v@.subrange(
                    part_start(separators(v@, i as int), k),
                    separators(v@, i as int)[k],
                ),
        decreases v@.len() - i,
    {
        let c: char = v[i];
        proof {
            lemma_bracketed_next(v@, i as int);
            lemma_separators(v@, i as int);
        }
        let ghost seps = separators(v@, i as int);
        if c == '[' {
            in_brackets = true;
        } else if c == ']' {
            in_brackets = false;
        } else if c == ':' && !in_brackets {
            assert(separators(v@, i + 1) == seps.push(i as int));
            parts.push(text_of(&v, start, i));
            start = i + 1;
        }
        i = i + 1;
    }
    parts.push(text_of(&v, start, v.len()));
    proof {
        lemma_separators(v@, v@.len() as int);
        assert(parts.deep_view() == colon_parts(s@));
    }
    parts
}

/// A text without the brackets around it, where it has both.
pub open spec fn unbracketed(s: Seq<char>) -> Seq<char> {
    if s.len() >= 2 && s[0] == '[' && s.last() == ']' {
        s.subrange(1, s.len() - 1)
    } else {
        s
    }
}

/// Takes the brackets off `[...]`; any other text stays as it is.
pub fn strip_brackets(s: &str) -> (t: String)
    ensures
        t@ == unbracketed(s@),
{
    let v: Vec<char> = chars_of(s);
    let n: usize = v.len();
    if n >= 2 && v[0] == '[' && v[n - 1] == ']' {
        text_of(&v, 1, n - 1)
    } else {
        s.to_owned()
    }
}

// ---- laws ----

/// Parts with a colon between each two.
pub open spec fn joined(parts: Seq<Seq<char>>) -> Seq<char>
    decreases parts.len(),
{
    if parts.len() == 0 {
        seq![]
    } else if parts.len() == 1 {
        parts[0]
    } else {
        joined(parts.drop_last()).push(':') + parts.last()
    }
}

proof fn lemma_joined_prefix(s: Seq<char>, k: int)
    requires
        1 <= k <= colon_parts(s).len(),
    ensures
        joined(colon_parts(s).take(k)) == s.take(
            part_end(separators(s, s.len() as int), k - 1, s.len() as int),
        ),
    decreases k,
{
    let seps = separators(s, s.len() as int);
    lemma_separators(s, s.len() as int);
    let parts = colon_parts(s);
    let some = parts.take(k);
    if k > 1 {
        lemma_joined_prefix(s, k - 1);
        assert(some.drop_last() == parts.take(k - 1));
        let at = seps[k - 2];
        let end = part_end(seps, k - 1, s.len() as int);
        assert(separates(s, at));
        if k - 1 < seps.len() {
            assert(at < seps[k - 1]);
        }
        assert(some.last() == s.subrange(at + 1, end));
        assert(s.take(end) == s.take(at).push(':') + s.subrange(at + 1, end));
    } else {
        assert(some[0] == s.subrange(0, part_end(seps, 0, s.len() as int)));
    }
}

/// Splitting loses nothing: the parts with colons between them are the text.
pub proof fn parts_join_to_the_text(s: Seq<char>)
    ensures
        joined(colon_parts(s)) == s,
{
    let parts = colon_parts(s);
    lemma_joined_prefix(s, parts.len() as int);
    assert(parts.take(parts.len() as int) == parts);
    assert(s.take(s.len() as int) == s);
}

/// Whether a text ends outside brackets.
pub open spec fn ends_outside(s: Seq<char>) -> bool {
    !bracketed(s, s.len() as int)
}

pub open spec fn has_no_brackets(s: Seq<char>) -> bool {
    forall|i: int| 0 <= i < s.len() ==> #[trigger] s[i] != '[' && s[i] != ']'
}

pub open spec fn has_no_colon(s: Seq<char>) -> bool {
    forall|i: int| 0 <= i < s.len() ==> #[trigger] s[i] != ':'
}

proof fn lemma_bracketed_prefix(a: Seq<char>, b: Seq<char>, i: int)
    requires
        0 <= i <= a.len(),
    ensures
        bracketed(a + b, i) == bracketed(a, i),
{
    let s = a + b;
    if bracketed(s, i) {
        let j = choose|j: int| opens_until(s, j, i);
        assert forall|k: int| j < k < i implies a[k] != ']' by {
            assert(s[k] != ']');
        }
        assert(opens_until(a, j, i));
    }
    if bracketed(a, i) {
        let j = choose|j: int| opens_until(a, j, i);
        assert forall|k: int| j < k < i implies s[k] != ']' by {
            assert(a[k] != ']');
        }
        assert(opens_until(s, j, i));
    }
}

proof fn lemma_bracketed_suffix(a: Seq<char>, b: Seq<char>, i: int)
    requires
        ends_outside(a),
        0 <= i <= b.len(),
    ensures
        bracketed(a + b, a.len() + i) == bracketed(b, i),
    decreases i,
{
    let s = a + b;
    if i == 0 {
        lemma_bracketed_prefix(a, b, a.len() as int);
        assert(!bracketed(b, 0));
    } else {
        lemma_bracketed_suffix(a, b, i - 1);
        lemma_bracketed_next(s, a.len() + i - 1);
        lemma_bracketed_next(b, i - 1);
        assert(s[a.len() + i - 1] == b[i - 1]);
    }
}

proof fn lemma_separators_prefix(a: Seq<char>, b: Seq<char>, n: int)
    requires
        0 <= n <= a.len(),
    ensures
        separators(a + b, n) == separators(a, n),
    decreases n,
{
    if n > 0 {
        lemma_separators_prefix(a, b, n - 1);
        lemma_bracketed_prefix(a, b, n - 1);
        assert((a + b)[n - 1] == a[n - 1]);
    }
}

proof fn lemma_separators_suffix(a: Seq<char>, b: Seq<char>, n: int)
    requires
        ends_outside(a),
        0 <= n <= b.len(),
    ensures
        separators(a + b, a.len() + n) == separators(a, a.len() as int) + separators(
            b,
            n,
        ).map_values(|p: int| a.len() + p),
    decreases n,
{
    let shift = |p: int| a.len() + p;
    if n == 0 {
        lemma_separators_prefix(a, b, a.len() as int);
        assert(separators(b, 0).map_values(shift) == Seq::<int>::empty());
        assert(separators(a, a.len() as int) + Seq::<int>::empty() == separators(
            a,
            a.len() as int,
        ));
    } else {
        lemma_separators_suffix(a, b, n - 1);
        lemma_bracketed_suffix(a, b, n - 1);
        assert((a + b)[a.len() + n - 1] == b[n - 1]);
        let before = separators(b, n - 1);
        if separates(b, n - 1) {
            assert(separators(b, n) == before.push(n - 1));
            assert(before.push(n - 1).map_values(shift) == before.map_values(shift).push(
                a.len() + n - 1,
            ));
        }
    }
}

/// A colon outside brackets cuts: the parts are those of the text before it and
/// those of the text behind it.
pub proof fn colon_outside_brackets_cuts(a: Seq<char>, b: Seq<char>)
    requires
        ends_outside(a),
    ensures
        colon_parts(a.push(':') + b) == colon_parts(a) + colon_parts(b),
{
    let colon = a.push(':');
    assert(colon == a + seq![':']);
    lemma_bracketed_prefix(a, seq![':'], a.len() as int);
    lemma_bracketed_next(colon, a.len() as int);
    assert(ends_outside(colon));
    lemma_separators_prefix(a, seq![':'], a.len() as int);
    let s = colon + b;
    let seps_a = separators(a, a.len() as int);
    let seps_b = separators(b, b.len() as int);
    assert(separates(colon, a.len() as int));
    assert(separators(colon, colon.len() as int) == seps_a.push(a.len() as int));
    lemma_separators_suffix(colon, b, b.len() as int);
    let shift = |p: int| colon.len() + p;
    let seps = separators(s, s.len() as int);
    assert(seps == seps_a.push(a.len() as int) + seps_b.map_values(shift));
    lemma_separators(a, a.len() as int);
    lemma_separators(b, b.len() as int);
    let parts = colon_parts(s);
    let expected = colon_parts(a) + colon_parts(b);
    assert(parts.len() == expected.len());
    assert forall|k: int| 0 <= k < parts.len() implies parts[k] == #[trigger] expected[k] by {
        let start = part_start(seps, k);
        let end = part_end(seps, k, s.len() as int);
        if k <= seps_a.len() {
            if k > 0 {
                assert(seps[k - 1] == seps_a[k - 1]);
            }
            assert(start == part_start(seps_a, k));
            assert(end == part_end(seps_a, k, a.len() as int));
            if 0 < k < seps_a.len() {
                assert(seps_a[k - 1] < seps_a[k]);
            }
            assert(s.subrange(start, end) == a.subrange(start, end));
        } else {
            let l = k - seps_a.len() - 1;
            assert(expected[k] == colon_parts(b)[l]);
            if l > 0 {
                assert(seps[k - 1] == colon.len() + seps_b[l - 1]);
            } else {
                assert(seps[k - 1] == a.len());
            }
            let from = part_start(seps_b, l);
            let to = part_end(seps_b, l, b.len() as int);
            assert(start == colon.len() + from);
            if l < seps_b.len() {
                assert(seps[k] == colon.len() + seps_b[l]);
                if l > 0 {
                    assert(seps_b[l - 1] < seps_b[l]);
                }
            }
            assert(end == colon.len() + to);
            assert(s.subrange(start, end) == b.subrange(from, to));
        }
    }
    assert(parts == expected);
}

proof fn lemma_no_separators(s: Seq<char>, n: int)
    requires
        0 <= n <= s.len(),
        forall|i: int| 0 <= i < s.len() ==> !#[trigger] separates(s, i),
    ensures
        separators(s, n) == Seq::<int>::empty(),
    decreases n,
{
    if n > 0 {
        lemma_no_separators(s, n - 1);
        assert(!separates(s, n - 1));
    }
}

proof fn lemma_separators_complete(s: Seq<char>, n: int, p: int)
    requires
        0 <= p < n <= s.len(),
        separates(s, p),
    ensures
        exists|j: int| 0 <= j < separators(s, n).len() && #[trigger] separators(s, n)[j] == p,
    decreases n,
{
    let before = separators(s, n - 1);
    if p < n - 1 {
        lemma_separators_complete(s, n - 1, p);
        let j = choose|j: int| 0 <= j < before.len() && #[trigger] before[j] == p;
        assert(separators(s, n)[j] == p);
    } else {
        assert(separators(s, n)[before.len() as int] == p);
    }
}

/// Splitting leaves nothing to split: a part holds no colon outside brackets,
/// so split again it is one part.
pub proof fn part_is_one_part(s: Seq<char>, k: int)
    requires
        0 <= k < colon_parts(s).len(),
    ensures
        forall|i: int|
            0 <= i < colon_parts(s)[k].len() ==> !#[trigger] separates(colon_parts(s)[k], i),
        colon_parts(colon_parts(s)[k]) == seq![colon_parts(s)[k]],
{
    let n = s.len() as int;
    let seps = separators(s, n);
    lemma_separators(s, n);
    let start = part_start(seps, k);
    let end = part_end(seps, k, n);
    if 0 < k < seps.len() {
        assert(seps[k - 1] < seps[k]);
    }
    let part = colon_parts(s)[k];
    assert(part == s.subrange(start, end));
    let before = s.take(start);
    let rest = s.skip(start);
    let behind = s.skip(end);
    assert(s == before + rest);
    assert(rest == part + behind);
    if k > 0 {
        lemma_bracketed_next(s, start - 1);
        lemma_bracketed_prefix(before, rest, start);
    }
    assert(ends_outside(before));
    assert forall|i: int| 0 <= i < part.len() implies !#[trigger] separates(part, i) by {
        lemma_bracketed_suffix(before, rest, i);
        lemma_bracketed_prefix(part, behind, i);
        if separates(part, i) {
            let at = start + i;
            assert(separates(s, at));
            lemma_separators_complete(s, n, at);
            let j = choose|j: int| 0 <= j < seps.len() && #[trigger] seps[j] == at;
            if j < k {
                assert(seps[j] <= seps[k - 1]);
            } else {
                assert(seps[j] >= seps[k]);
            }
            assert(false);
        }
    }
    lemma_no_separators(part, part.len() as int);
    assert(part.subrange(0, part.len() as int) == part);
    assert(colon_parts(part) == seq![part]);
}

/// A text without colons and brackets is one part.
pub proof fn plain_text_is_one_part(s: Seq<char>)
    requires
        has_no_colon(s),
        has_no_brackets(s),
    ensures
        colon_parts(s) == seq![s],
        ends_outside(s),
{
    lemma_no_separators(s, s.len() as int);
    assert(s.subrange(0, s.len() as int) == s);
    assert(colon_parts(s) == seq![s]);
}

/// A text in brackets is one part, whatever colons it holds, and without its
/// brackets it is the text again.
pub proof fn bracketed_text_is_one_part(s: Seq<char>)
    requires
        has_no_brackets(s),
    ensures
        colon_parts(seq!['['] + s + seq![']']) == seq![seq!['['] + s + seq![']']],
        ends_outside(seq!['['] + s + seq![']']),
        unbracketed(seq!['['] + s + seq![']']) == s,
{
    let t = seq!['['] + s + seq![']'];
    assert forall|i: int| 0 <= i < t.len() implies !#[trigger] separates(t, i) by {
        if 0 < i < t.len() - 1 {
            assert forall|k: int| 0 < k < i implies t[k] != ']' by {
                assert(t[k] == s[k - 1]);
            }
            assert(opens_until(t, 0, i));
        }
    }
    lemma_no_separators(t, t.len() as int);
    assert(t.subrange(0, t.len() as int) == t);
    assert(colon_parts(t) == seq![t]);
    lemma_bracketed_next(t, t.len() - 1);
    assert(unbracketed(t) == s);
}

/// A position is inside brackets from an opening bracket up to the next closing
/// one, however many were opened; nothing else changes it.
pub proof fn brackets_open_and_close(s: Seq<char>, c: char)
    ensures
        ends_outside(Seq::<char>::empty()),
        !ends_outside(s.push('[')),
        ends_outside(s.push(']')),
        c != '[' && c != ']' ==> ends_outside(s.push(c)) == ends_outside(s),
{
    let n = s.len() as int;
    assert forall|d: char| #[trigger] bracketed(s.push(d), n + 1) == (d == '[' || (d != ']'
        && bracketed(s, n))) by {
        assert(s.push(d) == s + seq![d]);
        lemma_bracketed_prefix(s, seq![d], n);
        lemma_bracketed_next(s.push(d), n);
    }
    assert(bracketed(s.push('['), n + 1));
    assert(!bracketed(s.push(']'), n + 1));
    assert(bracketed(s.push(c), n + 1) == (c == '[' || (c != ']' && bracketed(s, n))));
    assert(!bracketed(Seq::<char>::empty(), 0));
}

/// Read on by one character, a colon outside brackets begins an empty part, and
/// any other character goes into the last part.
pub proof fn parts_grow_with_the_text(s: Seq<char>, c: char)
    ensures
        colon_parts(Seq::<char>::empty()) == seq![Seq::<char>::empty()],
        c == ':' && ends_outside(s) ==> colon_parts(s.push(c)) == colon_parts(s).push(
            Seq::<char>::empty(),
        ),
        !(c == ':' && ends_outside(s)) ==> colon_parts(s.push(c)) == colon_parts(
            s,
        ).drop_last().push(colon_parts(s).last().push(c)),
{
    let none = Seq::<char>::empty();
    plain_text_is_one_part(none);
    let t = s.push(c);
    let n = s.len() as int;
    if c == ':' && ends_outside(s) {
        colon_outside_brackets_cuts(s, none);
        assert(s.push(':') + none == t);
        assert(colon_parts(s) + seq![none] == colon_parts(s).push(none));
    } else {
        assert(t == s + seq![c]);
        lemma_separators_prefix(s, seq![c], n);
        lemma_bracketed_prefix(s, seq![c], n);
        assert(!separates(t, n));
        let seps = separators(s, n);
        assert(separators(t, n + 1) == seps);
        lemma_separators(s, n);
        let grown = colon_parts(s).drop_last().push(colon_parts(s).last().push(c));
        let parts = colon_parts(t);
        assert forall|k: int| 0 <= k < parts.len() implies parts[k] == #[trigger] grown[k] by {
            let start = part_start(seps, k);
            if k < seps.len() {
                if k > 0 {
                    assert(seps[k - 1] < seps[k]);
                }
                assert(t.subrange(start, seps[k]) == s.subrange(start, seps[k]));
            } else {
                assert(t.subrange(start, n + 1) == s.subrange(start, n).push(c));
            }
        }
        assert(parts == grown);
    }
}

/// Brackets come off a text that has both, and only those two characters; any
/// other text stays as it is.
pub proof fn brackets_come_off(s: Seq<char>)
    ensures
        unbracketed(seq!['['] + s + seq![']']) == s,
        !(s.len() >= 2 && s[0] == '[' && s[s.len() - 1] == ']') ==> unbracketed(s) == s,
{
    assert(unbracketed(seq!['['] + s + seq![']']) == s);
}

} // verus!
