//! Text: characters in and out of strings, and decimal numbers.
use vstd::prelude::*;
use vstd::string::*;
use vstd::utf8::{decode_utf8, valid_utf8};

verus! {

/// `String::push` puts the character behind those that the string holds.
pub assume_specification[ String::push ](s: &mut String, c: char)
    ensures
        final(s)@ == old(s)@.push(c),
;

/// Calls `String::from_utf8`, which gives the text that the bytes encode in
/// UTF-8, and an error for bytes that are not UTF-8.
#[verifier::external_body]
pub(crate) fn text_from_utf8(bytes: Vec<u8>) -> (t: Option<String>)
    ensures
        match t {
            Some(t) => valid_utf8(bytes@) && t@ == decode_utf8(bytes@),
            None => !valid_utf8(bytes@),
        },
{
    String::from_utf8(bytes).ok()
}

/// The characters of a text, in order.
pub fn chars_of(s: &str) -> (v: Vec<char>)
    ensures
        v@ == s@,
{
    let mut v: Vec<char> = Vec::new();
    for c in it: s.chars()
        invariant
            it.seq() == s@,
            v@ == s@.take(it.index() as int),
    {
        v.push(c);
    }
    v
}

/// The text that `v` holds from `from` up to `to`.
pub fn text_of(v: &Vec<char>, from: usize, to: usize) -> (s: String)
    requires
        from <= to <= v@.len(),
    ensures
        s@ == v@.subrange(from as int, to as int),
{
    let mut s: String = String::new();
    let mut i: usize = from;
    while i < to
        invariant
            from <= i <= to <= v@.len(),
            s@ == v@.subrange(from as int, i as int),
        decreases to - i,
    {
        s.push(v[i]);
        i = i + 1;
    }
    s
}

/// Whether two texts hold the same characters.
pub fn same_text(a: &str, b: &str) -> (same: bool)
    ensures
        same == (a@ == b@),
{
    let x: Vec<char> = chars_of(a);
    let y: Vec<char> = chars_of(b);
    if x.len() != y.len() {
        return false;
    }
    let mut i: usize = 0;
    while i < x.len()
        invariant
            i <= x@.len(),
            x@.len() == y@.len(),
            x@ == a@,
            y@ == b@,
            x@.take(i as int) == y@.take(i as int),
        decreases x@.len() - i,
    {
        if x[i] != y[i] {
            return false;
        }
        assert(x@.take(i + 1) == x@.take(i as int).push(x@[i as int]));
        assert(y@.take(i + 1) == y@.take(i as int).push(y@[i as int]));
        i = i + 1;
    }
    assert(x@.take(i as int) == x@);
    assert(y@.take(i as int) == y@);
    true
}

// ---- decimal numbers ----

pub open spec fn is_digit(c: char) -> bool {
    '0' <= c <= '9'
}

pub open spec fn all_digits(s: Seq<char>) -> bool {
    forall|i: int| 0 <= i < s.len() ==> is_digit(#[trigger] s[i])
}

pub open spec fn digit_value(c: char) -> nat {
    (c as u32 - '0' as u32) as nat
}

/// The number that a sequence of digits writes.
pub open spec fn digits_value(s: Seq<char>) -> nat
    decreases s.len(),
{
    if s.len() == 0 {
        0
    } else {
        10 * digits_value(s.drop_last()) + digit_value(s.last())
    }
}

/// A text without its leading plus sign, where it has one.
pub open spec fn without_plus(s: Seq<char>) -> Seq<char> {
    if s.len() > 0 && s[0] == '+' {
        s.skip(1)
    } else {
        s
    }
}

/// The number that a text writes: an optional plus sign and then digits only,
/// at least one.
pub open spec fn decimal_value(s: Seq<char>) -> Option<nat> {
    let digits = without_plus(s);
    if digits.len() > 0 && all_digits(digits) {
        Some(digits_value(digits))
    } else {
        None
    }
}

/// `decimal_value`, as far as it is at most `max`.
pub open spec fn decimal_up_to(s: Seq<char>, max: nat) -> Option<nat> {
    match decimal_value(s) {
        Some(n) => if n <= max {
            Some(n)
        } else {
            None
        },
        None => None,
    }
}

proof fn lemma_digits_value_grows(s: Seq<char>, n: int)
    requires
        0 <= n <= s.len(),
    ensures
        digits_value(s.take(n)) <= digits_value(s),
    decreases s.len() - n,
{
    if n < s.len() {
        lemma_digits_value_grows(s, n + 1);
        assert(s.take(n + 1).drop_last() == s.take(n));
    } else {
        assert(s.take(n) == s);
    }
}

/// Reads a decimal number that is at most `max`.
fn read_decimal(s: &str, max: u32) -> (n: Option<u32>)
    ensures
        match n {
            Some(n) => decimal_up_to(s@, max as nat) == Some(n as nat),
            None => decimal_up_to(s@, max as nat) is None,
        },
{
    let v: Vec<char> = chars_of(s);
    let start: usize = if v.len() > 0 && v[0] == '+' {
        1
    } else {
        0
    };
    let ghost digits = without_plus(s@);
    assert(digits == v@.skip(start as int));
    if v.len() == start {
        return None;
    }
    let mut n: u32 = 0;
    let mut i: usize = start;
    while i < v.len()
        invariant
            start <= i <= v@.len(),
            start < v@.len(),
            v@ == s@,
            digits == v@.skip(start as int),
            digits == without_plus(s@),
            all_digits(digits.take(i - start)),
            n == digits_value(digits.take(i - start)),
            n <= max,
        decreases v@.len() - i,
    {
        let c: char = v[i];
        assert(c == digits[i - start]);
        if c < '0' || c > '9' {
            assert(!is_digit(digits[i - start]));
            return None;
        }
        let wide: u64 = (n as u64) * 10 + ((c as u32 - '0' as u32) as u64);
        proof {
            let longer = digits.take(i - start + 1);
            assert(longer.drop_last() == digits.take(i - start));
            assert(longer.last() == c);
            assert(digits_value(longer) == wide);
            lemma_digits_value_grows(digits, i - start + 1);
            assert forall|k: int| 0 <= k < longer.len() implies is_digit(#[trigger] longer[k]) by {
                if k < i - start {
                    assert(is_digit(digits.take(i - start)[k]));
                }
            }
        }
        if wide > max as u64 {
            return None;
        }
        n = wide as u32;
        i = i + 1;
    }
    assert(digits.take(i - start) == digits);
    Some(n)
}

/// Reads a port or another 16-bit number.
pub fn read_u16(s: &str) -> (n: Option<u16>)
    ensures
        match n {
            Some(n) => decimal_up_to(s@, u16::MAX as nat) == Some(n as nat),
            None => decimal_up_to(s@, u16::MAX as nat) is None,
        },
{
    match read_decimal(s, 65535) {
        Some(n) => Some(n as u16),
        None => None,
    }
}

/// Reads a 32-bit number.
pub fn read_u32(s: &str) -> (n: Option<u32>)
    ensures
        match n {
            Some(n) => decimal_up_to(s@, u32::MAX as nat) == Some(n as nat),
            None => decimal_up_to(s@, u32::MAX as nat) is None,
        },
{
    read_decimal(s, u32::MAX)
}

/// The digit that stands for a number under ten.
pub open spec fn digit_char(n: nat) -> char {
    ('0' as u32 + n) as char
}

/// A number in decimal, without leading zeros.
pub open spec fn decimal_text(n: nat) -> Seq<char>
    decreases n,
{
    if n < 10 {
        seq![digit_char(n)]
    } else {
        decimal_text(n / 10).push(digit_char(n % 10))
    }
}

/// A number in decimal, with a minus sign where it is negative.
pub open spec fn signed_text(n: int) -> Seq<char> {
    if n < 0 {
        seq!['-'] + decimal_text((-n) as nat)
    } else {
        decimal_text(n as nat)
    }
}

fn digit_of(n: u8) -> (c: char)
    requires
        n < 10,
    ensures
        c == digit_char(n as nat),
{
    (48u8 + n) as char
}

/// Writes a number in decimal behind `out`.
pub fn push_decimal(out: &mut String, n: u128)
    ensures
        final(out)@ == old(out)@ + decimal_text(n as nat),
    decreases n,
{
    if n >= 10 {
        push_decimal(out, n / 10);
    }
    out.push(digit_of((n % 10) as u8));
    assert(out@ == old(out)@ + decimal_text(n as nat));
}

/// Writes a signed number in decimal behind `out`.
pub fn push_signed(out: &mut String, n: i64)
    ensures
        final(out)@ == old(out)@ + signed_text(n as int),
{
    if n < 0 {
        out.push('-');
        push_decimal(out, (-(n as i128)) as u128);
        assert(out@ == old(out)@ + signed_text(n as int));
    } else {
        push_decimal(out, n as u128);
    }
}

/// A number that was written in decimal reads back as itself.
pub proof fn decimal_reads_back(n: nat)
    ensures
        decimal_value(decimal_text(n)) == Some(n),
        all_digits(decimal_text(n)),
        decimal_text(n).len() > 0,
{
    lemma_decimal_text(n);
    assert(is_digit(decimal_text(n)[0]));
}

proof fn lemma_decimal_text(n: nat)
    ensures
        all_digits(decimal_text(n)),
        decimal_text(n).len() > 0,
        digits_value(decimal_text(n)) == n,
    decreases n,
{
    let t = decimal_text(n);
    if n < 10 {
        assert(t.drop_last() == Seq::<char>::empty());
        assert(digits_value(t.drop_last()) == 0);
        assert(digits_value(t) == digit_value(t.last()));
    } else {
        lemma_decimal_text(n / 10);
        assert(t.drop_last() == decimal_text(n / 10));
        assert forall|i: int| 0 <= i < t.len() implies is_digit(#[trigger] t[i]) by {
            if i < t.len() - 1 {
                assert(is_digit(decimal_text(n / 10)[i]));
            }
        }
    }
}

// ---- laws ----

/// A digit behind others counts ones, and what stands before it counts tens.
pub proof fn digits_count_by_tens(s: Seq<char>, c: char)
    requires
        '0' <= c <= '9',
    ensures
        digits_value(Seq::<char>::empty()) == 0,
        digits_value(s.push(c)) == 10 * digits_value(s) + (c as int - '0' as int),
{
    assert(s.push(c).drop_last() == s);
}

/// Which texts are numbers: digits, at least one, with a plus sign before them
/// or not. Nothing else is.
pub proof fn what_a_number_is(s: Seq<char>)
    ensures
        s.len() > 0 && (forall|i: int| 0 <= i < s.len() ==> '0' <= #[trigger] s[i] <= '9')
            ==> decimal_value(s) == Some(digits_value(s)) && decimal_value(seq!['+'] + s) == Some(
            digits_value(s),
        ),
        s.len() == 0 ==> decimal_value(s) is None && decimal_value(seq!['+'] + s) is None,
        forall|i: int|
            0 <= i < s.len() && !('0' <= #[trigger] s[i] <= '9') ==> decimal_value(seq!['+'] + s)
                is None && (i > 0 || s[i] != '+' ==> decimal_value(s) is None),
{
    let plus = seq!['+'] + s;
    assert(without_plus(plus) == s);
    assert forall|i: int| 0 <= i < s.len() && !('0' <= #[trigger] s[i] <= '9') implies decimal_value(
        plus,
    ) is None && (i > 0 || s[i] != '+' ==> decimal_value(s) is None) by {
        assert(!is_digit(s[i]));
        if s[0] == '+' && i > 0 {
            assert(s.skip(1)[i - 1] == s[i]);
        }
    }
    if s.len() > 0 && (forall|i: int| 0 <= i < s.len() ==> '0' <= #[trigger] s[i] <= '9') {
        assert('0' <= s[0] <= '9');
    }
}

/// A number is taken up to the greatest one that is asked for, that one
/// included, and not above it.
pub proof fn numbers_are_bounded(s: Seq<char>, max: nat, n: nat)
    ensures
        decimal_up_to(s, max) == Some(n) <==> decimal_value(s) == Some(n) && n <= max,
        decimal_up_to(s, max) is None <==> (decimal_value(s) matches Some(m) ==> m > max),
{
}

/// Whether a text is `n` in decimal: digits only, and none in front that could
/// be left out.
pub open spec fn is_decimal(s: Seq<char>, n: int) -> bool {
    &&& s.len() > 0
    &&& forall|i: int| 0 <= i < s.len() ==> '0' <= #[trigger] s[i] <= '9'
    &&& s[0] == '0' ==> s.len() == 1
    &&& digits_value(s) == n
}

proof fn lemma_no_leading_zero(n: nat)
    ensures
        decimal_text(n).len() > 0,
        n > 0 ==> decimal_text(n)[0] != '0',
        n == 0 ==> decimal_text(n).len() == 1,
    decreases n,
{
    if n >= 10 {
        lemma_no_leading_zero(n / 10);
        assert(decimal_text(n)[0] == decimal_text(n / 10)[0]);
    }
}

/// A number is written in decimal without leading zeros, and a negative one with
/// a minus sign before its amount.
pub proof fn numbers_are_written_in_decimal(n: int)
    ensures
        n >= 0 ==> is_decimal(decimal_text(n as nat), n) && is_decimal(signed_text(n), n),
        n < 0 ==> signed_text(n).len() > 0 && signed_text(n)[0] == '-' && is_decimal(
            signed_text(n).skip(1),
            -n,
        ),
{
    let amount: nat = if n < 0 {
        (-n) as nat
    } else {
        n as nat
    };
    let t = decimal_text(amount);
    lemma_decimal_text(amount);
    lemma_no_leading_zero(amount);
    assert forall|i: int| 0 <= i < t.len() implies '0' <= #[trigger] t[i] <= '9' by {
        assert(is_digit(t[i]));
    }
    assert(is_decimal(t, amount as int));
    if n < 0 {
        assert(signed_text(n).skip(1) == t);
    }
}

} // verus!
