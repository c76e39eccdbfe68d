//! The lines of the debug log.
use crate::text::{decimal_text, push_decimal};
use vstd::prelude::*;
use vstd::string::*;
use vstd::utf8::{decode_utf8, valid_utf8};

verus! {

/// What `String::from_utf8_lossy` makes of bytes.
pub uninterp spec fn lossy_text(bytes: Seq<u8>) -> Seq<char>;

/// What formatting with `{:?}` makes of a text.
pub uninterp spec fn quoted_text(text: Seq<char>) -> Seq<char>;

/// Calls `String::from_utf8_lossy`. The bytes of a text in UTF-8 give that
/// text; what stands for other bytes is only named.
#[verifier::external_body]
fn from_utf8_lossy(bytes: &[u8]) -> (t: String)
    ensures
        t@ == lossy_text(bytes@),
        valid_utf8(bytes@) ==> t@ == decode_utf8(bytes@),
{
    String::from_utf8_lossy(bytes).into_owned()
}

/// Formats a text with `{:?}`: in quotes, with escape sequences for what
/// cannot be printed. The result is only named.
#[verifier::external_body]
fn quote(text: &str) -> (t: String)
    ensures
        t@ == quoted_text(text@),
{
    format!("{:?}", text)
}

pub open spec fn dump_text(
    now_ms: u128,
    direction: Seq<char>,
    len: nat,
    quoted: Seq<char>,
) -> Seq<char> {
    decimal_text(now_ms as nat) + " "@ + direction + " "@ + decimal_text(len) + "B "@ + quoted
}

/// The line for `len` bytes that went in a direction, with the bytes as a
/// quoted text.
pub fn dump_line_of(now_ms: u128, direction: &str, len: usize, quoted: &str) -> (t: String)
    ensures
        t@ == dump_text(now_ms, direction@, len as nat, quoted@),
{
    let mut out: String = String::new();
    push_decimal(&mut out, now_ms);
    assert(out@ == decimal_text(now_ms as nat));
    out.append(" ");
    out.append(direction);
    out.append(" ");
    push_decimal(&mut out, len as u128);
    out.append("B ");
    out.append(quoted);
    out
}

/// The line for bytes, with what `String::from_utf8_lossy` makes of them.
pub open spec fn bytes_text(now_ms: u128, direction: Seq<char>, data: Seq<u8>) -> Seq<char> {
    dump_text(now_ms, direction, data.len(), quoted_text(lossy_text(data)))
}

/// The line for bytes that went in a direction. Bytes of a text in UTF-8 are
/// quoted as that text. Control characters can be read in it, and bytes that are
/// no text do no harm.
pub fn dump_line(now_ms: u128, direction: &str, data: &[u8]) -> (t: String)
    ensures
        t@ == bytes_text(now_ms, direction@, data@),
        t@ == dump_text(now_ms, direction@, data@.len(), quoted_text(lossy_text(data@))),
        valid_utf8(data@) ==> t@ == dump_text(
            now_ms,
            direction@,
            data@.len(),
            quoted_text(decode_utf8(data@)),
        ),
{
    let text: String = from_utf8_lossy(data);
    let quoted: String = quote(text.as_str());
    dump_line_of(now_ms, direction, data.len(), quoted.as_str())
}

pub open spec fn event_text(now_ms: u128, text: Seq<char>) -> Seq<char> {
    decimal_text(now_ms as nat) + " EVENT "@ + text
}

/// The line for an event.
pub fn event_line(now_ms: u128, text: &str) -> (t: String)
    ensures
        t@ == event_text(now_ms, text@),
        t@ == decimal_text(now_ms as nat) + " EVENT "@ + text@,
{
    let mut out: String = String::new();
    push_decimal(&mut out, now_ms);
    assert(out@ == decimal_text(now_ms as nat));
    out.append(" EVENT ");
    out.append(text);
    out
}

// ---- laws ----

/// A line of the log holds its parts in order: behind the time and a space come
/// the direction, a space, the number of bytes, `B`, a space and the quoted text;
/// or `EVENT`, a space and the event.
pub proof fn lines_hold_their_parts(
    now_ms: u128,
    direction: Seq<char>,
    len: nat,
    quoted: Seq<char>,
    text: Seq<char>,
)
    ensures
        ({
            let time = decimal_text(now_ms as nat);
            let n = decimal_text(len);
            let dump = dump_text(now_ms, direction, len, quoted);
            let event = event_text(now_ms, text);
            let after = time.len() as int + 1;
            let count = after + direction.len() + 1;
            let end = count + n.len();
            &&& dump.take(after) == time.push(' ')
            &&& dump.subrange(after, count) == direction.push(' ')
            &&& dump.subrange(count, end) == n
            &&& dump.subrange(end, end + 2) == seq!['B', ' ']
            &&& dump.skip(end + 2) == quoted
            &&& event.take(after) == time.push(' ')
            &&& event.subrange(after, after + 6) == seq!['E', 'V', 'E', 'N', 'T', ' ']
            &&& event.skip(after + 6) == text
        }),
{
    reveal_strlit(" ");
    reveal_strlit("B ");
    reveal_strlit(" EVENT ");
    let time = decimal_text(now_ms as nat);
    let n = decimal_text(len);
    let dump = dump_text(now_ms, direction, len, quoted);
    let event = event_text(now_ms, text);
    let after = time.len() as int + 1;
    let count = after + direction.len() + 1;
    let end = count + n.len();
    assert(dump.take(after) == time.push(' '));
    assert(dump.subrange(after, count) == direction.push(' '));
    assert(dump.subrange(count, end) == n);
    assert(dump.subrange(end, end + 2) == seq!['B', ' ']);
    assert(dump.skip(end + 2) == quoted);
    assert(event.take(after) == time.push(' '));
    assert(event.subrange(after, after + 6) == seq!['E', 'V', 'E', 'N', 'T', ' ']);
    assert(event.skip(after + 6) == text);
}

/// A line for bytes counts all of them and ends in their quoted text; its time
/// and direction are those that were given, and change nothing else.
pub proof fn line_for_bytes_counts_and_quotes_them(
    now_ms: u128,
    direction: Seq<char>,
    data: Seq<u8>,
)
    ensures
        ({
            let line = bytes_text(now_ms, direction, data);
            let count = decimal_text(now_ms as nat).len() as int + 1 + direction.len() + 1;
            let end = count + decimal_text(data.len()).len();
            &&& line.take(count) == decimal_text(now_ms as nat).push(' ') + direction.push(' ')
            &&& line.subrange(count, end) == decimal_text(data.len())
            &&& line.skip(end + 2) == quoted_text(lossy_text(data))
        }),
{
    reveal_strlit(" ");
    reveal_strlit("B ");
    let quoted = quoted_text(lossy_text(data));
    lines_hold_their_parts(now_ms, direction, data.len(), quoted, seq![]);
    let line = bytes_text(now_ms, direction, data);
    let time = decimal_text(now_ms as nat);
    let after = time.len() as int + 1;
    let count = after + direction.len() + 1;
    assert(line.take(count) == line.take(after) + line.subrange(after, count));
}

} // verus!
