//! The command line of the terminal client, and what it leaves to be found out:
//! the size of the terminal and the account of the remote side.
use crate::arguments::{behind, is_value, last_argument, places, value_behind};
use crate::text::{
    chars_of, decimal_reads_back, decimal_text, decimal_up_to, decimal_value, is_digit, read_u32,
    same_text, text_from_utf8, text_of,
};
use vstd::prelude::*;
use vstd::slice::*;
use vstd::string::*;
use vstd::utf8::{
    decode_utf8, encode_utf8, encode_utf8_decode_utf8, encode_utf8_valid_utf8, valid_utf8,
};

verus! {

// ---- the command line ----

/// What the terminal client is to do.
pub struct HeadlessTerminalArgs {
    pub id: String,
    pub password: String,
    /// None: the size of the local terminal, or 24x80 if that is not to be had.
    pub rows: Option<u32>,
    pub cols: Option<u32>,
    /// A file to which the bytes of both directions and the events are written.
    pub debug_log: Option<String>,
    /// Open the terminal as administrator of the remote side, with an account
    /// there. That is not `password`, which every connection needs.
    pub admin: bool,
    pub admin_user: Option<String>,
    pub admin_password: Option<String>,
    /// Only check that the password is accepted, and open no terminal.
    pub check_only: bool,
}

pub struct TerminalArgsModel {
    pub id: Seq<char>,
    pub password: Seq<char>,
    pub rows: Option<u32>,
    pub cols: Option<u32>,
    pub debug_log: Option<Seq<char>>,
    pub admin: bool,
    pub admin_user: Option<Seq<char>>,
    pub admin_password: Option<Seq<char>>,
    pub check_only: bool,
}

impl DeepView for HeadlessTerminalArgs {
    type V = TerminalArgsModel;

    open spec fn deep_view(&self) -> TerminalArgsModel {
        TerminalArgsModel {
            id: self.id@,
            password: self.password@,
            rows: self.rows,
            cols: self.cols,
            debug_log: self.debug_log.deep_view(),
            admin: self.admin,
            admin_user: self.admin_user.deep_view(),
            admin_password: self.admin_password.deep_view(),
            check_only: self.check_only,
        }
    }
}

/// The options that were read so far.
struct TerminalOptions {
    id: Option<String>,
    password: Option<String>,
    rows: Option<u32>,
    cols: Option<u32>,
    debug_log: Option<String>,
    admin: bool,
    admin_user: Option<String>,
    admin_password: Option<String>,
    check_only: bool,
}

pub struct TerminalOptionsModel {
    pub id: Option<Seq<char>>,
    pub password: Option<Seq<char>>,
    pub rows: Option<u32>,
    pub cols: Option<u32>,
    pub debug_log: Option<Seq<char>>,
    pub admin: bool,
    pub admin_user: Option<Seq<char>>,
    pub admin_password: Option<Seq<char>>,
    pub check_only: bool,
}

impl TerminalOptions {
    spec fn model(self) -> TerminalOptionsModel {
        TerminalOptionsModel {
            id: self.id.deep_view(),
            password: self.password.deep_view(),
            rows: self.rows,
            cols: self.cols,
            debug_log: self.debug_log.deep_view(),
            admin: self.admin,
            admin_user: self.admin_user.deep_view(),
            admin_password: self.admin_password.deep_view(),
            check_only: self.check_only,
        }
    }
}

/// No option read yet.
pub open spec fn no_options() -> TerminalOptionsModel {
    TerminalOptionsModel {
        id: None,
        password: None,
        rows: None,
        cols: None,
        debug_log: None,
        admin: false,
        admin_user: None,
        admin_password: None,
        check_only: false,
    }
}

/// The 32-bit number that a text writes, if there is a text and it does.
pub open spec fn number_of(value: Option<Seq<char>>) -> Option<u32> {
    match value {
        Some(v) => match decimal_up_to(v, u32::MAX as nat) {
            Some(n) => Some(n as u32),
            None => None,
        },
        None => None,
    }
}

/// Whether an option takes the argument behind it as its value, whatever that
/// argument is.
pub open spec fn takes_value(option: Seq<char>) -> bool {
    ||| option == "--id"@
    ||| option == "--password"@
    ||| option == "--rows"@
    ||| option == "--cols"@
    ||| option == "--debug-log"@
    ||| option == "--admin-user"@
    ||| option == "--admin-password"@
}

/// What an option with its value, if there is one left, makes of those before;
/// None where the usage is to be shown. A value replaces an earlier one, even
/// by none; a size that is no number is none.
pub open spec fn apply(
    o: TerminalOptionsModel,
    option: Seq<char>,
    value: Option<Seq<char>>,
) -> Option<TerminalOptionsModel> {
    if option == "--id"@ {
        Some(TerminalOptionsModel { id: value, ..o })
    } else if option == "--password"@ {
        Some(TerminalOptionsModel { password: value, ..o })
    } else if option == "--rows"@ {
        Some(TerminalOptionsModel { rows: number_of(value), ..o })
    } else if option == "--cols"@ {
        Some(TerminalOptionsModel { cols: number_of(value), ..o })
    } else if option == "--debug-log"@ {
        Some(TerminalOptionsModel { debug_log: value, ..o })
    } else if option == "--admin"@ {
        Some(TerminalOptionsModel { admin: true, ..o })
    } else if option == "--admin-user"@ {
        Some(TerminalOptionsModel { admin_user: value, ..o })
    } else if option == "--admin-password"@ {
        Some(TerminalOptionsModel { admin_password: value, ..o })
    } else if option == "--check-only"@ {
        Some(TerminalOptionsModel { check_only: true, ..o })
    } else {
        None
    }
}

/// The options that `args` add to `o`.
pub open spec fn scan(
    o: TerminalOptionsModel,
    args: Seq<Seq<char>>,
) -> Option<TerminalOptionsModel>
    decreases args.len(),
{
    if args.len() == 0 {
        Some(o)
    } else {
        match apply(o, args[0], value_behind(args)) {
            Some(next) => scan(next, behind(args, takes_value(args[0]))),
            None => None,
        }
    }
}

/// What a command line comes to; None where the usage is to be shown, which is
/// also where the id or the password is missing.
pub open spec fn terminal_command(args: Seq<Seq<char>>) -> Option<TerminalArgsModel> {
    match scan(no_options(), args) {
        Some(o) => match (o.id, o.password) {
            (Some(id), Some(password)) => Some(
                TerminalArgsModel {
                    id,
                    password,
                    rows: o.rows,
                    cols: o.cols,
                    debug_log: o.debug_log,
                    admin: o.admin,
                    admin_user: o.admin_user,
                    admin_password: o.admin_password,
                    check_only: o.check_only,
                },
            ),
            _ => None,
        },
        None => None,
    }
}

fn copied(value: Option<&String>) -> (copy: Option<String>)
    ensures
        copy.deep_view() == (match value {
            Some(v) => Some(v@),
            None => None,
        }),
{
    match value {
        Some(v) => Some(v.clone()),
        None => None,
    }
}

fn number(value: Option<&String>) -> (n: Option<u32>)
    ensures
        n == number_of(
            match value {
                Some(v) => Some(v@),
                None => None,
            },
        ),
{
    match value {
        Some(v) => read_u32(v.as_str()),
        None => None,
    }
}

fn apply_option(options: TerminalOptions, option: &str, value: Option<&String>) -> (r: Option<
    TerminalOptions,
>)
    ensures
        ({
            let expected = apply(
                options.model(),
                option@,
                match value {
                    Some(v) => Some(v@),
                    None => None,
                },
            );
            match r {
                Some(o) => expected == Some(o.model()),
                None => expected is None,
            }
        }),
{
    let mut o: TerminalOptions = options;
    if same_text(option, "--id") {
        o.id = copied(value);
    } else if same_text(option, "--password") {
        o.password = copied(value);
    } else if same_text(option, "--rows") {
        o.rows = number(value);
    } else if same_text(option, "--cols") {
        o.cols = number(value);
    } else if same_text(option, "--debug-log") {
        o.debug_log = copied(value);
    } else if same_text(option, "--admin") {
        o.admin = true;
    } else if same_text(option, "--admin-user") {
        o.admin_user = copied(value);
    } else if same_text(option, "--admin-password") {
        o.admin_password = copied(value);
    } else if same_text(option, "--check-only") {
        o.check_only = true;
    } else {
        return None;
    }
    Some(o)
}

fn option_takes_value(option: &str) -> (yes: bool)
    ensures
        yes == takes_value(option@),
{
    same_text(option, "--id") || same_text(option, "--password") || same_text(option, "--rows")
        || same_text(option, "--cols") || same_text(option, "--debug-log") || same_text(
        option,
        "--admin-user",
    ) || same_text(option, "--admin-password")
}

/// Reads the arguments behind the program's name; None where the usage is to be
/// shown.
pub fn parse_terminal_args(args: &Vec<String>) -> (r: Option<HeadlessTerminalArgs>)
    ensures
        r.deep_view() == terminal_command(args.deep_view()),
{
    let mut o: TerminalOptions = TerminalOptions {
        id: None,
        password: None,
        rows: None,
        cols: None,
        debug_log: None,
        admin: false,
        admin_user: None,
        admin_password: None,
        check_only: false,
    };
    let ghost all = args.deep_view();
    assert(o.model() == no_options());
    assert(all.skip(0) == all);
    let mut i: usize = 0;
    while i < args.len()
        invariant
            i <= args@.len(),
            all == args.deep_view(),
            all.len() == args@.len(),
            scan(no_options(), all) == scan(o.model(), all.skip(i as int)),
        decreases args@.len() - i,
    {
        let ghost rest = all.skip(i as int);
        assert(rest[0] == args@[i as int]@);
        let value: Option<&String> = if i + 1 < args.len() {
            assert(rest[1] == args@[i + 1]@);
            Some(&args[i + 1])
        } else {
            None
        };
        let two: bool = option_takes_value(args[i].as_str()) && i + 1 < args.len();
        match apply_option(o, args[i].as_str(), value) {
            Some(next) => {
                o = next;
            },
            None => {
                return None;
            },
        }
        proof {
            if two {
                assert(behind(rest, takes_value(rest[0])) == all.skip(i + 2));
            } else {
                assert(behind(rest, takes_value(rest[0])) == all.skip(i + 1));
            }
        }
        if two {
            i = i + 2;
        } else {
            i = i + 1;
        }
    }
    assert(scan(no_options(), all) == Some(o.model()));
    match (o.id, o.password) {
        (Some(id), Some(password)) => Some(
            HeadlessTerminalArgs {
                id,
                password,
                rows: o.rows,
                cols: o.cols,
                debug_log: o.debug_log,
                admin: o.admin,
                admin_user: o.admin_user,
                admin_password: o.admin_password,
                check_only: o.check_only,
            },
        ),
        _ => None,
    }
}

// ---- the account of the remote side ----

/// The first of the command line's and the environment's value that there is.
pub open spec fn first_known(
    given: Option<Seq<char>>,
    environment: Option<Seq<char>>,
) -> Option<Seq<char>> {
    match given {
        Some(v) => Some(v),
        None => environment,
    }
}

/// The user or the password of the account, where it need not be asked for:
/// what the command line gives, or else the environment.
pub fn known_credential(given: &Option<String>, environment: Option<String>) -> (known: Option<
    String,
>)
    ensures
        known.deep_view() == first_known(given.deep_view(), environment.deep_view()),
{
    match given {
        Some(v) => Some(v.clone()),
        None => environment,
    }
}

/// What is known of the account, or comes next to know it.
pub enum AccountStep {
    /// None is needed.
    NotNeeded,
    /// Ask for the user.
    AskUser,
    /// Ask for the password.
    AskPassword,
    /// This user and this password.
    Known(String, String),
}

pub enum AccountModel {
    NotNeeded,
    AskUser,
    AskPassword,
    Known(Seq<char>, Seq<char>),
}

impl DeepView for AccountStep {
    type V = AccountModel;

    open spec fn deep_view(&self) -> AccountModel {
        match *self {
            AccountStep::NotNeeded => AccountModel::NotNeeded,
            AccountStep::AskUser => AccountModel::AskUser,
            AccountStep::AskPassword => AccountModel::AskPassword,
            AccountStep::Known(user, password) => AccountModel::Known(user@, password@),
        }
    }
}

/// A user or a password as it is found beside the command line.
pub struct Sources {
    pub environment: Option<String>,
    pub typed: Option<String>,
}

/// The first value that there is of the command line's, the environment's and
/// the one that was typed.
pub open spec fn credential(given: Option<Seq<char>>, found: Sources) -> Option<Seq<char>> {
    first_known(first_known(given, found.environment.deep_view()), found.typed.deep_view())
}

/// The account that arguments ask for: none without `--admin`, whatever is found
/// of one. What is not found is asked for, the user first.
pub open spec fn account_of(a: TerminalArgsModel, user: Sources, password: Sources) -> AccountModel {
    if !a.admin {
        AccountModel::NotNeeded
    } else {
        match (credential(a.admin_user, user), credential(a.admin_password, password)) {
            (None, _) => AccountModel::AskUser,
            (Some(_), None) => AccountModel::AskPassword,
            (Some(u), Some(p)) => AccountModel::Known(u, p),
        }
    }
}

/// Takes in what was found of the account so far.
pub fn account_step(args: &HeadlessTerminalArgs, user: Sources, password: Sources) -> (step:
    AccountStep)
    ensures
        step.deep_view() == account_of(args.deep_view(), user, password),
{
    if !args.admin {
        return AccountStep::NotNeeded;
    }
    let known_user: Option<String> = known_credential(&args.admin_user, user.environment);
    let known_password: Option<String> = known_credential(
        &args.admin_password,
        password.environment,
    );
    match known_credential(&known_user, user.typed) {
        None => AccountStep::AskUser,
        Some(u) => match known_credential(&known_password, password.typed) {
            None => AccountStep::AskPassword,
            Some(p) => AccountStep::Known(u, p),
        },
    }
}

pub open spec fn is_line_end(c: char) -> bool {
    c == '\n' || c == '\r'
}

/// A line without the line ends behind it.
pub open spec fn line_body(s: Seq<char>) -> Seq<char>
    decreases s.len(),
{
    if s.len() > 0 && is_line_end(s.last()) {
        line_body(s.drop_last())
    } else {
        s
    }
}

/// Takes the line ends off an answer that was typed.
pub fn strip_line_end(s: &str) -> (t: String)
    ensures
        t@ == line_body(s@),
{
    let v: Vec<char> = chars_of(s);
    let mut n: usize = v.len();
    assert(v@.take(n as int) == s@);
    while n > 0 && (v[n - 1] == '\n' || v[n - 1] == '\r')
        invariant
            n <= v@.len(),
            v@ == s@,
            line_body(v@.take(n as int)) == line_body(s@),
        decreases n,
    {
        assert(v@.take(n as int).drop_last() == v@.take(n - 1));
        n = n - 1;
    }
    assert(v@.take(n as int) == v@.subrange(0, n as int));
    text_of(&v, 0, n)
}

// ---- the size of the terminal ----

/// The characters with the Unicode property White_Space.
pub open spec fn is_white_space(c: char) -> bool {
    ||| '\u{9}' <= c <= '\u{d}'
    ||| c == ' '
    ||| c == '\u{85}'
    ||| c == '\u{a0}'
    ||| c == '\u{1680}'
    ||| '\u{2000}' <= c <= '\u{200a}'
    ||| c == '\u{2028}'
    ||| c == '\u{2029}'
    ||| c == '\u{202f}'
    ||| c == '\u{205f}'
    ||| c == '\u{3000}'
}

/// Whether a character is white space.
pub fn white_space(c: char) -> (yes: bool)
    ensures
        yes == is_white_space(c),
{
    ('\u{9}' <= c && c <= '\u{d}') || c == ' ' || c == '\u{85}' || c == '\u{a0}' || c == '\u{1680}'
        || ('\u{2000}' <= c && c <= '\u{200a}') || c == '\u{2028}' || c == '\u{2029}' || c
        == '\u{202f}' || c == '\u{205f}' || c == '\u{3000}'
}

/// The first position from `i` on where white space is, or is not, as `blank`
/// says; the end where there is none.
pub open spec fn seek(s: Seq<char>, i: int, blank: bool) -> int
    decreases s.len() - i,
{
    if 0 <= i < s.len() && is_white_space(s[i]) != blank {
        seek(s, i + 1, blank)
    } else {
        i
    }
}

/// Where the next word from `i` on begins.
pub open spec fn word_start(s: Seq<char>, i: int) -> int {
    seek(s, i, false)
}

/// Where the next word from `i` on ends.
pub open spec fn word_end(s: Seq<char>, i: int) -> int {
    seek(s, word_start(s, i), true)
}

/// The number that the next word from `i` on writes.
pub open spec fn word_number(s: Seq<char>, i: int) -> Option<u32> {
    number_of(Some(s.subrange(word_start(s, i), word_end(s, i))))
}

/// The two numbers that a text begins with, whatever follows them.
pub open spec fn two_numbers(s: Seq<char>) -> Option<(u32, u32)> {
    match (word_number(s, 0), word_number(s, word_end(s, 0))) {
        (Some(rows), Some(cols)) => Some((rows, cols)),
        _ => None,
    }
}

fn find(v: &Vec<char>, i: usize, blank: bool) -> (at: usize)
    requires
        i <= v@.len(),
    ensures
        at == seek(v@, i as int, blank),
        i <= at <= v@.len(),
{
    let mut at: usize = i;
    while at < v.len() && white_space(v[at]) != blank
        invariant
            i <= at <= v@.len(),
            seek(v@, i as int, blank) == seek(v@, at as int, blank),
        decreases v@.len() - at,
    {
        at = at + 1;
    }
    at
}

/// The rows and columns that `stty size` printed.
pub open spec fn stty_size(succeeded: bool, printed: Seq<u8>) -> Option<(u32, u32)> {
    if succeeded && valid_utf8(printed) {
        two_numbers(decode_utf8(printed))
    } else {
        None
    }
}

/// The rows and columns that `stty size` printed. None where it failed or
/// printed something else.
pub fn size_from_stty(succeeded: bool, printed: &[u8]) -> (size: Option<(u32, u32)>)
    ensures
        size == stty_size(succeeded, printed@),
        size == (if succeeded && valid_utf8(printed@) {
            two_numbers(decode_utf8(printed@))
        } else {
            None
        }),
{
    if !succeeded {
        return None;
    }
    let text: String = match text_from_utf8(slice_to_vec(printed)) {
        Some(text) => text,
        None => {
            return None;
        },
    };
    let v: Vec<char> = chars_of(text.as_str());
    let from: usize = find(&v, 0, false);
    let to: usize = find(&v, from, true);
    let rows: Option<u32> = read_u32(text_of(&v, from, to).as_str());
    let next_from: usize = find(&v, to, false);
    let next_to: usize = find(&v, next_from, true);
    let cols: Option<u32> = read_u32(text_of(&v, next_from, next_to).as_str());
    match (rows, cols) {
        (Some(rows), Some(cols)) => Some((rows, cols)),
        _ => None,
    }
}

/// The size to ask for.
pub open spec fn size_to_ask(
    rows: Option<u32>,
    cols: Option<u32>,
    measured: Option<(u32, u32)>,
) -> (u32, u32) {
    let (local_rows, local_cols) = match measured {
        Some(size) => size,
        None => (24, 80),
    };
    (
        match rows {
            Some(r) => r,
            None => local_rows,
        },
        match cols {
            Some(c) => c,
            None => local_cols,
        },
    )
}

/// The size to ask for: what the command line gives, or else what was measured,
/// or else 24x80, rows and columns each for itself.
pub fn initial_size(rows: Option<u32>, cols: Option<u32>, measured: Option<(u32, u32)>) -> (size: (
    u32,
    u32,
))
    ensures
        size == size_to_ask(rows, cols, measured),
        size.0 == (match (rows, measured) {
            (Some(r), _) => r,
            (None, Some((r, _))) => r,
            (None, None) => 24,
        }),
        size.1 == (match (cols, measured) {
            (Some(c), _) => c,
            (None, Some((_, c))) => c,
            (None, None) => 80,
        }),
{
    let (local_rows, local_cols): (u32, u32) = match measured {
        Some(size) => size,
        None => (24, 80),
    };
    (
        match rows {
            Some(r) => r,
            None => local_rows,
        },
        match cols {
            Some(c) => c,
            None => local_cols,
        },
    )
}

// ---- laws ----

/// An answer that does not end in a line end is kept as it was typed, with any
/// line ends behind it taken off.
pub proof fn typed_answer_is_kept(answer: Seq<char>, ends: Seq<char>)
    requires
        answer.len() > 0 ==> answer.last() != '\n' && answer.last() != '\r',
        forall|i: int| 0 <= i < ends.len() ==> #[trigger] ends[i] == '\n' || ends[i] == '\r',
    ensures
        line_body(answer + ends) == answer,
    decreases ends.len(),
{
    if ends.len() == 0 {
        assert(answer + ends == answer);
    } else {
        let all = answer + ends;
        assert(all.last() == ends[ends.len() - 1]);
        assert(all.drop_last() == answer + ends.drop_last());
        typed_answer_is_kept(answer, ends.drop_last());
    }
}

proof fn lemma_seek_through(s: Seq<char>, i: int, end: int, blank: bool)
    requires
        0 <= i <= end <= s.len(),
        forall|k: int| i <= k < end ==> is_white_space(#[trigger] s[k]) != blank,
        end < s.len() ==> is_white_space(s[end]) == blank,
    ensures
        seek(s, i, blank) == end,
    decreases end - i,
{
    if i < end {
        assert(is_white_space(s[i]) != blank);
        lemma_seek_through(s, i + 1, end, blank);
    }
}

/// Rows and columns that were printed with a space between them read back,
/// whatever follows behind white space.
pub proof fn printed_size_reads_back(rows: u32, cols: u32, rest: Seq<char>)
    requires
        rest.len() > 0 ==> is_white_space(rest[0]),
    ensures
        two_numbers(decimal_text(rows as nat).push(' ') + decimal_text(cols as nat) + rest) == Some(
            (rows, cols),
        ),
{
    let r = decimal_text(rows as nat);
    let c = decimal_text(cols as nat);
    let s = r.push(' ') + c + rest;
    decimal_reads_back(rows as nat);
    decimal_reads_back(cols as nat);
    let mid = r.len() as int;
    let end = mid + 1 + c.len();
    assert forall|k: int| 0 <= k < mid implies !is_white_space(#[trigger] s[k]) by {
        assert(s[k] == r[k]);
        assert(is_digit(r[k]));
    }
    assert forall|k: int| mid < k < end implies !is_white_space(#[trigger] s[k]) by {
        assert(s[k] == c[k - mid - 1]);
        assert(is_digit(c[k - mid - 1]));
    }
    assert(s[mid] == ' ');
    if end < s.len() {
        assert(s[end] == rest[0]);
    }
    lemma_seek_through(s, 0, 0, false);
    lemma_seek_through(s, 0, mid, true);
    lemma_seek_through(s, mid, mid + 1, false);
    lemma_seek_through(s, mid + 1, end, true);
    assert(s.subrange(0, mid) == r);
    assert(s.subrange(mid + 1, end) == c);
}

/// Without `--admin` no account is sought: nothing is asked for and none is
/// used, whatever the command line and the environment hold. With it, nothing
/// is asked for twice, nor what the command line or the environment gives.
pub proof fn account_is_sought_only_with_admin(
    a: TerminalArgsModel,
    user: Sources,
    password: Sources,
)
    ensures
        account_of(a, user, password) is NotNeeded <==> !a.admin,
        account_of(a, user, password) is AskUser ==> a.admin_user is None && user.environment is None
            && user.typed is None,
        account_of(a, user, password) is AskPassword ==> a.admin_password is None
            && password.environment is None && password.typed is None,
        a.admin && user.typed is Some && password.typed is Some ==> account_of(
            a,
            user,
            password,
        ) is Known,
{
}

/// The options that have a value.
pub open spec fn valued_options() -> Set<Seq<char>> {
    set![
        "--id"@,
        "--password"@,
        "--rows"@,
        "--cols"@,
        "--debug-log"@,
        "--admin-user"@,
        "--admin-password"@,
    ]
}

/// Where an option stands on a command line.
pub open spec fn places_of(args: Seq<Seq<char>>, option: Seq<char>) -> Seq<int> {
    places(args, valued_options(), option, args.len() as int)
}

/// Whether argument `i` stands for an option that there is not.
pub open spec fn is_unknown(args: Seq<Seq<char>>, i: int) -> bool {
    &&& 0 <= i < args.len()
    &&& !is_value(args, valued_options(), i)
    &&& !valued_options().contains(args[i])
    &&& args[i] != "--admin"@
    &&& args[i] != "--check-only"@
}

/// Whether a size is the number that the value of its option writes: none where
/// there is no value, or one that writes no number of 32 bits.
pub open spec fn is_size_of(size: Option<u32>, value: Option<Seq<char>>) -> bool {
    match size {
        Some(n) => value matches Some(v) && decimal_value(v) == Some(n as nat),
        None => value matches Some(v) ==> (decimal_value(v) matches Some(n) ==> n > 0xffff_ffff),
    }
}

proof fn lemma_option_names()
    ensures
        "--id"@.len() == 4,
        "--password"@.len() == 10,
        "--rows"@.len() == 6,
        "--rows"@[2] == 'r',
        "--cols"@.len() == 6,
        "--cols"@[2] == 'c',
        "--debug-log"@.len() == 11,
        "--admin"@.len() == 7,
        "--admin-user"@.len() == 12,
        "--admin-user"@[2] == 'a',
        "--admin-password"@.len() == 16,
        "--check-only"@.len() == 12,
        "--check-only"@[2] == 'c',
{
    reveal_strlit("--id");
    reveal_strlit("--password");
    reveal_strlit("--rows");
    reveal_strlit("--cols");
    reveal_strlit("--debug-log");
    reveal_strlit("--admin");
    reveal_strlit("--admin-user");
    reveal_strlit("--admin-password");
    reveal_strlit("--check-only");
}

spec fn place_before(args: Seq<Seq<char>>, option: Seq<char>, n: int) -> Seq<int> {
    places(args, valued_options(), option, n)
}

spec fn holds_first(o: TerminalOptionsModel, args: Seq<Seq<char>>, n: int) -> bool {
    &&& o.id == last_argument(args, place_before(args, "--id"@, n))
    &&& o.password == last_argument(args, place_before(args, "--password"@, n))
    &&& is_size_of(o.rows, last_argument(args, place_before(args, "--rows"@, n)))
    &&& is_size_of(o.cols, last_argument(args, place_before(args, "--cols"@, n)))
    &&& o.debug_log == last_argument(args, place_before(args, "--debug-log"@, n))
    &&& o.admin == (place_before(args, "--admin"@, n).len() > 0)
    &&& o.admin_user == last_argument(args, place_before(args, "--admin-user"@, n))
    &&& o.admin_password == last_argument(args, place_before(args, "--admin-password"@, n))
    &&& o.check_only == (place_before(args, "--check-only"@, n).len() > 0)
}

proof fn lemma_places_step(args: Seq<Seq<char>>, option: Seq<char>, i: int)
    requires
        0 <= i < args.len(),
        !is_value(args, valued_options(), i),
    ensures
        ({
            let next = if valued_options().contains(args[i]) && i + 1 < args.len() {
                i + 2
            } else {
                i + 1
            };
            place_before(args, option, next) == (if args[i] == option {
                place_before(args, option, i).push(i)
            } else {
                place_before(args, option, i)
            })
        }),
{
    reveal_with_fuel(places, 3);
    reveal_with_fuel(is_value, 2);
}

proof fn lemma_scan(o: TerminalOptionsModel, args: Seq<Seq<char>>, i: int)
    requires
        0 <= i <= args.len(),
        i < args.len() ==> !is_value(args, valued_options(), i),
        holds_first(o, args, i),
    ensures
        match scan(o, args.skip(i)) {
            Some(all) => holds_first(all, args, args.len() as int) && forall|k: int|
                i <= k ==> !#[trigger] is_unknown(args, k),
            None => exists|k: int| i <= k && #[trigger] is_unknown(args, k),
        },
    decreases args.len() - i,
{
    let rest = args.skip(i);
    if i < args.len() {
        let option = args[i];
        let valued = valued_options().contains(option);
        assert(rest[0] == option);
        lemma_option_names();
        assert(takes_value(option) == valued);
        let two = valued && i + 1 < args.len();
        let next = if two {
            i + 2
        } else {
            i + 1
        };
        assert(behind(rest, takes_value(option)) == args.skip(next));
        if i + 1 < args.len() {
            assert(rest[1] == args[i + 1]);
        }
        reveal_with_fuel(is_value, 3);
        lemma_places_step(args, "--id"@, i);
        lemma_places_step(args, "--password"@, i);
        lemma_places_step(args, "--rows"@, i);
        lemma_places_step(args, "--cols"@, i);
        lemma_places_step(args, "--debug-log"@, i);
        lemma_places_step(args, "--admin"@, i);
        lemma_places_step(args, "--admin-user"@, i);
        lemma_places_step(args, "--admin-password"@, i);
        lemma_places_step(args, "--check-only"@, i);
        match apply(o, option, value_behind(rest)) {
            Some(after) => {
                assert(holds_first(after, args, next));
                lemma_scan(after, args, next);
                assert(!is_unknown(args, i));
                if two {
                    assert(is_value(args, valued_options(), i + 1));
                    assert(!is_unknown(args, i + 1));
                }
                if scan(o, rest) is Some {
                    assert forall|k: int| i <= k implies !#[trigger] is_unknown(args, k) by {
                        if k >= next {
                            assert(!is_unknown(args, k));
                        }
                    }
                } else {
                    let k = choose|k: int| next <= k && #[trigger] is_unknown(args, k);
                    assert(i <= k && is_unknown(args, k));
                }
            },
            None => {
                assert(is_unknown(args, i));
            },
        }
    }
}

/// What each option of an accepted command line does, whatever the others are.
/// `--check-only` and `--admin` count wherever they stand for an option. An
/// option with a value has the argument behind its last place; a size that is no
/// number is none. A command line is accepted exactly where there is no other
/// option, and an id and a password.
pub proof fn every_option_counts(args: Seq<Seq<char>>)
    ensures
        match terminal_command(args) {
            Some(t) => {
                &&& forall|i: int| !#[trigger] is_unknown(args, i)
                &&& last_argument(args, places_of(args, "--id"@)) == Some(t.id)
                &&& last_argument(args, places_of(args, "--password"@)) == Some(t.password)
                &&& is_size_of(t.rows, last_argument(args, places_of(args, "--rows"@)))
                &&& is_size_of(t.cols, last_argument(args, places_of(args, "--cols"@)))
                &&& t.debug_log == last_argument(args, places_of(args, "--debug-log"@))
                &&& t.admin == (places_of(args, "--admin"@).len() > 0)
                &&& t.admin_user == last_argument(args, places_of(args, "--admin-user"@))
                &&& t.admin_password == last_argument(args, places_of(args, "--admin-password"@))
                &&& t.check_only == (places_of(args, "--check-only"@).len() > 0)
            },
            None => {
                ||| exists|i: int| #[trigger] is_unknown(args, i)
                ||| last_argument(args, places_of(args, "--id"@)) is None
                ||| last_argument(args, places_of(args, "--password"@)) is None
            },
        },
{
    assert(args.skip(0) == args);
    lemma_scan(no_options(), args, 0);
}

/// The code points with the Unicode property White_Space.
pub open spec fn white_space_codes() -> Set<int> {
    set![
        0x9,
        0xa,
        0xb,
        0xc,
        0xd,
        0x20,
        0x85,
        0xa0,
        0x1680,
        0x2000,
        0x2001,
        0x2002,
        0x2003,
        0x2004,
        0x2005,
        0x2006,
        0x2007,
        0x2008,
        0x2009,
        0x200a,
        0x2028,
        0x2029,
        0x202f,
        0x205f,
        0x3000,
    ]
}

/// White space is what Unicode says it is.
pub proof fn what_white_space_is(c: char)
    ensures
        is_white_space(c) <==> white_space_codes().contains(c as int),
{
}

/// Whether a text is white space only.
pub open spec fn is_blank(s: Seq<char>) -> bool {
    forall|i: int| 0 <= i < s.len() ==> white_space_codes().contains(#[trigger] s[i] as int)
}

/// Whether a text holds no white space.
pub open spec fn is_solid(s: Seq<char>) -> bool {
    forall|i: int| 0 <= i < s.len() ==> !white_space_codes().contains(#[trigger] s[i] as int)
}

proof fn lemma_span(s: Seq<char>, from: int, to: int, blank: bool)
    requires
        0 <= from <= to <= s.len(),
        blank ==> is_solid(s.subrange(from, to)),
        !blank ==> is_blank(s.subrange(from, to)),
        to < s.len() ==> white_space_codes().contains(s[to] as int) == blank,
    ensures
        seek(s, from, blank) == to,
{
    assert forall|k: int| from <= k < to implies is_white_space(#[trigger] s[k]) != blank by {
        assert(s.subrange(from, to)[k - from] == s[k]);
        what_white_space_is(s[k]);
    }
    if to < s.len() {
        what_white_space_is(s[to]);
    }
    lemma_seek_through(s, from, to, blank);
}

/// The size is in the first two words, however much white space stands before
/// and between them and whatever follows: it is there where both are numbers of
/// 32 bits, rows first, and otherwise there is none.
pub proof fn size_is_in_the_first_two_words(
    before: Seq<char>,
    rows: Seq<char>,
    between: Seq<char>,
    cols: Seq<char>,
    rest: Seq<char>,
)
    requires
        is_blank(before),
        rows.len() > 0 && is_solid(rows),
        between.len() > 0 && is_blank(between),
        cols.len() > 0 && is_solid(cols),
        rest.len() > 0 ==> white_space_codes().contains(rest[0] as int),
    ensures
        match two_numbers(before + rows + between + cols + rest) {
            Some((r, c)) => is_size_of(Some(r), Some(rows)) && is_size_of(Some(c), Some(cols)),
            None => is_size_of(None, Some(rows)) || is_size_of(None, Some(cols)),
        },
{
    let s = before + rows + between + cols + rest;
    let a = before.len() as int;
    let b = a + rows.len();
    let c = b + between.len();
    let d = c + cols.len();
    assert(s.subrange(0, a) == before);
    assert(s.subrange(a, b) == rows);
    assert(s.subrange(b, c) == between);
    assert(s.subrange(c, d) == cols);
    assert(s[a] == rows[0]);
    assert(s[b] == between[0]);
    assert(s[c] == cols[0]);
    if d < s.len() {
        assert(s[d] == rest[0]);
    }
    lemma_span(s, 0, a, false);
    lemma_span(s, a, b, true);
    lemma_span(s, b, c, false);
    lemma_span(s, c, d, true);
}

/// One word, or none, is no size.
pub proof fn one_word_is_no_size(before: Seq<char>, word: Seq<char>, rest: Seq<char>)
    requires
        is_blank(before),
        is_solid(word),
        is_blank(rest),
    ensures
        two_numbers(before + word + rest) is None,
{
    let s = before + word + rest;
    let none = Seq::<char>::empty();
    let n = s.len() as int;
    let a = before.len() as int;
    let b = a + word.len();
    assert(number_of(Some(none)) is None);
    assert(s.subrange(0, a) == before);
    assert(s.subrange(a, b) == word);
    assert(s.subrange(b, n) == rest);
    assert(s.subrange(n, n) == none);
    if word.len() == 0 {
        assert(s == before + rest);
        assert forall|i: int| 0 <= i < n implies white_space_codes().contains(
            #[trigger] s[i] as int,
        ) by {
            if i < a {
                assert(s[i] == before[i]);
            } else {
                assert(s[i] == rest[i - a]);
            }
        }
        assert(s.subrange(0, n) == s);
        lemma_span(s, 0, n, false);
        lemma_span(s, n, n, true);
    } else {
        assert(s[a] == word[0]);
        if b < n {
            assert(s[b] == rest[0]);
        }
        lemma_span(s, 0, a, false);
        lemma_span(s, a, b, true);
        lemma_span(s, b, n, false);
        lemma_span(s, n, n, true);
    }
}

/// Only what a successful `stty` printed as a text in UTF-8 counts, and that text
/// is read as it is.
pub proof fn printed_text_is_read(printed: Seq<u8>, text: Seq<char>)
    ensures
        stty_size(false, printed) is None,
        !valid_utf8(printed) ==> stty_size(true, printed) is None,
        stty_size(true, encode_utf8(text)) == two_numbers(text),
{
    encode_utf8_valid_utf8(text);
    encode_utf8_decode_utf8(text);
}

/// The size that is asked for: rows and columns that were given count, whatever
/// was measured; otherwise what was measured; and 24 rows of 80 columns where
/// nothing was.
pub proof fn given_size_wins(r: u32, c: u32, other: Option<u32>, measured: Option<(u32, u32)>)
    ensures
        size_to_ask(Some(r), other, measured).0 == r,
        size_to_ask(other, Some(c), measured).1 == c,
        size_to_ask(None, other, Some((r, c))).0 == r,
        size_to_ask(other, None, Some((r, c))).1 == c,
        size_to_ask(None, other, None).0 == 24,
        size_to_ask(other, None, None).1 == 80,
{
}

/// Whether a user or a password is the first that there is of the command
/// line's, the environment's and the one that was typed.
pub open spec fn is_first_of(value: Seq<char>, given: Option<Seq<char>>, found: Sources) -> bool {
    ||| given == Some(value)
    ||| given is None && (found.environment matches Some(v) && v@ == value)
    ||| given is None && found.environment is None && (found.typed matches Some(v) && v@ == value)
}

/// Whether a user or a password is to be found nowhere.
pub open spec fn is_nowhere(given: Option<Seq<char>>, found: Sources) -> bool {
    given is None && found.environment is None && found.typed is None
}

/// The account is the user and the password that come first: those of the
/// command line before those of the environment, and those before what was
/// typed, each for itself. What is nowhere is asked for, the user before the
/// password.
pub proof fn first_source_of_the_account_counts(
    a: TerminalArgsModel,
    user: Sources,
    password: Sources,
)
    requires
        a.admin,
    ensures
        match account_of(a, user, password) {
            AccountModel::NotNeeded => false,
            AccountModel::AskUser => is_nowhere(a.admin_user, user),
            AccountModel::AskPassword => !is_nowhere(a.admin_user, user) && is_nowhere(
                a.admin_password,
                password,
            ),
            AccountModel::Known(u, p) => is_first_of(u, a.admin_user, user) && is_first_of(
                p,
                a.admin_password,
                password,
            ),
        },
{
}

/// A given user or password is known, whatever the environment holds, and where
/// none is given it is the environment's.
pub proof fn given_credential_is_known(value: Seq<char>, environment: Option<Seq<char>>)
    ensures
        first_known(Some(value), environment) == Some(value),
        first_known(None, environment) == environment,
{
}

/// What is read of the arguments, and of a step to the account, is what they
/// hold.
pub proof fn arguments_hold_what_was_read(
    args: HeadlessTerminalArgs,
    user: String,
    password: String,
)
    ensures
        args.deep_view().id == args.id@,
        args.deep_view().password == args.password@,
        args.deep_view().rows == args.rows,
        args.deep_view().cols == args.cols,
        args.deep_view().debug_log == args.debug_log.deep_view(),
        args.deep_view().admin == args.admin,
        args.deep_view().admin_user == args.admin_user.deep_view(),
        args.deep_view().admin_password == args.admin_password.deep_view(),
        args.deep_view().check_only == args.check_only,
        AccountStep::NotNeeded.deep_view() is NotNeeded,
        AccountStep::AskUser.deep_view() is AskUser,
        AccountStep::AskPassword.deep_view() is AskPassword,
        AccountStep::Known(user, password).deep_view() == AccountModel::Known(user@, password@),
{
}

} // verus!
