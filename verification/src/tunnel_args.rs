//! The command line of the port forwarding client.
use crate::arguments::{argument_behind, behind, is_value, last_argument, places, value_behind};
use crate::targets::{
    forward_of, host_port_of, parse_forward_spec, parse_host_port, parse_socks_spec, proxy_of,
    ForwardModel, ForwardSpec, ProxyModel, SocksSpec,
};
use crate::text::same_text;
use vstd::prelude::*;
use vstd::string::*;

verus! {

/// What the port forwarding client is to do.
pub struct TunnelArgs {
    pub id: String,
    pub password: String,
    pub forwards: Vec<ForwardSpec>,
    pub socks: Vec<SocksSpec>,
    /// `--test rhost:rport`: log in once to see whether the target can be
    /// reached, and forward nothing.
    pub test: Option<(String, i32)>,
    /// Go on even if the connection is not encrypted end to end. It is refused
    /// otherwise: behind the login there is no other encryption.
    pub allow_insecure: bool,
    pub verbose: bool,
}

pub struct TunnelModel {
    pub id: Seq<char>,
    pub password: Seq<char>,
    pub forwards: Seq<ForwardModel>,
    pub socks: Seq<ProxyModel>,
    pub test: Option<(Seq<char>, i32)>,
    pub allow_insecure: bool,
    pub verbose: bool,
}

impl DeepView for TunnelArgs {
    type V = TunnelModel;

    open spec fn deep_view(&self) -> TunnelModel {
        TunnelModel {
            id: self.id@,
            password: self.password@,
            forwards: self.forwards.deep_view(),
            socks: self.socks.deep_view(),
            test: self.test.deep_view(),
            allow_insecure: self.allow_insecure,
            verbose: self.verbose,
        }
    }
}

/// Why the usage is shown instead.
pub enum TunnelUsage {
    /// The value of `-L` is missing or none.
    BadForward,
    /// The value of `-D` is missing or none.
    BadSocks,
    /// The value of `--test` is missing or none.
    BadTest,
    /// An argument that there is not.
    Unknown(String),
    /// It was asked for.
    Help,
    /// There is no `--id`.
    NoId,
    /// `--test` came together with `-L` or `-D`.
    TestWithListeners,
    /// There is none of `-L`, `-D` and `--test`.
    NothingToDo,
}

pub enum UsageModel {
    BadForward,
    BadSocks,
    BadTest,
    Unknown(Seq<char>),
    Help,
    NoId,
    TestWithListeners,
    NothingToDo,
}

impl DeepView for TunnelUsage {
    type V = UsageModel;

    open spec fn deep_view(&self) -> UsageModel {
        match *self {
            TunnelUsage::BadForward => UsageModel::BadForward,
            TunnelUsage::BadSocks => UsageModel::BadSocks,
            TunnelUsage::BadTest => UsageModel::BadTest,
            TunnelUsage::Unknown(t) => UsageModel::Unknown(t@),
            TunnelUsage::Help => UsageModel::Help,
            TunnelUsage::NoId => UsageModel::NoId,
            TunnelUsage::TestWithListeners => UsageModel::TestWithListeners,
            TunnelUsage::NothingToDo => UsageModel::NothingToDo,
        }
    }
}

impl UsageModel {
    /// What is said before the usage, if anything.
    pub open spec fn text(self) -> Option<Seq<char>> {
        match self {
            UsageModel::BadForward => Some(
                "некорректный -L (ожидается [bind:]lport:rhost:rport)\n"@,
            ),
            UsageModel::BadSocks => Some("некорректный -D (ожидается [bind:]port)\n"@),
            UsageModel::BadTest => Some("некорректный --test (ожидается rhost:rport)\n"@),
            UsageModel::Unknown(argument) => Some("неизвестный аргумент: "@ + argument + "\n"@),
            UsageModel::TestWithListeners => Some(
                "--test нельзя сочетать с -L/-D — это разовая проверка, не запуск туннеля\n"@,
            ),
            UsageModel::Help => None,
            UsageModel::NoId => None,
            UsageModel::NothingToDo => None,
        }
    }
}

impl TunnelUsage {
    /// What to say before the usage, if anything.
    pub fn message(&self) -> (t: Option<String>)
        ensures
            t.deep_view() == self.deep_view().text(),
    {
        match self {
            TunnelUsage::BadForward => Some(
                "некорректный -L (ожидается [bind:]lport:rhost:rport)\n".to_owned(),
            ),
            TunnelUsage::BadSocks => Some("некорректный -D (ожидается [bind:]port)\n".to_owned()),
            TunnelUsage::BadTest => Some(
                "некорректный --test (ожидается rhost:rport)\n".to_owned(),
            ),
            TunnelUsage::Unknown(argument) => Some(
                "неизвестный аргумент: ".to_owned().concat(argument.as_str()).concat("\n"),
            ),
            TunnelUsage::TestWithListeners => Some(
                "--test нельзя сочетать с -L/-D — это разовая проверка, не запуск туннеля\n".to_owned(),
            ),
            TunnelUsage::Help => None,
            TunnelUsage::NoId => None,
            TunnelUsage::NothingToDo => None,
        }
    }
}

/// The options that were read so far.
struct TunnelOptions {
    id: Option<String>,
    password: Option<String>,
    forwards: Vec<ForwardSpec>,
    socks: Vec<SocksSpec>,
    test: Option<(String, u16)>,
    allow_insecure: bool,
    verbose: bool,
}

pub struct OptionsModel {
    pub id: Option<Seq<char>>,
    pub password: Option<Seq<char>>,
    pub forwards: Seq<ForwardModel>,
    pub socks: Seq<ProxyModel>,
    pub test: Option<(Seq<char>, u16)>,
    pub allow_insecure: bool,
    pub verbose: bool,
}

impl TunnelOptions {
    spec fn model(self) -> OptionsModel {
        OptionsModel {
            id: self.id.deep_view(),
            password: self.password.deep_view(),
            forwards: self.forwards.deep_view(),
            socks: self.socks.deep_view(),
            test: self.test.deep_view(),
            allow_insecure: self.allow_insecure,
            verbose: self.verbose,
        }
    }
}

/// No option read yet.
pub open spec fn no_options() -> OptionsModel {
    OptionsModel {
        id: None,
        password: None,
        forwards: seq![],
        socks: seq![],
        test: None,
        allow_insecure: false,
        verbose: false,
    }
}

/// Whether an option takes the argument behind it as its value, whatever that
/// argument is.
pub open spec fn takes_value(option: Seq<char>) -> bool {
    ||| option == "--id"@
    ||| option == "--password"@
    ||| option == "-L"@
    ||| option == "-D"@
    ||| option == "--test"@
}

/// What an option with its value, if there is one left, makes of those before.
/// `--id` and `--password` replace an earlier one, even by none; `-L` and `-D`
/// add to the earlier ones.
pub open spec fn apply(
    o: OptionsModel,
    option: Seq<char>,
    value: Option<Seq<char>>,
) -> Result<OptionsModel, UsageModel> {
    if option == "--id"@ {
        Ok(OptionsModel { id: value, ..o })
    } else if option == "--password"@ {
        Ok(OptionsModel { password: value, ..o })
    } else if option == "-L"@ {
        match value {
            Some(v) => match forward_of(v) {
                Some(f) => Ok(OptionsModel { forwards: o.forwards.push(f), ..o }),
                None => Err(UsageModel::BadForward),
            },
            None => Err(UsageModel::BadForward),
        }
    } else if option == "-D"@ {
        match value {
            Some(v) => match proxy_of(v) {
                Some(p) => Ok(OptionsModel { socks: o.socks.push(p), ..o }),
                None => Err(UsageModel::BadSocks),
            },
            None => Err(UsageModel::BadSocks),
        }
    } else if option == "--test"@ {
        match value {
            Some(v) => match host_port_of(v) {
                Some(t) => Ok(OptionsModel { test: Some(t), ..o }),
                None => Err(UsageModel::BadTest),
            },
            None => Err(UsageModel::BadTest),
        }
    } else if option == "--allow-insecure"@ {
        Ok(OptionsModel { allow_insecure: true, ..o })
    } else if option == "-v"@ || option == "--verbose"@ {
        Ok(OptionsModel { verbose: true, ..o })
    } else if option == "-h"@ || option == "--help"@ {
        Err(UsageModel::Help)
    } else {
        Err(UsageModel::Unknown(option))
    }
}

/// The options that `args` add to `o`, or the first reason to show the usage.
pub open spec fn scan(o: OptionsModel, args: Seq<Seq<char>>) -> Result<OptionsModel, UsageModel>
    decreases args.len(),
{
    if args.len() == 0 {
        Ok(o)
    } else {
        match apply(o, args[0], value_behind(args)) {
            Ok(next) => scan(next, behind(args, takes_value(args[0]))),
            Err(usage) => Err(usage),
        }
    }
}

/// The password: that of the command line, or else that of the environment, or
/// else none.
pub open spec fn password_of(
    given: Option<Seq<char>>,
    environment: Option<Seq<char>>,
) -> Seq<char> {
    match given {
        Some(password) => password,
        None => match environment {
            Some(password) => password,
            None => seq![],
        },
    }
}

/// What the options come to.
pub open spec fn settle(
    o: OptionsModel,
    environment: Option<Seq<char>>,
) -> Result<TunnelModel, UsageModel> {
    match o.id {
        None => Err(UsageModel::NoId),
        Some(id) => if o.test is Some && (o.forwards.len() > 0 || o.socks.len() > 0) {
            Err(UsageModel::TestWithListeners)
        } else if o.test is None && o.forwards.len() == 0 && o.socks.len() == 0 {
            Err(UsageModel::NothingToDo)
        } else {
            Ok(
                TunnelModel {
                    id,
                    password: password_of(o.password, environment),
                    forwards: o.forwards,
                    socks: o.socks,
                    test: match o.test {
                        Some((host, port)) => Some((host, port as i32)),
                        None => None,
                    },
                    allow_insecure: o.allow_insecure,
                    verbose: o.verbose,
                },
            )
        },
    }
}

/// What a command line comes to.
pub open spec fn tunnel_command(
    args: Seq<Seq<char>>,
    environment: Option<Seq<char>>,
) -> Result<TunnelModel, UsageModel> {
    match scan(no_options(), args) {
        Ok(o) => settle(o, environment),
        Err(usage) => Err(usage),
    }
}

/// Whether to warn that there is no password: where the options could be read
/// and there is an id, but the password is empty.
pub open spec fn lacks_password(
    args: Seq<Seq<char>>,
    environment: Option<Seq<char>>,
) -> bool {
    match scan(no_options(), args) {
        Ok(o) => o.id is Some && password_of(o.password, environment).len() == 0,
        Err(_) => false,
    }
}

/// A command line that was read.
pub struct TunnelCommand {
    /// Whether to warn, before anything else, that there is no password.
    pub password_missing: bool,
    /// What to do, or why to show the usage.
    pub outcome: Result<TunnelArgs, TunnelUsage>,
}

/// The warning that there is no password.
pub fn password_warning() -> (t: String)
    ensures
        t@ == "предупреждение: пароль не задан (--password / HEADLESS_TUNNEL_PASSWORD пусты)"@,
{
    "предупреждение: пароль не задан (--password / HEADLESS_TUNNEL_PASSWORD пусты)".to_owned()
}

fn apply_option(options: TunnelOptions, option: &String, value: Option<&String>) -> (r: Result<
    TunnelOptions,
    TunnelUsage,
>)
    ensures
        ({
            let expected = apply(
                options.model(),
                option@,
                match value {
                    Some(v) => Some(v@),
                    None => None,
                },
            );
            match r {
                Ok(o) => expected == Ok::<OptionsModel, UsageModel>(o.model()),
                Err(u) => expected == Err::<OptionsModel, UsageModel>(u.deep_view()),
            }
        }),
{
    let mut o: TunnelOptions = options;
    let name: &str = option.as_str();
    if same_text(name, "--id") {
        o.id = match value {
            Some(v) => Some(v.clone()),
            None => None,
        };
    } else if same_text(name, "--password") {
        o.password = match value {
            Some(v) => Some(v.clone()),
            None => None,
        };
    } else if same_text(name, "-L") {
        let forward: Option<ForwardSpec> = match value {
            Some(v) => parse_forward_spec(v.as_str()),
            None => None,
        };
        match forward {
            Some(f) => {
                o.forwards.push(f);
                assert(o.forwards.deep_view() == options.forwards.deep_view().push(f.deep_view()));
            },
            None => {
                return Err(TunnelUsage::BadForward);
            },
        }
    } else if same_text(name, "-D") {
        let proxy: Option<SocksSpec> = match value {
            Some(v) => parse_socks_spec(v.as_str()),
            None => None,
        };
        match proxy {
            Some(p) => {
                o.socks.push(p);
                assert(o.socks.deep_view() == options.socks.deep_view().push(p.deep_view()));
            },
            None => {
                return Err(TunnelUsage::BadSocks);
            },
        }
    } else if same_text(name, "--test") {
        let target: Option<(String, u16)> = match value {
            Some(v) => parse_host_port(v.as_str()),
            None => None,
        };
        match target {
            Some(t) => {
                o.test = Some(t);
            },
            None => {
                return Err(TunnelUsage::BadTest);
            },
        }
    } else if same_text(name, "--allow-insecure") {
        o.allow_insecure = true;
    } else if same_text(name, "-v") || same_text(name, "--verbose") {
        o.verbose = true;
    } else if same_text(name, "-h") || same_text(name, "--help") {
        return Err(TunnelUsage::Help);
    } else {
        return Err(TunnelUsage::Unknown(option.clone()));
    }
    Ok(o)
}

fn option_takes_value(option: &str) -> (yes: bool)
    ensures
        yes == takes_value(option@),
{
    same_text(option, "--id") || same_text(option, "--password") || same_text(option, "-L")
        || same_text(option, "-D") || same_text(option, "--test")
}

/// Reads the arguments behind the program's name. `environment_password` is the
/// password that the environment holds, if any.
pub fn parse_tunnel_args(args: &Vec<String>, environment_password: Option<String>) -> (command:
    TunnelCommand)
    ensures
        match command.outcome {
            Ok(a) => tunnel_command(args.deep_view(), environment_password.deep_view()) == Ok::<
                TunnelModel,
                UsageModel,
            >(a.deep_view()),
            Err(u) => tunnel_command(args.deep_view(), environment_password.deep_view()) == Err::<
                TunnelModel,
                UsageModel,
            >(u.deep_view()),
        },
        command.password_missing == lacks_password(
            args.deep_view(),
            environment_password.deep_view(),
        ),
{
    let mut o: TunnelOptions = TunnelOptions {
        id: None,
        password: None,
        forwards: Vec::new(),
        socks: Vec::new(),
        test: None,
        allow_insecure: false,
        verbose: false,
    };
    let ghost all = args.deep_view();
    assert(o.forwards.deep_view() == Seq::<ForwardModel>::empty());
    assert(o.socks.deep_view() == Seq::<ProxyModel>::empty());
    assert(o.model() == no_options());
    assert(all.skip(0) == all);
    let mut i: usize = 0;
    while i < args.len()
        invariant
            i <= args@.len(),
            all == args.deep_view(),
            all.len() == args@.len(),
            scan(no_options(), all) == scan(o.model(), all.skip(i as int)),
        decreases args@.len() - i,
    {
        let ghost rest = all.skip(i as int);
        assert(rest[0] == args@[i as int]@);
        let value: Option<&String> = if i + 1 < args.len() {
            assert(rest[1] == args@[i + 1]@);
            Some(&args[i + 1])
        } else {
            None
        };
        let two: bool = option_takes_value(args[i].as_str()) && i + 1 < args.len();
        let ghost before = o.model();
        match apply_option(o, &args[i], value) {
            Ok(next) => {
                o = next;
            },
            Err(usage) => {
                return TunnelCommand { password_missing: false, outcome: Err(usage) };
            },
        }
        proof {
            if two {
                assert(behind(rest, takes_value(rest[0])) == all.skip(i + 2));
            } else {
                assert(behind(rest, takes_value(rest[0])) == all.skip(i + 1));
            }
        }
        if two {
            i = i + 2;
        } else {
            i = i + 1;
        }
    }
    assert(scan(no_options(), all) == Ok::<OptionsModel, UsageModel>(o.model()));
    let id: String = match o.id {
        Some(id) => id,
        None => {
            return TunnelCommand { password_missing: false, outcome: Err(TunnelUsage::NoId) };
        },
    };
    let password: String = match o.password {
        Some(password) => password,
        None => match environment_password {
            Some(password) => password,
            None => String::new(),
        },
    };
    let password_missing: bool = password.as_str().is_empty();
    let listeners: bool = o.forwards.len() > 0 || o.socks.len() > 0;
    if o.test.is_some() && listeners {
        return TunnelCommand { password_missing, outcome: Err(TunnelUsage::TestWithListeners) };
    }
    if o.test.is_none() && !listeners {
        return TunnelCommand { password_missing, outcome: Err(TunnelUsage::NothingToDo) };
    }
    let test: Option<(String, i32)> = match o.test {
        Some((host, port)) => Some((host, port as i32)),
        None => None,
    };
    TunnelCommand {
        password_missing,
        outcome: Ok(
            TunnelArgs {
                id,
                password,
                forwards: o.forwards,
                socks: o.socks,
                test,
                allow_insecure: o.allow_insecure,
                verbose: o.verbose,
            },
        ),
    }
}

// ---- laws ----

/// A command line that is accepted has work to do, and only one kind of it: a
/// target to test, or listeners.
pub proof fn accepted_command_has_one_kind_of_work(
    args: Seq<Seq<char>>,
    environment: Option<Seq<char>>,
)
    ensures
        tunnel_command(args, environment) matches Ok(t) ==> (t.test is Some) != (t.forwards.len()
            > 0 || t.socks.len() > 0),
{
}

/// The environment's password counts only where the command line gives none.
pub proof fn given_password_wins(
    args: Seq<Seq<char>>,
    one: Option<Seq<char>>,
    other: Option<Seq<char>>,
)
    ensures
        scan(no_options(), args) matches Ok(o) && o.password is Some ==> tunnel_command(args, one)
            == tunnel_command(args, other) && lacks_password(args, one) == lacks_password(
            args,
            other,
        ),
{
}

/// The arguments `-L` and a text, for each of the texts.
pub open spec fn forward_options(texts: Seq<Seq<char>>) -> Seq<Seq<char>>
    decreases texts.len(),
{
    if texts.len() == 0 {
        seq![]
    } else {
        seq!["-L"@, texts[0]] + forward_options(texts.skip(1))
    }
}

proof fn lemma_flags_differ()
    ensures
        "-L"@ != "--id"@,
        "-L"@ != "--password"@,
{
    reveal_strlit("-L");
    reveal_strlit("--id");
    reveal_strlit("--password");
    assert("-L"@.len() == 2);
    assert("--id"@.len() == 4);
    assert("--password"@.len() == 10);
}

/// `-L` may be given any number of times: each adds its forward behind those
/// before it.
pub proof fn forwards_add_up(o: OptionsModel, texts: Seq<Seq<char>>, rest: Seq<Seq<char>>)
    requires
        forall|i: int| 0 <= i < texts.len() ==> forward_of(#[trigger] texts[i]) is Some,
    ensures
        scan(o, forward_options(texts) + rest) == scan(
            OptionsModel {
                forwards: o.forwards + texts.map_values(|t: Seq<char>| forward_of(t)->0),
                ..o
            },
            rest,
        ),
    decreases texts.len(),
{
    let read = |t: Seq<char>| forward_of(t)->0;
    if texts.len() == 0 {
        assert(forward_options(texts) + rest == rest);
        assert(o.forwards + texts.map_values(read) == o.forwards);
    } else {
        lemma_flags_differ();
        let args = forward_options(texts) + rest;
        let more = forward_options(texts.skip(1)) + rest;
        assert(args[0] == "-L"@ && args[1] == texts[0]);
        assert(behind(args, takes_value(args[0])) == more);
        let next = OptionsModel { forwards: o.forwards.push(forward_of(texts[0])->0), ..o };
        assert(apply(o, args[0], value_behind(args)) == Ok::<OptionsModel, UsageModel>(next));
        assert forall|i: int| 0 <= i < texts.skip(1).len() implies forward_of(
            #[trigger] texts.skip(1)[i],
        ) is Some by {
            assert(forward_of(texts[i + 1]) is Some);
        }
        forwards_add_up(next, texts.skip(1), rest);
        assert(next.forwards + texts.skip(1).map_values(read) == o.forwards + texts.map_values(
            read,
        ));
    }
}

/// The options that have a value.
pub open spec fn valued_options() -> Set<Seq<char>> {
    set!["--id"@, "--password"@, "-L"@, "-D"@, "--test"@]
}

/// The options that have none.
pub open spec fn plain_options() -> Set<Seq<char>> {
    set!["--allow-insecure"@, "-v"@, "--verbose"@]
}

/// Where an option stands on a command line.
pub open spec fn places_of(args: Seq<Seq<char>>, option: Seq<char>) -> Seq<int> {
    places(args, valued_options(), option, args.len() as int)
}

/// Whether argument `i` stands for an option for which the usage is shown: one
/// that there is not, one that asks for it, or one whose value is missing or
/// cannot be read.
pub open spec fn is_fault(args: Seq<Seq<char>>, i: int) -> bool {
    &&& 0 <= i < args.len()
    &&& !is_value(args, valued_options(), i)
    &&& {
        ||| !valued_options().contains(args[i]) && !plain_options().contains(args[i])
        ||| args[i] == "-L"@ && (argument_behind(args, i) matches Some(v) ==> forward_of(v) is None)
        ||| args[i] == "-D"@ && (argument_behind(args, i) matches Some(v) ==> proxy_of(v) is None)
        ||| args[i] == "--test"@ && (argument_behind(args, i) matches Some(v) ==> host_port_of(
            v,
        ) is None)
    }
}

/// Whether that is why the usage is shown for such an option.
pub open spec fn is_reason(option: Seq<char>, usage: UsageModel) -> bool {
    &&& usage is BadForward <==> option == "-L"@
    &&& usage is BadSocks <==> option == "-D"@
    &&& usage is BadTest <==> option == "--test"@
    &&& usage is Help <==> option == "-h"@ || option == "--help"@
    &&& usage == UsageModel::Unknown(option) || usage is BadForward || usage is BadSocks
        || usage is BadTest || usage is Help
}

proof fn lemma_option_names()
    ensures
        "--id"@.len() == 4,
        "--password"@.len() == 10,
        "-L"@.len() == 2,
        "-L"@[1] == 'L',
        "-D"@.len() == 2,
        "-D"@[1] == 'D',
        "--test"@.len() == 6,
        "--test"@[2] == 't',
        "--allow-insecure"@.len() == 16,
        "-v"@.len() == 2,
        "-v"@[1] == 'v',
        "--verbose"@.len() == 9,
        "-h"@.len() == 2,
        "-h"@[1] == 'h',
        "--help"@.len() == 6,
        "--help"@[2] == 'h',
{
    reveal_strlit("--id");
    reveal_strlit("--password");
    reveal_strlit("-L");
    reveal_strlit("-D");
    reveal_strlit("--test");
    reveal_strlit("--allow-insecure");
    reveal_strlit("-v");
    reveal_strlit("--verbose");
    reveal_strlit("-h");
    reveal_strlit("--help");
}

spec fn place_before(args: Seq<Seq<char>>, option: Seq<char>, n: int) -> Seq<int> {
    places(args, valued_options(), option, n)
}

spec fn holds_first(o: OptionsModel, args: Seq<Seq<char>>, n: int) -> bool {
    let forwards = place_before(args, "-L"@, n);
    let proxies = place_before(args, "-D"@, n);
    let tests = place_before(args, "--test"@, n);
    &&& o.id == last_argument(args, place_before(args, "--id"@, n))
    &&& o.password == last_argument(args, place_before(args, "--password"@, n))
    &&& o.forwards.len() == forwards.len()
    &&& forall|k: int|
        0 <= k < forwards.len() ==> argument_behind(args, #[trigger] forwards[k]) is Some
            && forward_of(args[forwards[k] + 1]) == Some(o.forwards[k])
    &&& o.socks.len() == proxies.len()
    &&& forall|k: int|
        0 <= k < proxies.len() ==> argument_behind(args, #[trigger] proxies[k]) is Some && proxy_of(
            args[proxies[k] + 1],
        ) == Some(o.socks[k])
    &&& tests.len() == 0 ==> o.test is None
    &&& tests.len() > 0 ==> o.test is Some && last_argument(args, tests) is Some && host_port_of(
        last_argument(args, tests)->0,
    ) == o.test
    &&& o.allow_insecure == (place_before(args, "--allow-insecure"@, n).len() > 0)
    &&& o.verbose == (place_before(args, "-v"@, n).len() > 0 || place_before(
        args,
        "--verbose"@,
        n,
    ).len() > 0)
}

proof fn lemma_places_step(args: Seq<Seq<char>>, option: Seq<char>, i: int)
    requires
        0 <= i < args.len(),
        !is_value(args, valued_options(), i),
    ensures
        ({
            let next = if valued_options().contains(args[i]) && i + 1 < args.len() {
                i + 2
            } else {
                i + 1
            };
            place_before(args, option, next) == (if args[i] == option {
                place_before(args, option, i).push(i)
            } else {
                place_before(args, option, i)
            })
        }),
{
    reveal_with_fuel(places, 3);
    reveal_with_fuel(is_value, 2);
}

proof fn lemma_scan(o: OptionsModel, args: Seq<Seq<char>>, i: int)
    requires
        0 <= i <= args.len(),
        i < args.len() ==> !is_value(args, valued_options(), i),
        holds_first(o, args, i),
    ensures
        match scan(o, args.skip(i)) {
            Ok(all) => holds_first(all, args, args.len() as int) && forall|k: int|
                i <= k ==> !#[trigger] is_fault(args, k),
            Err(usage) => exists|k: int|
                i <= k && #[trigger] is_fault(args, k) && is_reason(args[k], usage) && forall|l: int|
                    i <= l < k ==> !#[trigger] is_fault(args, l),
        },
    decreases args.len() - i,
{
    let rest = args.skip(i);
    if i < args.len() {
        let option = args[i];
        let valued = valued_options().contains(option);
        assert(rest[0] == option);
        lemma_option_names();
        assert(takes_value(option) == valued);
        let two = valued && i + 1 < args.len();
        let next = if two {
            i + 2
        } else {
            i + 1
        };
        assert(behind(rest, takes_value(option)) == args.skip(next));
        if i + 1 < args.len() {
            assert(rest[1] == args[i + 1]);
        }
        assert(value_behind(rest) == argument_behind(args, i));
        reveal_with_fuel(is_value, 3);
        lemma_places_step(args, "--id"@, i);
        lemma_places_step(args, "--password"@, i);
        lemma_places_step(args, "-L"@, i);
        lemma_places_step(args, "-D"@, i);
        lemma_places_step(args, "--test"@, i);
        lemma_places_step(args, "--allow-insecure"@, i);
        lemma_places_step(args, "-v"@, i);
        lemma_places_step(args, "--verbose"@, i);
        match apply(o, option, value_behind(rest)) {
            Ok(after) => {
                assert(holds_first(after, args, next));
                lemma_scan(after, args, next);
                assert(!is_fault(args, i));
                if two {
                    assert(is_value(args, valued_options(), i + 1));
                    assert(!is_fault(args, i + 1));
                }
                match scan(o, rest) {
                    Ok(_) => {
                        assert forall|k: int| i <= k implies !#[trigger] is_fault(args, k) by {
                            if k >= next {
                                assert(!is_fault(args, k));
                            }
                        }
                    },
                    Err(usage) => {
                        let k = choose|k: int|
                            next <= k && #[trigger] is_fault(args, k) && is_reason(args[k], usage)
                                && forall|l: int| next <= l < k ==> !#[trigger] is_fault(args, l);
                        assert forall|l: int| i <= l < k implies !#[trigger] is_fault(args, l) by {
                            if l >= next {
                                assert(!is_fault(args, l));
                            }
                        }
                    },
                }
            },
            Err(usage) => {
                assert(is_fault(args, i));
                assert(is_reason(args[i], usage));
            },
        }
    }
}

/// The first option for which the usage is shown is the reason that is given,
/// whatever stands before and behind it, and nothing is said of the password.
pub proof fn first_fault_is_the_reason(
    args: Seq<Seq<char>>,
    environment: Option<Seq<char>>,
    i: int,
)
    requires
        is_fault(args, i),
        forall|k: int| 0 <= k < i ==> !#[trigger] is_fault(args, k),
    ensures
        tunnel_command(args, environment) matches Err(usage) && is_reason(args[i], usage),
        !lacks_password(args, environment),
{
    assert(args.skip(0) == args);
    lemma_scan(no_options(), args, 0);
    if let Err(usage) = scan(no_options(), args) {
        let k = choose|k: int|
            0 <= k && #[trigger] is_fault(args, k) && is_reason(args[k], usage) && forall|l: int|
                0 <= l < k ==> !#[trigger] is_fault(args, l);
        if k < i {
            assert(!is_fault(args, k));
        } else if i < k {
            assert(!is_fault(args, i));
        }
    }
}

/// Whether that is the password: the value of the last `--password`, or else
/// that of the environment, or else nothing.
pub open spec fn is_password(
    password: Seq<char>,
    given: Option<Seq<char>>,
    environment: Option<Seq<char>>,
) -> bool {
    ||| given == Some(password)
    ||| given is None && environment == Some(password)
    ||| given is None && environment is None && password.len() == 0
}

/// What each option of a command line does, whatever the others are, where there
/// is none for which the usage is shown. `-L` and `-D` add a forward or a proxy
/// for each place, in order; of the others with a value the last counts. There
/// has to be an id, and either a target to test or something to listen on.
pub proof fn every_option_counts(args: Seq<Seq<char>>, environment: Option<Seq<char>>)
    requires
        forall|i: int| !#[trigger] is_fault(args, i),
    ensures
        ({
            let id = last_argument(args, places_of(args, "--id"@));
            let password = last_argument(args, places_of(args, "--password"@));
            let forwards = places_of(args, "-L"@);
            let proxies = places_of(args, "-D"@);
            let tests = places_of(args, "--test"@);
            &&& match tunnel_command(args, environment) {
                Ok(t) => {
                    &&& id == Some(t.id)
                    &&& is_password(t.password, password, environment)
                    &&& t.forwards.len() == forwards.len()
                    &&& forall|k: int|
                        0 <= k < forwards.len() ==> forward_of(args[#[trigger] forwards[k] + 1])
                            == Some(t.forwards[k])
                    &&& t.socks.len() == proxies.len()
                    &&& forall|k: int|
                        0 <= k < proxies.len() ==> proxy_of(args[#[trigger] proxies[k] + 1]) == Some(
                            t.socks[k],
                        )
                    &&& tests.len() == 0 <==> t.test is None
                    &&& t.test matches Some((host, port)) ==> host_port_of(
                        args[tests.last() + 1],
                    ) == Some((host, port as u16)) && 0 <= port <= 65535
                    &&& t.allow_insecure == (places_of(args, "--allow-insecure"@).len() > 0)
                    &&& t.verbose == (places_of(args, "-v"@).len() > 0 || places_of(
                        args,
                        "--verbose"@,
                    ).len() > 0)
                    &&& tests.len() == 0 <==> forwards.len() > 0 || proxies.len() > 0
                },
                Err(UsageModel::NoId) => id is None,
                Err(UsageModel::TestWithListeners) => id is Some && tests.len() > 0 && (
                forwards.len() > 0 || proxies.len() > 0),
                Err(UsageModel::NothingToDo) => id is Some && tests.len() == 0 && forwards.len()
                    == 0 && proxies.len() == 0,
                Err(_) => false,
            }
            &&& lacks_password(args, environment) <==> id is Some && is_password(
                seq![],
                password,
                environment,
            )
        }),
{
    assert(args.skip(0) == args);
    lemma_scan(no_options(), args, 0);
    if let Err(usage) = scan(no_options(), args) {
        let k = choose|k: int|
            0 <= k && #[trigger] is_fault(args, k) && is_reason(args[k], usage) && forall|l: int|
                0 <= l < k ==> !#[trigger] is_fault(args, l);
        assert(!is_fault(args, k));
    }
    if let Ok(o) = scan(no_options(), args) {
        assert(holds_first(o, args, args.len() as int));
        if password_of(o.password, environment).len() == 0 {
            assert(password_of(o.password, environment) == Seq::<char>::empty());
        }
    }
}

/// What is said before the usage: nothing where it was asked for, where the id
/// is missing and where there is nothing to do, and otherwise what was wrong,
/// with an argument that there is not.
pub proof fn what_is_said_before_the_usage(argument: Seq<char>)
    ensures
        UsageModel::Help.text() is None,
        UsageModel::NoId.text() is None,
        UsageModel::NothingToDo.text() is None,
        UsageModel::BadForward.text() == Some(
            "некорректный -L (ожидается [bind:]lport:rhost:rport)\n"@,
        ),
        UsageModel::BadSocks.text() == Some("некорректный -D (ожидается [bind:]port)\n"@),
        UsageModel::BadTest.text() == Some("некорректный --test (ожидается rhost:rport)\n"@),
        UsageModel::TestWithListeners.text() == Some(
            "--test нельзя сочетать с -L/-D — это разовая проверка, не запуск туннеля\n"@,
        ),
        UsageModel::Unknown(argument).text() == Some(
            "неизвестный аргумент: "@ + argument + "\n"@,
        ),
{
}

/// What is read of the arguments, or of the reason to show the usage, is what
/// they hold.
pub proof fn arguments_hold_what_was_read(args: TunnelArgs, argument: String)
    ensures
        args.deep_view().id == args.id@,
        args.deep_view().password == args.password@,
        args.deep_view().forwards == args.forwards.deep_view(),
        args.deep_view().socks == args.socks.deep_view(),
        args.deep_view().test == args.test.deep_view(),
        args.deep_view().allow_insecure == args.allow_insecure,
        args.deep_view().verbose == args.verbose,
        TunnelUsage::BadForward.deep_view() is BadForward,
        TunnelUsage::BadSocks.deep_view() is BadSocks,
        TunnelUsage::BadTest.deep_view() is BadTest,
        TunnelUsage::Unknown(argument).deep_view() == UsageModel::Unknown(argument@),
        TunnelUsage::Help.deep_view() is Help,
        TunnelUsage::NoId.deep_view() is NoId,
        TunnelUsage::TestWithListeners.deep_view() is TestWithListeners,
        TunnelUsage::NothingToDo.deep_view() is NothingToDo,
{
}

} // verus!
