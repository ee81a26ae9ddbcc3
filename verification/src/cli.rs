//! The command line: subcommands, common options, and what each subcommand takes besides.
use crate::text::{
    law_numbers_consist_of_digits, lowercase, number_value, parse_number, same_text, starts_with,
    texts, NumberError,
};
use vstd::prelude::*;

verus! {

/// Where verdict summaries go unless the environment says otherwise.
pub const DEFAULT_FEEDBACK_URL: &'static str = "https://signup.provenex.ai/verdict-feedback";

/// Where payloads go unless the environment or the command line says otherwise.
pub const DEFAULT_UPSTREAM: &'static str = "https://api.provenex.ai";

/// What becomes of a payload before it is sent.
#[derive(Debug, Clone, Copy, PartialEq, Eq, Structural)]
pub enum Mode {
    /// It is sent as it is.
    Plain,
    /// Content and identities are replaced by their digests.
    Hash,
}

/// The options that take a value.
#[derive(Debug, Clone, Copy, PartialEq, Eq, Structural)]
pub enum Flag {
    Upstream,
    ApiKey,
    Salt,
    Mode,
    Concurrent,
    Report,
    Interval,
    Bind,
}

impl Flag {
    /// How the option is written.
    pub open spec fn name(self) -> Seq<char> {
        match self {
            Flag::Upstream => "--upstream"@,
            Flag::ApiKey => "--api-key"@,
            Flag::Salt => "--salt"@,
            Flag::Mode => "--mode"@,
            Flag::Concurrent => "--concurrent"@,
            Flag::Report => "--report"@,
            Flag::Interval => "--interval"@,
            Flag::Bind => "--bind"@,
        }
    }

    /// What the option asks for.
    pub open spec fn wants(self) -> Seq<char> {
        match self {
            Flag::Mode => "plain|hash"@,
            Flag::Report => "a path"@,
            _ => "a value"@,
        }
    }

    fn name_text(self) -> (r: &'static str)
        ensures
            r@ == self.name(),
    {
        match self {
            Flag::Upstream => "--upstream",
            Flag::ApiKey => "--api-key",
            Flag::Salt => "--salt",
            Flag::Mode => "--mode",
            Flag::Concurrent => "--concurrent",
            Flag::Report => "--report",
            Flag::Interval => "--interval",
            Flag::Bind => "--bind",
        }
    }

    fn wants_text(self) -> (r: &'static str)
        ensures
            r@ == self.wants(),
    {
        match self {
            Flag::Mode => "plain|hash",
            Flag::Report => "a path",
            _ => "a value",
        }
    }
}

/// The subcommands that take a file or a directory.
#[derive(Debug, Clone, Copy, PartialEq, Eq, Structural)]
pub enum Target {
    SendFile,
    BatchDirectory,
    WatchDirectory,
}

/// What is wrong with a command line.
#[derive(Debug)]
pub enum CliError {
    /// An option that takes a value stands at the end.
    MissingValue(Flag),
    /// The value of an option is no number that it takes.
    BadNumber(Flag, NumberError),
    /// The file or directory is missing.
    MissingTarget(Target),
    /// The subcommand `watch` does not know the option.
    UnknownWatchOption(String),
    /// There is no key.
    MissingApiKey,
    /// Digests were asked for without a salt.
    MissingSalt,
    /// There is no such mode.
    InvalidMode(String),
}

/// The model of a [`CliError`].
pub enum CliErrorView {
    MissingValue(Flag),
    BadNumber(Flag, NumberError),
    MissingTarget(Target),
    UnknownWatchOption(Seq<char>),
    MissingApiKey,
    MissingSalt,
    InvalidMode(Seq<char>),
}

impl CliErrorView {
    /// What is wrong with the command line, in words.
    pub open spec fn message(self) -> Seq<char> {
        match self {
            CliErrorView::MissingValue(flag) => flag.name() + " requires "@ + flag.wants(),
            CliErrorView::BadNumber(flag, e) => flag.name() + ": "@ + e.message_text(),
            CliErrorView::MissingTarget(Target::SendFile) => "send requires a file argument"@,
            CliErrorView::MissingTarget(Target::BatchDirectory) =>
                "batch requires a directory argument"@,
            CliErrorView::MissingTarget(Target::WatchDirectory) =>
                "watch requires a directory argument"@,
            CliErrorView::UnknownWatchOption(arg) => "watch: unknown option `"@ + arg + "`"@,
            CliErrorView::MissingApiKey => "--api-key (or PROVENEX_API_KEY) is required"@,
            CliErrorView::MissingSalt => "--mode=hash requires --salt (or PROVENEX_HMAC_SALT)"@,
            CliErrorView::InvalidMode(mode) => "--mode `"@ + mode
                + "` invalid (use plain or hash)"@,
        }
    }
}

impl View for CliError {
    type V = CliErrorView;

    open spec fn view(&self) -> CliErrorView {
        match self {
            CliError::MissingValue(flag) => CliErrorView::MissingValue(*flag),
            CliError::BadNumber(flag, e) => CliErrorView::BadNumber(*flag, *e),
            CliError::MissingTarget(target) => CliErrorView::MissingTarget(*target),
            CliError::UnknownWatchOption(arg) => CliErrorView::UnknownWatchOption(arg@),
            CliError::MissingApiKey => CliErrorView::MissingApiKey,
            CliError::MissingSalt => CliErrorView::MissingSalt,
            CliError::InvalidMode(mode) => CliErrorView::InvalidMode(mode@),
        }
    }
}

impl CliError {
    /// What is wrong with the command line, in words.
    pub fn message(&self) -> (r: String)
        ensures
            r@ == self@.message(),
    {
        match self {
            CliError::MissingValue(flag) => {
                let mut text = flag.name_text().to_owned();
                text.append(" requires ");
                text.append(flag.wants_text());
                text
            },
            CliError::BadNumber(flag, e) => {
                let mut text = flag.name_text().to_owned();
                text.append(": ");
                text.append(e.message().as_str());
                text
            },
            CliError::MissingTarget(Target::SendFile) => "send requires a file argument".to_owned(),
            CliError::MissingTarget(
                Target::BatchDirectory,
            ) => "batch requires a directory argument".to_owned(),
            CliError::MissingTarget(
                Target::WatchDirectory,
            ) => "watch requires a directory argument".to_owned(),
            CliError::UnknownWatchOption(arg) => {
                let mut text = "watch: unknown option `".to_owned();
                text.append(arg.as_str());
                text.append("`");
                text
            },
            CliError::MissingApiKey => "--api-key (or PROVENEX_API_KEY) is required".to_owned(),
            CliError::MissingSalt => {
                "--mode=hash requires --salt (or PROVENEX_HMAC_SALT)".to_owned()
            },
            CliError::InvalidMode(mode) => {
                let mut text = "--mode `".to_owned();
                text.append(mode.as_str());
                text.append("` invalid (use plain or hash)");
                text
            },
        }
    }
}

/// The view of an optional text.
pub open spec fn opt_text(s: Option<String>) -> Option<Seq<char>> {
    match s {
        Some(t) => Some(t@),
        None => None,
    }
}

/// A text, or `default` where there is none.
pub open spec fn text_or(s: Option<String>, default: Seq<char>) -> Seq<char> {
    match s {
        Some(t) => t@,
        None => default,
    }
}

/// The environment variables that the program reads.
#[derive(Debug)]
pub struct Environment {
    /// `PROVENEX_UPSTREAM`
    pub upstream: Option<String>,
    /// `PROVENEX_API_KEY`
    pub api_key: Option<String>,
    /// `PROVENEX_HMAC_SALT`
    pub salt: Option<String>,
    /// `PROVENEX_MODE`
    pub mode: Option<String>,
    /// `PROVENEX_NO_FEEDBACK`
    pub no_feedback: Option<String>,
    /// `PROVENEX_FEEDBACK_URL`
    pub feedback_url: Option<String>,
}

/// What the options have come to.
#[derive(Debug)]
pub struct Options {
    pub upstream: String,
    pub api_key: String,
    pub salt: String,
    /// The mode, in lower case.
    pub mode: String,
    pub concurrent: usize,
    pub report: Option<String>,
    /// Sharing of verdict summaries was asked for.
    pub opt_in: bool,
    /// Sharing of verdict summaries was declined.
    pub opt_out: bool,
    /// The arguments that are no common options.
    pub positional: Vec<String>,
}

/// The model of [`Options`].
pub struct OptionsView {
    pub upstream: Seq<char>,
    pub api_key: Seq<char>,
    pub salt: Seq<char>,
    pub mode: Seq<char>,
    pub concurrent: usize,
    pub report: Option<Seq<char>>,
    pub opt_in: bool,
    pub opt_out: bool,
    pub positional: Seq<Seq<char>>,
}

impl View for Options {
    type V = OptionsView;

    open spec fn view(&self) -> OptionsView {
        OptionsView {
            upstream: self.upstream@,
            api_key: self.api_key@,
            salt: self.salt@,
            mode: self.mode@,
            concurrent: self.concurrent,
            report: opt_text(self.report),
            opt_in: self.opt_in,
            opt_out: self.opt_out,
            positional: texts(self.positional@),
        }
    }
}

/// A value of `PROVENEX_NO_FEEDBACK` that declines sharing: anything but nothing, `0` and
/// `false` in whatever case.
pub open spec fn declines(value: Seq<char>) -> bool {
    value.len() > 0 && value != "0"@ && lowercase(value) != "false"@
}

/// The options before the command line is read.
pub open spec fn defaults(env: Environment) -> OptionsView {
    OptionsView {
        upstream: text_or(env.upstream, DEFAULT_UPSTREAM@),
        api_key: text_or(env.api_key, ""@),
        salt: text_or(env.salt, ""@),
        mode: lowercase(text_or(env.mode, "plain"@)),
        concurrent: 4,
        report: None,
        opt_in: false,
        opt_out: env.no_feedback is Some && declines(env.no_feedback->0@),
        positional: Seq::empty(),
    }
}

impl OptionsView {
    /// The options after an option and its value.
    pub open spec fn with(self, flag: Flag, value: Seq<char>) -> Result<OptionsView, CliErrorView> {
        match flag {
            Flag::Upstream => Ok(OptionsView { upstream: value, ..self }),
            Flag::ApiKey => Ok(OptionsView { api_key: value, ..self }),
            Flag::Salt => Ok(OptionsView { salt: value, ..self }),
            Flag::Mode => Ok(OptionsView { mode: lowercase(value), ..self }),
            Flag::Concurrent => match number_value(value, usize::MAX as nat) {
                Ok(n) => Ok(OptionsView { concurrent: n as usize, ..self }),
                Err(e) => Err(CliErrorView::BadNumber(Flag::Concurrent, e)),
            },
            Flag::Report => Ok(OptionsView { report: Some(value), ..self }),
            _ => Ok(self),
        }
    }
}

/// The common option that takes a value and is written so.
pub open spec fn value_flag(arg: Seq<char>) -> Option<Flag> {
    if arg == "--upstream"@ {
        Some(Flag::Upstream)
    } else if arg == "--api-key"@ {
        Some(Flag::ApiKey)
    } else if arg == "--salt"@ {
        Some(Flag::Salt)
    } else if arg == "--mode"@ {
        Some(Flag::Mode)
    } else if arg == "--concurrent"@ {
        Some(Flag::Concurrent)
    } else if arg == "--report"@ {
        Some(Flag::Report)
    } else {
        None
    }
}

/// The options after an argument that is no option with a value.
pub open spec fn with_other(arg: Seq<char>, o: OptionsView) -> OptionsView {
    if arg == "--no-feedback"@ {
        OptionsView { opt_out: true, ..o }
    } else if arg == "--feedback"@ {
        OptionsView { opt_in: true, ..o }
    } else {
        OptionsView { positional: o.positional.push(arg), ..o }
    }
}

/// Reads the arguments from left to right, starting from `o`.
pub open spec fn scan(args: Seq<Seq<char>>, o: OptionsView) -> Result<OptionsView, CliErrorView>
    decreases args.len(),
{
    if args.len() == 0 {
        Ok(o)
    } else {
        match value_flag(args[0]) {
            Some(flag) => if args.len() < 2 {
                Err(CliErrorView::MissingValue(flag))
            } else {
                match o.with(flag, args[1]) {
                    Ok(next) => scan(args.skip(2), next),
                    Err(e) => Err(e),
                }
            },
            None => scan(args.skip(1), with_other(args[0], o)),
        }
    }
}

/// Which common option that takes a value is written so.
fn read_value_flag(arg: &str) -> (r: Option<Flag>)
    ensures
        r == value_flag(arg@),
{
    if same_text(arg, "--upstream") {
        Some(Flag::Upstream)
    } else if same_text(arg, "--api-key") {
        Some(Flag::ApiKey)
    } else if same_text(arg, "--salt") {
        Some(Flag::Salt)
    } else if same_text(arg, "--mode") {
        Some(Flag::Mode)
    } else if same_text(arg, "--concurrent") {
        Some(Flag::Concurrent)
    } else if same_text(arg, "--report") {
        Some(Flag::Report)
    } else {
        None
    }
}

/// A copy of a text, or of `default` where there is none.
fn copy_or(s: &Option<String>, default: &str) -> (r: String)
    ensures
        r@ == text_or(*s, default@),
{
    match s {
        Some(t) => t.clone(),
        None => default.to_owned(),
    }
}

/// Whether a value of `PROVENEX_NO_FEEDBACK` declines sharing.
fn reads_as_decline(value: &str) -> (r: bool)
    ensures
        r == declines(value@),
{
    !value.is_empty() && !same_text(value, "0") && !same_text(
        value.to_lowercase().as_str(),
        "false",
    )
}

impl Options {
    /// The options before the command line is read.
    pub fn from_environment(env: &Environment) -> (r: Options)
        ensures
            r@ == defaults(*env),
    {
        let opt_out = match &env.no_feedback {
            Some(value) => reads_as_decline(value.as_str()),
            None => false,
        };
        let mode = copy_or(&env.mode, "plain").to_lowercase();
        let r = Options {
            upstream: copy_or(&env.upstream, DEFAULT_UPSTREAM),
            api_key: copy_or(&env.api_key, ""),
            salt: copy_or(&env.salt, ""),
            mode,
            concurrent: 4,
            report: None,
            opt_in: false,
            opt_out,
            positional: Vec::new(),
        };
        assert(texts(r.positional@) =~= Seq::<Seq<char>>::empty());
        r
    }

    /// Takes in an option and its value.
    fn put(&mut self, flag: Flag, value: &str) -> (r: Result<(), CliError>)
        ensures
            match r {
                Ok(_) => old(self)@.with(flag, value@) == Ok::<OptionsView, CliErrorView>(
                    final(self)@,
                ),
                Err(e) => old(self)@.with(flag, value@) == Err::<OptionsView, CliErrorView>(e@),
            },
    {
        match flag {
            Flag::Upstream => {
                self.upstream = value.to_owned();
            },
            Flag::ApiKey => {
                self.api_key = value.to_owned();
            },
            Flag::Salt => {
                self.salt = value.to_owned();
            },
            Flag::Mode => {
                self.mode = value.to_lowercase();
            },
            Flag::Concurrent => match parse_number(value, usize::MAX as u64) {
                Ok(n) => {
                    self.concurrent = n as usize;
                },
                Err(e) => {
                    return Err(CliError::BadNumber(Flag::Concurrent, e));
                },
            },
            Flag::Report => {
                self.report = Some(value.to_owned());
            },
            _ => {},
        }
        Ok(())
    }

    /// Reads the arguments from left to right.
    pub fn scan(self, args: &[String]) -> (r: Result<Options, CliError>)
        ensures
            match r {
                Ok(o) => scan(texts(args@), self@) == Ok::<OptionsView, CliErrorView>(o@),
                Err(e) => scan(texts(args@), self@) == Err::<OptionsView, CliErrorView>(e@),
            },
    {
        let mut o = self;
        let ghost all = texts(args@);
        let mut i: usize = 0;
        assert(all.skip(0) =~= all);
        while i < args.len()
            invariant
                i <= args@.len(),
                all == texts(args@),
                scan(all, self@) == scan(all.skip(i as int), o@),
            decreases args@.len() - i,
        {
            let ghost rest = all.skip(i as int);
            assert(rest[0] == args@[i as int]@);
            assert(rest.skip(1) =~= all.skip(i + 1));
            match read_value_flag(args[i].as_str()) {
                Some(flag) => {
                    if args.len() - i < 2 {
                        return Err(CliError::MissingValue(flag));
                    }
                    assert(rest[1] == args@[i + 1]@);
                    assert(rest.skip(2) =~= all.skip(i + 2));
                    o.put(flag, args[i + 1].as_str())?;
                    i = i + 2;
                },
                None => {
                    if same_text(args[i].as_str(), "--no-feedback") {
                        o.opt_out = true;
                    } else if same_text(args[i].as_str(), "--feedback") {
                        o.opt_in = true;
                    } else {
                        let ghost before = o.positional@;
                        o.positional.push(args[i].clone());
                        assert(texts(o.positional@) =~= texts(before).push(rest[0]));
                    }
                    i = i + 1;
                },
            }
        }
        Ok(o)
    }
}

/// What a run works with.
#[derive(Debug)]
pub struct Config {
    pub upstream: String,
    pub api_key: String,
    pub salt: String,
    pub mode: Mode,
    pub concurrent: usize,
    /// Where to write a report of each verdict, if anywhere.
    pub report: Option<String>,
    /// Whether a summary of each verdict is shared.
    pub feedback: bool,
    /// Where the summaries go.
    pub feedback_url: String,
    /// The version that reports and summaries name.
    pub binary_version: String,
}

/// The model of a [`Config`].
pub struct ConfigView {
    pub upstream: Seq<char>,
    pub api_key: Seq<char>,
    pub salt: Seq<char>,
    pub mode: Mode,
    pub concurrent: usize,
    pub report: Option<Seq<char>>,
    pub feedback: bool,
    pub feedback_url: Seq<char>,
    pub binary_version: Seq<char>,
}

impl View for Config {
    type V = ConfigView;

    open spec fn view(&self) -> ConfigView {
        ConfigView {
            upstream: self.upstream@,
            api_key: self.api_key@,
            salt: self.salt@,
            mode: self.mode,
            concurrent: self.concurrent,
            report: opt_text(self.report),
            feedback: self.feedback,
            feedback_url: self.feedback_url@,
            binary_version: self.binary_version@,
        }
    }
}

impl Config {
    /// How many uploads may run at a time: as many as asked for, and at least one.
    pub fn upload_permits(&self) -> (r: usize)
        ensures
            r == if self.concurrent > 1 {
                self.concurrent
            } else {
                1
            },
    {
        if self.concurrent > 1 {
            self.concurrent
        } else {
            1
        }
    }
}

impl ConfigView {
    /// There is a key, and where digests are to be made there is a salt.
    pub open spec fn wf(self) -> bool {
        &&& self.api_key.len() > 0
        &&& self.mode == Mode::Hash ==> self.salt.len() > 0
    }
}

/// Whether a key is a trial key.
pub open spec fn is_trial_key(key: Seq<char>) -> bool {
    "pvx_trial_"@.is_prefix_of(key)
}

impl OptionsView {
    /// Whether verdict summaries are shared: where that was asked for, and with a trial key
    /// unless it was declined.
    pub open spec fn shares(self) -> bool {
        self.opt_in || (is_trial_key(self.api_key) && !self.opt_out)
    }

    /// The configuration that the options come to.
    pub open spec fn settled(self, feedback_url: Seq<char>, version: Seq<char>) -> Result<
        ConfigView,
        CliErrorView,
    > {
        let config = ConfigView {
            upstream: self.upstream,
            api_key: self.api_key,
            salt: self.salt,
            mode: Mode::Plain,
            concurrent: self.concurrent,
            report: self.report,
            feedback: self.shares(),
            feedback_url,
            binary_version: version,
        };
        if self.api_key.len() == 0 {
            Err(CliErrorView::MissingApiKey)
        } else if self.mode == "plain"@ {
            Ok(config)
        } else if self.mode == "hash"@ {
            if self.salt.len() == 0 {
                Err(CliErrorView::MissingSalt)
            } else {
                Ok(ConfigView { mode: Mode::Hash, ..config })
            }
        } else {
            Err(CliErrorView::InvalidMode(self.mode))
        }
    }
}

impl Options {
    /// The configuration that the options come to, and the arguments that are no common options.
    pub fn settle(self, feedback_url: String, version: &str) -> (r: Result<
        (Config, Vec<String>),
        CliError,
    >)
        ensures
            match r {
                Ok((config, positional)) => {
                    &&& self@.settled(feedback_url@, version@) == Ok::<ConfigView, CliErrorView>(
                        config@,
                    )
                    &&& texts(positional@) == self@.positional
                    &&& config@.wf()
                    &&& config@.upstream == self@.upstream
                    &&& config@.api_key == self@.api_key
                    &&& config@.salt == self@.salt
                    &&& config@.concurrent == self@.concurrent
                    &&& config@.report == self@.report
                    &&& config@.feedback_url == feedback_url@
                    &&& config@.binary_version == version@
                },
                Err(e) => self@.settled(feedback_url@, version@) == Err::<ConfigView, CliErrorView>(
                    e@,
                ),
            },
    {
        if self.api_key.as_str().is_empty() {
            return Err(CliError::MissingApiKey);
        }
        let mode = if same_text(self.mode.as_str(), "plain") {
            Mode::Plain
        } else if same_text(self.mode.as_str(), "hash") {
            proof {
                reveal_strlit("plain");
                reveal_strlit("hash");
                assert("plain"@.len() == 5);
                assert("hash"@.len() == 4);
            }
            if self.salt.as_str().is_empty() {
                return Err(CliError::MissingSalt);
            }
            Mode::Hash
        } else {
            return Err(CliError::InvalidMode(self.mode));
        };
        let trial = starts_with(self.api_key.as_str(), "pvx_trial_");
        let feedback = self.opt_in || (trial && !self.opt_out);
        Ok(
            (
                Config {
                    upstream: self.upstream,
                    api_key: self.api_key,
                    salt: self.salt,
                    mode,
                    concurrent: self.concurrent,
                    report: self.report,
                    feedback,
                    feedback_url,
                    binary_version: version.to_owned(),
                },
                self.positional,
            ),
        )
    }
}

/// The configuration and the remaining arguments of a command line in an environment.
pub open spec fn common(env: Environment, args: Seq<Seq<char>>, version: Seq<char>) -> Result<
    (ConfigView, Seq<Seq<char>>),
    CliErrorView,
> {
    match scan(args, defaults(env)) {
        Ok(o) => match o.settled(text_or(env.feedback_url, DEFAULT_FEEDBACK_URL@), version) {
            Ok(config) => Ok((config, o.positional)),
            Err(e) => Err(e),
        },
        Err(e) => Err(e),
    }
}

/// Reads the options that all subcommands take; returns the configuration and the arguments
/// that are left.
pub fn parse_common(env: &Environment, args: &[String], version: &str) -> (r: Result<
    (Config, Vec<String>),
    CliError,
>)
    ensures
        match r {
            Ok((config, positional)) => {
                &&& common(*env, texts(args@), version@) == Ok::<
                    (ConfigView, Seq<Seq<char>>),
                    CliErrorView,
                >((config@, texts(positional@)))
                &&& config@.wf()
            },
            Err(e) => common(*env, texts(args@), version@) == Err::<
                (ConfigView, Seq<Seq<char>>),
                CliErrorView,
            >(e@),
        },
{
    let start = Options::from_environment(env);
    let options = start.scan(args)?;
    let feedback_url = copy_or(&env.feedback_url, DEFAULT_FEEDBACK_URL);
    options.settle(feedback_url, version)
}

/// The file or directory that a subcommand works on: the first argument that is left.
pub fn first_target(positional: &[String], target: Target) -> (r: Result<String, CliError>)
    ensures
        match r {
            Ok(path) => positional@.len() > 0 && path@ == positional@[0]@,
            Err(e) => positional@.len() == 0 && e@ == CliErrorView::MissingTarget(target),
        },
{
    if positional.len() == 0 {
        Err(CliError::MissingTarget(target))
    } else {
        Ok(positional[0].clone())
    }
}

/// Reads the arguments of `watch` from left to right, with the directory and the interval found
/// so far.
pub open spec fn watch_scan(args: Seq<Seq<char>>, dir: Option<Seq<char>>, secs: u64) -> Result<
    (Option<Seq<char>>, u64),
    CliErrorView,
>
    decreases args.len(),
{
    if args.len() == 0 {
        Ok((dir, secs))
    } else if args[0] == "--interval"@ {
        if args.len() < 2 {
            Err(CliErrorView::MissingValue(Flag::Interval))
        } else {
            match number_value(args[1], u64::MAX as nat) {
                Ok(n) => watch_scan(args.skip(2), dir, n as u64),
                Err(e) => Err(CliErrorView::BadNumber(Flag::Interval, e)),
            }
        }
    } else if "--"@.is_prefix_of(args[0]) {
        Err(CliErrorView::UnknownWatchOption(args[0]))
    } else {
        watch_scan(
            args.skip(1),
            if dir is Some {
                dir
            } else {
                Some(args[0])
            },
            secs,
        )
    }
}

/// The directory to watch and the seconds between two scans, five unless `--interval` says
/// otherwise.
pub open spec fn watch_args(args: Seq<Seq<char>>) -> Result<(Seq<char>, u64), CliErrorView> {
    match watch_scan(args, None, 5) {
        Ok((Some(dir), secs)) => Ok((dir, secs)),
        Ok((None, _)) => Err(CliErrorView::MissingTarget(Target::WatchDirectory)),
        Err(e) => Err(e),
    }
}

/// Reads what `watch` takes besides the common options: the directory is the first argument
/// that is neither an option nor the value of one.
pub fn parse_watch_args(positional: Vec<String>) -> (r: Result<(String, u64), CliError>)
    ensures
        match r {
            Ok((dir, secs)) => watch_args(texts(positional@)) == Ok::<
                (Seq<char>, u64),
                CliErrorView,
            >((dir@, secs)),
            Err(e) => watch_args(texts(positional@)) == Err::<(Seq<char>, u64), CliErrorView>(e@),
        },
{
    let ghost all = texts(positional@);
    let mut dir: Option<String> = None;
    let mut secs: u64 = 5;
    let mut i: usize = 0;
    assert(all.skip(0) =~= all);
    while i < positional.len()
        invariant
            i <= positional@.len(),
            all == texts(positional@),
            watch_scan(all, None, 5) == watch_scan(all.skip(i as int), opt_text(dir), secs),
        decreases positional@.len() - i,
    {
        let ghost rest = all.skip(i as int);
        assert(rest[0] == positional@[i as int]@);
        assert(rest.skip(1) =~= all.skip(i + 1));
        if same_text(positional[i].as_str(), "--interval") {
            if positional.len() - i < 2 {
                return Err(CliError::MissingValue(Flag::Interval));
            }
            assert(rest[1] == positional@[i + 1]@);
            assert(rest.skip(2) =~= all.skip(i + 2));
            match parse_number(positional[i + 1].as_str(), u64::MAX) {
                Ok(n) => {
                    secs = n;
                },
                Err(e) => {
                    return Err(CliError::BadNumber(Flag::Interval, e));
                },
            }
            i = i + 2;
        } else if starts_with(positional[i].as_str(), "--") {
            return Err(CliError::UnknownWatchOption(positional[i].clone()));
        } else {
            if dir.is_none() {
                dir = Some(positional[i].clone());
            }
            i = i + 1;
        }
    }
    match dir {
        Some(d) => Ok((d, secs)),
        None => Err(CliError::MissingTarget(Target::WatchDirectory)),
    }
}

/// The address that `listen` binds to: the value of the last `--bind`, or `bind` where there is
/// none.
pub open spec fn listen_args(args: Seq<Seq<char>>, bind: Seq<char>) -> Result<
    Seq<char>,
    CliErrorView,
>
    decreases args.len(),
{
    if args.len() == 0 {
        Ok(bind)
    } else if args[0] == "--bind"@ {
        if args.len() < 2 {
            Err(CliErrorView::MissingValue(Flag::Bind))
        } else {
            listen_args(args.skip(2), args[1])
        }
    } else {
        listen_args(args.skip(1), bind)
    }
}

/// Reads what `listen` takes besides the common options. `default_bind` is what the environment
/// says, if it says anything.
pub fn parse_listen_args(positional: &[String], default_bind: Option<String>) -> (r: Result<
    String,
    CliError,
>)
    ensures
        match r {
            Ok(bind) => listen_args(texts(positional@), text_or(default_bind, "0.0.0.0:4318"@))
                == Ok::<Seq<char>, CliErrorView>(bind@),
            Err(e) => listen_args(texts(positional@), text_or(default_bind, "0.0.0.0:4318"@))
                == Err::<Seq<char>, CliErrorView>(e@),
        },
{
    let ghost all = texts(positional@);
    let ghost start = text_or(default_bind, "0.0.0.0:4318"@);
    let mut bind = match default_bind {
        Some(b) => b,
        None => "0.0.0.0:4318".to_owned(),
    };
    let mut i: usize = 0;
    assert(all.skip(0) =~= all);
    while i < positional.len()
        invariant
            i <= positional@.len(),
            all == texts(positional@),
            start == text_or(default_bind, "0.0.0.0:4318"@),
            listen_args(all, start) == listen_args(all.skip(i as int), bind@),
        decreases positional@.len() - i,
    {
        let ghost rest = all.skip(i as int);
        assert(rest[0] == positional@[i as int]@);
        assert(rest.skip(1) =~= all.skip(i + 1));
        if same_text(positional[i].as_str(), "--bind") {
            if positional.len() - i < 2 {
                return Err(CliError::MissingValue(Flag::Bind));
            }
            assert(rest[1] == positional@[i + 1]@);
            assert(rest.skip(2) =~= all.skip(i + 2));
            bind = positional[i + 1].clone();
            i = i + 2;
        } else {
            i = i + 1;
        }
    }
    Ok(bind)
}

/// What a command line asks for.
#[derive(Debug, Clone, Copy, PartialEq, Eq, Structural)]
pub enum Command {
    Send,
    Batch,
    Watch,
    Listen,
    /// The usage text, because it was asked for or because nothing was.
    Help,
    /// There is no such subcommand.
    Unknown,
}

/// What the first argument asks for.
pub open spec fn command(args: Seq<Seq<char>>) -> Command {
    if args.len() == 0 {
        Command::Help
    } else if args[0] == "send"@ {
        Command::Send
    } else if args[0] == "batch"@ {
        Command::Batch
    } else if args[0] == "watch"@ {
        Command::Watch
    } else if args[0] == "listen"@ || args[0] == "proxy"@ {
        Command::Listen
    } else if args[0] == "-h"@ || args[0] == "--help"@ || args[0] == "help"@ {
        Command::Help
    } else {
        Command::Unknown
    }
}

/// What a command line asks for.
pub fn parse_command(args: &[String]) -> (r: Command)
    ensures
        r == command(texts(args@)),
{
    if args.len() == 0 {
        return Command::Help;
    }
    let first = args[0].as_str();
    if same_text(first, "send") {
        Command::Send
    } else if same_text(first, "batch") {
        Command::Batch
    } else if same_text(first, "watch") {
        Command::Watch
    } else if same_text(first, "listen") || same_text(first, "proxy") {
        Command::Listen
    } else if same_text(first, "-h") || same_text(first, "--help") || same_text(first, "help") {
        Command::Help
    } else {
        Command::Unknown
    }
}

/// Options that come later are read on top of those that came before, so that of several values
/// of one option the last one counts.
pub proof fn law_later_options_come_on_top(
    before: Seq<Seq<char>>,
    after: Seq<Seq<char>>,
    o: OptionsView,
)
    requires
        scan(before, o) is Ok,
    ensures
        scan(before + after, o) == scan(after, scan(before, o)->Ok_0),
    decreases before.len(),
{
    let all = before + after;
    if before.len() == 0 {
        assert(all =~= after);
    } else {
        assert(all[0] == before[0]);
        assert(all.skip(1) =~= before.skip(1) + after);
        match value_flag(before[0]) {
            Some(flag) => {
                assert(all[1] == before[1]);
                assert(all.skip(2) =~= before.skip(2) + after);
                law_later_options_come_on_top(
                    before.skip(2),
                    after,
                    o.with(flag, before[1])->Ok_0,
                );
            },
            None => {
                law_later_options_come_on_top(before.skip(1), after, with_other(before[0], o));
            },
        }
    }
}

/// Sharing counts as asked for only where `--feedback` is among the arguments.
proof fn lemma_opt_in(args: Seq<Seq<char>>, o: OptionsView)
    requires
        scan(args, o) is Ok,
        !args.contains("--feedback"@),
    ensures
        scan(args, o)->Ok_0.opt_in == o.opt_in,
    decreases args.len(),
{
    if args.len() > 0 {
        assert(args.contains(args[0]));
        match value_flag(args[0]) {
            Some(flag) => {
                lemma_tail_contains(args, 2);
                lemma_opt_in(args.skip(2), o.with(flag, args[1])->Ok_0);
            },
            None => {
                lemma_tail_contains(args, 1);
                lemma_opt_in(args.skip(1), with_other(args[0], o));
            },
        }
    }
}

/// With a key that is no trial key, nothing is shared unless `--feedback` asks for it.
pub proof fn law_production_keys_share_on_request_only(
    env: Environment,
    args: Seq<Seq<char>>,
    version: Seq<char>,
)
    requires
        common(env, args, version) is Ok,
        !is_trial_key(common(env, args, version)->Ok_0.0.api_key),
        !args.contains("--feedback"@),
    ensures
        !common(env, args, version)->Ok_0.0.feedback,
{
    lemma_opt_in(args, defaults(env));
}

/// Once sharing has been asked for, or declined, it stays so.
proof fn lemma_wishes_stay(args: Seq<Seq<char>>, o: OptionsView)
    requires
        scan(args, o) is Ok,
    ensures
        o.opt_in ==> scan(args, o)->Ok_0.opt_in,
        o.opt_out ==> scan(args, o)->Ok_0.opt_out,
    decreases args.len(),
{
    if args.len() > 0 {
        match value_flag(args[0]) {
            Some(flag) => {
                lemma_wishes_stay(args.skip(2), o.with(flag, args[1])->Ok_0);
            },
            None => {
                lemma_wishes_stay(args.skip(1), with_other(args[0], o));
            },
        }
    }
}

/// Sharing counts as declined only where the environment declines it or `--no-feedback` is among
/// the arguments.
proof fn lemma_opt_out(args: Seq<Seq<char>>, o: OptionsView)
    requires
        scan(args, o) is Ok,
        !args.contains("--no-feedback"@),
    ensures
        scan(args, o)->Ok_0.opt_out == o.opt_out,
    decreases args.len(),
{
    if args.len() > 0 {
        assert(args.contains(args[0]));
        match value_flag(args[0]) {
            Some(flag) => {
                lemma_tail_contains(args, 2);
                lemma_opt_out(args.skip(2), o.with(flag, args[1])->Ok_0);
            },
            None => {
                lemma_tail_contains(args, 1);
                lemma_opt_out(args.skip(1), with_other(args[0], o));
            },
        }
    }
}

/// What is in the tail of a list is in the list.
proof fn lemma_tail_contains(args: Seq<Seq<char>>, n: int)
    requires
        0 <= n <= args.len(),
    ensures
        forall|x: Seq<char>| #[trigger] args.skip(n).contains(x) ==> args.contains(x),
{
    assert forall|x: Seq<char>| #[trigger] args.skip(n).contains(x) implies args.contains(x) by {
        let k = args.skip(n).index_of(x);
        assert(args[n + k] == x);
    }
}

/// `--feedback` has summaries shared whatever the key is, and whatever declines it: the
/// environment or `--no-feedback`, before it or behind it.
pub proof fn law_asking_for_feedback_wins(
    env: Environment,
    before: Seq<Seq<char>>,
    after: Seq<Seq<char>>,
    version: Seq<char>,
)
    requires
        scan(before, defaults(env)) is Ok,
        common(env, before + seq!["--feedback"@] + after, version) is Ok,
    ensures
        common(env, before + seq!["--feedback"@] + after, version)->Ok_0.0.feedback,
{
    let tail = seq!["--feedback"@] + after;
    let start = scan(before, defaults(env))->Ok_0;
    assert(before + seq!["--feedback"@] + after =~= before + tail);
    law_later_options_come_on_top(before, tail, defaults(env));
    lemma_feedback_flags();
    assert(tail[0] == "--feedback"@);
    assert(tail.skip(1) =~= after);
    lemma_wishes_stay(after, with_other("--feedback"@, start));
}

/// `--no-feedback` keeps summaries from being shared unless `--feedback` asks for it.
pub proof fn law_declining_feedback_holds(
    env: Environment,
    before: Seq<Seq<char>>,
    after: Seq<Seq<char>>,
    version: Seq<char>,
)
    requires
        scan(before, defaults(env)) is Ok,
        common(env, before + seq!["--no-feedback"@] + after, version) is Ok,
        !(before + seq!["--no-feedback"@] + after).contains("--feedback"@),
    ensures
        !common(env, before + seq!["--no-feedback"@] + after, version)->Ok_0.0.feedback,
{
    let tail = seq!["--no-feedback"@] + after;
    let all = before + seq!["--no-feedback"@] + after;
    let start = scan(before, defaults(env))->Ok_0;
    assert(all =~= before + tail);
    law_later_options_come_on_top(before, tail, defaults(env));
    lemma_feedback_flags();
    assert(tail[0] == "--no-feedback"@);
    assert(tail.skip(1) =~= after);
    lemma_wishes_stay(after, with_other("--no-feedback"@, start));
    lemma_opt_in(all, defaults(env));
}

/// With a trial key summaries are shared unless the environment or the command line declines.
pub proof fn law_trial_keys_share_unless_declined(
    env: Environment,
    args: Seq<Seq<char>>,
    version: Seq<char>,
)
    requires
        common(env, args, version) is Ok,
        is_trial_key(common(env, args, version)->Ok_0.0.api_key),
        env.no_feedback is None || !declines(env.no_feedback->0@),
        !args.contains("--no-feedback"@),
    ensures
        common(env, args, version)->Ok_0.0.feedback,
{
    lemma_opt_out(args, defaults(env));
}

/// The two feedback options are no options with a value, and are told apart.
proof fn lemma_feedback_flags()
    ensures
        value_flag("--feedback"@) is None,
        value_flag("--no-feedback"@) is None,
        "--feedback"@ != "--no-feedback"@,
{
    reveal_strlit("--feedback");
    reveal_strlit("--no-feedback");
    reveal_strlit("--upstream");
    reveal_strlit("--api-key");
    reveal_strlit("--salt");
    reveal_strlit("--mode");
    reveal_strlit("--concurrent");
    reveal_strlit("--report");
    assert("--feedback"@.len() == 10);
    assert("--no-feedback"@.len() == 13);
    assert("--upstream"@[2] == 'u' && "--feedback"@[2] == 'f' && "--no-feedback"@[2] == 'n');
    assert("--api-key"@[2] == 'a' && "--salt"@[2] == 's' && "--mode"@[2] == 'm');
    assert("--concurrent"@[2] == 'c' && "--report"@[2] == 'r');
}

/// An argument that `watch` takes for no option.
pub open spec fn is_plain(arg: Seq<char>) -> bool {
    !"--"@.is_prefix_of(arg)
}

/// The directory after some plain arguments.
pub open spec fn first_dir(dir: Option<Seq<char>>, args: Seq<Seq<char>>) -> Option<Seq<char>> {
    if dir is Some || args.len() == 0 {
        dir
    } else {
        Some(args[0])
    }
}

proof fn lemma_interval_is_option()
    ensures
        "--"@.is_prefix_of("--interval"@),
{
    reveal_strlit("--");
    reveal_strlit("--interval");
    assert("--interval"@.subrange(0, 2) =~= "--"@);
}

proof fn lemma_watch_plain(
    plain: Seq<Seq<char>>,
    rest: Seq<Seq<char>>,
    dir: Option<Seq<char>>,
    secs: u64,
)
    requires
        forall|i: int| 0 <= i < plain.len() ==> is_plain(#[trigger] plain[i]),
    ensures
        watch_scan(plain + rest, dir, secs) == watch_scan(rest, first_dir(dir, plain), secs),
    decreases plain.len(),
{
    let all = plain + rest;
    if plain.len() == 0 {
        assert(all =~= rest);
    } else {
        lemma_interval_is_option();
        assert(all[0] == plain[0]);
        assert(all.skip(1) =~= plain.skip(1) + rest);
        assert forall|i: int| 0 <= i < plain.skip(1).len() implies is_plain(
            #[trigger] plain.skip(1)[i],
        ) by {
            assert(is_plain(plain[i + 1]));
        }
        lemma_watch_plain(plain.skip(1), rest, first_dir(dir, plain), secs);
    }
}

/// The interval may stand before the directory or behind it: its value is never taken for the
/// directory.
pub proof fn law_interval_may_stand_anywhere(
    before: Seq<Seq<char>>,
    value: Seq<char>,
    after: Seq<Seq<char>>,
)
    requires
        forall|i: int| 0 <= i < before.len() ==> is_plain(#[trigger] before[i]),
        forall|i: int| 0 <= i < after.len() ==> is_plain(#[trigger] after[i]),
    ensures
        watch_args(before + seq!["--interval"@, value] + after) == watch_args(
            seq!["--interval"@, value] + before + after,
        ),
{
    let option = seq!["--interval"@, value];
    let tail = option + after;
    let one = before + option + after;
    let two = option + before + after;
    assert(one =~= before + tail);
    lemma_watch_plain(before, tail, None, 5);
    assert(tail[0] == "--interval"@ && tail[1] == value);
    assert(tail.skip(2) =~= after);
    assert(two[0] == "--interval"@ && two[1] == value);
    assert(two.skip(2) =~= before + after);
    match number_value(value, u64::MAX as nat) {
        Ok(n) => {
            lemma_watch_plain(before, after, None, n as u64);
        },
        Err(_) => {},
    }
}

/// Settling keeps what the options hold, in both modes.
pub proof fn law_settling_keeps_the_options(
    o: OptionsView,
    feedback_url: Seq<char>,
    version: Seq<char>,
)
    ensures
        o.settled(feedback_url, version) matches Ok(c) ==> {
            &&& c.upstream == o.upstream
            &&& c.api_key == o.api_key
            &&& c.salt == o.salt
            &&& c.concurrent == o.concurrent
            &&& c.report == o.report
            &&& c.feedback_url == feedback_url
            &&& c.binary_version == version
            &&& c.mode == Mode::Plain <==> o.mode == "plain"@
            &&& c.mode == Mode::Hash <==> o.mode == "hash"@
        },
{
    lemma_modes();
}

proof fn lemma_modes()
    ensures
        "plain"@ != "hash"@,
{
    reveal_strlit("plain");
    reveal_strlit("hash");
    assert("plain"@.len() == 5);
    assert("hash"@.len() == 4);
}

/// Settling fails exactly where the key is missing, the mode is unknown, or digests are to be
/// made without a salt; a missing key is told first.
pub proof fn law_settling_fails_only_for_a_reason(
    o: OptionsView,
    feedback_url: Seq<char>,
    version: Seq<char>,
)
    ensures
        ({
            let r = o.settled(feedback_url, version);
            let keyed = o.api_key.len() > 0;
            let known = o.mode == "plain"@ || o.mode == "hash"@;
            &&& r == Err::<ConfigView, CliErrorView>(CliErrorView::MissingApiKey) <==> !keyed
            &&& r == Err::<ConfigView, CliErrorView>(CliErrorView::InvalidMode(o.mode)) <==> keyed
                && !known
            &&& r == Err::<ConfigView, CliErrorView>(CliErrorView::MissingSalt) <==> keyed && o.mode
                == "hash"@ && o.salt.len() == 0
            &&& r is Ok <==> keyed && (o.mode == "plain"@ || (o.mode == "hash"@ && o.salt.len()
                > 0))
        }),
{
    lemma_modes();
}

/// Whether two states of the options differ at most in what one option sets.
pub open spec fn same_but_for(a: OptionsView, b: OptionsView, flag: Flag) -> bool {
    &&& flag != Flag::Upstream ==> a.upstream == b.upstream
    &&& flag != Flag::ApiKey ==> a.api_key == b.api_key
    &&& flag != Flag::Salt ==> a.salt == b.salt
    &&& flag != Flag::Mode ==> a.mode == b.mode
    &&& flag != Flag::Concurrent ==> a.concurrent == b.concurrent
    &&& flag != Flag::Report ==> a.report == b.report
    &&& a.opt_in == b.opt_in
    &&& a.opt_out == b.opt_out
    &&& a.positional == b.positional
}

/// Whether the options hold `value` for an option.
pub open spec fn holds_value(o: OptionsView, flag: Flag, value: Seq<char>) -> bool {
    match flag {
        Flag::Upstream => o.upstream == value,
        Flag::ApiKey => o.api_key == value,
        Flag::Salt => o.salt == value,
        Flag::Mode => o.mode == lowercase(value),
        Flag::Concurrent => number_value(value, usize::MAX as nat) == Ok::<nat, NumberError>(
            o.concurrent as nat,
        ),
        Flag::Report => o.report == Some(value),
        _ => false,
    }
}

/// Whether an option is one of those that all subcommands take.
pub open spec fn is_common(flag: Flag) -> bool {
    flag != Flag::Interval && flag != Flag::Bind
}

/// An option sets its own value and nothing else. Only a number can be refused.
pub proof fn law_options_set_their_own_value(o: OptionsView, flag: Flag, value: Seq<char>)
    requires
        is_common(flag),
    ensures
        o.with(flag, value) matches Ok(next) ==> holds_value(next, flag, value) && same_but_for(
            o,
            next,
            flag,
        ),
        o.with(flag, value) is Err ==> flag == Flag::Concurrent && number_value(
            value,
            usize::MAX as nat,
        ) is Err,
{
    if flag == Flag::Concurrent && number_value(value, usize::MAX as nat) is Ok {
        let n = number_value(value, usize::MAX as nat)->Ok_0;
        if value.len() > 0 {
            law_numbers_consist_of_digits(value, usize::MAX as nat, 0);
        }
        assert(n as usize as nat == n);
    }
}

/// How the options are written.
pub proof fn law_options_are_written_so(arg: Seq<char>)
    ensures
        value_flag(arg) == Some(Flag::Upstream) <==> arg == "--upstream"@,
        value_flag(arg) == Some(Flag::ApiKey) <==> arg == "--api-key"@,
        value_flag(arg) == Some(Flag::Salt) <==> arg == "--salt"@,
        value_flag(arg) == Some(Flag::Mode) <==> arg == "--mode"@,
        value_flag(arg) == Some(Flag::Concurrent) <==> arg == "--concurrent"@,
        value_flag(arg) == Some(Flag::Report) <==> arg == "--report"@,
        value_flag(arg) matches Some(flag) ==> is_common(flag) && flag.name() == arg,
        Flag::Interval.name() == "--interval"@,
        Flag::Bind.name() == "--bind"@,
{
    reveal_strlit("--upstream");
    reveal_strlit("--api-key");
    reveal_strlit("--salt");
    reveal_strlit("--mode");
    reveal_strlit("--concurrent");
    reveal_strlit("--report");
    assert("--upstream"@[2] == 'u' && "--api-key"@[2] == 'a' && "--salt"@[2] == 's');
    assert("--mode"@[2] == 'm' && "--concurrent"@[2] == 'c' && "--report"@[2] == 'r');
}

/// An option that is not among the arguments keeps its value.
proof fn lemma_untouched(args: Seq<Seq<char>>, o: OptionsView, flag: Flag, value: Seq<char>)
    requires
        scan(args, o) is Ok,
        is_common(flag),
        !args.contains(flag.name()),
        holds_value(o, flag, value),
    ensures
        holds_value(scan(args, o)->Ok_0, flag, value),
    decreases args.len(),
{
    if args.len() > 0 {
        assert(args.contains(args[0]));
        law_options_are_written_so(args[0]);
        match value_flag(args[0]) {
            Some(other) => {
                lemma_tail_contains(args, 2);
                law_options_set_their_own_value(o, other, args[1]);
                assert(other != flag);
                lemma_untouched(args.skip(2), o.with(other, args[1])->Ok_0, flag, value);
            },
            None => {
                lemma_tail_contains(args, 1);
                lemma_untouched(args.skip(1), with_other(args[0], o), flag, value);
            },
        }
    }
}

/// Of several values of one option the last counts, whatever else the command line holds.
pub proof fn law_the_last_value_counts(
    before: Seq<Seq<char>>,
    flag: Flag,
    value: Seq<char>,
    after: Seq<Seq<char>>,
    o: OptionsView,
)
    requires
        is_common(flag),
        scan(before, o) is Ok,
        scan(before + seq![flag.name(), value] + after, o) is Ok,
        !after.contains(flag.name()),
    ensures
        holds_value(scan(before + seq![flag.name(), value] + after, o)->Ok_0, flag, value),
{
    let tail = seq![flag.name(), value] + after;
    let start = scan(before, o)->Ok_0;
    assert(before + seq![flag.name(), value] + after =~= before + tail);
    law_later_options_come_on_top(before, tail, o);
    law_options_are_written_so(flag.name());
    assert(value_flag(flag.name()) == Some(flag));
    assert(tail[0] == flag.name() && tail[1] == value);
    assert(tail.skip(2) =~= after);
    law_options_set_their_own_value(start, flag, value);
    lemma_untouched(after, start.with(flag, value)->Ok_0, flag, value);
}

/// What the command line says last of an option is what the run works with.
pub proof fn law_the_run_works_with_the_last_value(
    env: Environment,
    before: Seq<Seq<char>>,
    flag: Flag,
    value: Seq<char>,
    after: Seq<Seq<char>>,
    version: Seq<char>,
)
    requires
        is_common(flag),
        scan(before, defaults(env)) is Ok,
        common(env, before + seq![flag.name(), value] + after, version) is Ok,
        !after.contains(flag.name()),
    ensures
        ({
            let c = common(env, before + seq![flag.name(), value] + after, version)->Ok_0.0;
            match flag {
                Flag::Upstream => c.upstream == value,
                Flag::ApiKey => c.api_key == value,
                Flag::Salt => c.salt == value,
                Flag::Mode => if lowercase(value) == "hash"@ {
                    c.mode == Mode::Hash
                } else {
                    lowercase(value) == "plain"@ && c.mode == Mode::Plain
                },
                Flag::Concurrent => number_value(value, usize::MAX as nat) == Ok::<
                    nat,
                    NumberError,
                >(c.concurrent as nat),
                _ => c.report == Some(value),
            }
        }),
{
    let args = before + seq![flag.name(), value] + after;
    law_the_last_value_counts(before, flag, value, after, defaults(env));
    let o = scan(args, defaults(env))->Ok_0;
    law_settling_keeps_the_options(o, text_or(env.feedback_url, DEFAULT_FEEDBACK_URL@), version);
    law_settling_fails_only_for_a_reason(
        o,
        text_or(env.feedback_url, DEFAULT_FEEDBACK_URL@),
        version,
    );
}

/// Without an option on the command line, the run works with what the environment says, and
/// without that with the default.
pub proof fn law_the_environment_speaks_where_the_command_line_is_silent(
    env: Environment,
    args: Seq<Seq<char>>,
    version: Seq<char>,
)
    requires
        common(env, args, version) is Ok,
    ensures
        ({
            let c = common(env, args, version)->Ok_0.0;
            &&& !args.contains("--upstream"@) ==> c.upstream == match env.upstream {
                Some(u) => u@,
                None => "https://api.provenex.ai"@,
            }
            &&& !args.contains("--api-key"@) ==> (env.api_key matches Some(k) && c.api_key == k@)
            &&& !args.contains("--salt"@) ==> c.salt == match env.salt {
                Some(s) => s@,
                None => ""@,
            }
            &&& !args.contains("--mode"@) ==> (c.mode == Mode::Hash <==> lowercase(
                match env.mode {
                    Some(m) => m@,
                    None => "plain"@,
                },
            ) == "hash"@)
            &&& !args.contains("--concurrent"@) ==> c.concurrent == 4
            &&& !args.contains("--report"@) ==> c.report is None
            &&& c.feedback_url == match env.feedback_url {
                Some(u) => u@,
                None => "https://signup.provenex.ai/verdict-feedback"@,
            }
            &&& c.binary_version == version
        }),
{
    let o = scan(args, defaults(env))->Ok_0;
    let url = text_or(env.feedback_url, DEFAULT_FEEDBACK_URL@);
    law_settling_keeps_the_options(o, url, version);
    law_settling_fails_only_for_a_reason(o, url, version);
    reveal_strlit("");
    lemma_silent(args, defaults(env));
}

proof fn lemma_silent(args: Seq<Seq<char>>, o: OptionsView)
    requires
        scan(args, o) is Ok,
    ensures
        ({
            let next = scan(args, o)->Ok_0;
            &&& !args.contains("--upstream"@) ==> next.upstream == o.upstream
            &&& !args.contains("--api-key"@) ==> next.api_key == o.api_key
            &&& !args.contains("--salt"@) ==> next.salt == o.salt
            &&& !args.contains("--mode"@) ==> next.mode == o.mode
            &&& !args.contains("--concurrent"@) ==> next.concurrent == o.concurrent
            &&& !args.contains("--report"@) ==> next.report == o.report
        }),
    decreases args.len(),
{
    if args.len() > 0 {
        assert(args.contains(args[0]));
        law_options_are_written_so(args[0]);
        match value_flag(args[0]) {
            Some(other) => {
                lemma_tail_contains(args, 2);
                law_options_set_their_own_value(o, other, args[1]);
                lemma_silent(args.skip(2), o.with(other, args[1])->Ok_0);
            },
            None => {
                lemma_tail_contains(args, 1);
                lemma_silent(args.skip(1), with_other(args[0], o));
            },
        }
    }
}

/// An argument that is no option is kept, behind those before it, and changes nothing else.
pub proof fn law_other_arguments_are_kept_in_order(
    before: Seq<Seq<char>>,
    arg: Seq<char>,
    o: OptionsView,
)
    requires
        scan(before, o) is Ok,
        value_flag(arg) is None,
        arg != "--feedback"@,
        arg != "--no-feedback"@,
    ensures
        scan(before.push(arg), o) is Ok,
        scan(before.push(arg), o)->Ok_0.positional == scan(before, o)->Ok_0.positional.push(arg),
        same_but_for(
            scan(before.push(arg), o)->Ok_0,
            OptionsView {
                positional: scan(before, o)->Ok_0.positional.push(arg),
                ..scan(before, o)->Ok_0
            },
            Flag::Bind,
        ),
{
    assert(before.push(arg) =~= before + seq![arg]);
    law_later_options_come_on_top(before, seq![arg], o);
    assert(seq![arg].skip(1) =~= Seq::empty());
    let start = scan(before, o)->Ok_0;
    assert(scan(seq![arg].skip(1), with_other(arg, start)) == Ok::<OptionsView, CliErrorView>(
        with_other(arg, start),
    ));
}

/// What is left for a subcommand are the arguments that are no common options.
pub proof fn law_subcommands_get_the_other_arguments(
    env: Environment,
    args: Seq<Seq<char>>,
    version: Seq<char>,
)
    requires
        common(env, args, version) is Ok,
    ensures
        scan(args, defaults(env)) is Ok,
        common(env, args, version)->Ok_0.1 == scan(args, defaults(env))->Ok_0.positional,
        defaults(env).positional.len() == 0,
{
}

/// An option at the end has no value, and that is told.
pub proof fn law_a_missing_value_is_told(before: Seq<Seq<char>>, flag: Flag, o: OptionsView)
    requires
        is_common(flag),
        scan(before, o) is Ok,
    ensures
        scan(before.push(flag.name()), o) == Err::<OptionsView, CliErrorView>(
            CliErrorView::MissingValue(flag),
        ),
{
    assert(before.push(flag.name()) =~= before + seq![flag.name()]);
    law_later_options_come_on_top(before, seq![flag.name()], o);
    law_options_are_written_so(flag.name());
    assert(value_flag(flag.name()) == Some(flag));
}

/// A trial key is one that begins with `pvx_trial_`, whatever comes behind that.
pub proof fn law_trial_keys_begin_so(key: Seq<char>, rest: Seq<char>)
    ensures
        is_trial_key("pvx_trial_"@ + rest),
        is_trial_key(key) ==> key == "pvx_trial_"@ + key.skip(10),
{
    reveal_strlit("pvx_trial_");
    let whole = "pvx_trial_"@ + rest;
    assert(whole.subrange(0, 10) =~= "pvx_trial_"@);
    if is_trial_key(key) {
        assert(key =~= key.subrange(0, 10) + key.skip(10));
    }
}

/// The arguments of `watch` are read from left to right.
pub proof fn law_watch_reads_on(
    before: Seq<Seq<char>>,
    after: Seq<Seq<char>>,
    dir: Option<Seq<char>>,
    secs: u64,
)
    requires
        watch_scan(before, dir, secs) is Ok,
    ensures
        watch_scan(Seq::empty(), dir, secs) == Ok::<(Option<Seq<char>>, u64), CliErrorView>(
            (dir, secs),
        ),
        watch_scan(before + after, dir, secs) == watch_scan(
            after,
            watch_scan(before, dir, secs)->Ok_0.0,
            watch_scan(before, dir, secs)->Ok_0.1,
        ),
    decreases before.len(),
{
    let all = before + after;
    if before.len() == 0 {
        assert(all =~= after);
    } else {
        assert(all[0] == before[0]);
        assert(all.skip(1) =~= before.skip(1) + after);
        if before[0] == "--interval"@ {
            assert(all[1] == before[1]);
            assert(all.skip(2) =~= before.skip(2) + after);
            law_watch_reads_on(
                before.skip(2),
                after,
                dir,
                number_value(before[1], u64::MAX as nat)->Ok_0 as u64,
            );
        } else {
            law_watch_reads_on(before.skip(1), after, first_dir(dir, before), secs);
        }
    }
}

/// What `watch` makes of one argument, or of an option and its value: the first plain argument is
/// the directory, the interval is the value of the option, and other options are refused.
pub proof fn law_watch_takes_one_argument(
    arg: Seq<char>,
    value: Seq<char>,
    dir: Option<Seq<char>>,
    secs: u64,
)
    ensures
        is_plain(arg) ==> watch_scan(seq![arg], dir, secs) == Ok::<
            (Option<Seq<char>>, u64),
            CliErrorView,
        >(
            (
                if dir is Some {
                    dir
                } else {
                    Some(arg)
                },
                secs,
            ),
        ),
        !is_plain(arg) && arg != "--interval"@ ==> watch_scan(seq![arg], dir, secs) == Err::<
            (Option<Seq<char>>, u64),
            CliErrorView,
        >(CliErrorView::UnknownWatchOption(arg)),
        watch_scan(seq!["--interval"@], dir, secs) == Err::<
            (Option<Seq<char>>, u64),
            CliErrorView,
        >(CliErrorView::MissingValue(Flag::Interval)),
        number_value(value, u64::MAX as nat) matches Ok(n) ==> watch_scan(
            seq!["--interval"@, value],
            dir,
            secs,
        ) == Ok::<(Option<Seq<char>>, u64), CliErrorView>((dir, n as u64)),
        number_value(value, u64::MAX as nat) matches Err(e) ==> watch_scan(
            seq!["--interval"@, value],
            dir,
            secs,
        ) == Err::<(Option<Seq<char>>, u64), CliErrorView>(
            CliErrorView::BadNumber(Flag::Interval, e),
        ),
{
    lemma_interval_is_option();
    assert(seq![arg].skip(1) =~= Seq::empty());
    assert(seq!["--interval"@, value].skip(2) =~= Seq::empty());
    reveal_with_fuel(watch_scan, 2);
}

/// `watch` scans every five seconds unless it is told otherwise, and needs a directory.
pub proof fn law_watch_needs_a_directory(args: Seq<Seq<char>>)
    ensures
        match watch_scan(args, None, 5) {
            Ok((Some(dir), secs)) => watch_args(args) == Ok::<(Seq<char>, u64), CliErrorView>(
                (dir, secs),
            ),
            Ok((None, _)) => watch_args(args) == Err::<(Seq<char>, u64), CliErrorView>(
                CliErrorView::MissingTarget(Target::WatchDirectory),
            ),
            Err(e) => watch_args(args) == Err::<(Seq<char>, u64), CliErrorView>(e),
        },
{
}

/// An argument is plain for `watch` unless it begins with two dashes.
pub proof fn law_plain_arguments(rest: Seq<char>, arg: Seq<char>)
    ensures
        !is_plain("--"@ + rest),
        !is_plain(arg) ==> arg.len() >= 2 && arg[0] == '-' && arg[1] == '-',
{
    reveal_strlit("--");
    assert(("--"@ + rest).subrange(0, 2) =~= "--"@);
    if !is_plain(arg) {
        assert(arg.subrange(0, 2)[0] == arg[0] && arg.subrange(0, 2)[1] == arg[1]);
    }
}

/// `listen` binds to the value of the last `--bind`, and to what it had before where there is
/// none.
pub proof fn law_listen_binds_to_the_last_address(
    before: Seq<Seq<char>>,
    value: Seq<char>,
    after: Seq<Seq<char>>,
    bind: Seq<char>,
)
    requires
        listen_args(before, bind) is Ok,
        !after.contains("--bind"@),
    ensures
        listen_args(before + seq!["--bind"@, value] + after, bind) == Ok::<
            Seq<char>,
            CliErrorView,
        >(value),
        listen_args(after, bind) == Ok::<Seq<char>, CliErrorView>(bind),
        listen_args(before.push("--bind"@), bind) == Err::<Seq<char>, CliErrorView>(
            CliErrorView::MissingValue(Flag::Bind),
        ),
{
    lemma_listen_silent(after, bind);
    lemma_listen_silent(after, value);
    let tail = seq!["--bind"@, value] + after;
    assert(before + seq!["--bind"@, value] + after =~= before + tail);
    lemma_listen_on(before, tail, bind);
    assert(tail[0] == "--bind"@ && tail[1] == value);
    assert(tail.skip(2) =~= after);
    assert(before.push("--bind"@) =~= before + seq!["--bind"@]);
    lemma_listen_on(before, seq!["--bind"@], bind);
}

proof fn lemma_listen_silent(args: Seq<Seq<char>>, bind: Seq<char>)
    requires
        !args.contains("--bind"@),
    ensures
        listen_args(args, bind) == Ok::<Seq<char>, CliErrorView>(bind),
    decreases args.len(),
{
    if args.len() > 0 {
        assert(args.contains(args[0]));
        lemma_tail_contains(args, 1);
        lemma_listen_silent(args.skip(1), bind);
    }
}

proof fn lemma_listen_on(before: Seq<Seq<char>>, after: Seq<Seq<char>>, bind: Seq<char>)
    requires
        listen_args(before, bind) is Ok,
    ensures
        listen_args(before + after, bind) == listen_args(after, listen_args(before, bind)->Ok_0),
    decreases before.len(),
{
    let all = before + after;
    if before.len() == 0 {
        assert(all =~= after);
    } else {
        assert(all[0] == before[0]);
        assert(all.skip(1) =~= before.skip(1) + after);
        if before[0] == "--bind"@ {
            assert(all[1] == before[1]);
            assert(all.skip(2) =~= before.skip(2) + after);
            lemma_listen_on(before.skip(2), after, before[1]);
        } else {
            lemma_listen_on(before.skip(1), after, bind);
        }
    }
}

/// The first argument alone says what is asked for.
pub proof fn law_the_first_argument_is_the_command(word: Seq<char>, rest: Seq<Seq<char>>)
    ensures
        ({
            let asked = command(seq![word] + rest);
            &&& asked == Command::Send <==> word == "send"@
            &&& asked == Command::Batch <==> word == "batch"@
            &&& asked == Command::Watch <==> word == "watch"@
            &&& asked == Command::Listen <==> word == "listen"@ || word == "proxy"@
            &&& asked == Command::Help <==> word == "-h"@ || word == "--help"@ || word == "help"@
            &&& command(Seq::empty()) == Command::Help
        }),
{
    reveal_strlit("send");
    reveal_strlit("batch");
    reveal_strlit("watch");
    reveal_strlit("listen");
    reveal_strlit("proxy");
    reveal_strlit("-h");
    reveal_strlit("--help");
    reveal_strlit("help");
    assert((seq![word] + rest)[0] == word);
    assert("send"@[0] == 's' && "batch"@[0] == 'b' && "watch"@[0] == 'w' && "listen"@[0] == 'l');
    assert("proxy"@[0] == 'p' && "-h"@[0] == '-' && "--help"@[0] == '-' && "help"@[0] == 'h');
}

/// A message names in full what it is about.
pub proof fn law_messages_name_what_they_are_about(a: Seq<char>, flag: Flag)
    ensures
        CliErrorView::UnknownWatchOption(a).message() == "watch: unknown option `"@ + a + "`"@,
        CliErrorView::InvalidMode(a).message() == "--mode `"@ + a
            + "` invalid (use plain or hash)"@,
        flag.name().is_prefix_of(CliErrorView::MissingValue(flag).message()),
        forall|e: NumberError|
            (flag.name() + ": "@).is_prefix_of(
                #[trigger] CliErrorView::BadNumber(flag, e).message(),
            ),
{
    let m = CliErrorView::MissingValue(flag).message();
    assert(m.subrange(0, flag.name().len() as int) =~= flag.name());
    assert forall|e: NumberError|
        (flag.name() + ": "@).is_prefix_of(
            #[trigger] CliErrorView::BadNumber(flag, e).message(),
        ) by {
        let m = CliErrorView::BadNumber(flag, e).message();
        let head = flag.name() + ": "@;
        assert(m.subrange(0, head.len() as int) =~= head);
    }
}

/// Sharing is declined by every value but these three: nothing, `0`, and `false` in whatever case.
pub proof fn law_any_other_value_declines(value: Seq<char>)
    ensures
        declines(value) <==> !(value == ""@ || value == "0"@ || lowercase(value) == "false"@),
{
    reveal_strlit("");
    assert(value.len() == 0 <==> value =~= ""@);
}

/// A message on a missing value says which option it is and what the option asks for.
pub proof fn law_messages_say_what_is_asked_for(flag: Flag)
    ensures
        CliErrorView::MissingValue(flag).message() == flag.name() + " requires "@ + (if flag
            == Flag::Report {
            "a path"@
        } else if flag == Flag::Mode {
            "plain|hash"@
        } else {
            "a value"@
        }),
        CliErrorView::BadNumber(flag, NumberError::Empty).message() == flag.name() + ": "@
            + "cannot parse integer from empty string"@,
        CliErrorView::BadNumber(flag, NumberError::InvalidDigit).message() == flag.name() + ": "@
            + "invalid digit found in string"@,
        CliErrorView::BadNumber(flag, NumberError::TooLarge).message() == flag.name() + ": "@
            + "number too large to fit in target type"@,
{
}

/// Where the environment declines sharing, nothing is shared unless `--feedback` asks for it,
/// whatever the key is.
pub proof fn law_declining_in_the_environment_holds(
    env: Environment,
    args: Seq<Seq<char>>,
    version: Seq<char>,
)
    requires
        common(env, args, version) is Ok,
        env.no_feedback is Some,
        env.no_feedback->0@ != ""@,
        env.no_feedback->0@ != "0"@,
        lowercase(env.no_feedback->0@) != "false"@,
        !args.contains("--feedback"@),
    ensures
        !common(env, args, version)->Ok_0.0.feedback,
{
    law_any_other_value_declines(env.no_feedback->0@);
    lemma_opt_in(args, defaults(env));
    lemma_wishes_stay(args, defaults(env));
}

/// The model of a configuration holds all of it.
pub proof fn law_models_of_configurations_hold_all(config: Config)
    ensures
        config@.upstream == config.upstream@,
        config@.api_key == config.api_key@,
        config@.salt == config.salt@,
        config@.mode == config.mode,
        config@.concurrent == config.concurrent,
        config@.report is Some <==> config.report is Some,
        config.report is Some ==> config@.report->0 == config.report->0@,
        config@.feedback == config.feedback,
        config@.feedback_url == config.feedback_url@,
        config@.binary_version == config.binary_version@,
{
}

/// The model of the options holds all of them.
pub proof fn law_models_of_options_hold_all(o: Options)
    ensures
        o@.upstream == o.upstream@,
        o@.api_key == o.api_key@,
        o@.salt == o.salt@,
        o@.mode == o.mode@,
        o@.concurrent == o.concurrent,
        o@.report is Some <==> o.report is Some,
        o.report is Some ==> o@.report->0 == o.report->0@,
        o@.opt_in == o.opt_in,
        o@.opt_out == o.opt_out,
        o@.positional == texts(o.positional@),
{
}

/// An error is modelled by its own kind, with the option, the reason or the text that it is about.
pub proof fn law_errors_are_told_apart(e: CliError)
    ensures
        match e {
            CliError::MissingValue(flag) => e@ == CliErrorView::MissingValue(flag),
            CliError::BadNumber(flag, why) => e@ == CliErrorView::BadNumber(flag, why),
            CliError::MissingTarget(target) => e@ == CliErrorView::MissingTarget(target),
            CliError::UnknownWatchOption(arg) => e@ == CliErrorView::UnknownWatchOption(arg@),
            CliError::MissingApiKey => e@ == CliErrorView::MissingApiKey,
            CliError::MissingSalt => e@ == CliErrorView::MissingSalt,
            CliError::InvalidMode(mode) => e@ == CliErrorView::InvalidMode(mode@),
        },
{
}

} // verus!
