//! The command line: from words to an [`Action`].

use vstd::prelude::*;
use vstd::slice::slice_subrange;
use vstd::utf8::encode_utf8;

use crate::error::{ParseError, ParseErrorView};
use crate::name::{sanitized, sanitized_is_valid, valid_job, JobName};
use crate::text::{
    bytes_eq, copy_words, has_leading_hyphen, lossy, starts_with_hyphen, str_eq, text_of, words,
};

verus! {

/// A job to launch: optional explicit name, verbatim systemd-run property
/// overrides, the command itself, and whether the job is to start at every boot.
#[derive(Debug, PartialEq, Eq)]
pub struct RunSpec {
    pub name: Option<JobName>,
    pub systemd_opts: Vec<Vec<u8>>,
    pub command: Vec<Vec<u8>>,
    pub persist: bool,
}

/// The model of a [`RunSpec`].
#[verifier::ext_equal]
pub struct RunSpecView {
    pub name: Option<Seq<char>>,
    pub systemd_opts: Seq<Seq<u8>>,
    pub command: Seq<Seq<u8>>,
    pub persist: bool,
}

/// The text of an optional name.
pub open spec fn name_view(name: Option<JobName>) -> Option<Seq<char>> {
    match name {
        Some(job) => Some(job@),
        None => None,
    }
}

/// The texts of a list of names.
pub open spec fn names_view(names: Seq<JobName>) -> Seq<Seq<char>> {
    Seq::new(names.len(), |i: int| names[i]@)
}

impl View for RunSpec {
    type V = RunSpecView;

    open spec fn view(&self) -> RunSpecView {
        RunSpecView {
            name: name_view(self.name),
            systemd_opts: words(self.systemd_opts@),
            command: words(self.command@),
            persist: self.persist,
        }
    }
}

/// Parsed command line: the closed vocabulary of everything bgrun can do.
#[derive(Debug, PartialEq, Eq)]
pub enum Action {
    Help,
    Run(RunSpec),
    List,
    Status(JobName),
    Logs { name: JobName, journalctl_opts: Vec<Vec<u8>> },
    /// Take units down: what `stop` and `remove` have in common. Whether the jobs
    /// are forgotten as well is a matter of the [`Invocation`].
    Remove(Vec<JobName>),
    /// Start stopped units again.
    Resume(Vec<JobName>),
    Clean,
}

/// The model of an [`Action`].
#[verifier::ext_equal]
pub enum ActionView {
    Help,
    Run(RunSpecView),
    List,
    Status(Seq<char>),
    Logs { name: Seq<char>, journalctl_opts: Seq<Seq<u8>> },
    Remove(Seq<Seq<char>>),
    Resume(Seq<Seq<char>>),
    Clean,
}

impl View for Action {
    type V = ActionView;

    open spec fn view(&self) -> ActionView {
        match self {
            Action::Help => ActionView::Help,
            Action::Run(spec) => ActionView::Run(spec@),
            Action::List => ActionView::List,
            Action::Status(name) => ActionView::Status(name@),
            Action::Logs { name, journalctl_opts } => ActionView::Logs {
                name: name@,
                journalctl_opts: words(journalctl_opts@),
            },
            Action::Remove(names) => ActionView::Remove(names_view(names@)),
            Action::Resume(names) => ActionView::Resume(names_view(names@)),
            Action::Clean => ActionView::Clean,
        }
    }
}

/// An [`Action`] and whether the jobs it takes down are forgotten: `remove` forgets
/// them, `stop` keeps them for a later `resume`.
#[derive(Debug, PartialEq, Eq)]
pub struct Invocation {
    pub action: Action,
    pub forget: bool,
}

// ---------------------------------------------------------------------------
// What a command line means
// ---------------------------------------------------------------------------

/// The word that separates bgrun's own words from the command.
pub open spec fn separator() -> Seq<u8> {
    encode_utf8("--"@)
}

/// `--restart` or `-r`
pub open spec fn restart_flag(word: Seq<u8>) -> bool {
    word == encode_utf8("--restart"@) || word == encode_utf8("-r"@)
}

/// `--persist` or `-b`
pub open spec fn persist_flag(word: Seq<u8>) -> bool {
    word == encode_utf8("--persist"@) || word == encode_utf8("-b"@)
}

/// One of bgrun's own flags.
pub open spec fn own_flag(word: Seq<u8>) -> bool {
    restart_flag(word) || persist_flag(word)
}

/// How many of bgrun's own flags stand in front.
pub open spec fn leading_flags(args: Seq<Seq<u8>>) -> nat
    decreases args.len(),
{
    if args.len() > 0 && own_flag(args[0]) {
        1 + leading_flags(args.skip(1))
    } else {
        0
    }
}

/// The override that makes systemd restart a job that exits non-zero.
pub open spec fn restart_override() -> Seq<Seq<u8>> {
    seq![encode_utf8("-p"@), encode_utf8("Restart=on-failure"@)]
}

/// Whether one of the flags asks for restarts.
pub open spec fn asks_restart(flags: Seq<Seq<u8>>) -> bool {
    exists|i: int| 0 <= i < flags.len() && restart_flag(#[trigger] flags[i])
}

/// Whether one of the flags asks for persistence.
pub open spec fn asks_persist(flags: Seq<Seq<u8>>) -> bool {
    exists|i: int| 0 <= i < flags.len() && persist_flag(#[trigger] flags[i])
}

/// The overrides that reach systemd-run.
pub open spec fn effective_overrides(flags: Seq<Seq<u8>>, overrides: Seq<Seq<u8>>) -> Seq<
    Seq<u8>,
> {
    if asks_restart(flags) {
        restart_override() + overrides
    } else {
        overrides
    }
}

/// `[flags] [overrides] -- <command>`: the flags in front are bgrun's own, what
/// follows goes verbatim to systemd-run up to the first separator, and the rest is
/// the command.
pub open spec fn launch(name: Option<Seq<char>>, args: Seq<Seq<u8>>) -> Result<
    ActionView,
    ParseErrorView,
> {
    let flags = args.take(leading_flags(args) as int);
    let rest = args.skip(leading_flags(args) as int);
    match rest.index_of_first(separator()) {
        None => Err(ParseErrorView::MissingSeparator),
        Some(at) => run_action(
            name,
            effective_overrides(flags, rest.take(at)),
            rest.skip(at + 1),
            asks_persist(flags),
        ),
    }
}

/// A launch, unless there is no command.
pub open spec fn run_action(
    name: Option<Seq<char>>,
    systemd_opts: Seq<Seq<u8>>,
    command: Seq<Seq<u8>>,
    persist: bool,
) -> Result<ActionView, ParseErrorView> {
    if command.len() == 0 {
        Err(ParseErrorView::MissingCommand)
    } else {
        Ok(ActionView::Run(RunSpecView { name, systemd_opts, command, persist }))
    }
}

/// Whether the words after `add` start with a job name: a first word that is neither
/// the separator nor looks like an option.
pub open spec fn leads_with_name(args: Seq<Seq<u8>>) -> bool {
    args.len() > 0 && args[0] != separator() && !starts_with_hyphen(text_of(args[0]))
}

/// `add [NAME] [flags] [overrides] -- <command>`
pub open spec fn add_action(args: Seq<Seq<u8>>) -> Result<ActionView, ParseErrorView> {
    if leads_with_name(args) {
        launch(Some(sanitized(text_of(args[0]))), args.skip(1))
    } else {
        launch(None, args)
    }
}

/// The job name that a word stands for.
pub open spec fn job_of(word: Seq<u8>) -> Seq<char> {
    sanitized(text_of(word))
}

/// The job names that words stand for.
pub open spec fn jobs_of(args: Seq<Seq<u8>>) -> Seq<Seq<char>> {
    Seq::new(args.len(), |i: int| job_of(args[i]))
}

/// An action that takes no arguments.
pub open spec fn bare_action(
    action: ActionView,
    verb: Seq<char>,
    rest: Seq<Seq<u8>>,
) -> Result<ActionView, ParseErrorView> {
    if rest.len() == 0 {
        Ok(action)
    } else {
        Err(ParseErrorView::UnexpectedArgument { action: verb })
    }
}

/// The action that the words of a command line (without the program name) ask for.
pub open spec fn action_of(args: Seq<Seq<u8>>) -> Result<ActionView, ParseErrorView> {
    if args.len() == 0 {
        Ok(ActionView::Help)
    } else {
        let verb = text_of(args[0]);
        let rest = args.skip(1);
        if verb == "help"@ || verb == "-h"@ || verb == "--help"@ {
            Ok(ActionView::Help)
        } else if starts_with_hyphen(verb) && args.contains(separator()) {
            launch(None, args)
        } else if verb == "add"@ {
            add_action(rest)
        } else if verb == "list"@ {
            bare_action(ActionView::List, verb, rest)
        } else if verb == "clean"@ {
            bare_action(ActionView::Clean, verb, rest)
        } else if verb == "status"@ {
            if rest.len() == 0 {
                Err(ParseErrorView::MissingArgument { action: verb })
            } else if rest.len() == 1 {
                Ok(ActionView::Status(job_of(rest[0])))
            } else {
                Err(ParseErrorView::UnexpectedArgument { action: verb })
            }
        } else if verb == "logs"@ {
            if rest.len() == 0 {
                Err(ParseErrorView::MissingArgument { action: verb })
            } else {
                Ok(ActionView::Logs { name: job_of(rest[0]), journalctl_opts: rest.skip(1) })
            }
        } else if verb == "stop"@ || verb == "remove"@ {
            if rest.len() == 0 {
                Err(ParseErrorView::MissingArgument { action: verb })
            } else {
                Ok(ActionView::Remove(jobs_of(rest)))
            }
        } else if verb == "resume"@ {
            if rest.len() == 0 {
                Err(ParseErrorView::MissingArgument { action: verb })
            } else {
                Ok(ActionView::Resume(jobs_of(rest)))
            }
        } else {
            Err(ParseErrorView::UnknownCommand { command: verb })
        }
    }
}

/// Whether the words of a command line ask to forget jobs.
pub open spec fn forgets(args: Seq<Seq<u8>>) -> bool {
    args.len() > 0 && text_of(args[0]) == "remove"@
}

// ---------------------------------------------------------------------------
// Reading a command line
// ---------------------------------------------------------------------------

fn is_restart_flag(word: &[u8]) -> (res: bool)
    ensures
        res == restart_flag(word@),
{
    bytes_eq(word, "--restart".as_bytes()) || bytes_eq(word, "-r".as_bytes())
}

fn is_persist_flag(word: &[u8]) -> (res: bool)
    ensures
        res == persist_flag(word@),
{
    bytes_eq(word, "--persist".as_bytes()) || bytes_eq(word, "-b".as_bytes())
}

/// Whether one of the words is the separator.
fn has_separator(args: &[Vec<u8>]) -> (res: bool)
    ensures
        res == words(args@).contains(separator()),
{
    let mut i: usize = 0;
    while i < args.len()
        invariant
            i <= args.len(),
            forall|j: int| 0 <= j < i ==> #[trigger] words(args@)[j] != separator(),
        decreases args.len() - i,
    {
        if bytes_eq(args[i].as_slice(), "--".as_bytes()) {
            assert(words(args@)[i as int] == separator());
            return true;
        }
        i += 1;
    }
    false
}

/// The result view of a parse.
pub open spec fn parsed(res: Result<Action, ParseError>) -> Result<ActionView, ParseErrorView> {
    match res {
        Ok(action) => Ok(action@),
        Err(error) => Err(error@),
    }
}

/// Shared tail for the two launch forms (`-- cmd` and `add -- cmd`).
fn run_spec(
    name: Option<JobName>,
    systemd_opts: Vec<Vec<u8>>,
    command: Vec<Vec<u8>>,
    persist: bool,
) -> (res: Result<Action, ParseError>)
    ensures
        parsed(res) == run_action(
            name_view(name),
            words(systemd_opts@),
            words(command@),
            persist,
        ),
{
    if command.len() == 0 {
        return Err(ParseError::MissingCommand);
    }
    Ok(Action::Run(RunSpec { name, systemd_opts, command, persist }))
}

/// `[flags] [overrides] -- <command>`, from position `start` on.
fn parse_launch(name: Option<JobName>, args: &[Vec<u8>], start: usize) -> (res: Result<
    Action,
    ParseError,
>)
    requires
        start <= args.len(),
    ensures
        parsed(res) == launch(name_view(name), words(args@).skip(start as int)),
{
    let ghost all = words(args@);
    let ghost given = all.skip(start as int);
    let mut restart = false;
    let mut persist = false;
    let mut at: usize = start;
    assert(given.skip(0) =~= given);
    while at < args.len() && (is_restart_flag(args[at].as_slice()) || is_persist_flag(
        args[at].as_slice(),
    ))
        invariant
            start <= at <= args.len(),
            all == words(args@),
            given == all.skip(start as int),
            leading_flags(given) == (at - start) + leading_flags(given.skip(at - start)),
            restart == exists|i: int|
                0 <= i < at - start && restart_flag(#[trigger] given[i]),
            persist == exists|i: int|
                0 <= i < at - start && persist_flag(#[trigger] given[i]),
        decreases args.len() - at,
    {
        let ghost k = at - start;
        assert(given[k] == args@[at as int]@);
        assert(given.skip(k)[0] == given[k]);
        assert(given.skip(k).skip(1) =~= given.skip(k + 1));
        if is_restart_flag(args[at].as_slice()) {
            restart = true;
        }
        if is_persist_flag(args[at].as_slice()) {
            persist = true;
        }
        at += 1;
    }
    let ghost flags = leading_flags(given) as int;
    proof {
        if at < args.len() {
            assert(given.skip(at - start)[0] == args@[at as int]@);
        }
        assert(flags == at - start);
        assert forall|i: int| 0 <= i < flags implies given.take(flags)[i] == given[i] by {}
        if restart {
            let i = choose|i: int| 0 <= i < at - start && restart_flag(#[trigger] given[i]);
            assert(restart_flag(given.take(flags)[i]));
        }
        if persist {
            let i = choose|i: int| 0 <= i < at - start && persist_flag(#[trigger] given[i]);
            assert(persist_flag(given.take(flags)[i]));
        }
        assert(restart == asks_restart(given.take(flags)));
        assert(persist == asks_persist(given.take(flags)));
    }
    let ghost rest = given.skip(flags);
    let mut sep: usize = at;
    while sep < args.len() && !bytes_eq(args[sep].as_slice(), "--".as_bytes())
        invariant
            at <= sep <= args.len(),
            all == words(args@),
            rest == all.skip(at as int),
            forall|i: int| 0 <= i < sep - at ==> #[trigger] rest[i] != separator(),
        decreases args.len() - sep,
    {
        assert(rest[sep - at] == args@[sep as int]@);
        sep += 1;
    }
    proof {
        rest.index_of_first_ensures(separator());
    }
    if sep == args.len() {
        assert(!rest.contains(separator()));
        return Err(ParseError::MissingSeparator);
    }
    proof {
        assert(rest[sep - at] == args@[sep as int]@);
        assert(rest.contains(separator()));
        let first = rest.index_of_first(separator())->Some_0;
        assert(first == sep - at);
        assert(rest.take(first) =~= all.subrange(at as int, sep as int));
        assert(rest.skip(first + 1) =~= all.subrange(sep + 1, all.len() as int));
    }
    let mut overrides: Vec<Vec<u8>> = Vec::new();
    if restart {
        overrides.push("-p".as_bytes_vec());
        overrides.push("Restart=on-failure".as_bytes_vec());
        assert(words(overrides@) =~= restart_override());
    }
    let mut verbatim = copy_words(args, at, sep);
    let ghost before = words(overrides@);
    let ghost tail = words(verbatim@);
    overrides.append(&mut verbatim);
    assert(words(overrides@) =~= before + tail);
    if !restart {
        assert(before + tail =~= tail);
    }
    let command = copy_words(args, sep + 1, args.len());
    run_spec(name, overrides, command, persist)
}

/// `add [NAME] [flags] [overrides] -- <command>`: the words after `add`.
pub fn parse_add(args: &[Vec<u8>]) -> (res: Result<Action, ParseError>)
    ensures
        parsed(res) == add_action(words(args@)),
{
    let ghost all = words(args@);
    if args.len() > 0 && !bytes_eq(args[0].as_slice(), "--".as_bytes()) {
        assert(all[0] == args@[0]@);
        let first = lossy(args[0].as_slice());
        if !has_leading_hyphen(first.as_str()) {
            return parse_launch(Some(JobName::from_text(first.as_str())), args, 1);
        }
    }
    assert(args.len() > 0 ==> all[0] == args@[0]@);
    assert(all.skip(0) =~= all);
    parse_launch(None, args, 0)
}

/// Refuses arguments to an action that takes none.
fn expect_no_args(action: Action, verb: String, args: &[Vec<u8>]) -> (res: Result<
    Action,
    ParseError,
>)
    requires
        args.len() >= 1,
    ensures
        parsed(res) == bare_action(action@, verb@, words(args@).skip(1)),
{
    if args.len() == 1 {
        Ok(action)
    } else {
        Err(ParseError::UnexpectedArgument { action: verb })
    }
}

/// The job names that the words from position 1 on stand for.
fn parse_names(args: &[Vec<u8>]) -> (res: Vec<JobName>)
    requires
        args.len() >= 1,
    ensures
        names_view(res@) == jobs_of(words(args@).skip(1)),
{
    let mut names: Vec<JobName> = Vec::new();
    let mut i: usize = 1;
    while i < args.len()
        invariant
            1 <= i <= args.len(),
            names.len() == i - 1,
            forall|j: int| 0 <= j < i - 1 ==> (#[trigger] names[j])@ == job_of(args@[j + 1]@),
        decreases args.len() - i,
    {
        names.push(JobName::parse(args[i].as_slice()));
        i += 1;
    }
    assert(names_view(names@) =~= jobs_of(words(args@).skip(1)));
    names
}

/// Parse `argv` (without the program name) into an [`Action`].
pub fn parse(args: &[Vec<u8>]) -> (res: Result<Action, ParseError>)
    ensures
        parsed(res) == action_of(words(args@)),
{
    if args.len() == 0 {
        return Ok(Action::Help);
    }
    let ghost rest = words(args@).skip(1);
    let verb = lossy(args[0].as_slice());
    let v = verb.as_str();
    if str_eq(v, "help") || str_eq(v, "-h") || str_eq(v, "--help") {
        Ok(Action::Help)
    } else if has_leading_hyphen(v) && has_separator(args) {
        assert(words(args@).skip(0) =~= words(args@));
        parse_launch(None, args, 0)
    } else if str_eq(v, "add") {
        let added = slice_subrange(args, 1, args.len());
        assert(words(added@) =~= rest);
        parse_add(added)
    } else if str_eq(v, "list") {
        expect_no_args(Action::List, verb, args)
    } else if str_eq(v, "clean") {
        expect_no_args(Action::Clean, verb, args)
    } else if str_eq(v, "status") {
        if args.len() == 1 {
            Err(ParseError::MissingArgument { action: verb })
        } else if args.len() == 2 {
            Ok(Action::Status(JobName::parse(args[1].as_slice())))
        } else {
            Err(ParseError::UnexpectedArgument { action: verb })
        }
    } else if str_eq(v, "logs") {
        if args.len() == 1 {
            return Err(ParseError::MissingArgument { action: verb });
        }
        let journalctl_opts = copy_words(args, 2, args.len());
        assert(words(journalctl_opts@) =~= rest.skip(1));
        Ok(Action::Logs { name: JobName::parse(args[1].as_slice()), journalctl_opts })
    } else if str_eq(v, "stop") || str_eq(v, "remove") {
        if args.len() == 1 {
            return Err(ParseError::MissingArgument { action: verb });
        }
        Ok(Action::Remove(parse_names(args)))
    } else if str_eq(v, "resume") {
        if args.len() == 1 {
            return Err(ParseError::MissingArgument { action: verb });
        }
        Ok(Action::Resume(parse_names(args)))
    } else {
        Err(ParseError::UnknownCommand { command: verb })
    }
}

/// Parse `argv` (without the program name) into an [`Invocation`].
pub fn parse_invocation(args: &[Vec<u8>]) -> (res: Result<Invocation, ParseError>)
    ensures
        match res {
            Ok(invocation) => action_of(words(args@)) == Ok::<_, ParseErrorView>(
                invocation.action@,
            ) && invocation.forget == forgets(words(args@)),
            Err(error) => action_of(words(args@)) == Err::<ActionView, _>(error@),
        },
{
    let action = match parse(args) {
        Ok(action) => action,
        Err(error) => return Err(error),
    };
    let forget = args.len() > 0 && str_eq(lossy(args[0].as_slice()).as_str(), "remove");
    Ok(Invocation { action, forget })
}

// ---------------------------------------------------------------------------
// Laws
// ---------------------------------------------------------------------------

/// The separator is none of bgrun's own flags.
proof fn separator_is_no_flag()
    ensures
        !own_flag(separator()),
{
    reveal_strlit("--");
    reveal_strlit("--restart");
    reveal_strlit("-r");
    reveal_strlit("--persist");
    reveal_strlit("-b");
    vstd::utf8::is_ascii_chars_encode_utf8("--"@);
    vstd::utf8::is_ascii_chars_encode_utf8("--restart"@);
    vstd::utf8::is_ascii_chars_encode_utf8("-r"@);
    vstd::utf8::is_ascii_chars_encode_utf8("--persist"@);
    vstd::utf8::is_ascii_chars_encode_utf8("-b"@);
    assert("--"@[1] == '-' && separator()[1] == 45);
    assert("-r"@[1] == 'r' && encode_utf8("-r"@)[1] == 114);
    assert("-b"@[1] == 'b' && encode_utf8("-b"@)[1] == 98);
}

proof fn leading_flags_are_flags(args: Seq<Seq<u8>>)
    ensures
        leading_flags(args) <= args.len(),
        forall|i: int| 0 <= i < leading_flags(args) ==> own_flag(#[trigger] args[i]),
        leading_flags(args) < args.len() ==> !own_flag(args[leading_flags(args) as int]),
    decreases args.len(),
{
    if args.len() > 0 && own_flag(args[0]) {
        let rest = args.skip(1);
        leading_flags_are_flags(rest);
        assert forall|i: int| 0 <= i < leading_flags(args) implies own_flag(#[trigger] args[i]) by {
            if i > 0 {
                assert(rest[i - 1] == args[i]);
            }
        }
    }
}

proof fn leading_flags_is(args: Seq<Seq<u8>>, n: int)
    requires
        0 <= n <= args.len(),
        forall|i: int| 0 <= i < n ==> own_flag(#[trigger] args[i]),
        n < args.len() ==> !own_flag(args[n]),
    ensures
        leading_flags(args) == n,
    decreases n,
{
    if n > 0 {
        let rest = args.skip(1);
        assert forall|i: int| 0 <= i < n - 1 implies own_flag(#[trigger] rest[i]) by {
            assert(own_flag(args[i + 1]));
        }
        leading_flags_is(rest, n - 1);
        assert(own_flag(args[0]));
    }
}

/// Whether words are all flags of bgrun's own.
pub open spec fn all_flags(flags: Seq<Seq<u8>>) -> bool {
    forall|i: int| 0 <= i < flags.len() ==> own_flag(#[trigger] flags[i])
}

/// Whether words can stand between the flags and the separator: none of them is the
/// separator, and the first is no flag.
pub open spec fn overrides_only(overrides: Seq<Seq<u8>>) -> bool {
    &&& !overrides.contains(separator())
    &&& overrides.len() > 0 ==> !own_flag(overrides[0])
}

/// A launch that is written down as flags, overrides, separator and command is read
/// as exactly that: the overrides and the command arrive verbatim, and what looks like
/// a separator or a flag inside the command is left to the command.
pub proof fn launch_is_read_as_written(
    name: Option<Seq<char>>,
    flags: Seq<Seq<u8>>,
    overrides: Seq<Seq<u8>>,
    command: Seq<Seq<u8>>,
)
    requires
        all_flags(flags),
        overrides_only(overrides),
        command.len() > 0,
    ensures
        launch(name, flags + overrides + seq![separator()] + command) == Ok::<_, ParseErrorView>(
            ActionView::Run(
                RunSpecView {
                    name,
                    systemd_opts: effective_overrides(flags, overrides),
                    command,
                    persist: asks_persist(flags),
                },
            ),
        ),
{
    let args = flags + overrides + seq![separator()] + command;
    let n = flags.len() as int;
    separator_is_no_flag();
    assert forall|i: int| 0 <= i < n implies own_flag(#[trigger] args[i]) by {
        assert(args[i] == flags[i]);
    }
    if overrides.len() > 0 {
        assert(args[n] == overrides[0]);
    } else {
        assert(args[n] == separator());
    }
    leading_flags_is(args, n);
    assert(args.take(n) =~= flags);
    let rest = args.skip(n);
    let at = overrides.len() as int;
    rest.index_of_first_ensures(separator());
    assert(rest[at] == separator());
    assert(rest.contains(separator()));
    let first = rest.index_of_first(separator())->Some_0;
    assert(first == at) by {
        if first < at {
            assert(rest[first] == overrides[first]);
        }
    }
    assert(rest.take(at) =~= overrides);
    assert(rest.skip(at + 1) =~= command);
}

/// Every launch that is read was written as flags, overrides, separator and command.
pub proof fn launch_was_written(name: Option<Seq<char>>, args: Seq<Seq<u8>>, action: ActionView)
    requires
        launch(name, args) == Ok::<_, ParseErrorView>(action),
    ensures
        exists|flags: Seq<Seq<u8>>, overrides: Seq<Seq<u8>>, command: Seq<Seq<u8>>|
            {
                &&& all_flags(flags)
                &&& overrides_only(overrides)
                &&& command.len() > 0
                &&& args == #[trigger] (flags + overrides + seq![separator()] + command)
                &&& action == ActionView::Run(
                    RunSpecView {
                        name,
                        systemd_opts: effective_overrides(flags, overrides),
                        command,
                        persist: asks_persist(flags),
                    },
                )
            },
{
    let n = leading_flags(args) as int;
    leading_flags_are_flags(args);
    let flags = args.take(n);
    let rest = args.skip(n);
    rest.index_of_first_ensures(separator());
    let at = rest.index_of_first(separator())->Some_0;
    let overrides = rest.take(at);
    let command = rest.skip(at + 1);
    assert(all_flags(flags));
    assert(overrides_only(overrides)) by {
        if overrides.contains(separator()) {
            let i = choose|i: int| 0 <= i < overrides.len() && overrides[i] == separator();
            assert(rest[i] == separator());
        }
        if overrides.len() > 0 {
            assert(overrides[0] == args[n]);
        }
    }
    assert(args =~= flags + overrides + seq![separator()] + command);
    launch_is_read_as_written(name, flags, overrides, command);
}

/// A launch with a longer command.
pub open spec fn lengthened(spec: RunSpecView, extra: Seq<Seq<u8>>) -> RunSpecView {
    RunSpecView {
        name: spec.name,
        systemd_opts: spec.systemd_opts,
        command: spec.command + extra,
        persist: spec.persist,
    }
}

proof fn lemma_longer_launch(
    name: Option<Seq<char>>,
    args: Seq<Seq<u8>>,
    spec: RunSpecView,
    extra: Seq<Seq<u8>>,
)
    requires
        launch(name, args) == Ok::<_, ParseErrorView>(ActionView::Run(spec)),
    ensures
        launch(name, args + extra) == Ok::<_, ParseErrorView>(
            ActionView::Run(lengthened(spec, extra)),
        ),
{
    let action = ActionView::Run(spec);
    launch_was_written(name, args, action);
    let (flags, overrides, command) = choose|
        flags: Seq<Seq<u8>>,
        overrides: Seq<Seq<u8>>,
        command: Seq<Seq<u8>>,
    |
        {
            &&& all_flags(flags)
            &&& overrides_only(overrides)
            &&& command.len() > 0
            &&& args == #[trigger] (flags + overrides + seq![separator()] + command)
            &&& action == ActionView::Run(
                RunSpecView {
                    name,
                    systemd_opts: effective_overrides(flags, overrides),
                    command,
                    persist: asks_persist(flags),
                },
            )
        };
    launch_is_read_as_written(name, flags, overrides, command + extra);
    assert(args + extra =~= flags + overrides + seq![separator()] + (command + extra));
}

/// Words behind a complete `add` launch only lengthen its command.
pub proof fn more_words_lengthen_an_added_command(
    args: Seq<Seq<u8>>,
    spec: RunSpecView,
    extra: Seq<Seq<u8>>,
)
    requires
        add_action(args) == Ok::<_, ParseErrorView>(ActionView::Run(spec)),
    ensures
        add_action(args + extra) == Ok::<_, ParseErrorView>(
            ActionView::Run(lengthened(spec, extra)),
        ),
{
    launch_errors(None, args);
    assert(args.len() > 0);
    assert((args + extra)[0] == args[0]);
    if leads_with_name(args) {
        let name = Some(sanitized(text_of(args[0])));
        lemma_longer_launch(name, args.skip(1), spec, extra);
        assert((args + extra).skip(1) =~= args.skip(1) + extra);
    } else {
        lemma_longer_launch(None, args, spec, extra);
    }
}

/// Words behind a complete launch, of either form, only lengthen its command.
pub proof fn more_words_lengthen_the_command(
    args: Seq<Seq<u8>>,
    spec: RunSpecView,
    extra: Seq<Seq<u8>>,
)
    requires
        action_of(args) == Ok::<_, ParseErrorView>(ActionView::Run(spec)),
    ensures
        action_of(args + extra) == Ok::<_, ParseErrorView>(
            ActionView::Run(lengthened(spec, extra)),
        ),
{
    let longer = args + extra;
    assert(longer[0] == args[0]);
    assert(longer.skip(1) =~= args.skip(1) + extra);
    if starts_with_hyphen(text_of(args[0])) && args.contains(separator()) {
        let i = choose|i: int| 0 <= i < args.len() && args[i] == separator();
        assert(longer[i] == separator());
        lemma_longer_launch(None, args, spec, extra);
    } else {
        reveal_strlit("add");
        assert("add"@[0] == 'a');
        more_words_lengthen_an_added_command(args.skip(1), spec, extra);
    }
}

/// A launch lacks its separator exactly if no word is one, and lacks its command
/// exactly if the first separator is the last word.
pub proof fn launch_errors(name: Option<Seq<char>>, args: Seq<Seq<u8>>)
    ensures
        launch(name, args) == Err::<ActionView, _>(ParseErrorView::MissingSeparator)
            <==> !args.contains(separator()),
        launch(name, args) == Err::<ActionView, _>(ParseErrorView::MissingCommand) <==> (
        args.len() > 0 && args.index_of_first(separator()) == Some(args.len() - 1)),
{
    let n = leading_flags(args) as int;
    leading_flags_are_flags(args);
    separator_is_no_flag();
    let rest = args.skip(n);
    rest.index_of_first_ensures(separator());
    args.index_of_first_ensures(separator());
    if args.contains(separator()) {
        let at = args.index_of_first(separator())->Some_0;
        assert(n <= at) by {
            if at < n {
                assert(own_flag(args[at]));
            }
        }
        assert(rest[at - n] == separator());
        assert(rest.contains(separator()));
        let first = rest.index_of_first(separator())->Some_0;
        assert(args[n + first] == separator());
        assert(first == at - n);
    } else if rest.contains(separator()) {
        let i = choose|i: int| 0 <= i < rest.len() && rest[i] == separator();
        assert(args[n + i] == separator());
    }
}

/// The two launch forms agree: a command line that starts with an option and has a
/// separator, and is no call for help, means what it means after `add`.
pub proof fn launch_forms_agree(args: Seq<Seq<u8>>)
    requires
        args.len() > 0,
        starts_with_hyphen(text_of(args[0])),
        args.contains(separator()),
        text_of(args[0]) != "-h"@,
        text_of(args[0]) != "--help"@,
    ensures
        action_of(args) == action_of(seq![encode_utf8("add"@)] + args),
{
    let longer = seq![encode_utf8("add"@)] + args;
    assert(longer.skip(1) =~= args);
    crate::text::text_round_trip("add"@);
    reveal_strlit("add");
    reveal_strlit("help");
    reveal_strlit("-h");
    reveal_strlit("--help");
    assert("add"@[0] == 'a');
    assert("help"@[0] == 'h');
    assert("-h"@[0] == '-');
    assert("--help"@[0] == '-');
}

/// `stop` and `remove` name their jobs alike.
pub proof fn stop_and_remove_agree(names: Seq<Seq<u8>>)
    ensures
        names.len() > 0 ==> action_of(seq![encode_utf8("stop"@)] + names) == action_of(
            seq![encode_utf8("remove"@)] + names,
        ),
        names.len() > 0 ==> action_of(seq![encode_utf8("stop"@)] + names) == Ok::<
            _,
            ParseErrorView,
        >(ActionView::Remove(jobs_of(names))),
        !forgets(seq![encode_utf8("stop"@)] + names),
        forgets(seq![encode_utf8("remove"@)] + names),
{
    let stop = seq![encode_utf8("stop"@)] + names;
    let remove = seq![encode_utf8("remove"@)] + names;
    assert(stop.skip(1) =~= names);
    assert(remove.skip(1) =~= names);
    crate::text::text_round_trip("stop"@);
    crate::text::text_round_trip("remove"@);
    reveal_strlit("stop");
    reveal_strlit("remove");
    reveal_strlit("help");
    reveal_strlit("-h");
    reveal_strlit("--help");
    reveal_strlit("add");
    reveal_strlit("list");
    reveal_strlit("clean");
    reveal_strlit("status");
    reveal_strlit("logs");
    assert("stop"@[0] == 's' && "stop"@[2] == 'o');
    assert("remove"@[0] == 'r' && "remove"@[1] == 'e');
    assert("help"@[0] == 'h');
    assert("list"@[0] == 'l');
    assert("logs"@[0] == 'l');
}

/// Whether an action names only valid jobs.
pub open spec fn names_are_valid(action: ActionView) -> bool {
    match action {
        ActionView::Run(spec) => spec.name matches Some(name) ==> valid_job(name),
        ActionView::Status(name) => valid_job(name),
        ActionView::Logs { name, .. } => valid_job(name),
        ActionView::Remove(names) | ActionView::Resume(names) => forall|i: int|
            0 <= i < names.len() ==> valid_job(#[trigger] names[i]),
        _ => true,
    }
}

/// Every job name that a command line gives is valid, however it is spelled.
pub proof fn parsed_names_are_valid(args: Seq<Seq<u8>>)
    ensures
        action_of(args) matches Ok(action) ==> names_are_valid(action),
{
    assert forall|text: Seq<char>| valid_job(#[trigger] sanitized(text)) by {
        sanitized_is_valid(text);
    }
}

/// The model of an action holds all of it: the names, the overrides, the options and the
/// command, each entry in order.
pub proof fn actions_are_modelled_whole(spec: RunSpec, names: Vec<JobName>, opts: Vec<Vec<u8>>)
    ensures
        spec@.name == (match spec.name {
            Some(job) => Some(job@),
            None => None,
        }),
        spec@.systemd_opts == words(spec.systemd_opts@),
        spec@.command == words(spec.command@),
        spec@.persist == spec.persist,
        names_view(names@).len() == names@.len(),
        forall|i: int| 0 <= i < names@.len() ==> #[trigger] names_view(names@)[i] == names@[i]@,
        Action::Help@ == ActionView::Help,
        Action::Run(spec)@ == ActionView::Run(spec@),
        Action::List@ == ActionView::List,
        Action::Clean@ == ActionView::Clean,
        Action::Remove(names)@ == ActionView::Remove(names_view(names@)),
        Action::Resume(names)@ == ActionView::Resume(names_view(names@)),
        forall|name: JobName| #[trigger] Action::Status(name)@ == ActionView::Status(name@),
        forall|name: JobName|
            #[trigger] (Action::Logs { name, journalctl_opts: opts })@ == (ActionView::Logs {
                name: name@,
                journalctl_opts: words(opts@),
            }),
{
}

} // verus!
