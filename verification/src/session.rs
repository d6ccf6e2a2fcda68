//! Sessions: the decisions of every command, one outside action at a time.
//!
//! [`begin`] reads the command line and says what to do first; [`advance`] takes
//! what came of it and says what to do next, until there is an exit code.

use vstd::prelude::*;
use vstd::utf8::encode_utf8;

use crate::cli::{
    action_of, forgets, names_view, parse_invocation, Action, ActionView, RunSpec, RunSpecView,
};
use crate::error::{error_text, ParseError, ParseErrorView};
use crate::exit::{is_success, passed_on, succeeded, ExitCodes, EXIT_FAILURE, EXIT_USAGE};
use crate::help::{help, help_text};
use crate::name::{
    command_name, prefix_char, unit_glob, unit_name, valid_job, valid_prefix, JobName, Prefix,
};
use crate::path::{join, joined, SLASH};
use crate::request::{
    answers, emits_view, CommandLine, CommandView, Emit, EmitView, Reply, ReplyView, Request,
    RequestView,
};
use crate::text::{
    concat3, contains_text, copy_bytes, lossy, occurs, text_of, trimmed, trims_to, words,
};
use crate::unit::{unit_file, unit_text, unsupported};

verus! {

// ---------------------------------------------------------------------------
// Surroundings
// ---------------------------------------------------------------------------

/// What the environment variables say. A variable that must be Unicode is `None`
/// where it is not.
#[derive(Debug, PartialEq, Eq)]
pub struct Environment {
    /// `BGRUN_PREFIX`
    pub prefix: Option<String>,
    /// `USER`
    pub user: Option<String>,
    /// `XDG_CONFIG_HOME`
    pub config_home: Option<Vec<u8>>,
    /// `HOME`
    pub home: Option<Vec<u8>>,
}

/// The text of an optional string.
pub open spec fn string_view(s: Option<String>) -> Option<Seq<char>> {
    match s {
        Some(text) => Some(text@),
        None => None,
    }
}

/// The contents of an optional byte string.
pub open spec fn bytes_view(bytes: Option<Vec<u8>>) -> Option<Seq<u8>> {
    match bytes {
        Some(content) => Some(content@),
        None => None,
    }
}

/// Where `systemd --user` looks for unit files: `$XDG_CONFIG_HOME/systemd/user`,
/// falling back to `$HOME/.config/systemd/user`. An empty `XDG_CONFIG_HOME` counts
/// as unset.
pub open spec fn unit_dir(config_home: Option<Seq<u8>>, home: Option<Seq<u8>>) -> Option<Seq<u8>> {
    let base = match (config_home, home) {
        (Some(config), _) if config.len() > 0 => Some(config),
        (_, Some(home)) => Some(joined(home, encode_utf8(".config"@))),
        _ => None,
    };
    match base {
        Some(base) => Some(
            joined(joined(base, encode_utf8("systemd"@)), encode_utf8("user"@)),
        ),
        None => None,
    }
}

/// The unit name of a job is a plain file name.
proof fn lemma_unit_is_file_name(prefix: Seq<char>, job: Seq<char>)
    requires
        valid_prefix(prefix),
        valid_job(job),
    ensures
        encode_utf8(unit_name(prefix, job)).len() > 0,
        encode_utf8(unit_name(prefix, job))[0] != SLASH,
{
    let unit = unit_name(prefix, job);
    reveal_strlit("-");
    reveal_strlit(".service");
    assert(prefix_char(prefix[0]));
    assert forall|i: int| 0 <= i < unit.len() implies 0 <= (#[trigger] unit[i] as nat) < 128 by {
        if i < prefix.len() {
            assert(unit[i] == prefix[i]);
        } else if i == prefix.len() {
        } else if i < prefix.len() + 1 + job.len() {
            assert(unit[i] == job[i - prefix.len() - 1]);
        }
    }
    vstd::utf8::is_ascii_chars_encode_utf8(unit);
    assert(unit[0] == prefix[0]);
}

/// A name put under a directory, where the name is text that does not start with a
/// slash.
fn join_text(base: &[u8], name: &str) -> (res: Vec<u8>)
    requires
        encode_utf8(name@).len() > 0,
        encode_utf8(name@)[0] != SLASH,
    ensures
        res@ == joined(base@, encode_utf8(name@)),
{
    join(base, name.as_bytes())
}

/// Where `systemd --user` looks for unit files.
pub fn user_unit_dir(config_home: &Option<Vec<u8>>, home: &Option<Vec<u8>>) -> (res: Option<
    Vec<u8>,
>)
    ensures
        bytes_view(res) == unit_dir(bytes_view(*config_home), bytes_view(*home)),
{
    proof {
        reveal_strlit(".config");
        reveal_strlit("systemd");
        reveal_strlit("user");
        vstd::utf8::is_ascii_chars_encode_utf8(".config"@);
        vstd::utf8::is_ascii_chars_encode_utf8("systemd"@);
        vstd::utf8::is_ascii_chars_encode_utf8("user"@);
    }
    let config = match config_home {
        Some(config) => if config.len() > 0 {
            Some(copy_bytes(config.as_slice()))
        } else {
            None
        },
        None => None,
    };
    let base = match config {
        Some(config) => config,
        None => match home {
            Some(home) => join_text(home.as_slice(), ".config"),
            None => return None,
        },
    };
    let systemd = join_text(base.as_slice(), "systemd");
    Some(join_text(systemd.as_slice(), "user"))
}

// ---------------------------------------------------------------------------
// States
// ---------------------------------------------------------------------------

/// What stays the same throughout a session: the prefix, and where unit files live.
struct Context {
    prefix: Prefix,
    unit_dir: Option<Vec<u8>>,
}

/// The model of what stays the same throughout a session.
#[verifier::ext_equal]
pub struct ContextView {
    pub prefix: Seq<char>,
    pub unit_dir: Option<Seq<u8>>,
}

impl View for Context {
    type V = ContextView;

    closed spec fn view(&self) -> ContextView {
        ContextView { prefix: self.prefix@, unit_dir: bytes_view(self.unit_dir) }
    }
}

/// How a session goes on once a job is forgotten.
enum After {
    /// It ends with this exit code.
    Exit(u8),
    /// It removes these jobs too.
    Remove(Vec<JobName>),
}

/// The model of how a session goes on once a job is forgotten.
#[verifier::ext_equal]
pub enum AfterView {
    Exit(u8),
    Remove(Seq<Seq<char>>),
}

impl View for After {
    type V = AfterView;

    closed spec fn view(&self) -> AfterView {
        match self {
            After::Exit(code) => AfterView::Exit(*code),
            After::Remove(names) => AfterView::Remove(names_view(names@)),
        }
    }
}

/// What a session waits for.
enum State {
    /// `loginctl` was asked about lingering, before a launch.
    Lingering { user: String, spec: RunSpec },
    /// `systemd-run` was told to launch a transient job.
    Launching { name: JobName },
    /// The state of the unit file was asked for, before a job is persisted.
    Shadowing { name: JobName, dir: Vec<u8>, body: Vec<u8> },
    /// The unit file is being written.
    Writing { name: JobName, path: Vec<u8> },
    /// systemd was told to read the new unit file.
    Reloading { name: JobName, path: Vec<u8> },
    /// The unit file is being deleted because systemd could not read it.
    Discarding { code: u8 },
    /// The persisted unit was enabled and started.
    Enabling { name: JobName },
    /// Does the job to forget have a unit file?
    Checking { name: JobName, path: Vec<u8>, after: After },
    /// The unit of the job to forget was disabled.
    Disabling { name: JobName, path: Vec<u8>, after: After },
    /// The unit file of the job to forget is being deleted.
    Deleting { name: JobName, path: Vec<u8>, after: After },
    /// systemd was told that the unit file is gone.
    Refreshing { name: JobName, after: After },
    /// A unit to remove was stopped.
    Stopping { name: JobName, rest: Vec<JobName> },
    /// The failure record of a unit to remove was reset.
    Resetting { name: JobName, rest: Vec<JobName> },
    /// A unit was stopped or started again.
    Toggling { name: JobName, rest: Vec<JobName>, resume: bool, failed: bool },
    /// A program does the whole job.
    Querying { program: String },
    /// The failure records were reset.
    Cleaning,
}

/// The model of what a session waits for.
#[verifier::ext_equal]
pub enum StateView {
    Lingering { user: Seq<char>, spec: RunSpecView },
    Launching { name: Seq<char> },
    Shadowing { name: Seq<char>, dir: Seq<u8>, body: Seq<u8> },
    Writing { name: Seq<char>, path: Seq<u8> },
    Reloading { name: Seq<char>, path: Seq<u8> },
    Discarding { code: u8 },
    Enabling { name: Seq<char> },
    Checking { name: Seq<char>, path: Seq<u8>, after: AfterView },
    Disabling { name: Seq<char>, path: Seq<u8>, after: AfterView },
    Deleting { name: Seq<char>, path: Seq<u8>, after: AfterView },
    Refreshing { name: Seq<char>, after: AfterView },
    Stopping { name: Seq<char>, rest: Seq<Seq<char>> },
    Resetting { name: Seq<char>, rest: Seq<Seq<char>> },
    Toggling { name: Seq<char>, rest: Seq<Seq<char>>, resume: bool, failed: bool },
    Querying { program: Seq<char> },
    Cleaning,
}

impl View for State {
    type V = StateView;

    closed spec fn view(&self) -> StateView {
        match self {
            State::Lingering { user, spec } => StateView::Lingering { user: user@, spec: spec@ },
            State::Launching { name } => StateView::Launching { name: name@ },
            State::Shadowing { name, dir, body } => StateView::Shadowing {
                name: name@,
                dir: dir@,
                body: body@,
            },
            State::Writing { name, path } => StateView::Writing { name: name@, path: path@ },
            State::Reloading { name, path } => StateView::Reloading { name: name@, path: path@ },
            State::Discarding { code } => StateView::Discarding { code: *code },
            State::Enabling { name } => StateView::Enabling { name: name@ },
            State::Checking { name, path, after } => StateView::Checking {
                name: name@,
                path: path@,
                after: after@,
            },
            State::Disabling { name, path, after } => StateView::Disabling {
                name: name@,
                path: path@,
                after: after@,
            },
            State::Deleting { name, path, after } => StateView::Deleting {
                name: name@,
                path: path@,
                after: after@,
            },
            State::Refreshing { name, after } => StateView::Refreshing {
                name: name@,
                after: after@,
            },
            State::Stopping { name, rest } => StateView::Stopping {
                name: name@,
                rest: names_view(rest@),
            },
            State::Resetting { name, rest } => StateView::Resetting {
                name: name@,
                rest: names_view(rest@),
            },
            State::Toggling { name, rest, resume, failed } => StateView::Toggling {
                name: name@,
                rest: names_view(rest@),
                resume: *resume,
                failed: *failed,
            },
            State::Querying { program } => StateView::Querying { program: program@ },
            State::Cleaning => StateView::Cleaning,
        }
    }
}

/// A run of the program that waits for the outcome of one outside action.
pub struct Session {
    context: Context,
    state: State,
}

/// The model of a [`Session`].
#[verifier::ext_equal]
pub struct SessionView {
    pub context: ContextView,
    pub state: StateView,
}

impl View for Session {
    type V = SessionView;

    closed spec fn view(&self) -> SessionView {
        SessionView { context: self.context@, state: self.state@ }
    }
}

/// How a session goes on.
pub enum Next {
    /// It is over, with this exit code.
    Exit(u8),
    /// Do this, and [`advance`] the session by what came of it.
    Ask(Request, Session),
}

/// The model of a [`Next`].
#[verifier::ext_equal]
pub enum NextView {
    Exit(u8),
    Ask(RequestView, SessionView),
}

impl View for Next {
    type V = NextView;

    open spec fn view(&self) -> NextView {
        match self {
            Next::Exit(code) => NextView::Exit(*code),
            Next::Ask(request, session) => NextView::Ask(request@, session@),
        }
    }
}

/// One turn of a session: what to print, and then how it goes on.
pub struct Turn {
    pub emits: Vec<Emit>,
    pub next: Next,
}

/// The model of a [`Turn`].
#[verifier::ext_equal]
pub struct TurnView {
    pub emits: Seq<EmitView>,
    pub next: NextView,
}

impl View for Turn {
    type V = TurnView;

    open spec fn view(&self) -> TurnView {
        TurnView { emits: emits_view(self.emits@), next: self.next@ }
    }
}

// ---------------------------------------------------------------------------
// What each turn is
// ---------------------------------------------------------------------------

/// The session is over.
pub open spec fn exit_turn(emits: Seq<EmitView>, code: u8) -> TurnView {
    TurnView { emits, next: NextView::Exit(code) }
}

/// The session waits.
pub open spec fn ask_turn(
    context: ContextView,
    emits: Seq<EmitView>,
    request: RequestView,
    state: StateView,
) -> TurnView {
    TurnView { emits, next: NextView::Ask(request, SessionView { context, state }) }
}

/// `error: ...`
pub open spec fn error_line(message: Seq<char>) -> EmitView {
    EmitView::Report("error: "@ + message + "\n"@)
}

/// The message for a program that did not start.
pub open spec fn start_failure(program: Seq<char>, reason: Seq<char>) -> EmitView {
    error_line("cannot run "@ + program + (": "@ + reason))
}

/// `systemctl --user`
pub open spec fn systemctl_command() -> CommandView {
    CommandView::program("systemctl"@).with("--user"@)
}

/// The unit of a job.
pub open spec fn unit_of(context: ContextView, name: Seq<char>) -> Seq<char> {
    unit_name(context.prefix, name)
}

/// The unit file of a job.
pub open spec fn unit_path(context: ContextView, dir: Seq<u8>, name: Seq<char>) -> Seq<u8> {
    joined(dir, encode_utf8(unit_of(context, name)))
}

/// A usage error ends the session.
pub open spec fn usage_failure(emits: Seq<EmitView>, error: ParseErrorView) -> TurnView {
    exit_turn(emits.push(error_line(error_text(error))), EXIT_USAGE)
}

// -- remove -------------------------------------------------------------------

/// Remove the next job, if there is one.
pub open spec fn remove_turn(
    context: ContextView,
    emits: Seq<EmitView>,
    names: Seq<Seq<char>>,
) -> TurnView {
    if names.len() == 0 {
        exit_turn(emits, 0)
    } else {
        ask_turn(
            context,
            emits,
            RequestView::Capture(
                systemctl_command().with("stop"@).with(unit_of(context, names[0])),
            ),
            StateView::Stopping { name: names[0], rest: names.skip(1) },
        )
    }
}

/// The warning about a unit file that could not be deleted.
pub open spec fn undeleted_note(path: Seq<u8>, reason: Seq<char>) -> EmitView {
    EmitView::Report("warning: cannot delete "@ + text_of(path) + (": "@ + reason + "\n"@))
}

/// A job is forgotten: go on.
pub open spec fn forgotten_turn(
    context: ContextView,
    emits: Seq<EmitView>,
    name: Seq<char>,
    after: AfterView,
) -> TurnView {
    match after {
        AfterView::Exit(code) => exit_turn(emits, code),
        AfterView::Remove(names) => remove_turn(
            context,
            emits.push(EmitView::Print("removed: "@ + unit_of(context, name) + "\n"@)),
            names,
        ),
    }
}

/// Forget a job: see whether it has a unit file.
pub open spec fn forget_turn(
    context: ContextView,
    emits: Seq<EmitView>,
    name: Seq<char>,
    after: AfterView,
) -> TurnView {
    match context.unit_dir {
        None => forgotten_turn(context, emits, name, after),
        Some(dir) => {
            let path = unit_path(context, dir, name);
            ask_turn(
                context,
                emits,
                RequestView::Exists(path),
                StateView::Checking { name, path, after },
            )
        },
    }
}

// -- stop, resume -------------------------------------------------------------

/// Stop or start the next unit, if there is one.
pub open spec fn toggle_turn(
    context: ContextView,
    emits: Seq<EmitView>,
    names: Seq<Seq<char>>,
    resume: bool,
    failed: bool,
) -> TurnView {
    if names.len() == 0 {
        exit_turn(
            emits,
            if failed {
                EXIT_FAILURE
            } else {
                0
            },
        )
    } else {
        ask_turn(
            context,
            emits,
            RequestView::Forward(
                systemctl_command().with(
                    if resume {
                        "start"@
                    } else {
                        "stop"@
                    },
                ).with(unit_of(context, names[0])),
            ),
            StateView::Toggling { name: names[0], rest: names.skip(1), resume, failed },
        )
    }
}

/// The confirmation that a unit was stopped or started.
pub open spec fn toggled(context: ContextView, name: Seq<char>, resume: bool) -> EmitView {
    EmitView::Print(
        (if resume {
            "resumed: "@
        } else {
            "stopped: "@
        }) + unit_of(context, name) + "\n"@,
    )
}

// -- run ----------------------------------------------------------------------

/// The name of a job to launch.
pub open spec fn launch_name(spec: RunSpecView) -> Seq<char> {
    match spec.name {
        Some(name) => name,
        None => command_name(spec.command),
    }
}

/// The `systemd-run` call that launches a transient job.
pub open spec fn systemd_run_command(context: ContextView, spec: RunSpecView) -> CommandView {
    CommandView::program("systemd-run"@).with("--user"@).with(
        "--unit="@ + unit_of(context, launch_name(spec)),
    ).with("--collect"@).with_all(spec.systemd_opts).with_all(spec.command)
}

/// The `loginctl` call that tells whether lingering is on.
pub open spec fn linger_command(user: Seq<char>) -> CommandView {
    CommandView::program("loginctl"@).with("show-user"@).with(user).with(
        "--property=Linger"@,
    ).with("--value"@)
}

/// Before a launch: ask whether lingering is on, if the user is known.
pub open spec fn run_turn(
    context: ContextView,
    user: Option<Seq<char>>,
    spec: RunSpecView,
) -> TurnView {
    match user {
        Some(user) => ask_turn(
            context,
            Seq::empty(),
            RequestView::Capture(linger_command(user)),
            StateView::Lingering { user, spec },
        ),
        None => launch_turn(context, Seq::empty(), spec),
    }
}

/// The warning that lingering is off, where that is what `loginctl` said.
pub open spec fn linger_warning(user: Seq<char>, reply: ReplyView) -> Seq<EmitView> {
    match reply {
        ReplyView::Output(output) if trimmed(text_of(output.stdout)) == "no"@ => seq![
            EmitView::Report(
                "warning: lingering is disabled for '"@ + user
                    + "' — jobs die when your last session logs out\n"@,
            ),
            EmitView::Report("  enable it once: loginctl enable-linger "@ + user + "\n"@),
        ],
        _ => Seq::empty(),
    }
}

/// Launch a job.
pub open spec fn launch_turn(
    context: ContextView,
    emits: Seq<EmitView>,
    spec: RunSpecView,
) -> TurnView {
    if spec.persist {
        persist_turn(context, emits, spec)
    } else {
        ask_turn(
            context,
            emits,
            RequestView::Capture(systemd_run_command(context, spec)),
            StateView::Launching { name: launch_name(spec) },
        )
    }
}

/// What came of a transient launch.
pub open spec fn launched_turn(
    context: ContextView,
    name: Seq<char>,
    reply: ReplyView,
) -> TurnView {
    match reply {
        ReplyView::Output(output) => {
            let emits = seq![EmitView::Pass(output.stdout)];
            if succeeded(output.status) {
                exit_turn(emits, 0)
            } else if occurs(text_of(output.stderr), "already exists"@) {
                exit_turn(
                    emits.push(
                        error_line(
                            unit_of(context, name) + " already exists (running or failed)"@,
                        ),
                    ).push(
                        EmitView::Report(
                            "  see: bgrun logs "@ + name + (("   remove: bgrun remove "@ + name)
                                + "\n"@),
                        ),
                    ),
                    EXIT_FAILURE,
                )
            } else {
                exit_turn(
                    emits.push(EmitView::Report(text_of(output.stderr))),
                    passed_on(output.status),
                )
            }
        },
        ReplyView::Failed(reason) => exit_turn(
            seq![start_failure("systemd-run"@, reason)],
            EXIT_FAILURE,
        ),
        _ => arbitrary(),
    }
}

// -- persist ------------------------------------------------------------------

/// Persist a job: refuse what a unit file cannot hold, then ask whether a transient
/// unit has the name.
pub open spec fn persist_turn(
    context: ContextView,
    emits: Seq<EmitView>,
    spec: RunSpecView,
) -> TurnView {
    let name = launch_name(spec);
    match unsupported(spec.systemd_opts) {
        Some(word) => usage_failure(
            emits,
            ParseErrorView::UnsupportedOverride { value: text_of(word) },
        ),
        None => match context.unit_dir {
            None => usage_failure(emits, ParseErrorView::NoUnitDirectory),
            Some(dir) => ask_turn(
                context,
                emits,
                RequestView::Capture(
                    systemctl_command().with("show"@).with(unit_of(context, name)).with(
                        "--property=UnitFileState"@,
                    ).with("--value"@),
                ),
                StateView::Shadowing { name, dir, body: unit_text(name, spec) },
            ),
        },
    }
}

/// Whether `systemctl show` said that a transient unit has the name.
pub open spec fn shadowed(reply: ReplyView) -> bool {
    reply matches ReplyView::Output(output) && trimmed(text_of(output.stdout)) == "transient"@
}

/// Write the unit file, unless a transient unit has the name.
pub open spec fn write_turn(
    context: ContextView,
    name: Seq<char>,
    dir: Seq<u8>,
    body: Seq<u8>,
    reply: ReplyView,
) -> TurnView {
    let path = unit_path(context, dir, name);
    if shadowed(reply) {
        exit_turn(
            seq![
                error_line(unit_of(context, name) + " is already running as a transient job"@),
                EmitView::Report("  stop it first: bgrun remove "@ + name + "\n"@),
            ],
            EXIT_FAILURE,
        )
    } else {
        ask_turn(
            context,
            Seq::empty(),
            RequestView::WriteFile { dir, path, body },
            StateView::Writing { name, path },
        )
    }
}

/// The unit file is written: make systemd read it.
pub open spec fn written_turn(
    context: ContextView,
    name: Seq<char>,
    path: Seq<u8>,
    reply: ReplyView,
) -> TurnView {
    match reply {
        ReplyView::Done => ask_turn(
            context,
            Seq::empty(),
            RequestView::Forward(systemctl_command().with("daemon-reload"@)),
            StateView::Reloading { name, path },
        ),
        ReplyView::Failed(reason) => exit_turn(
            seq![error_line("cannot write "@ + text_of(path) + (": "@ + reason))],
            EXIT_FAILURE,
        ),
        _ => arbitrary(),
    }
}

/// The exit code of a forwarded command.
pub open spec fn reply_code(reply: ReplyView) -> u8 {
    match reply {
        ReplyView::Status(status) => passed_on(status),
        _ => EXIT_FAILURE,
    }
}

/// Whether a forwarded command succeeded.
pub open spec fn reply_ok(reply: ReplyView) -> bool {
    reply matches ReplyView::Status(status) && succeeded(status)
}

/// What is printed where a forwarded command did not start.
pub open spec fn reply_notes(program: Seq<char>, reply: ReplyView) -> Seq<EmitView> {
    match reply {
        ReplyView::Failed(reason) => seq![start_failure(program, reason)],
        _ => Seq::empty(),
    }
}

/// systemd read the unit file: enable and start the unit. Where it could not read
/// it, delete the file.
pub open spec fn reloaded_turn(
    context: ContextView,
    name: Seq<char>,
    path: Seq<u8>,
    reply: ReplyView,
) -> TurnView {
    let emits = reply_notes("systemctl"@, reply);
    if reply_ok(reply) {
        ask_turn(
            context,
            emits,
            RequestView::Forward(
                systemctl_command().with("enable"@).with("--now"@).with(unit_of(context, name)),
            ),
            StateView::Enabling { name },
        )
    } else {
        ask_turn(
            context,
            emits,
            RequestView::RemoveFile(path),
            StateView::Discarding { code: reply_code(reply) },
        )
    }
}

/// The unit is enabled. Where systemd refused it, forget the job.
pub open spec fn enabled_turn(context: ContextView, name: Seq<char>, reply: ReplyView) -> TurnView {
    let emits = reply_notes("systemctl"@, reply);
    if reply_ok(reply) {
        exit_turn(
            emits.push(
                EmitView::Print(
                    "persisted: "@ + unit_of(context, name) + " (starts on every boot)\n"@,
                ),
            ),
            reply_code(reply),
        )
    } else {
        forget_turn(context, emits, name, AfterView::Exit(reply_code(reply)))
    }
}

// -- clean --------------------------------------------------------------------

/// What came of resetting the failure records.
pub open spec fn cleaned_turn(context: ContextView, reply: ReplyView) -> TurnView {
    match reply {
        ReplyView::Output(output) => if succeeded(output.status) {
            exit_turn(
                seq![
                    EmitView::Print(
                        "forgot failed "@ + context.prefix
                            + " units (successful jobs are collected automatically)\n"@,
                    ),
                ],
                0,
            )
        } else {
            exit_turn(
                seq![EmitView::Report(text_of(output.stderr))],
                passed_on(output.status),
            )
        },
        ReplyView::Failed(reason) => exit_turn(
            seq![start_failure("systemctl"@, reason)],
            EXIT_FAILURE,
        ),
        _ => arbitrary(),
    }
}

// -- all ----------------------------------------------------------------------

/// Whether a reply is of a kind that a state waits for.
pub open spec fn fits(state: StateView, reply: ReplyView) -> bool {
    match state {
        StateView::Lingering { .. }
        | StateView::Launching { .. }
        | StateView::Shadowing { .. }
        | StateView::Stopping { .. }
        | StateView::Resetting { .. }
        | StateView::Cleaning => reply is Output || reply is Failed,
        StateView::Reloading { .. }
        | StateView::Enabling { .. }
        | StateView::Disabling { .. }
        | StateView::Refreshing { .. }
        | StateView::Toggling { .. }
        | StateView::Querying { .. } => reply is Status || reply is Failed,
        StateView::Writing { .. }
        | StateView::Discarding { .. }
        | StateView::Deleting { .. } => reply is Done || reply is Failed,
        StateView::Checking { .. } => reply is Exists,
    }
}

/// Whether a turn that waits does so in a state that takes every reply its request
/// can get.
pub open spec fn waits_rightly(turn: TurnView) -> bool {
    turn.next matches NextView::Ask(request, session) ==> forall|reply: ReplyView| #[trigger]
        answers(request, reply) ==> fits(session.state, reply)
}

/// The turn that follows a reply.
pub open spec fn turn_after(session: SessionView, reply: ReplyView) -> TurnView {
    let context = session.context;
    match session.state {
        StateView::Lingering { user, spec } => launch_turn(
            context,
            linger_warning(user, reply),
            spec,
        ),
        StateView::Launching { name } => launched_turn(context, name, reply),
        StateView::Shadowing { name, dir, body } => write_turn(context, name, dir, body, reply),
        StateView::Writing { name, path } => written_turn(context, name, path, reply),
        StateView::Reloading { name, path } => reloaded_turn(context, name, path, reply),
        StateView::Discarding { code } => exit_turn(Seq::empty(), code),
        StateView::Enabling { name } => enabled_turn(context, name, reply),
        StateView::Checking { name, path, after } => if reply == ReplyView::Exists(true) {
            ask_turn(
                context,
                Seq::empty(),
                RequestView::Forward(
                    systemctl_command().with("disable"@).with(unit_of(context, name)),
                ),
                StateView::Disabling { name, path, after },
            )
        } else {
            forgotten_turn(context, Seq::empty(), name, after)
        },
        StateView::Disabling { name, path, after } => ask_turn(
            context,
            reply_notes("systemctl"@, reply),
            RequestView::RemoveFile(path),
            StateView::Deleting { name, path, after },
        ),
        StateView::Deleting { name, path, after } => match reply {
            ReplyView::Failed(reason) => forgotten_turn(
                context,
                seq![undeleted_note(path, reason)],
                name,
                after,
            ),
            _ => ask_turn(
                context,
                Seq::empty(),
                RequestView::Forward(systemctl_command().with("daemon-reload"@)),
                StateView::Refreshing { name, after },
            ),
        },
        StateView::Refreshing { name, after } => forgotten_turn(
            context,
            reply_notes("systemctl"@, reply),
            name,
            after,
        ),
        StateView::Stopping { name, rest } => ask_turn(
            context,
            Seq::empty(),
            RequestView::Capture(
                systemctl_command().with("reset-failed"@).with(unit_of(context, name)),
            ),
            StateView::Resetting { name, rest },
        ),
        StateView::Resetting { name, rest } => forget_turn(
            context,
            Seq::empty(),
            name,
            AfterView::Remove(rest),
        ),
        StateView::Toggling { name, rest, resume, failed } => if reply_ok(reply) {
            toggle_turn(context, seq![toggled(context, name, resume)], rest, resume, failed)
        } else {
            toggle_turn(context, reply_notes("systemctl"@, reply), rest, resume, true)
        },
        StateView::Querying { program } => exit_turn(
            reply_notes(program, reply),
            reply_code(reply),
        ),
        StateView::Cleaning => cleaned_turn(context, reply),
    }
}

/// The turn that an action starts with.
pub open spec fn action_turn(
    context: ContextView,
    user: Option<Seq<char>>,
    action: ActionView,
    forget: bool,
) -> TurnView {
    match action {
        ActionView::Help => exit_turn(seq![EmitView::Print(help_text(context.prefix))], 0),
        ActionView::Run(spec) => run_turn(context, user, spec),
        ActionView::List => ask_turn(
            context,
            Seq::empty(),
            RequestView::Forward(
                systemctl_command().with("list-units"@).with(unit_glob(context.prefix)).with(
                    "--all"@,
                ).with("--no-pager"@),
            ),
            StateView::Querying { program: "systemctl"@ },
        ),
        ActionView::Status(name) => ask_turn(
            context,
            Seq::empty(),
            RequestView::Forward(
                systemctl_command().with("status"@).with(unit_of(context, name)),
            ),
            StateView::Querying { program: "systemctl"@ },
        ),
        ActionView::Logs { name, journalctl_opts } => ask_turn(
            context,
            Seq::empty(),
            RequestView::Forward(
                CommandView::program("journalctl"@).with("--user"@).with("-u"@).with(
                    unit_of(context, name),
                ).with_all(journalctl_opts),
            ),
            StateView::Querying { program: "journalctl"@ },
        ),
        ActionView::Remove(names) => if forget {
            remove_turn(context, Seq::empty(), names)
        } else {
            toggle_turn(context, Seq::empty(), names, false, false)
        },
        ActionView::Resume(names) => toggle_turn(context, Seq::empty(), names, true, false),
        ActionView::Clean => ask_turn(
            context,
            Seq::empty(),
            RequestView::Capture(
                systemctl_command().with("reset-failed"@).with(unit_glob(context.prefix)),
            ),
            StateView::Cleaning,
        ),
    }
}

/// The prefix that the environment asks for.
pub open spec fn prefix_text(value: Option<Seq<char>>) -> Seq<char> {
    match value {
        Some(raw) => raw,
        None => "bgrun"@,
    }
}

/// The turn that a session starts with.
pub open spec fn first_turn(
    prefix: Option<Seq<char>>,
    user: Option<Seq<char>>,
    unit_dir: Option<Seq<u8>>,
    args: Seq<Seq<u8>>,
) -> TurnView {
    if prefix is Some && !valid_prefix(prefix->0) {
        usage_failure(Seq::empty(), ParseErrorView::InvalidPrefix { value: prefix->0 })
    } else {
        match action_of(args) {
            Err(error) => usage_failure(Seq::empty(), error),
            Ok(action) => action_turn(
                ContextView { prefix: prefix_text(prefix), unit_dir },
                user,
                action,
                forgets(args),
            ),
        }
    }
}

// ---------------------------------------------------------------------------
// Taking turns
// ---------------------------------------------------------------------------

/// Adds a piece of output.
fn and(emits: Vec<Emit>, emit: Emit) -> (res: Vec<Emit>)
    ensures
        emits_view(res@) == emits_view(emits@).push(emit@),
{
    let ghost before = emits_view(emits@);
    let mut res = emits;
    res.push(emit);
    assert(emits_view(res@) =~= before.push(emit@));
    res
}

/// No output.
fn quiet() -> (res: Vec<Emit>)
    ensures
        emits_view(res@) == Seq::<EmitView>::empty(),
{
    let res: Vec<Emit> = Vec::new();
    assert(emits_view(res@) =~= Seq::empty());
    res
}

/// One piece of output.
fn only(emit: Emit) -> (res: Vec<Emit>)
    ensures
        emits_view(res@) == seq![emit@],
{
    let res = and(quiet(), emit);
    assert(emits_view(res@) =~= seq![emit@]);
    res
}

fn concat2(head: &str, tail: &str) -> (res: String)
    ensures
        res@ == head@ + tail@,
{
    let mut res = head.to_owned();
    res.append(tail);
    res
}

fn error_emit(message: &str) -> (res: Emit)
    ensures
        res@ == error_line(message@),
{
    Emit::Report(concat3("error: ", message, "\n"))
}

fn spawn_failed(program: &str, reason: &str) -> (res: Emit)
    ensures
        res@ == start_failure(program@, reason@),
{
    let tail = concat2(": ", reason);
    error_emit(concat3("cannot run ", program, tail.as_str()).as_str())
}

fn exit(emits: Vec<Emit>, code: u8) -> (res: Turn)
    ensures
        res@ == exit_turn(emits_view(emits@), code),
{
    Turn { emits, next: Next::Exit(code) }
}

fn ask(context: Context, emits: Vec<Emit>, request: Request, state: State) -> (res: Turn)
    ensures
        res@ == ask_turn(context@, emits_view(emits@), request@, state@),
{
    Turn { emits, next: Next::Ask(request, Session { context, state }) }
}

fn systemctl() -> (res: CommandLine)
    ensures
        res@ == systemctl_command(),
{
    CommandLine::new("systemctl").arg("--user")
}

/// A usage error ends the session.
fn fail(emits: Vec<Emit>, error: &ParseError) -> (res: Turn)
    ensures
        res@ == usage_failure(emits_view(emits@), error@),
{
    exit(and(emits, error_emit(error.to_string().as_str())), ExitCodes::usage())
}

/// The unit file of a job.
fn path_of(context: &Context, dir: &[u8], name: &JobName) -> (res: Vec<u8>)
    ensures
        res@ == unit_path(context@, dir@, name@),
{
    let unit = context.prefix.unit(name);
    proof {
        lemma_unit_is_file_name(context@.prefix, name@);
    }
    join_text(dir, unit.as_str())
}

fn remove(context: Context, emits: Vec<Emit>, names: Vec<JobName>) -> (res: Turn)
    ensures
        res@ == remove_turn(context@, emits_view(emits@), names_view(names@)),
{
    let ghost all = names_view(names@);
    let mut rest = names;
    if rest.len() == 0 {
        return exit(emits, 0);
    }
    let name = rest.remove(0);
    assert(names_view(rest@) =~= all.skip(1));
    let unit = context.prefix.unit(&name);
    let request = Request::Capture(systemctl().arg("stop").arg(unit.as_str()));
    ask(context, emits, request, State::Stopping { name, rest })
}

fn forgotten(context: Context, emits: Vec<Emit>, name: &JobName, after: After) -> (res: Turn)
    ensures
        res@ == forgotten_turn(context@, emits_view(emits@), name@, after@),
{
    match after {
        After::Exit(code) => exit(emits, code),
        After::Remove(names) => {
            let unit = context.prefix.unit(name);
            let done = Emit::Print(concat3("removed: ", unit.as_str(), "\n"));
            remove(context, and(emits, done), names)
        },
    }
}

/// Disable and delete a persisted job's unit file, so it does not come back at the
/// next boot. A transient job has no file on disk, so nothing happens to it.
fn forget(context: Context, emits: Vec<Emit>, name: JobName, after: After) -> (res: Turn)
    ensures
        res@ == forget_turn(context@, emits_view(emits@), name@, after@),
{
    let path = match &context.unit_dir {
        Some(dir) => path_of(&context, dir.as_slice(), &name),
        None => return forgotten(context, emits, &name, after),
    };
    let request = Request::Exists(copy_bytes(path.as_slice()));
    ask(context, emits, request, State::Checking { name, path, after })
}

fn toggle(
    context: Context,
    emits: Vec<Emit>,
    names: Vec<JobName>,
    resume: bool,
    failed: bool,
) -> (res: Turn)
    ensures
        res@ == toggle_turn(context@, emits_view(emits@), names_view(names@), resume, failed),
{
    let ghost all = names_view(names@);
    let mut rest = names;
    if rest.len() == 0 {
        return exit(
            emits,
            if failed {
                ExitCodes::failure()
            } else {
                0
            },
        );
    }
    let name = rest.remove(0);
    assert(names_view(rest@) =~= all.skip(1));
    let unit = context.prefix.unit(&name);
    let verb = if resume {
        "start"
    } else {
        "stop"
    };
    let request = Request::Forward(systemctl().arg(verb).arg(unit.as_str()));
    ask(context, emits, request, State::Toggling { name, rest, resume, failed })
}

fn name_of(spec: &RunSpec) -> (res: JobName)
    ensures
        res@ == launch_name(spec@),
{
    match &spec.name {
        Some(name) => name.clone(),
        None => JobName::from_command(spec.command.as_slice()),
    }
}

/// Back the job with a real unit file so it starts on every boot. Nothing transient
/// can do this.
fn persist(context: Context, emits: Vec<Emit>, spec: RunSpec) -> (res: Turn)
    ensures
        res@ == persist_turn(context@, emits_view(emits@), spec@),
{
    let name = name_of(&spec);
    let body = match unit_file(&name, &spec) {
        Ok(body) => body,
        Err(error) => return fail(emits, &error),
    };
    let dir = match &context.unit_dir {
        Some(dir) => copy_bytes(dir.as_slice()),
        None => return fail(emits, &ParseError::NoUnitDirectory),
    };
    let unit = context.prefix.unit(&name);
    let request = Request::Capture(
        systemctl().arg("show").arg(unit.as_str()).arg("--property=UnitFileState").arg("--value"),
    );
    ask(context, emits, request, State::Shadowing { name, dir, body })
}

fn launch(context: Context, emits: Vec<Emit>, spec: RunSpec) -> (res: Turn)
    ensures
        res@ == launch_turn(context@, emits_view(emits@), spec@),
{
    if spec.persist {
        return persist(context, emits, spec);
    }
    let name = name_of(&spec);
    let unit = context.prefix.unit(&name);
    // systemd-run itself rejects a duplicate unit name, so the check and the
    // creation cannot race.
    let line = CommandLine::new("systemd-run").arg("--user").arg(
        concat2("--unit=", unit.as_str()).as_str(),
    ).arg("--collect").args(&spec.systemd_opts).args(&spec.command);
    ask(context, emits, Request::Capture(line), State::Launching { name })
}

/// Launches a job, after a best-effort warning: user units die with the user's last
/// session unless lingering is enabled. The warning never blocks starting a job.
fn run(context: Context, user: &Option<String>, spec: RunSpec) -> (res: Turn)
    ensures
        res@ == run_turn(context@, string_view(*user), spec@),
{
    match user {
        Some(user) => {
            let line = CommandLine::new("loginctl").arg("show-user").arg(user.as_str()).arg(
                "--property=Linger",
            ).arg("--value");
            let state = State::Lingering { user: user.clone(), spec };
            ask(context, quiet(), Request::Capture(line), state)
        },
        None => launch(context, quiet(), spec),
    }
}

fn warn_if_not_lingering(user: &str, reply: &Reply) -> (res: Vec<Emit>)
    ensures
        emits_view(res@) == linger_warning(user@, reply@),
{
    match reply {
        Reply::Output(output) => if trims_to(lossy(output.stdout.as_slice()).as_str(), "no") {
            let res = and(
                only(
                    Emit::Report(
                        concat3(
                            "warning: lingering is disabled for '",
                            user,
                            "' — jobs die when your last session logs out\n",
                        ),
                    ),
                ),
                Emit::Report(concat3("  enable it once: loginctl enable-linger ", user, "\n")),
            );
            assert(emits_view(res@) =~= linger_warning(user@, reply@));
            res
        } else {
            quiet()
        },
        _ => quiet(),
    }
}

fn launched(context: &Context, name: &JobName, reply: Reply) -> (res: Turn)
    requires
        reply is Output || reply is Failed,
    ensures
        res@ == launched_turn(context@, name@, reply@),
{
    match reply {
        Reply::Output(output) => {
            let status = output.status;
            let text = lossy(output.stderr.as_slice());
            // systemd-run's confirmation belongs to the user.
            let emits = only(Emit::Pass(output.stdout));
            if is_success(status) {
                return exit(emits, 0);
            }
            if contains_text(text.as_str(), "already exists") {
                let unit = context.prefix.unit(name);
                let first = concat2(unit.as_str(), " already exists (running or failed)");
                let tail = concat3("   remove: bgrun remove ", name.as_str(), "\n");
                let second = concat3("  see: bgrun logs ", name.as_str(), tail.as_str());
                let emits = and(and(emits, error_emit(first.as_str())), Emit::Report(second));
                return exit(emits, ExitCodes::failure());
            }
            exit(and(emits, Emit::Report(text)), ExitCodes::of_status(status))
        },
        Reply::Failed(reason) => exit(
            only(spawn_failed("systemd-run", reason.as_str())),
            ExitCodes::failure(),
        ),
        _ => exit(quiet(), ExitCodes::failure()),
    }
}

/// Whether a transient unit of this name is currently loaded. Persisting over one is
/// impossible: the manager keeps the name, and `systemctl enable` refuses it.
fn transient_shadow(reply: &Reply) -> (res: bool)
    ensures
        res == shadowed(reply@),
{
    match reply {
        Reply::Output(output) => trims_to(lossy(output.stdout.as_slice()).as_str(), "transient"),
        _ => false,
    }
}

fn write(context: Context, name: JobName, dir: Vec<u8>, body: Vec<u8>, reply: &Reply) -> (res: Turn)
    ensures
        res@ == write_turn(context@, name@, dir@, body@, reply@),
{
    let path = path_of(&context, dir.as_slice(), &name);
    if transient_shadow(reply) {
        let unit = context.prefix.unit(&name);
        let first = concat2(unit.as_str(), " is already running as a transient job");
        let second = concat3("  stop it first: bgrun remove ", name.as_str(), "\n");
        let emits = and(only(error_emit(first.as_str())), Emit::Report(second));
        let res = exit(emits, ExitCodes::failure());
        assert(res@.emits =~= write_turn(context@, name@, dir@, body@, reply@).emits);
        return res;
    }
    let request = Request::WriteFile { dir, path: copy_bytes(path.as_slice()), body };
    ask(context, quiet(), request, State::Writing { name, path })
}

fn written(context: Context, name: JobName, path: Vec<u8>, reply: Reply) -> (res: Turn)
    requires
        reply is Done || reply is Failed,
    ensures
        res@ == written_turn(context@, name@, path@, reply@),
{
    match reply {
        Reply::Done => ask(
            context,
            quiet(),
            Request::Forward(systemctl().arg("daemon-reload")),
            State::Reloading { name, path },
        ),
        Reply::Failed(reason) => {
            let shown = lossy(path.as_slice());
            let tail = concat2(": ", reason.as_str());
            let message = concat3("cannot write ", shown.as_str(), tail.as_str());
            exit(only(error_emit(message.as_str())), ExitCodes::failure())
        },
        _ => exit(quiet(), ExitCodes::failure()),
    }
}

fn code_of(reply: &Reply) -> (res: u8)
    ensures
        res == reply_code(reply@),
{
    match reply {
        Reply::Status(status) => ExitCodes::of_status(*status),
        _ => ExitCodes::failure(),
    }
}

fn is_ok(reply: &Reply) -> (res: bool)
    ensures
        res == reply_ok(reply@),
{
    match reply {
        Reply::Status(status) => is_success(*status),
        _ => false,
    }
}

fn notes(program: &str, reply: &Reply) -> (res: Vec<Emit>)
    ensures
        emits_view(res@) == reply_notes(program@, reply@),
{
    match reply {
        Reply::Failed(reason) => only(spawn_failed(program, reason.as_str())),
        _ => quiet(),
    }
}

fn reloaded(context: Context, name: JobName, path: Vec<u8>, reply: &Reply) -> (res: Turn)
    ensures
        res@ == reloaded_turn(context@, name@, path@, reply@),
{
    let emits = notes("systemctl", reply);
    if !is_ok(reply) {
        let state = State::Discarding { code: code_of(reply) };
        return ask(context, emits, Request::RemoveFile(path), state);
    }
    let unit = context.prefix.unit(&name);
    // `--now` starts the job immediately, so persisting behaves like a plain launch
    // plus a boot hook.
    let request = Request::Forward(systemctl().arg("enable").arg("--now").arg(unit.as_str()));
    ask(context, emits, request, State::Enabling { name })
}

fn enabled(context: Context, name: JobName, reply: &Reply) -> (res: Turn)
    ensures
        res@ == enabled_turn(context@, name@, reply@),
{
    let emits = notes("systemctl", reply);
    let code = code_of(reply);
    if !is_ok(reply) {
        // A unit file systemd refuses would otherwise be retried at every boot.
        return forget(context, emits, name, After::Exit(code));
    }
    let unit = context.prefix.unit(&name);
    let done = concat3("persisted: ", unit.as_str(), " (starts on every boot)\n");
    exit(and(emits, Emit::Print(done)), code)
}

fn cleaned(context: &Context, reply: Reply) -> (res: Turn)
    requires
        reply is Output || reply is Failed,
    ensures
        res@ == cleaned_turn(context@, reply@),
{
    match reply {
        Reply::Output(output) => if is_success(output.status) {
            let done = concat3(
                "forgot failed ",
                context.prefix.as_str(),
                " units (successful jobs are collected automatically)\n",
            );
            exit(only(Emit::Print(done)), 0)
        } else {
            exit(
                only(Emit::Report(lossy(output.stderr.as_slice()))),
                ExitCodes::of(&output),
            )
        },
        Reply::Failed(reason) => exit(
            only(spawn_failed("systemctl", reason.as_str())),
            ExitCodes::failure(),
        ),
        _ => exit(quiet(), ExitCodes::failure()),
    }
}

/// Whether a reply is of a kind that a session can be advanced by.
pub fn accepts(session: &Session, reply: &Reply) -> (res: bool)
    ensures
        res == fits(session@.state, reply@),
{
    match &session.state {
        State::Lingering { .. }
        | State::Launching { .. }
        | State::Shadowing { .. }
        | State::Stopping { .. }
        | State::Resetting { .. }
        | State::Cleaning => match reply {
            Reply::Output(_) | Reply::Failed(_) => true,
            _ => false,
        },
        State::Reloading { .. }
        | State::Enabling { .. }
        | State::Disabling { .. }
        | State::Refreshing { .. }
        | State::Toggling { .. }
        | State::Querying { .. } => match reply {
            Reply::Status(_) | Reply::Failed(_) => true,
            _ => false,
        },
        State::Writing { .. } | State::Discarding { .. } | State::Deleting { .. } => match reply {
            Reply::Done | Reply::Failed(_) => true,
            _ => false,
        },
        State::Checking { .. } => match reply {
            Reply::Exists(_) => true,
            _ => false,
        },
    }
}

/// Takes what came of the last request, and says what to do next.
pub fn advance(session: Session, reply: Reply) -> (res: Turn)
    requires
        fits(session@.state, reply@),
    ensures
        res@ == turn_after(session@, reply@),
        waits_rightly(res@),
{
    let ghost start = session@;
    let ghost heard = reply@;
    let Session { context, state } = session;
    let turn = match state {
        State::Lingering { user, spec } => {
            let emits = warn_if_not_lingering(user.as_str(), &reply);
            launch(context, emits, spec)
        },
        State::Launching { name } => launched(&context, &name, reply),
        State::Shadowing { name, dir, body } => write(context, name, dir, body, &reply),
        State::Writing { name, path } => written(context, name, path, reply),
        State::Reloading { name, path } => reloaded(context, name, path, &reply),
        State::Discarding { code } => exit(quiet(), code),
        State::Enabling { name } => enabled(context, name, &reply),
        State::Checking { name, path, after } => {
            let found = match reply {
                Reply::Exists(found) => found,
                _ => false,
            };
            if found {
                let unit = context.prefix.unit(&name);
                let request = Request::Forward(systemctl().arg("disable").arg(unit.as_str()));
                ask(context, quiet(), request, State::Disabling { name, path, after })
            } else {
                forgotten(context, quiet(), &name, after)
            }
        },
        State::Disabling { name, path, after } => {
            let request = Request::RemoveFile(copy_bytes(path.as_slice()));
            let emits = notes("systemctl", &reply);
            ask(context, emits, request, State::Deleting { name, path, after })
        },
        State::Deleting { name, path, after } => match reply {
            Reply::Failed(reason) => {
                let shown = lossy(path.as_slice());
                let tail = concat3(": ", reason.as_str(), "\n");
                let warning = concat3("warning: cannot delete ", shown.as_str(), tail.as_str());
                forgotten(context, only(Emit::Report(warning)), &name, after)
            },
            _ => ask(
                context,
                quiet(),
                Request::Forward(systemctl().arg("daemon-reload")),
                State::Refreshing { name, after },
            ),
        },
        State::Refreshing { name, after } => {
            forgotten(context, notes("systemctl", &reply), &name, after)
        },
        State::Stopping { name, rest } => {
            // Stopping a dead unit and resetting an unfailed unit are both no-ops;
            // what they reply carries no signal here.
            let unit = context.prefix.unit(&name);
            let request = Request::Capture(systemctl().arg("reset-failed").arg(unit.as_str()));
            ask(context, quiet(), request, State::Resetting { name, rest })
        },
        State::Resetting { name, rest } => forget(context, quiet(), name, After::Remove(rest)),
        State::Toggling { name, rest, resume, failed } => if is_ok(&reply) {
            let unit = context.prefix.unit(&name);
            let head = if resume {
                "resumed: "
            } else {
                "stopped: "
            };
            let done = Emit::Print(concat3(head, unit.as_str(), "\n"));
            toggle(context, only(done), rest, resume, failed)
        } else {
            toggle(context, notes("systemctl", &reply), rest, resume, true)
        },
        State::Querying { program } => exit(
            notes(program.as_str(), &reply),
            code_of(&reply),
        ),
        State::Cleaning => cleaned(&context, reply),
    };
    assert(turn@ == turn_after(start, heard));
    turn
}

/// Reads the environment and the command line (without the program name), and says
/// what to do first.
pub fn begin(environment: &Environment, args: &[Vec<u8>]) -> (res: Turn)
    ensures
        res@ == first_turn(
            string_view(environment.prefix),
            string_view(environment.user),
            unit_dir(bytes_view(environment.config_home), bytes_view(environment.home)),
            words(args@),
        ),
        waits_rightly(res@),
{
    let value = match &environment.prefix {
        Some(raw) => Some(raw.as_str()),
        None => None,
    };
    let prefix = match Prefix::from_env(value) {
        Ok(prefix) => prefix,
        Err(error) => return fail(quiet(), &error),
    };
    let invocation = match parse_invocation(args) {
        Ok(invocation) => invocation,
        Err(error) => return fail(quiet(), &error),
    };
    let unit_dir = user_unit_dir(&environment.config_home, &environment.home);
    let context = Context { prefix, unit_dir };
    match invocation.action {
        Action::Help => {
            let text = help(&context.prefix);
            exit(only(Emit::Print(text)), 0)
        },
        Action::Run(spec) => run(context, &environment.user, spec),
        Action::List => {
            let glob = context.prefix.glob();
            let request = Request::Forward(
                systemctl().arg("list-units").arg(glob.as_str()).arg("--all").arg("--no-pager"),
            );
            ask(context, quiet(), request, State::Querying { program: "systemctl".to_owned() })
        },
        Action::Status(name) => {
            let unit = context.prefix.unit(&name);
            let request = Request::Forward(systemctl().arg("status").arg(unit.as_str()));
            ask(context, quiet(), request, State::Querying { program: "systemctl".to_owned() })
        },
        Action::Logs { name, journalctl_opts } => {
            let unit = context.prefix.unit(&name);
            let request = Request::Forward(
                CommandLine::new("journalctl").arg("--user").arg("-u").arg(unit.as_str()).args(
                    &journalctl_opts,
                ),
            );
            ask(context, quiet(), request, State::Querying { program: "journalctl".to_owned() })
        },
        Action::Remove(names) => if invocation.forget {
            remove(context, quiet(), names)
        } else {
            toggle(context, quiet(), names, false, false)
        },
        Action::Resume(names) => toggle(context, quiet(), names, true, false),
        Action::Clean => {
            let glob = context.prefix.glob();
            let request = Request::Capture(systemctl().arg("reset-failed").arg(glob.as_str()));
            ask(context, quiet(), request, State::Cleaning)
        },
    }
}

// ---------------------------------------------------------------------------
// Laws
// ---------------------------------------------------------------------------

/// The model of the environment and of a turn holds all of it: what is set and to what,
/// every piece of output, the request and the exit code.
pub proof fn turns_are_modelled_whole(
    text: String,
    bytes: Vec<u8>,
    turn: Turn,
    request: Request,
    session: Session,
    code: u8,
)
    ensures
        string_view(Some(text)) == Some(text@),
        string_view(None) is None,
        bytes_view(Some(bytes)) == Some(bytes@),
        bytes_view(None) is None,
        turn@.emits == emits_view(turn.emits@),
        turn@.next == turn.next@,
        Next::Exit(code)@ == NextView::Exit(code),
        Next::Ask(request, session)@ == NextView::Ask(request@, session@),
{
}

} // verus!
