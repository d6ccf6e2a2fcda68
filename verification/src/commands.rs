//! What each command does, from the words of the command line to the exit code: every
//! call by its program and arguments, and every line that is printed.

use vstd::prelude::*;
use vstd::utf8::encode_utf8;

use crate::cli::{
    action_of, forgets, jobs_of, launch_errors, launch_is_read_as_written, ActionView, RunSpecView,
};
use crate::error::{debug_text, error_text, errors_are_spelled_out, ParseErrorView};
use crate::help::{HELP_BODY, HELP_END, HELP_USAGE};
use crate::name::{
    job_names_keep_what_is_allowed, letter_or_digit,
    prefixes_are_letters_digits_hyphens_and_underscores, stands_for, valid_prefix,
};
use crate::request::{CommandView, EmitView, ReplyView, RequestView};
use crate::session::{
    action_turn, cleaned_turn, first_turn, fits, toggle_turn, turn_after, ContextView, NextView,
    SessionView, StateView, TurnView,
};
use crate::text::{text_of, text_round_trip};
use crate::trace::{
    ends_with, last_turn, lemma_one_reply_each, lemma_over, lemma_play, lemma_reply, output, plays,
    requests, some_call_failed, toggle_output, toggle_request, toggling_is_one_call_for_each_name,
};

verus! {

// ---------------------------------------------------------------------------
// Reading the command line
// ---------------------------------------------------------------------------

/// Whether these are the jobs that words name, one for each word and in order.
pub open spec fn names_every(jobs: Seq<Seq<char>>, words: Seq<Seq<u8>>) -> bool {
    &&& jobs.len() == words.len()
    &&& forall|i: int| 0 <= i < words.len() ==> stands_for(#[trigger] jobs[i], text_of(words[i]))
}

/// The first words of the commands are told apart by these characters.
proof fn lemma_verbs()
    ensures
        "help"@.len() == 4 && "help"@[0] == 'h',
        "-h"@.len() == 2 && "-h"@[0] == '-',
        "--help"@.len() == 6 && "--help"@[0] == '-',
        "add"@.len() == 3 && "add"@[0] == 'a',
        "list"@.len() == 4 && "list"@[0] == 'l' && "list"@[1] == 'i',
        "clean"@.len() == 5 && "clean"@[0] == 'c',
        "status"@.len() == 6 && "status"@[0] == 's',
        "logs"@.len() == 4 && "logs"@[0] == 'l' && "logs"@[1] == 'o',
        "stop"@.len() == 4 && "stop"@[0] == 's',
        "remove"@.len() == 6 && "remove"@[0] == 'r' && "remove"@[2] == 'm',
        "resume"@.len() == 6 && "resume"@[0] == 'r' && "resume"@[2] == 's',
{
    reveal_strlit("help");
    reveal_strlit("-h");
    reveal_strlit("--help");
    reveal_strlit("add");
    reveal_strlit("list");
    reveal_strlit("clean");
    reveal_strlit("status");
    reveal_strlit("logs");
    reveal_strlit("stop");
    reveal_strlit("remove");
    reveal_strlit("resume");
}

/// Words have these jobs and no others.
proof fn lemma_names_every(jobs: Seq<Seq<char>>, words: Seq<Seq<u8>>)
    requires
        names_every(jobs, words),
    ensures
        jobs_of(words) == jobs,
{
    assert forall|i: int| 0 <= i < words.len() implies jobs_of(words)[i] == jobs[i] by {
        job_names_keep_what_is_allowed(jobs[i], text_of(words[i]));
    }
    assert(jobs_of(words) =~= jobs);
}

/// `stop`, `remove` and `resume` take every word that follows as a job, and need one;
/// only `remove` forgets.
pub proof fn every_job_is_named(jobs: Seq<Seq<char>>, words: Seq<Seq<u8>>)
    requires
        names_every(jobs, words),
    ensures
        words.len() > 0 ==> {
            &&& action_of(seq![encode_utf8("stop"@)] + words) == Ok::<_, ParseErrorView>(
                ActionView::Remove(jobs),
            )
            &&& action_of(seq![encode_utf8("remove"@)] + words) == Ok::<_, ParseErrorView>(
                ActionView::Remove(jobs),
            )
            &&& action_of(seq![encode_utf8("resume"@)] + words) == Ok::<_, ParseErrorView>(
                ActionView::Resume(jobs),
            )
        },
        forgets(seq![encode_utf8("remove"@)] + words),
        !forgets(seq![encode_utf8("stop"@)] + words),
        !forgets(seq![encode_utf8("resume"@)] + words),
        action_of(seq![encode_utf8("stop"@)]) == Err::<ActionView, _>(
            ParseErrorView::MissingArgument { action: "stop"@ },
        ),
        action_of(seq![encode_utf8("remove"@)]) == Err::<ActionView, _>(
            ParseErrorView::MissingArgument { action: "remove"@ },
        ),
        action_of(seq![encode_utf8("resume"@)]) == Err::<ActionView, _>(
            ParseErrorView::MissingArgument { action: "resume"@ },
        ),
{
    lemma_verbs();
    lemma_names_every(jobs, words);
    text_round_trip("stop"@);
    text_round_trip("remove"@);
    text_round_trip("resume"@);
    assert((seq![encode_utf8("stop"@)] + words).skip(1) =~= words);
    assert((seq![encode_utf8("remove"@)] + words).skip(1) =~= words);
    assert((seq![encode_utf8("resume"@)] + words).skip(1) =~= words);
}

/// `logs` takes one job, and every word behind it as an option for `journalctl`.
pub proof fn logs_takes_a_job_and_options(
    job: Seq<char>,
    word: Seq<u8>,
    options: Seq<Seq<u8>>,
)
    requires
        stands_for(job, text_of(word)),
    ensures
        action_of(seq![encode_utf8("logs"@), word] + options) == Ok::<_, ParseErrorView>(
            ActionView::Logs { name: job, journalctl_opts: options },
        ),
        action_of(seq![encode_utf8("logs"@)]) == Err::<ActionView, _>(
            ParseErrorView::MissingArgument { action: "logs"@ },
        ),
{
    lemma_verbs();
    text_round_trip("logs"@);
    job_names_keep_what_is_allowed(job, text_of(word));
    let args = seq![encode_utf8("logs"@), word] + options;
    assert(args.skip(1).skip(1) =~= options);
    assert(args.skip(1)[0] == word);
}

/// `status` takes exactly one job; `list` and `clean` take no word.
pub proof fn queries_take_no_more_than_they_need(
    job: Seq<char>,
    word: Seq<u8>,
    extra: Seq<Seq<u8>>,
)
    requires
        stands_for(job, text_of(word)),
    ensures
        action_of(seq![encode_utf8("status"@), word]) == Ok::<_, ParseErrorView>(
            ActionView::Status(job),
        ),
        action_of(seq![encode_utf8("list"@)]) == Ok::<_, ParseErrorView>(ActionView::List),
        action_of(seq![encode_utf8("clean"@)]) == Ok::<_, ParseErrorView>(ActionView::Clean),
        action_of(seq![encode_utf8("status"@)]) == Err::<ActionView, _>(
            ParseErrorView::MissingArgument { action: "status"@ },
        ),
        extra.len() > 0 ==> {
            &&& action_of(seq![encode_utf8("status"@), word] + extra) == Err::<ActionView, _>(
                ParseErrorView::UnexpectedArgument { action: "status"@ },
            )
            &&& action_of(seq![encode_utf8("list"@)] + extra) == Err::<ActionView, _>(
                ParseErrorView::UnexpectedArgument { action: "list"@ },
            )
            &&& action_of(seq![encode_utf8("clean"@)] + extra) == Err::<ActionView, _>(
                ParseErrorView::UnexpectedArgument { action: "clean"@ },
            )
        },
{
    lemma_verbs();
    text_round_trip("status"@);
    text_round_trip("list"@);
    text_round_trip("clean"@);
    job_names_keep_what_is_allowed(job, text_of(word));
}

/// Whether a text starts with a hyphen.
pub open spec fn looks_like_an_option(text: Seq<char>) -> bool {
    text.len() > 0 && text[0] == '-'
}

/// No word at all, `help`, `-h` and `--help` ask for help, whatever follows; any other
/// first word that is no command, and starts no launch, is unknown.
pub proof fn other_words_are_help_or_unknown(args: Seq<Seq<u8>>)
    ensures
        args.len() == 0 ==> action_of(args) == Ok::<_, ParseErrorView>(ActionView::Help),
        args.len() > 0 && (text_of(args[0]) == "help"@ || text_of(args[0]) == "-h"@ || text_of(
            args[0],
        ) == "--help"@) ==> action_of(args) == Ok::<_, ParseErrorView>(ActionView::Help),
        args.len() > 0 && text_of(args[0]) != "help"@ && text_of(args[0]) != "-h"@ && text_of(
            args[0],
        ) != "--help"@ && text_of(args[0]) != "add"@ && text_of(args[0]) != "list"@ && text_of(
            args[0],
        ) != "clean"@ && text_of(args[0]) != "status"@ && text_of(args[0]) != "logs"@ && text_of(
            args[0],
        ) != "stop"@ && text_of(args[0]) != "remove"@ && text_of(args[0]) != "resume"@ && !(
        looks_like_an_option(text_of(args[0])) && args.contains(encode_utf8("--"@)))
            ==> action_of(args) == Err::<ActionView, _>(
            ParseErrorView::UnknownCommand { command: text_of(args[0]) },
        ),
{
}

// ---------------------------------------------------------------------------
// Reading a launch
// ---------------------------------------------------------------------------

/// Whether a word is `--restart` or `-r`.
pub open spec fn restarts(word: Seq<u8>) -> bool {
    word == encode_utf8("--restart"@) || word == encode_utf8("-r"@)
}

/// Whether a word is `--persist` or `-b`.
pub open spec fn persists(word: Seq<u8>) -> bool {
    word == encode_utf8("--persist"@) || word == encode_utf8("-b"@)
}

/// Whether a command line is a launch as the usage has it: `add` and perhaps a name, or
/// neither; then flags, overrides, `--` and a command.
pub open spec fn writes_launch(
    args: Seq<Seq<u8>>,
    name: Option<Seq<u8>>,
    flags: Seq<Seq<u8>>,
    overrides: Seq<Seq<u8>>,
    command: Seq<Seq<u8>>,
) -> bool {
    let tail = flags + overrides + seq![encode_utf8("--"@)] + command;
    &&& forall|i: int|
        0 <= i < flags.len() ==> restarts(#[trigger] flags[i]) || persists(flags[i])
    &&& forall|i: int|
        0 <= i < overrides.len() ==> #[trigger] overrides[i] != encode_utf8("--"@)
    &&& overrides.len() > 0 ==> !restarts(overrides[0]) && !persists(overrides[0])
    &&& command.len() > 0
    &&& match name {
        Some(word) => {
            &&& args == seq![encode_utf8("add"@), word] + tail
            &&& word != encode_utf8("--"@)
            &&& !looks_like_an_option(text_of(word))
        },
        None => {
            &&& looks_like_an_option(text_of(tail[0]))
            &&& args == seq![encode_utf8("add"@)] + tail || (args == tail && text_of(tail[0])
                != "-h"@ && text_of(tail[0]) != "--help"@)
        },
    }
}

/// Whether one of the flags asks to restart the job when it fails.
pub open spec fn wants_restart(flags: Seq<Seq<u8>>) -> bool {
    exists|i: int| 0 <= i < flags.len() && restarts(#[trigger] flags[i])
}

/// Whether one of the flags asks to run the job at every boot.
pub open spec fn wants_persist(flags: Seq<Seq<u8>>) -> bool {
    exists|i: int| 0 <= i < flags.len() && persists(#[trigger] flags[i])
}

/// The overrides that reach systemd: `-p Restart=on-failure` where restarts are asked
/// for, and then those on the command line, each as it is and in order.
pub open spec fn overrides_of(flags: Seq<Seq<u8>>, overrides: Seq<Seq<u8>>) -> Seq<Seq<u8>> {
    (if wants_restart(flags) {
        seq![encode_utf8("-p"@), encode_utf8("Restart=on-failure"@)]
    } else {
        Seq::empty()
    }) + overrides
}

/// Whether this is the name that a launch gives its job, if it gives one.
pub open spec fn names_job(job: Option<Seq<char>>, word: Option<Seq<u8>>) -> bool {
    match (job, word) {
        (Some(job), Some(word)) => stands_for(job, text_of(word)),
        (None, None) => true,
        _ => false,
    }
}

/// A launch is read as it is written: the name, the overrides and the command arrive
/// whole and in order, and the flags ask for what they stand for.
#[verifier::spinoff_prover]
pub proof fn launches_are_read_as_written(
    args: Seq<Seq<u8>>,
    word: Option<Seq<u8>>,
    name: Option<Seq<char>>,
    flags: Seq<Seq<u8>>,
    overrides: Seq<Seq<u8>>,
    command: Seq<Seq<u8>>,
)
    requires
        writes_launch(args, word, flags, overrides, command),
        names_job(name, word),
    ensures
        action_of(args) == Ok::<_, ParseErrorView>(
            ActionView::Run(
                RunSpecView {
                    name,
                    systemd_opts: overrides_of(flags, overrides),
                    command,
                    persist: wants_persist(flags),
                },
            ),
        ),
{
    lemma_verbs();
    let tail = flags + overrides + seq![encode_utf8("--"@)] + command;
    assert(crate::cli::all_flags(flags)) by {
        assert forall|i: int| 0 <= i < flags.len() implies crate::cli::own_flag(
            #[trigger] flags[i],
        ) by {
            assert(restarts(flags[i]) || persists(flags[i]));
        }
    }
    assert(!overrides.contains(crate::cli::separator())) by {
        if overrides.contains(crate::cli::separator()) {
            let i = choose|i: int|
                0 <= i < overrides.len() && overrides[i] == crate::cli::separator();
            assert(overrides[i] != encode_utf8("--"@));
        }
    }
    assert(wants_restart(flags) == crate::cli::asks_restart(flags)) by {
        if wants_restart(flags) {
            let i = choose|i: int| 0 <= i < flags.len() && restarts(#[trigger] flags[i]);
            assert(crate::cli::restart_flag(flags[i]));
        }
        if crate::cli::asks_restart(flags) {
            let i = choose|i: int|
                0 <= i < flags.len() && crate::cli::restart_flag(#[trigger] flags[i]);
            assert(restarts(flags[i]));
        }
    }
    assert(wants_persist(flags) == crate::cli::asks_persist(flags)) by {
        if wants_persist(flags) {
            let i = choose|i: int| 0 <= i < flags.len() && persists(#[trigger] flags[i]);
            assert(crate::cli::persist_flag(flags[i]));
        }
        if crate::cli::asks_persist(flags) {
            let i = choose|i: int|
                0 <= i < flags.len() && crate::cli::persist_flag(#[trigger] flags[i]);
            assert(persists(flags[i]));
        }
    }
    assert(overrides_of(flags, overrides) =~= crate::cli::effective_overrides(flags, overrides));
    launch_is_read_as_written(name, flags, overrides, command);
    text_round_trip("add"@);
    match word {
        Some(given) => {
            job_names_keep_what_is_allowed(name->0, text_of(given));
            assert(args.skip(1).skip(1) =~= tail);
            assert(args.skip(1)[0] == given);
        },
        None => {
            let at = flags.len() + overrides.len();
            assert(tail[at as int] == encode_utf8("--"@));
            if args == seq![encode_utf8("add"@)] + tail {
                assert(args.skip(1) =~= tail);
            } else {
                assert(args.contains(encode_utf8("--"@)));
            }
        },
    }
}

/// A launch needs a command behind its first `--`, with `add` or without.
pub proof fn bare_launches_need_a_command(before: Seq<Seq<u8>>)
    requires
        forall|i: int| 0 <= i < before.len() ==> #[trigger] before[i] != encode_utf8("--"@),
        before.len() > 0 ==> looks_like_an_option(text_of(before[0])) && text_of(before[0])
            != "-h"@ && text_of(before[0]) != "--help"@,
    ensures
        action_of(before + seq![encode_utf8("--"@)]) == Err::<ActionView, _>(
            ParseErrorView::MissingCommand,
        ),
{
    lemma_verbs();
    text_round_trip("--"@);
    reveal_strlit("--");
    let args = before + seq![encode_utf8("--"@)];
    lemma_first_separator(before);
    launch_errors(None, args);
    assert(args[before.len() as int] == encode_utf8("--"@));
    assert(args.contains(encode_utf8("--"@)));
    if before.len() > 0 {
        assert(args[0] == before[0]);
    } else {
        reveal_strlit("-h");
        assert("--"@[0] == '-' && "--"@[1] == '-' && "-h"@[1] == 'h');
    }
}

/// A launch with `add` needs a `--`, and a command behind the first one.
pub proof fn launches_need_a_separator_and_a_command(
    words: Seq<Seq<u8>>,
    before: Seq<Seq<u8>>,
)
    requires
        forall|i: int| 0 <= i < words.len() ==> #[trigger] words[i] != encode_utf8("--"@),
        forall|i: int| 0 <= i < before.len() ==> #[trigger] before[i] != encode_utf8("--"@),
    ensures
        action_of(seq![encode_utf8("add"@)] + words) == Err::<ActionView, _>(
            ParseErrorView::MissingSeparator,
        ),
        action_of(seq![encode_utf8("add"@)] + before + seq![encode_utf8("--"@)]) == Err::<
            ActionView,
            _,
        >(ParseErrorView::MissingCommand),
{
    lemma_verbs();
    text_round_trip("add"@);
    let separator = crate::cli::separator();
    let plain = seq![encode_utf8("add"@)] + words;
    assert(plain.skip(1) =~= words);
    assert(!words.contains(separator));
    assert(words.len() > 0 ==> !words.skip(1).contains(separator)) by {
        if words.len() > 0 && words.skip(1).contains(separator) {
            let i = choose|i: int| 0 <= i < words.skip(1).len() && words.skip(1)[i] == separator;
            assert(words[i + 1] == separator);
        }
    }
    launch_errors(None, words);
    if words.len() > 0 {
        launch_errors(Some(crate::name::sanitized(text_of(words[0]))), words.skip(1));
    }
    let ended = seq![encode_utf8("add"@)] + before + seq![encode_utf8("--"@)];
    let rest = before + seq![encode_utf8("--"@)];
    assert(ended.skip(1) =~= rest);
    lemma_first_separator(before);
    launch_errors(None, rest);
    if before.len() > 0 {
        let less = before.skip(1);
        assert(rest.skip(1) =~= less + seq![encode_utf8("--"@)]);
        assert forall|i: int| 0 <= i < less.len() implies #[trigger] less[i] != encode_utf8(
            "--"@,
        ) by {
            assert(before[i + 1] != encode_utf8("--"@));
        }
        lemma_first_separator(less);
        launch_errors(Some(crate::name::sanitized(text_of(rest[0]))), rest.skip(1));
    }
}

proof fn lemma_first_separator(before: Seq<Seq<u8>>)
    requires
        forall|i: int| 0 <= i < before.len() ==> #[trigger] before[i] != encode_utf8("--"@),
    ensures
        (before + seq![encode_utf8("--"@)]).index_of_first(encode_utf8("--"@)) == Some(
            before.len() as int,
        ),
{
    let rest = before + seq![encode_utf8("--"@)];
    let separator = encode_utf8("--"@);
    rest.index_of_first_ensures(separator);
    assert(rest[before.len() as int] == separator);
    assert(rest.contains(separator));
    let first = rest.index_of_first(separator)->Some_0;
    if first < before.len() {
        assert(rest[first] == before[first]);
    }
}

// ---------------------------------------------------------------------------
// Usage errors
// ---------------------------------------------------------------------------

/// Whether this is the prefix in force: the one that is set, which must be made of ASCII
/// letters, digits, `-` and `_`, or `bgrun` where none is set.
pub open spec fn in_force(p: Seq<char>, prefix: Option<Seq<char>>) -> bool {
    match prefix {
        Some(raw) => {
            &&& p == raw
            &&& raw.len() > 0
            &&& forall|i: int|
                0 <= i < raw.len() ==> letter_or_digit(#[trigger] raw[i]) || raw[i] == '-' || raw[i]
                    == '_'
        },
        None => p == "bgrun"@,
    }
}

/// The turn that reports a usage error: nothing runs, and the exit code is 2.
pub open spec fn refused(message: Seq<char>) -> TurnView {
    TurnView {
        emits: seq![EmitView::Report("error: "@ + message + "\n"@)],
        next: NextView::Exit(2),
    }
}

pub(crate) proof fn lemma_in_force(p: Seq<char>, prefix: Option<Seq<char>>)
    requires
        in_force(p, prefix),
    ensures
        prefix matches Some(raw) ==> valid_prefix(raw),
{
    if prefix is Some {
        prefixes_are_letters_digits_hyphens_and_underscores(prefix->0);
    }
}

/// A command line that cannot be read is reported, with exit code 2, and nothing runs.
pub proof fn unreadable_words_are_refused(
    prefix: Option<Seq<char>>,
    p: Seq<char>,
    user: Option<Seq<char>>,
    unit_dir: Option<Seq<u8>>,
    args: Seq<Seq<u8>>,
    error: ParseErrorView,
)
    requires
        in_force(p, prefix),
        action_of(args) == Err::<ActionView, _>(error),
    ensures
        error matches ParseErrorView::UnknownCommand { command } ==> first_turn(
            prefix,
            user,
            unit_dir,
            args,
        ) == refused("unknown command '"@ + command + "' (run 'bgrun help' for usage)"@),
        error is MissingSeparator ==> first_turn(prefix, user, unit_dir, args) == refused(
            "missing '--' before the command (usage: bgrun add [NAME] [opts] -- <cmd> [args])"@,
        ),
        error is MissingCommand ==> first_turn(prefix, user, unit_dir, args) == refused(
            "missing command after '--'"@,
        ),
        error matches ParseErrorView::MissingArgument { action } ==> first_turn(
            prefix,
            user,
            unit_dir,
            args,
        ) == refused(action + ": missing job name"@),
        error matches ParseErrorView::UnexpectedArgument { action } ==> first_turn(
            prefix,
            user,
            unit_dir,
            args,
        ) == refused(action + ": unexpected extra arguments"@),
{
    lemma_in_force(p, prefix);
    crate::trace::nothing_runs_on_a_usage_error(prefix, user, unit_dir, args, error);
    match error {
        ParseErrorView::UnknownCommand { command } => errors_are_spelled_out(command),
        ParseErrorView::MissingArgument { action } => errors_are_spelled_out(action),
        ParseErrorView::UnexpectedArgument { action } => errors_are_spelled_out(action),
        _ => errors_are_spelled_out(Seq::empty()),
    }
    let report = EmitView::Report("error: "@ + error_text(error) + "\n"@);
    assert(first_turn(prefix, user, unit_dir, args).emits =~= seq![report]);
}

/// A prefix that is set and is not made of ASCII letters, digits, `-` and `_` is refused,
/// whatever the command line says.
pub proof fn bad_prefixes_are_refused(
    prefix: Seq<char>,
    user: Option<Seq<char>>,
    unit_dir: Option<Seq<u8>>,
    args: Seq<Seq<u8>>,
)
    requires
        !in_force(prefix, Some(prefix)),
    ensures
        first_turn(Some(prefix), user, unit_dir, args) == refused(
            "invalid BGRUN_PREFIX "@ + debug_text(prefix)
                + ": use only ASCII letters, digits, '-' and '_'"@,
        ),
{
    prefixes_are_letters_digits_hyphens_and_underscores(prefix);
    errors_are_spelled_out(prefix);
    crate::trace::nothing_runs_with_an_invalid_prefix(prefix, user, unit_dir, args);
}

// ---------------------------------------------------------------------------
// Calls and lines
// ---------------------------------------------------------------------------

/// A call of a program with these words and no others.
pub open spec fn call(program: Seq<char>, words: Seq<Seq<char>>) -> CommandView {
    CommandView { program, args: Seq::new(words.len(), |i: int| encode_utf8(words[i])) }
}

/// The unit of a job under a prefix: `PREFIX-JOB.service`.
pub open spec fn service(p: Seq<char>, job: Seq<char>) -> Seq<char> {
    p + "-"@ + job + ".service"@
}

/// The line that reports a program that did not start.
pub open spec fn not_started(program: Seq<char>, reason: Seq<char>) -> EmitView {
    EmitView::Report("error: "@ + "cannot run "@ + program + ": "@ + reason + "\n"@)
}

/// What is reported of a call that did not start; of one that did, nothing is.
pub open spec fn reported(program: Seq<char>, reply: ReplyView) -> Seq<EmitView> {
    match reply {
        ReplyView::Failed(reason) => seq![not_started(program, reason)],
        _ => Seq::empty(),
    }
}

/// The exit code that passes on how a call ended: its own, where that is an exit code,
/// and 1 for a signal and for a call that did not start.
pub open spec fn passed(status: Option<i32>) -> u8 {
    match status {
        Some(code) if 0 <= code && code <= 255 => code as u8,
        _ => 1,
    }
}

/// The exit code that passes on the reply to a forwarded call.
pub open spec fn passed_reply(reply: ReplyView) -> u8 {
    match reply {
        ReplyView::Status(status) => passed(status),
        _ => 1,
    }
}

pub(crate) proof fn lemma_reported(program: Seq<char>, reply: ReplyView)
    ensures
        crate::session::reply_notes(program, reply) == reported(program, reply),
{
    if let ReplyView::Failed(reason) = reply {
        assert("error: "@ + ("cannot run "@ + program + (": "@ + reason)) + "\n"@ =~= "error: "@
            + "cannot run "@ + program + ": "@ + reason + "\n"@);
    }
}

/// The context of a session under a prefix.
pub(crate) open spec fn under(p: Seq<char>, unit_dir: Option<Seq<u8>>) -> ContextView {
    ContextView { prefix: p, unit_dir }
}

/// Under a valid prefix, a session starts with the action that its words ask for.
pub(crate) proof fn lemma_starts(
    prefix: Option<Seq<char>>,
    p: Seq<char>,
    user: Option<Seq<char>>,
    unit_dir: Option<Seq<u8>>,
    args: Seq<Seq<u8>>,
    action: ActionView,
)
    requires
        in_force(p, prefix),
        action_of(args) == Ok::<_, ParseErrorView>(action),
    ensures
        first_turn(prefix, user, unit_dir, args) == action_turn(
            under(p, unit_dir),
            user,
            action,
            forgets(args),
        ),
{
    lemma_in_force(p, prefix);
}

// ---------------------------------------------------------------------------
// help, list, status, logs, clean
// ---------------------------------------------------------------------------

/// `help` prints the help text, which names the prefix in force twice, and runs nothing.
pub proof fn help_prints_the_help_text(
    prefix: Option<Seq<char>>,
    p: Seq<char>,
    user: Option<Seq<char>>,
    unit_dir: Option<Seq<u8>>,
    args: Seq<Seq<u8>>,
)
    requires
        in_force(p, prefix),
        args.len() > 0 ==> text_of(args[0]) == "help"@ || text_of(args[0]) == "-h"@ || text_of(
            args[0],
        ) == "--help"@,
    ensures
        first_turn(prefix, user, unit_dir, args) == (TurnView {
            emits: seq![EmitView::Print(HELP_USAGE@ + p + HELP_BODY@ + p + HELP_END@)],
            next: NextView::Exit(0),
        }),
{
    lemma_in_force(p, prefix);
    other_words_are_help_or_unknown(args);
}

/// A session that is one forwarded call.
proof fn lemma_query(
    turn: TurnView,
    context: ContextView,
    line: CommandView,
    program: Seq<char>,
    script: Seq<ReplyView>,
    code: u8,
)
    requires
        ends_with(turn, script, code),
        turn.emits == Seq::<EmitView>::empty(),
        turn.next == NextView::Ask(
            RequestView::Forward(line),
            SessionView { context, state: StateView::Querying { program } },
        ),
    ensures
        script.len() == 1,
        requests(turn, script) == seq![RequestView::Forward(line)],
        output(turn, script) == reported(program, script[0]),
        code == passed_reply(script[0]),
{
    let play = lemma_play(turn, Map::empty(), None, script, code);
    let end = lemma_reply(play);
    lemma_over(end);
    lemma_reported(program, script[0]);
    assert(play.asked =~= seq![RequestView::Forward(line)]);
    assert(play.said =~= reported(program, script[0]));
}

/// A turn that waits, with nothing to print.
spec fn waits(context: ContextView, request: RequestView, state: StateView) -> TurnView {
    TurnView {
        emits: Seq::empty(),
        next: NextView::Ask(request, SessionView { context, state }),
    }
}

/// The turn that `list` starts with.
#[verifier::spinoff_prover]
proof fn lemma_list(
    p: Seq<char>,
    unit_dir: Option<Seq<u8>>,
    user: Option<Seq<char>>,
    forget: bool,
)
    ensures
        action_turn(under(p, unit_dir), user, ActionView::List, forget) == waits(
            under(p, unit_dir),
            RequestView::Forward(
                call(
                    "systemctl"@,
                    seq![
                        "--user"@,
                        "list-units"@,
                        p + "-"@ + "*"@ + ".service"@,
                        "--all"@,
                        "--no-pager"@,
                    ],
                ),
            ),
            StateView::Querying { program: "systemctl"@ },
        ),
{
    crate::name::units_are_spelled_out(p, Seq::empty());
    let turn = action_turn(under(p, unit_dir), user, ActionView::List, forget);
    assert(turn.next->Ask_0->Forward_0 =~= call(
        "systemctl"@,
        seq![
            "--user"@,
            "list-units"@,
            p + "-"@ + "*"@ + ".service"@,
            "--all"@,
            "--no-pager"@,
        ],
    ));
}

/// The turn that `status` starts with.
#[verifier::spinoff_prover]
proof fn lemma_status(
    p: Seq<char>,
    unit_dir: Option<Seq<u8>>,
    user: Option<Seq<char>>,
    job: Seq<char>,
    forget: bool,
)
    ensures
        action_turn(under(p, unit_dir), user, ActionView::Status(job), forget) == waits(
            under(p, unit_dir),
            RequestView::Forward(call("systemctl"@, seq!["--user"@, "status"@, service(p, job)])),
            StateView::Querying { program: "systemctl"@ },
        ),
{
    let turn = action_turn(under(p, unit_dir), user, ActionView::Status(job), forget);
    assert(turn.next->Ask_0->Forward_0 =~= call(
        "systemctl"@,
        seq!["--user"@, "status"@, service(p, job)],
    ));
}

/// The turn that `clean` starts with.
#[verifier::spinoff_prover]
proof fn lemma_clean(
    p: Seq<char>,
    unit_dir: Option<Seq<u8>>,
    user: Option<Seq<char>>,
    forget: bool,
)
    ensures
        action_turn(under(p, unit_dir), user, ActionView::Clean, forget) == waits(
            under(p, unit_dir),
            RequestView::Capture(
                call(
                    "systemctl"@,
                    seq!["--user"@, "reset-failed"@, p + "-"@ + "*"@ + ".service"@],
                ),
            ),
            StateView::Cleaning,
        ),
{
    crate::name::units_are_spelled_out(p, Seq::empty());
    let turn = action_turn(under(p, unit_dir), user, ActionView::Clean, forget);
    assert(turn.next->Ask_0->Capture_0 =~= call(
        "systemctl"@,
        seq!["--user"@, "reset-failed"@, p + "-"@ + "*"@ + ".service"@],
    ));
}

/// What `clean` says once its call is over, and the exit code.
pub open spec fn clean_says(p: Seq<char>, reply: ReplyView) -> Seq<EmitView> {
    match reply {
        ReplyView::Output(result) => if result.status == Some(0i32) {
            seq![
                EmitView::Print(
                    "forgot failed "@ + p
                        + " units (successful jobs are collected automatically)\n"@,
                ),
            ]
        } else {
            seq![EmitView::Report(text_of(result.stderr))]
        },
        _ => reported("systemctl"@, reply),
    }
}

#[verifier::spinoff_prover]
proof fn lemma_cleaned(p: Seq<char>, unit_dir: Option<Seq<u8>>, reply: ReplyView)
    requires
        reply is Output || reply is Failed,
    ensures
        cleaned_turn(under(p, unit_dir), reply).emits == clean_says(p, reply),
        cleaned_turn(under(p, unit_dir), reply).next == NextView::Exit(
            match reply {
                ReplyView::Output(result) => passed(result.status),
                _ => 1,
            },
        ),
{
    lemma_reported("systemctl"@, reply);
}

/// `list` is one call of `systemctl`, for all units of the prefix in force.
#[verifier::spinoff_prover]
pub proof fn list_asks_for_every_unit(
    prefix: Option<Seq<char>>,
    p: Seq<char>,
    user: Option<Seq<char>>,
    unit_dir: Option<Seq<u8>>,
    script: Seq<ReplyView>,
    code: u8,
)
    requires
        in_force(p, prefix),
        ends_with(first_turn(prefix, user, unit_dir, seq![encode_utf8("list"@)]), script, code),
    ensures
        ({
            let turn = first_turn(prefix, user, unit_dir, seq![encode_utf8("list"@)]);
            &&& script.len() == 1
            &&& requests(turn, script) == seq![
                RequestView::Forward(
                    call(
                        "systemctl"@,
                        seq![
                            "--user"@,
                            "list-units"@,
                            p + "-"@ + "*"@ + ".service"@,
                            "--all"@,
                            "--no-pager"@,
                        ],
                    ),
                ),
            ]
            &&& output(turn, script) == reported("systemctl"@, script[0])
            &&& code == passed_reply(script[0])
        }),
{
    job_names_keep_what_is_allowed(Seq::empty(), text_of(Seq::empty()));
    queries_take_no_more_than_they_need(
        crate::name::sanitized(text_of(Seq::empty())),
        Seq::empty(),
        Seq::empty(),
    );
    let args = seq![encode_utf8("list"@)];
    lemma_starts(prefix, p, user, unit_dir, args, ActionView::List);
    lemma_list(p, unit_dir, user, forgets(args));
    let turn = first_turn(prefix, user, unit_dir, args);
    let line = turn.next->Ask_0->Forward_0;
    lemma_query(turn, under(p, unit_dir), line, "systemctl"@, script, code);
}

/// `status` is one call of `systemctl`, for the unit of the job that is named.
#[verifier::spinoff_prover]
pub proof fn status_asks_for_the_named_unit(
    prefix: Option<Seq<char>>,
    p: Seq<char>,
    user: Option<Seq<char>>,
    unit_dir: Option<Seq<u8>>,
    word: Seq<u8>,
    job: Seq<char>,
    script: Seq<ReplyView>,
    code: u8,
)
    requires
        in_force(p, prefix),
        stands_for(job, text_of(word)),
        ends_with(
            first_turn(prefix, user, unit_dir, seq![encode_utf8("status"@), word]),
            script,
            code,
        ),
    ensures
        ({
            let turn = first_turn(prefix, user, unit_dir, seq![encode_utf8("status"@), word]);
            &&& script.len() == 1
            &&& requests(turn, script) == seq![
                RequestView::Forward(
                    call("systemctl"@, seq!["--user"@, "status"@, service(p, job)]),
                ),
            ]
            &&& output(turn, script) == reported("systemctl"@, script[0])
            &&& code == passed_reply(script[0])
        }),
{
    queries_take_no_more_than_they_need(job, word, Seq::empty());
    let args = seq![encode_utf8("status"@), word];
    lemma_starts(prefix, p, user, unit_dir, args, ActionView::Status(job));
    lemma_status(p, unit_dir, user, job, forgets(args));
    let turn = first_turn(prefix, user, unit_dir, args);
    let line = turn.next->Ask_0->Forward_0;
    lemma_query(turn, under(p, unit_dir), line, "systemctl"@, script, code);
}

/// The turn that `logs` starts with.
#[verifier::spinoff_prover]
proof fn lemma_logs(
    p: Seq<char>,
    unit_dir: Option<Seq<u8>>,
    user: Option<Seq<char>>,
    job: Seq<char>,
    options: Seq<Seq<u8>>,
    forget: bool,
) -> (line: CommandView)
    ensures
        line.program == "journalctl"@,
        line.args == seq![
            encode_utf8("--user"@),
            encode_utf8("-u"@),
            encode_utf8(service(p, job)),
        ] + options,
        action_turn(
            under(p, unit_dir),
            user,
            ActionView::Logs { name: job, journalctl_opts: options },
            forget,
        ) == (TurnView {
            emits: Seq::empty(),
            next: NextView::Ask(
                RequestView::Forward(line),
                SessionView {
                    context: under(p, unit_dir),
                    state: StateView::Querying { program: "journalctl"@ },
                },
            ),
        }),
{
    let action = ActionView::Logs { name: job, journalctl_opts: options };
    let turn = action_turn(under(p, unit_dir), user, action, forget);
    let line = turn.next->Ask_0->Forward_0;
    assert(line.args =~= seq![
        encode_utf8("--user"@),
        encode_utf8("-u"@),
        encode_utf8(service(p, job)),
    ] + options);
    line
}

/// `logs` is one call of `journalctl`, for the unit of the job that is named, with every
/// option behind the name, in order and nothing else.
#[verifier::spinoff_prover]
pub proof fn logs_hands_every_option_on(
    prefix: Option<Seq<char>>,
    p: Seq<char>,
    user: Option<Seq<char>>,
    unit_dir: Option<Seq<u8>>,
    word: Seq<u8>,
    job: Seq<char>,
    options: Seq<Seq<u8>>,
    script: Seq<ReplyView>,
    code: u8,
)
    requires
        in_force(p, prefix),
        stands_for(job, text_of(word)),
        ends_with(
            first_turn(prefix, user, unit_dir, seq![encode_utf8("logs"@), word] + options),
            script,
            code,
        ),
    ensures
        ({
            let args = seq![encode_utf8("logs"@), word] + options;
            let turn = first_turn(prefix, user, unit_dir, args);
            &&& script.len() == 1
            &&& requests(turn, script).len() == 1
            &&& requests(turn, script)[0] matches RequestView::Forward(line) && {
                &&& line.program == "journalctl"@
                &&& line.args.len() == 3 + options.len()
                &&& line.args[0] == encode_utf8("--user"@)
                &&& line.args[1] == encode_utf8("-u"@)
                &&& line.args[2] == encode_utf8(service(p, job))
                &&& line.args.skip(3) == args.skip(2)
                &&& line.args.skip(3) == options
            }
            &&& output(turn, script) == reported("journalctl"@, script[0])
            &&& code == passed_reply(script[0])
        }),
{
    logs_takes_a_job_and_options(job, word, options);
    let args = seq![encode_utf8("logs"@), word] + options;
    let action = ActionView::Logs { name: job, journalctl_opts: options };
    lemma_starts(prefix, p, user, unit_dir, args, action);
    let turn = first_turn(prefix, user, unit_dir, args);
    let line = lemma_logs(p, unit_dir, user, job, options, forgets(args));
    assert(args.skip(2) =~= options);
    assert(line.args.skip(3) =~= options);
    lemma_query(turn, under(p, unit_dir), line, "journalctl"@, script, code);
}

/// `clean` is one call of `systemctl` that resets the failure records of all units of
/// the prefix in force.
#[verifier::spinoff_prover]
pub proof fn clean_resets_every_unit(
    prefix: Option<Seq<char>>,
    p: Seq<char>,
    user: Option<Seq<char>>,
    unit_dir: Option<Seq<u8>>,
    script: Seq<ReplyView>,
    code: u8,
)
    requires
        in_force(p, prefix),
        ends_with(first_turn(prefix, user, unit_dir, seq![encode_utf8("clean"@)]), script, code),
    ensures
        ({
            let turn = first_turn(prefix, user, unit_dir, seq![encode_utf8("clean"@)]);
            &&& script.len() == 1
            &&& requests(turn, script) == seq![
                RequestView::Capture(
                    call(
                        "systemctl"@,
                        seq!["--user"@, "reset-failed"@, p + "-"@ + "*"@ + ".service"@],
                    ),
                ),
            ]
            &&& output(turn, script) == clean_says(p, script[0])
            &&& code == (match script[0] {
                ReplyView::Output(result) => passed(result.status),
                _ => 1,
            })
        }),
{
    job_names_keep_what_is_allowed(Seq::empty(), text_of(Seq::empty()));
    queries_take_no_more_than_they_need(
        crate::name::sanitized(text_of(Seq::empty())),
        Seq::empty(),
        Seq::empty(),
    );
    let args = seq![encode_utf8("clean"@)];
    lemma_starts(prefix, p, user, unit_dir, args, ActionView::Clean);
    lemma_clean(p, unit_dir, user, forgets(args));
    let turn = first_turn(prefix, user, unit_dir, args);
    let play = lemma_play(turn, Map::empty(), None, script, code);
    let end = lemma_reply(play);
    lemma_cleaned(p, unit_dir, script[0]);
    lemma_over(end);
    assert(play.asked =~= seq![turn.next->Ask_0]);
    assert(play.said =~= end.turn.emits);
}

// ---------------------------------------------------------------------------
// stop, resume
// ---------------------------------------------------------------------------

/// What is printed for each unit: the confirmation where its call succeeded, and the
/// reason where it did not start.
pub open spec fn confirmed(
    done: Seq<char>,
    p: Seq<char>,
    jobs: Seq<Seq<char>>,
    script: Seq<ReplyView>,
) -> Seq<EmitView>
    decreases jobs.len(),
{
    if jobs.len() == 0 {
        Seq::empty()
    } else {
        (if script[0] == ReplyView::Status(Some(0i32)) {
            seq![EmitView::Print(done + service(p, jobs[0]) + "\n"@)]
        } else {
            reported("systemctl"@, script[0])
        }) + confirmed(done, p, jobs.skip(1), script.skip(1))
    }
}

proof fn lemma_confirmed(
    p: Seq<char>,
    unit_dir: Option<Seq<u8>>,
    jobs: Seq<Seq<char>>,
    resume: bool,
    script: Seq<ReplyView>,
)
    ensures
        toggle_output(under(p, unit_dir), jobs, resume, script) == confirmed(
            if resume {
                "resumed: "@
            } else {
                "stopped: "@
            },
            p,
            jobs,
            script,
        ),
    decreases jobs.len(),
{
    if jobs.len() > 0 {
        lemma_reported("systemctl"@, script[0]);
        lemma_confirmed(p, unit_dir, jobs.skip(1), resume, script.skip(1));
    }
}

/// A session that stops units, or starts them again.
proof fn lemma_toggling(
    p: Seq<char>,
    unit_dir: Option<Seq<u8>>,
    jobs: Seq<Seq<char>>,
    resume: bool,
    script: Seq<ReplyView>,
    code: u8,
)
    requires
        ends_with(
            toggle_turn(under(p, unit_dir), Seq::empty(), jobs, resume, false),
            script,
            code,
        ),
    ensures
        ({
            let turn = toggle_turn(under(p, unit_dir), Seq::empty(), jobs, resume, false);
            let verb = if resume {
                "start"@
            } else {
                "stop"@
            };
            let done = if resume {
                "resumed: "@
            } else {
                "stopped: "@
            };
            &&& script.len() == jobs.len()
            &&& requests(turn, script).len() == jobs.len()
            &&& forall|i: int|
                0 <= i < jobs.len() ==> #[trigger] requests(turn, script)[i]
                    == RequestView::Forward(
                    call("systemctl"@, seq!["--user"@, verb, service(p, jobs[i])]),
                )
            &&& output(turn, script) == confirmed(done, p, jobs, script)
            &&& code == (if forall|i: int|
                0 <= i < script.len() ==> #[trigger] script[i] == ReplyView::Status(Some(0i32)) {
                0u8
            } else {
                1u8
            })
        }),
{
    let context = under(p, unit_dir);
    let none = Seq::<EmitView>::empty();
    let turn = toggle_turn(context, none, jobs, resume, false);
    toggling_is_one_call_for_each_name(context, none, jobs, resume, false, script, code);
    lemma_one_reply_each(turn, script);
    lemma_confirmed(p, unit_dir, jobs, resume, script);
    assert(none + toggle_output(context, jobs, resume, script) =~= toggle_output(
        context,
        jobs,
        resume,
        script,
    ));
    let verb = if resume {
        "start"@
    } else {
        "stop"@
    };
    assert forall|i: int| 0 <= i < jobs.len() implies #[trigger] requests(turn, script)[i]
        == RequestView::Forward(
        call("systemctl"@, seq!["--user"@, verb, service(p, jobs[i])]),
    ) by {
        let line = toggle_request(context, jobs[i], resume)->Forward_0;
        assert(line =~= call("systemctl"@, seq!["--user"@, verb, service(p, jobs[i])]));
    }
    if some_call_failed(script) {
        let i = choose|i: int|
            0 <= i < script.len() && !crate::session::reply_ok(#[trigger] script[i]);
        assert(script[i] != ReplyView::Status(Some(0i32)));
    } else {
        assert forall|i: int| 0 <= i < script.len() implies #[trigger] script[i]
            == ReplyView::Status(Some(0i32)) by {
            assert(crate::session::reply_ok(script[i]));
        }
    }
}

/// The turns that `stop` and `resume` start with.
proof fn lemma_toggle_starts(
    p: Seq<char>,
    unit_dir: Option<Seq<u8>>,
    user: Option<Seq<char>>,
    jobs: Seq<Seq<char>>,
)
    ensures
        action_turn(under(p, unit_dir), user, ActionView::Remove(jobs), false) == toggle_turn(
            under(p, unit_dir),
            Seq::empty(),
            jobs,
            false,
            false,
        ),
        action_turn(under(p, unit_dir), user, ActionView::Resume(jobs), false) == toggle_turn(
            under(p, unit_dir),
            Seq::empty(),
            jobs,
            true,
            false,
        ),
{
}

/// `stop` stops the unit of every job that is named: one call for each word behind
/// `stop`, in order, whatever the calls before it did. Each unit is confirmed exactly if
/// its call succeeded, and the exit code is 0 exactly if all of them did.
pub proof fn stop_stops_every_named_unit(
    prefix: Option<Seq<char>>,
    p: Seq<char>,
    user: Option<Seq<char>>,
    unit_dir: Option<Seq<u8>>,
    words: Seq<Seq<u8>>,
    jobs: Seq<Seq<char>>,
    script: Seq<ReplyView>,
    code: u8,
)
    requires
        in_force(p, prefix),
        words.len() > 0,
        names_every(jobs, words),
        ends_with(
            first_turn(prefix, user, unit_dir, seq![encode_utf8("stop"@)] + words),
            script,
            code,
        ),
    ensures
        ({
            let turn = first_turn(prefix, user, unit_dir, seq![encode_utf8("stop"@)] + words);
            &&& script.len() == words.len()
            &&& requests(turn, script).len() == words.len()
            &&& forall|i: int|
                0 <= i < words.len() ==> #[trigger] requests(turn, script)[i]
                    == RequestView::Forward(
                    call("systemctl"@, seq!["--user"@, "stop"@, service(p, jobs[i])]),
                )
            &&& output(turn, script) == confirmed("stopped: "@, p, jobs, script)
            &&& code == (if forall|i: int|
                0 <= i < script.len() ==> #[trigger] script[i] == ReplyView::Status(Some(0i32)) {
                0u8
            } else {
                1u8
            })
        }),
{
    every_job_is_named(jobs, words);
    let args = seq![encode_utf8("stop"@)] + words;
    lemma_starts(prefix, p, user, unit_dir, args, ActionView::Remove(jobs));
    lemma_toggle_starts(p, unit_dir, user, jobs);
    lemma_toggling(p, unit_dir, jobs, false, script, code);
}

/// `resume` starts the unit of every job that is named: one call for each word behind
/// `resume`, in order, whatever the calls before it did. Each unit is confirmed exactly
/// if its call succeeded, and the exit code is 0 exactly if all of them did.
pub proof fn resume_starts_every_named_unit(
    prefix: Option<Seq<char>>,
    p: Seq<char>,
    user: Option<Seq<char>>,
    unit_dir: Option<Seq<u8>>,
    words: Seq<Seq<u8>>,
    jobs: Seq<Seq<char>>,
    script: Seq<ReplyView>,
    code: u8,
)
    requires
        in_force(p, prefix),
        words.len() > 0,
        names_every(jobs, words),
        ends_with(
            first_turn(prefix, user, unit_dir, seq![encode_utf8("resume"@)] + words),
            script,
            code,
        ),
    ensures
        ({
            let turn = first_turn(prefix, user, unit_dir, seq![encode_utf8("resume"@)] + words);
            &&& script.len() == words.len()
            &&& requests(turn, script).len() == words.len()
            &&& forall|i: int|
                0 <= i < words.len() ==> #[trigger] requests(turn, script)[i]
                    == RequestView::Forward(
                    call("systemctl"@, seq!["--user"@, "start"@, service(p, jobs[i])]),
                )
            &&& output(turn, script) == confirmed("resumed: "@, p, jobs, script)
            &&& code == (if forall|i: int|
                0 <= i < script.len() ==> #[trigger] script[i] == ReplyView::Status(Some(0i32)) {
                0u8
            } else {
                1u8
            })
        }),
{
    every_job_is_named(jobs, words);
    let args = seq![encode_utf8("resume"@)] + words;
    lemma_starts(prefix, p, user, unit_dir, args, ActionView::Resume(jobs));
    lemma_toggle_starts(p, unit_dir, user, jobs);
    lemma_toggling(p, unit_dir, jobs, true, script, code);
}

// ---------------------------------------------------------------------------
// Replies
// ---------------------------------------------------------------------------

/// Whether a reply is one that a request can get: a captured call gives its output, a
/// forwarded one its exit status, a file is written or deleted or is not, and the
/// question about a file has an answer. Everything but that question can fail.
pub open spec fn answer_to(request: RequestView, reply: ReplyView) -> bool {
    match request {
        RequestView::Capture(_) => reply is Output || reply is Failed,
        RequestView::Forward(_) => reply is Status || reply is Failed,
        RequestView::WriteFile { .. } | RequestView::RemoveFile(_) => reply is Done
            || reply is Failed,
        RequestView::Exists(_) => reply is Exists,
    }
}

/// Whether a turn that waits takes the replies that its request can get, and no others.
spec fn takes_answers(turn: TurnView) -> bool {
    turn.next matches NextView::Ask(request, session) ==> forall|reply: ReplyView| #[trigger]
        fits(session.state, reply) <==> answer_to(request, reply)
}

proof fn lemma_takes_answers(turn: TurnView, script: Seq<ReplyView>)
    requires
        takes_answers(turn),
        plays(turn, script),
    ensures
        takes_answers(last_turn(turn, script)),
    decreases script.len(),
{
    if script.len() > 0 {
        let session = turn.next->Ask_1;
        let next = turn_after(session, script[0]);
        assert(fits(session.state, script[0]));
        assert(takes_answers(next));
        lemma_takes_answers(next, script.skip(1));
    }
}

/// At every point of every session, the replies that are accepted are exactly those that
/// the request can get.
pub proof fn sessions_accept_answers_and_nothing_else(
    prefix: Option<Seq<char>>,
    user: Option<Seq<char>>,
    unit_dir: Option<Seq<u8>>,
    args: Seq<Seq<u8>>,
    script: Seq<ReplyView>,
)
    requires
        plays(first_turn(prefix, user, unit_dir, args), script),
    ensures
        last_turn(first_turn(prefix, user, unit_dir, args), script).next matches NextView::Ask(
            request,
            session,
        ) ==> forall|reply: ReplyView| #[trigger]
            fits(session.state, reply) <==> answer_to(request, reply),
{
    lemma_takes_answers(first_turn(prefix, user, unit_dir, args), script);
}

} // verus!
