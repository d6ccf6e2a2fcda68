//! Whole sessions: what holds from the first turn to the exit code, whatever is heard
//! on the way.

use vstd::prelude::*;

use crate::cli::{action_of, forgets, ActionView, RunSpecView};
use crate::error::{error_text, ParseErrorView};
use crate::exit::{succeeded, EXIT_FAILURE, EXIT_USAGE};
use crate::name::valid_prefix;
use crate::request::{answers, EmitView, ReplyView, RequestView};
use crate::session::{
    action_turn, ask_turn, error_line, exit_turn, first_turn, fits, forget_turn, forgotten_turn,
    launch_name, launch_turn, linger_command, remove_turn, reply_code, reply_notes, reply_ok,
    run_turn, shadowed, start_failure, systemctl_command, systemd_run_command, toggle_turn,
    toggled, turn_after, undeleted_note, unit_of, unit_path, waits_rightly, AfterView,
    ContextView, NextView, SessionView, StateView, TurnView,
};
use crate::unit::{unit_text, unsupported};

verus! {

// ---------------------------------------------------------------------------
// Playing a session
// ---------------------------------------------------------------------------

/// Whether each reply of a script answers the request it meets, and the session does
/// not end before the script does.
pub open spec fn plays(turn: TurnView, script: Seq<ReplyView>) -> bool
    decreases script.len(),
{
    script.len() > 0 ==> match turn.next {
        NextView::Exit(_) => false,
        NextView::Ask(request, session) => {
            &&& answers(request, script[0])
            &&& plays(turn_after(session, script[0]), script.skip(1))
        },
    }
}

/// The turn that a script leads to.
pub open spec fn last_turn(turn: TurnView, script: Seq<ReplyView>) -> TurnView
    decreases script.len(),
{
    if script.len() == 0 {
        turn
    } else {
        match turn.next {
            NextView::Exit(_) => turn,
            NextView::Ask(_, session) => last_turn(
                turn_after(session, script[0]),
                script.skip(1),
            ),
        }
    }
}

/// The requests that a script answers, in order.
pub open spec fn requests(turn: TurnView, script: Seq<ReplyView>) -> Seq<RequestView>
    decreases script.len(),
{
    if script.len() == 0 {
        Seq::empty()
    } else {
        match turn.next {
            NextView::Exit(_) => Seq::empty(),
            NextView::Ask(request, session) => seq![request] + requests(
                turn_after(session, script[0]),
                script.skip(1),
            ),
        }
    }
}

/// All that is printed up to the turn that a script leads to.
pub open spec fn output(turn: TurnView, script: Seq<ReplyView>) -> Seq<EmitView>
    decreases script.len(),
{
    if script.len() == 0 {
        turn.emits
    } else {
        match turn.next {
            NextView::Exit(_) => turn.emits,
            NextView::Ask(_, session) => turn.emits + output(
                turn_after(session, script[0]),
                script.skip(1),
            ),
        }
    }
}

/// Whether a script plays a session to its end, with this exit code.
pub open spec fn ends_with(turn: TurnView, script: Seq<ReplyView>, code: u8) -> bool {
    plays(turn, script) && last_turn(turn, script).next == NextView::Exit(code)
}

/// Each reply of a script answers one request.
pub(crate) proof fn lemma_one_reply_each(turn: TurnView, script: Seq<ReplyView>)
    requires
        plays(turn, script),
    ensures
        requests(turn, script).len() == script.len(),
    decreases script.len(),
{
    if script.len() > 0 {
        lemma_one_reply_each(turn_after(turn.next->Ask_1, script[0]), script.skip(1));
    }
}

// ---------------------------------------------------------------------------
// Every session ends
// ---------------------------------------------------------------------------

/// How many jobs are still to be removed.
pub open spec fn pending(after: AfterView) -> nat {
    match after {
        AfterView::Exit(_) => 0,
        AfterView::Remove(names) => names.len(),
    }
}

/// How many more replies a state can take at most.
pub open spec fn patience(state: StateView) -> nat {
    match state {
        StateView::Lingering { .. } => 10,
        StateView::Shadowing { .. } => 9,
        StateView::Writing { .. } => 8,
        StateView::Reloading { .. } => 7,
        StateView::Enabling { .. } => 6,
        StateView::Discarding { .. } => 1,
        StateView::Launching { .. } => 1,
        StateView::Stopping { rest, .. } => 6 * rest.len() + 6,
        StateView::Resetting { rest, .. } => 6 * rest.len() + 5,
        StateView::Checking { after, .. } => 6 * pending(after) + 4,
        StateView::Disabling { after, .. } => 6 * pending(after) + 3,
        StateView::Deleting { after, .. } => 6 * pending(after) + 2,
        StateView::Refreshing { after, .. } => 6 * pending(after) + 1,
        StateView::Toggling { rest, .. } => rest.len() + 1,
        StateView::Querying { .. } => 1,
        StateView::Cleaning => 1,
    }
}

/// How many more replies a turn can be followed by at most.
pub open spec fn turns_left(turn: TurnView) -> nat {
    match turn.next {
        NextView::Exit(_) => 0,
        NextView::Ask(_, session) => patience(session.state),
    }
}

/// Each reply brings a session nearer to its end.
pub proof fn every_reply_makes_progress(session: SessionView, reply: ReplyView)
    requires
        fits(session.state, reply),
    ensures
        turns_left(turn_after(session, reply)) < patience(session.state),
{
}

/// The turn after a reply waits in a state that takes every reply its request can get.
proof fn turns_wait_rightly(session: SessionView, reply: ReplyView)
    requires
        fits(session.state, reply),
    ensures
        waits_rightly(turn_after(session, reply)),
{
}

/// A session ends, whatever it hears: no script is longer than the turns left.
pub proof fn every_session_ends(turn: TurnView, script: Seq<ReplyView>)
    requires
        waits_rightly(turn),
        plays(turn, script),
    ensures
        script.len() <= turns_left(turn),
        script.len() == turns_left(turn) ==> last_turn(turn, script).next is Exit,
    decreases script.len(),
{
    if script.len() > 0 {
        let session = turn.next->Ask_1;
        every_reply_makes_progress(session, script[0]);
        turns_wait_rightly(session, script[0]);
        every_session_ends(turn_after(session, script[0]), script.skip(1));
    }
}

/// A session takes no more replies than six for each word of the command line, and
/// ten.
pub proof fn sessions_are_short(
    prefix: Option<Seq<char>>,
    user: Option<Seq<char>>,
    unit_dir: Option<Seq<u8>>,
    args: Seq<Seq<u8>>,
)
    ensures
        turns_left(first_turn(prefix, user, unit_dir, args)) <= 6 * args.len() + 10,
{
}

// ---------------------------------------------------------------------------
// Usage errors
// ---------------------------------------------------------------------------

/// With an invalid prefix nothing runs: the session reports it and ends.
pub proof fn nothing_runs_with_an_invalid_prefix(
    prefix: Seq<char>,
    user: Option<Seq<char>>,
    unit_dir: Option<Seq<u8>>,
    args: Seq<Seq<u8>>,
)
    requires
        !valid_prefix(prefix),
    ensures
        first_turn(Some(prefix), user, unit_dir, args) == exit_turn(
            seq![error_line(error_text(ParseErrorView::InvalidPrefix { value: prefix }))],
            EXIT_USAGE,
        ),
{
    assert(Seq::empty().push(
        error_line(error_text(ParseErrorView::InvalidPrefix { value: prefix })),
    ) =~= seq![error_line(error_text(ParseErrorView::InvalidPrefix { value: prefix }))]);
}

/// A command line that cannot be read runs nothing: the session reports it and ends.
pub proof fn nothing_runs_on_a_usage_error(
    prefix: Option<Seq<char>>,
    user: Option<Seq<char>>,
    unit_dir: Option<Seq<u8>>,
    args: Seq<Seq<u8>>,
    error: ParseErrorView,
)
    requires
        prefix matches Some(text) ==> valid_prefix(text),
        action_of(args) == Err::<ActionView, _>(error),
    ensures
        first_turn(prefix, user, unit_dir, args) == exit_turn(
            seq![error_line(error_text(error))],
            EXIT_USAGE,
        ),
{
    assert(Seq::empty().push(error_line(error_text(error))) =~= seq![
        error_line(error_text(error)),
    ]);
}

// ---------------------------------------------------------------------------
// Stop and resume
// ---------------------------------------------------------------------------

/// The request that stops a unit or starts it again.
pub open spec fn toggle_request(
    context: ContextView,
    name: Seq<char>,
    resume: bool,
) -> RequestView {
    RequestView::Forward(
        systemctl_command().with(
            if resume {
                "start"@
            } else {
                "stop"@
            },
        ).with(unit_of(context, name)),
    )
}

/// What is printed for each unit: the confirmation, or why `systemctl` did not start.
pub open spec fn toggle_output(
    context: ContextView,
    names: Seq<Seq<char>>,
    resume: bool,
    script: Seq<ReplyView>,
) -> Seq<EmitView>
    decreases names.len(),
{
    if names.len() == 0 {
        Seq::empty()
    } else {
        (if reply_ok(script[0]) {
            seq![toggled(context, names[0], resume)]
        } else {
            reply_notes("systemctl"@, script[0])
        }) + toggle_output(context, names.skip(1), resume, script.skip(1))
    }
}

/// Whether one of the calls did not succeed.
pub open spec fn some_call_failed(script: Seq<ReplyView>) -> bool {
    exists|i: int| 0 <= i < script.len() && !reply_ok(#[trigger] script[i])
}

/// `stop` and `resume` make one call for each name, in order, whatever the calls
/// before it did; a unit is confirmed exactly if its call succeeded; and the session
/// fails exactly if one of the calls did not succeed.
pub proof fn toggling_is_one_call_for_each_name(
    context: ContextView,
    emits: Seq<EmitView>,
    names: Seq<Seq<char>>,
    resume: bool,
    failed: bool,
    script: Seq<ReplyView>,
    code: u8,
)
    requires
        ends_with(toggle_turn(context, emits, names, resume, failed), script, code),
    ensures
        requests(toggle_turn(context, emits, names, resume, failed), script) == Seq::new(
            names.len(),
            |i: int| toggle_request(context, names[i], resume),
        ),
        output(toggle_turn(context, emits, names, resume, failed), script) == emits
            + toggle_output(context, names, resume, script),
        code == (if failed || some_call_failed(script) {
            EXIT_FAILURE
        } else {
            0
        }),
    decreases names.len(),
{
    let turn = toggle_turn(context, emits, names, resume, failed);
    let calls = Seq::new(names.len(), |i: int| toggle_request(context, names[i], resume));
    if names.len() == 0 {
        assert(script.len() == 0);
        assert(calls =~= Seq::empty());
        assert(emits + toggle_output(context, names, resume, script) =~= emits);
    } else {
        assert(script.len() > 0);
        let reply = script[0];
        let rest = names.skip(1);
        let later = script.skip(1);
        let session = turn.next->Ask_1;
        let ok = reply_ok(reply);
        let notes = if ok {
            seq![toggled(context, names[0], resume)]
        } else {
            reply_notes("systemctl"@, reply)
        };
        let next = toggle_turn(context, notes, rest, resume, failed || !ok);
        assert(turn_after(session, reply) == next);
        toggling_is_one_call_for_each_name(
            context,
            notes,
            rest,
            resume,
            failed || !ok,
            later,
            code,
        );
        let more = Seq::new(rest.len(), |i: int| toggle_request(context, rest[i], resume));
        assert(calls =~= seq![toggle_request(context, names[0], resume)] + more);
        assert(output(turn, script) =~= emits + toggle_output(context, names, resume, script));
        assert(some_call_failed(script) == (!ok || some_call_failed(later))) by {
            if some_call_failed(script) && ok {
                let i = choose|i: int| 0 <= i < script.len() && !reply_ok(#[trigger] script[i]);
                assert(!reply_ok(later[i - 1]));
            }
            if some_call_failed(later) {
                let i = choose|i: int| 0 <= i < later.len() && !reply_ok(#[trigger] later[i]);
                assert(!reply_ok(script[i + 1]));
            }
        }
    }
}

// ---------------------------------------------------------------------------
// Unit files
// ---------------------------------------------------------------------------

/// The files on disk after a file could not be written: at its path is what the
/// attempt left, if anything; all else is as it was.
pub open spec fn torn_at(
    files: Map<Seq<u8>, Seq<u8>>,
    path: Seq<u8>,
    torn: Option<Seq<u8>>,
) -> Map<Seq<u8>, Seq<u8>> {
    match torn {
        Some(left) => files.insert(path, left),
        None => files.remove(path),
    }
}

/// The files on disk after a request was replied to: what was written is there, what
/// was deleted is not, and a deletion that failed changed nothing. A write that failed
/// leaves `torn` at its path, which may be what was there before, a part of what was
/// to be written, or nothing.
pub open spec fn files_after(
    files: Map<Seq<u8>, Seq<u8>>,
    torn: Option<Seq<u8>>,
    request: RequestView,
    reply: ReplyView,
) -> Map<Seq<u8>, Seq<u8>> {
    match (request, reply) {
        (RequestView::WriteFile { path, body, .. }, ReplyView::Done) => files.insert(path, body),
        (RequestView::WriteFile { path, .. }, _) => torn_at(files, path, torn),
        (RequestView::RemoveFile(path), ReplyView::Done) => files.remove(path),
        _ => files,
    }
}

/// The files on disk when a script is over, where a write that failed left `torn`.
pub open spec fn final_files(
    turn: TurnView,
    files: Map<Seq<u8>, Seq<u8>>,
    torn: Option<Seq<u8>>,
    script: Seq<ReplyView>,
) -> Map<Seq<u8>, Seq<u8>>
    decreases script.len(),
{
    if script.len() == 0 {
        files
    } else {
        match turn.next {
            NextView::Exit(_) => files,
            NextView::Ask(request, session) => final_files(
                turn_after(session, script[0]),
                files_after(files, torn, request, script[0]),
                torn,
                script.skip(1),
            ),
        }
    }
}

/// Whether a reply tells the truth about the files, and no deletion fails.
pub open spec fn truthful(
    files: Map<Seq<u8>, Seq<u8>>,
    request: RequestView,
    reply: ReplyView,
) -> bool {
    match request {
        RequestView::Exists(path) => reply == ReplyView::Exists(files.contains_key(path)),
        RequestView::RemoveFile(_) => reply is Done,
        _ => true,
    }
}

/// Whether each reply of a script tells the truth about the files, and no deletion
/// fails, where a write that failed left `torn`.
pub open spec fn plays_truthfully(
    turn: TurnView,
    files: Map<Seq<u8>, Seq<u8>>,
    torn: Option<Seq<u8>>,
    script: Seq<ReplyView>,
) -> bool
    decreases script.len(),
{
    script.len() > 0 ==> match turn.next {
        NextView::Exit(_) => true,
        NextView::Ask(request, session) => {
            &&& truthful(files, request, script[0])
            &&& plays_truthfully(
                turn_after(session, script[0]),
                files_after(files, torn, request, script[0]),
                torn,
                script.skip(1),
            )
        },
    }
}

/// The reply to the first write of a session, where one was asked for.
pub open spec fn write_reply(turn: TurnView, script: Seq<ReplyView>) -> Option<ReplyView>
    decreases script.len(),
{
    if script.len() == 0 {
        None
    } else {
        match turn.next {
            NextView::Exit(_) => None,
            NextView::Ask(request, session) => if request is WriteFile {
                Some(script[0])
            } else {
                write_reply(turn_after(session, script[0]), script.skip(1))
            },
        }
    }
}

/// A session that is played to its end: how it starts, what it hears, and what comes
/// of it.
pub(crate) struct Play {
    pub(crate) turn: TurnView,
    pub(crate) files: Map<Seq<u8>, Seq<u8>>,
    pub(crate) torn: Option<Seq<u8>>,
    pub(crate) script: Seq<ReplyView>,
    pub(crate) code: u8,
    pub(crate) honest: bool,
    pub(crate) asked: Seq<RequestView>,
    pub(crate) said: Seq<EmitView>,
    pub(crate) wrote: Option<ReplyView>,
    pub(crate) left: Map<Seq<u8>, Seq<u8>>,
}

/// Whether a session is played as it is told.
#[verifier::opaque]
pub(crate) closed spec fn played(play: Play) -> bool {
    &&& ends_with(play.turn, play.script, play.code)
    &&& play.honest == plays_truthfully(play.turn, play.files, play.torn, play.script)
    &&& play.asked == requests(play.turn, play.script)
    &&& play.said == output(play.turn, play.script)
    &&& play.wrote == write_reply(play.turn, play.script)
    &&& play.left == final_files(play.turn, play.files, play.torn, play.script)
}

/// A session and its script, told as a whole.
pub(crate) proof fn lemma_play(
    turn: TurnView,
    files: Map<Seq<u8>, Seq<u8>>,
    torn: Option<Seq<u8>>,
    script: Seq<ReplyView>,
    code: u8,
) -> (play: Play)
    requires
        ends_with(turn, script, code),
    ensures
        played(play),
        play == (Play {
            turn,
            files,
            torn,
            script,
            code,
            honest: plays_truthfully(turn, files, torn, script),
            asked: requests(turn, script),
            said: output(turn, script),
            wrote: write_reply(turn, script),
            left: final_files(turn, files, torn, script),
        }),
{
    reveal(played);
    Play {
        turn,
        files,
        torn,
        script,
        code,
        honest: plays_truthfully(turn, files, torn, script),
        asked: requests(turn, script),
        said: output(turn, script),
        wrote: write_reply(turn, script),
        left: final_files(turn, files, torn, script),
    }
}

/// The first reply of a session, taken apart from the rest.
pub(crate) proof fn lemma_reply(play: Play) -> (next: Play)
    requires
        played(play),
        play.turn.next is Ask,
    ensures
        played(next),
        play.script.len() > 0,
        ({
            let request = play.turn.next->Ask_0;
            let reply = play.script[0];
            &&& answers(request, reply)
            &&& play.honest == (truthful(play.files, request, reply) && next.honest)
            &&& next.turn == turn_after(play.turn.next->Ask_1, reply)
            &&& next.files == files_after(play.files, play.torn, request, reply)
            &&& next.torn == play.torn
            &&& next.script == play.script.skip(1)
            &&& next.code == play.code
            &&& play.asked == seq![request] + next.asked
            &&& play.said == play.turn.emits + next.said
            &&& play.wrote == (if request is WriteFile {
                Some(reply)
            } else {
                next.wrote
            })
            &&& play.left == next.left
        }),
{
    reveal(played);
    let next = turn_after(play.turn.next->Ask_1, play.script[0]);
    let files = files_after(play.files, play.torn, play.turn.next->Ask_0, play.script[0]);
    lemma_play(next, files, play.torn, play.script.skip(1), play.code)
}

/// A session that is over hears nothing more.
pub(crate) proof fn lemma_over(play: Play)
    requires
        played(play),
        play.turn.next is Exit,
    ensures
        play.turn.next == NextView::Exit(play.code),
        play.script.len() == 0,
        play.asked == Seq::<RequestView>::empty(),
        play.said == play.turn.emits,
        play.wrote is None,
        play.left == play.files,
{
    reveal(played);
}

/// Whether a turn and all that can follow it leave the files alone.
spec fn harmless(turn: TurnView) -> bool {
    match turn.next {
        NextView::Exit(_) => true,
        NextView::Ask(request, session) => match session.state {
            StateView::Lingering { spec, .. } => request is Capture && !spec.persist,
            StateView::Launching { .. } | StateView::Cleaning => request is Capture,
            StateView::Toggling { .. } | StateView::Querying { .. } => request is Forward,
            _ => false,
        },
    }
}

proof fn lemma_harmless(
    turn: TurnView,
    files: Map<Seq<u8>, Seq<u8>>,
    torn: Option<Seq<u8>>,
    script: Seq<ReplyView>,
)
    requires
        harmless(turn),
        plays(turn, script),
    ensures
        final_files(turn, files, torn, script) == files,
    decreases script.len(),
{
    if script.len() > 0 {
        let session = turn.next->Ask_1;
        let next = turn_after(session, script[0]);
        assert(harmless(next));
        lemma_harmless(next, files, torn, script.skip(1));
    }
}

/// Only a persisted launch and `remove` touch unit files. All else leaves every file
/// as it was, whatever happens: `stop` and `resume` keep the job.
pub proof fn only_persist_and_remove_touch_files(
    prefix: Option<Seq<char>>,
    user: Option<Seq<char>>,
    unit_dir: Option<Seq<u8>>,
    args: Seq<Seq<u8>>,
    files: Map<Seq<u8>, Seq<u8>>,
    torn: Option<Seq<u8>>,
    script: Seq<ReplyView>,
)
    requires
        plays(first_turn(prefix, user, unit_dir, args), script),
        match action_of(args) {
            Ok(ActionView::Run(spec)) => !spec.persist,
            Ok(ActionView::Remove(_)) => !forgets(args),
            _ => true,
        },
    ensures
        final_files(first_turn(prefix, user, unit_dir, args), files, torn, script) == files,
{
    lemma_harmless(first_turn(prefix, user, unit_dir, args), files, torn, script);
}

// ---------------------------------------------------------------------------
// Launching
// ---------------------------------------------------------------------------

/// The question about lingering never blocks a launch: whatever is heard, the session
/// goes on as it would have gone on without it.
pub proof fn lingering_never_blocks(
    context: ContextView,
    user: Seq<char>,
    spec: RunSpecView,
    reply: ReplyView,
)
    requires
        reply is Output || reply is Failed,
    ensures
        run_turn(context, Some(user), spec).next matches NextView::Ask(_, session) && turn_after(
            session,
            reply,
        ).next == run_turn(context, None, spec).next,
{
}

/// The request that asks whether lingering is on, where the user is known.
pub open spec fn linger_requests(user: Option<Seq<char>>) -> Seq<RequestView> {
    match user {
        Some(user) => seq![RequestView::Capture(linger_command(user))],
        None => Seq::empty(),
    }
}

/// A transient launch is one `systemd-run` call, after the question about lingering
/// where the user is known, and succeeds exactly if that call does.
pub proof fn transient_launch_is_one_call(
    context: ContextView,
    user: Option<Seq<char>>,
    spec: RunSpecView,
    script: Seq<ReplyView>,
    code: u8,
)
    requires
        !spec.persist,
        ends_with(run_turn(context, user, spec), script, code),
    ensures
        script.len() == linger_requests(user).len() + 1,
        requests(run_turn(context, user, spec), script) == linger_requests(user).push(
            RequestView::Capture(systemd_run_command(context, spec)),
        ),
        code == 0 <==> (script.last() matches ReplyView::Output(result) && succeeded(
            result.status,
        )),
{
    reveal_with_fuel(plays, 4);
    reveal_with_fuel(last_turn, 4);
    reveal_with_fuel(requests, 4);
    let turn = run_turn(context, user, spec);
    assert(script.len() > 0);
    if user is Some {
        let second = turn_after(turn.next->Ask_1, script[0]);
        assert(script.skip(1).len() > 0);
        assert(script.skip(1).skip(1).len() == 0);
        let all = requests(turn, script);
        assert(all =~= seq![turn.next->Ask_0, second.next->Ask_0]);
    } else {
        assert(script.skip(1).len() == 0);
        assert(requests(turn, script) =~= seq![turn.next->Ask_0]);
    }
}

// ---------------------------------------------------------------------------
// Forgetting
// ---------------------------------------------------------------------------

/// The request that makes systemd read its unit files.
pub open spec fn reload_request() -> RequestView {
    RequestView::Forward(systemctl_command().with("daemon-reload"@))
}

/// The request that disables a unit.
pub open spec fn disable_request(context: ContextView, name: Seq<char>) -> RequestView {
    RequestView::Forward(systemctl_command().with("disable"@).with(unit_of(context, name)))
}

/// The files without the unit file of a job. Where no directory for unit files is
/// known, a job has none.
pub open spec fn without_job(
    files: Map<Seq<u8>, Seq<u8>>,
    context: ContextView,
    name: Seq<char>,
) -> Map<Seq<u8>, Seq<u8>> {
    match context.unit_dir {
        Some(dir) => files.remove(unit_path(context, dir, name)),
        None => files,
    }
}

/// Whether a job has a unit file.
pub open spec fn has_unit_file(
    files: Map<Seq<u8>, Seq<u8>>,
    context: ContextView,
    name: Seq<char>,
) -> bool {
    context.unit_dir matches Some(dir) && files.contains_key(unit_path(context, dir, name))
}

/// The requests that forget a job, by what is heard: whether there is a unit file is
/// asked first; where there is one, the unit is disabled and the file deleted, and once
/// it is deleted, systemd is told. Where no directory for unit files is known, nothing
/// is asked.
pub open spec fn forget_steps(
    context: ContextView,
    name: Seq<char>,
    script: Seq<ReplyView>,
) -> Seq<RequestView> {
    match context.unit_dir {
        None => Seq::empty(),
        Some(dir) => {
            let path = unit_path(context, dir, name);
            let found = seq![
                RequestView::Exists(path),
                disable_request(context, name),
                RequestView::RemoveFile(path),
            ];
            if script[0] != ReplyView::Exists(true) {
                seq![RequestView::Exists(path)]
            } else if script[2] is Done {
                found.push(reload_request())
            } else {
                found
            }
        },
    }
}

/// Whether forgetting a job deletes its unit file, by what is heard.
pub open spec fn deletes(context: ContextView, script: Seq<ReplyView>) -> bool {
    context.unit_dir is Some && script[0] == ReplyView::Exists(true) && script[2] is Done
}

/// The files once a job is forgotten, by what is heard.
pub open spec fn forgotten_files(
    files: Map<Seq<u8>, Seq<u8>>,
    context: ContextView,
    name: Seq<char>,
    script: Seq<ReplyView>,
) -> Map<Seq<u8>, Seq<u8>> {
    if deletes(context, script) {
        without_job(files, context, name)
    } else {
        files
    }
}

/// The requests that forget a job, where the replies tell the truth about the files and
/// no deletion fails.
pub open spec fn forget_requests(
    files: Map<Seq<u8>, Seq<u8>>,
    context: ContextView,
    name: Seq<char>,
) -> Seq<RequestView> {
    match context.unit_dir {
        None => Seq::empty(),
        Some(dir) => {
            let path = unit_path(context, dir, name);
            if files.contains_key(path) {
                seq![
                    RequestView::Exists(path),
                    disable_request(context, name),
                    RequestView::RemoveFile(path),
                    reload_request(),
                ]
            } else {
                seq![RequestView::Exists(path)]
            }
        },
    }
}

/// Whether every command started and no file was out of reach.
pub open spec fn all_started(script: Seq<ReplyView>) -> bool {
    forall|i: int| 0 <= i < script.len() ==> !(#[trigger] script[i] is Failed)
}

proof fn lemma_all_started(script: Seq<ReplyView>, n: int)
    requires
        0 <= n <= script.len(),
        all_started(script),
    ensures
        all_started(script.skip(n)),
{
    assert forall|i: int| 0 <= i < script.skip(n).len() implies !(#[trigger] script.skip(
        n,
    )[i] is Failed) by {
        assert(script.skip(n)[i] == script[n + i]);
    }
}

/// How a session that is about to forget a job goes on once the job is forgotten, after
/// these notes.
spec fn forgets_job(
    play: Play,
    next: Play,
    notes: Seq<EmitView>,
    context: ContextView,
    emits: Seq<EmitView>,
    name: Seq<char>,
    after: AfterView,
) -> bool {
    let steps = forget_steps(context, name, play.script);
    &&& played(next)
    &&& next.turn == forgotten_turn(context, notes, name, after)
    &&& next.files == forgotten_files(play.files, context, name, play.script)
    &&& next.torn == play.torn
    &&& next.code == play.code
    &&& steps.len() <= play.script.len()
    &&& next.script == play.script.skip(steps.len() as int)
    &&& play.asked == steps + next.asked
    &&& play.wrote == next.wrote
    &&& play.left == next.left
    &&& play.honest ==> {
        &&& next.honest
        &&& steps == forget_requests(play.files, context, name)
        &&& next.files == without_job(play.files, context, name)
        &&& has_unit_file(play.files, context, name) ==> deletes(context, play.script)
    }
    &&& all_started(play.script) && emits.len() == 0 ==> {
        &&& notes.len() == 0
        &&& play.said == next.said
    }
}

/// Forgetting a job that has a unit file, up to the reply to the deletion.
#[verifier::spinoff_prover]
pub(crate) proof fn lemma_deleting(
    play: Play,
    context: ContextView,
    emits: Seq<EmitView>,
    name: Seq<char>,
    after: AfterView,
) -> (next: Play)
    requires
        played(play),
        context.unit_dir is Some,
        play.turn == forget_turn(context, emits, name, after),
        play.script[0] == ReplyView::Exists(true),
    ensures
        ({
            let path = unit_path(context, context.unit_dir->0, name);
            let reply = play.script[2];
            &&& played(next)
            &&& play.script.len() >= 3
            &&& reply is Done || reply is Failed
            &&& next.turn == (if reply is Done {
                ask_turn(
                    context,
                    Seq::empty(),
                    reload_request(),
                    StateView::Refreshing { name, after },
                )
            } else {
                forgotten_turn(
                    context,
                    seq![undeleted_note(path, reply->Failed_0)],
                    name,
                    after,
                )
            })
            &&& next.files == (if reply is Done {
                play.files.remove(path)
            } else {
                play.files
            })
            &&& next.torn == play.torn
            &&& next.code == play.code
            &&& next.script == play.script.skip(3)
            &&& play.honest == (play.files.contains_key(path) && reply is Done && next.honest)
            &&& play.asked == seq![
                RequestView::Exists(path),
                disable_request(context, name),
                RequestView::RemoveFile(path),
            ] + next.asked
            &&& play.said == emits + reply_notes("systemctl"@, play.script[1]) + next.said
            &&& play.wrote == next.wrote
            &&& play.left == next.left
        }),
{
    let script = play.script;
    let path = unit_path(context, context.unit_dir->0, name);
    let checked = lemma_reply(play);
    let disabled = lemma_reply(checked);
    let next = lemma_reply(disabled);
    assert(disabled.script =~= script.skip(2));
    assert(next.script =~= script.skip(3));
    assert(play.asked =~= seq![
        RequestView::Exists(path),
        disable_request(context, name),
        RequestView::RemoveFile(path),
    ] + next.asked);
    assert(play.said =~= emits + reply_notes("systemctl"@, script[1]) + next.said);
    next
}

/// Forgetting a job that has a unit file.
#[verifier::spinoff_prover]
proof fn lemma_forgetting_a_file(
    play: Play,
    context: ContextView,
    emits: Seq<EmitView>,
    name: Seq<char>,
    after: AfterView,
) -> (res: (Play, Seq<EmitView>))
    requires
        played(play),
        context.unit_dir is Some,
        play.turn == forget_turn(context, emits, name, after),
        play.script[0] == ReplyView::Exists(true),
    ensures
        forgets_job(play, res.0, res.1, context, emits, name, after),
{
    let script = play.script;
    let steps = forget_steps(context, name, script);
    let path = unit_path(context, context.unit_dir->0, name);
    let deleted = lemma_deleting(play, context, emits, name, after);
    if script[2] is Done {
        let next = lemma_reply(deleted);
        assert(next.script =~= script.skip(4));
        assert(play.asked =~= steps + next.asked);
        assert(play.honest ==> steps =~= forget_requests(play.files, context, name));
        if all_started(script) && emits.len() == 0 {
            assert(!(script[1] is Failed) && !(script[3] is Failed));
            assert(play.said =~= next.said);
        }
        (next, reply_notes("systemctl"@, script[3]))
    } else {
        (deleted, seq![undeleted_note(path, script[2]->Failed_0)])
    }
}

/// Forgetting a job: what is asked before the session goes on, and what that leaves.
#[verifier::spinoff_prover]
proof fn lemma_forgetting(
    play: Play,
    context: ContextView,
    emits: Seq<EmitView>,
    name: Seq<char>,
    after: AfterView,
) -> (res: (Play, Seq<EmitView>))
    requires
        played(play),
        play.turn == forget_turn(context, emits, name, after),
    ensures
        forgets_job(play, res.0, res.1, context, emits, name, after),
{
    let steps = forget_steps(context, name, play.script);
    if context.unit_dir is None {
        assert(play.script.skip(0) =~= play.script);
        assert(steps + play.asked =~= play.asked);
        (play, emits)
    } else if play.script[0] == ReplyView::Exists(true) {
        lemma_forgetting_a_file(play, context, emits, name, after)
    } else {
        let path = unit_path(context, context.unit_dir->0, name);
        let checked = lemma_reply(play);
        if !play.files.contains_key(path) {
            assert(play.files.remove(path) =~= play.files);
        }
        assert(play.asked =~= steps + checked.asked);
        if emits.len() == 0 {
            assert(play.said =~= checked.said);
        }
        (checked, Seq::empty())
    }
}

// ---------------------------------------------------------------------------
// Persisting
// ---------------------------------------------------------------------------

/// The request that asks whether a transient unit has the name.
pub open spec fn show_request(context: ContextView, name: Seq<char>) -> RequestView {
    RequestView::Capture(
        systemctl_command().with("show"@).with(unit_of(context, name)).with(
            "--property=UnitFileState"@,
        ).with("--value"@),
    )
}

/// The request that enables and starts a unit.
pub open spec fn enable_request(context: ContextView, name: Seq<char>) -> RequestView {
    RequestView::Forward(
        systemctl_command().with("enable"@).with("--now"@).with(unit_of(context, name)),
    )
}

/// How a persisted launch goes, by the replies to its own requests.
pub enum Course {
    /// A transient unit has the name.
    Shadowed,
    /// The unit file could not be written.
    Unwritten,
    /// systemd could not read the unit file.
    Unread,
    /// systemd refused to enable the unit.
    Refused,
    /// The job is persisted.
    Persisted,
}

/// How a persisted launch goes. The replies are those to the question about the name,
/// to the write, to the reload and to the call that enables the unit.
pub open spec fn course(script: Seq<ReplyView>) -> Course {
    if shadowed(script[0]) {
        Course::Shadowed
    } else if !(script[1] is Done) {
        Course::Unwritten
    } else if !reply_ok(script[2]) {
        Course::Unread
    } else if !reply_ok(script[3]) {
        Course::Refused
    } else {
        Course::Persisted
    }
}

/// The replies that are left once the question about lingering is answered.
pub open spec fn after_lingering(
    user: Option<Seq<char>>,
    script: Seq<ReplyView>,
) -> Seq<ReplyView> {
    script.skip(linger_requests(user).len() as int)
}

/// The requests of a persisted launch. Where systemd cannot read the unit file, the
/// file is deleted; where it refuses the unit, the job is forgotten.
pub open spec fn persist_requests(
    context: ContextView,
    name: Seq<char>,
    dir: Seq<u8>,
    body: Seq<u8>,
    script: Seq<ReplyView>,
) -> Seq<RequestView> {
    let path = unit_path(context, dir, name);
    let show = show_request(context, name);
    let write = RequestView::WriteFile { dir, path, body };
    let reload = reload_request();
    let enable = enable_request(context, name);
    match course(script) {
        Course::Shadowed => seq![show],
        Course::Unwritten => seq![show, write],
        Course::Unread => seq![show, write, reload, RequestView::RemoveFile(path)],
        Course::Refused => seq![show, write, reload, enable] + forget_steps(
            context,
            name,
            script.skip(4),
        ),
        Course::Persisted => seq![show, write, reload, enable],
    }
}

/// The exit code of a persisted launch.
pub open spec fn persist_code(script: Seq<ReplyView>) -> u8 {
    match course(script) {
        Course::Shadowed | Course::Unwritten => EXIT_FAILURE,
        Course::Unread => reply_code(script[2]),
        Course::Refused => reply_code(script[3]),
        Course::Persisted => 0,
    }
}

/// Whether the unit file of a launch that came to nothing is deleted again, by what is
/// heard.
pub open spec fn undone(context: ContextView, script: Seq<ReplyView>) -> bool {
    match course(script) {
        Course::Unread => script[3] is Done,
        Course::Refused => deletes(context, script.skip(4)),
        _ => false,
    }
}

/// The files that a persisted launch leaves.
pub open spec fn persist_files(
    context: ContextView,
    name: Seq<char>,
    dir: Seq<u8>,
    body: Seq<u8>,
    files: Map<Seq<u8>, Seq<u8>>,
    torn: Option<Seq<u8>>,
    script: Seq<ReplyView>,
) -> Map<Seq<u8>, Seq<u8>> {
    let path = unit_path(context, dir, name);
    match course(script) {
        Course::Shadowed => files,
        Course::Unwritten => torn_at(files, path, torn),
        Course::Unread | Course::Refused => if undone(context, script) {
            files.remove(path)
        } else {
            files.insert(path, body)
        },
        Course::Persisted => files.insert(path, body),
    }
}

/// What systemd's reply to the enabling call leads to.
#[verifier::spinoff_prover]
proof fn lemma_enabling(play: Play, context: ContextView, name: Seq<char>)
    requires
        played(play),
        play.turn == ask_turn(
            context,
            play.turn.emits,
            enable_request(context, name),
            StateView::Enabling { name },
        ),
    ensures
        play.script.len() > 0,
        play.wrote is None,
        play.code == reply_code(play.script[0]),
        reply_ok(play.script[0]) ==> {
            &&& play.asked == seq![enable_request(context, name)]
            &&& play.left == play.files
        },
        !reply_ok(play.script[0]) ==> {
            let later = play.script.skip(1);
            &&& play.asked == seq![enable_request(context, name)] + forget_steps(
                context,
                name,
                later,
            )
            &&& play.left == forgotten_files(play.files, context, name, later)
            &&& play.honest && has_unit_file(play.files, context, name) ==> deletes(
                context,
                later,
            )
        },
{
    let next = lemma_reply(play);
    let enable = enable_request(context, name);
    if reply_ok(play.script[0]) {
        lemma_over(next);
        assert(play.asked =~= seq![enable]);
    } else {
        let code = reply_code(play.script[0]);
        let notes = reply_notes("systemctl"@, play.script[0]);
        let (end, _) = lemma_forgetting(next, context, notes, name, AfterView::Exit(code));
        lemma_over(end);
        assert(play.asked =~= seq![enable] + forget_steps(context, name, next.script));
    }
}

/// What systemd's reply to the reload leads to.
#[verifier::spinoff_prover]
proof fn lemma_reloading(play: Play, context: ContextView, name: Seq<char>, path: Seq<u8>)
    requires
        played(play),
        play.turn == ask_turn(
            context,
            play.turn.emits,
            reload_request(),
            StateView::Reloading { name, path },
        ),
    ensures
        play.script.len() > 1,
        play.wrote is None,
        !reply_ok(play.script[0]) ==> {
            &&& play.code == reply_code(play.script[0])
            &&& play.asked == seq![reload_request(), RequestView::RemoveFile(path)]
            &&& play.left == (if play.script[1] is Done {
                play.files.remove(path)
            } else {
                play.files
            })
            &&& play.honest ==> play.script[1] is Done
        },
        reply_ok(play.script[0]) ==> play.code == reply_code(play.script[1]),
        reply_ok(play.script[0]) && reply_ok(play.script[1]) ==> {
            &&& play.asked == seq![reload_request(), enable_request(context, name)]
            &&& play.left == play.files
        },
        reply_ok(play.script[0]) && !reply_ok(play.script[1]) ==> {
            let later = play.script.skip(2);
            &&& play.asked == seq![reload_request(), enable_request(context, name)]
                + forget_steps(context, name, later)
            &&& play.left == forgotten_files(play.files, context, name, later)
            &&& play.honest && has_unit_file(play.files, context, name) ==> deletes(
                context,
                later,
            )
        },
{
    let next = lemma_reply(play);
    let reload = reload_request();
    if reply_ok(play.script[0]) {
        let enable = enable_request(context, name);
        lemma_enabling(next, context, name);
        assert(next.script[0] == play.script[1]);
        if reply_ok(play.script[1]) {
            assert(play.asked =~= seq![reload, enable]);
        } else {
            let later = play.script.skip(2);
            assert(next.script.skip(1) =~= later);
            assert(play.asked =~= seq![reload, enable] + forget_steps(context, name, later));
        }
    } else {
        let end = lemma_reply(next);
        lemma_over(end);
        assert(play.asked =~= seq![reload, RequestView::RemoveFile(path)]);
    }
}

/// What the reply to the question about the name leads to, where no unit file is
/// written.
#[verifier::spinoff_prover]
proof fn lemma_unwritten(
    play: Play,
    context: ContextView,
    name: Seq<char>,
    dir: Seq<u8>,
    body: Seq<u8>,
)
    requires
        played(play),
        play.turn == ask_turn(
            context,
            play.turn.emits,
            show_request(context, name),
            StateView::Shadowing { name, dir, body },
        ),
        course(play.script) is Shadowed || course(play.script) is Unwritten,
    ensures
        play.asked == persist_requests(context, name, dir, body, play.script),
        play.code == EXIT_FAILURE,
        play.left == persist_files(context, name, dir, body, play.files, play.torn, play.script),
        play.wrote == (if course(play.script) is Shadowed {
            None
        } else {
            Some(play.script[1])
        }),
{
    let asked = persist_requests(context, name, dir, body, play.script);
    let writing = lemma_reply(play);
    if shadowed(play.script[0]) {
        lemma_over(writing);
        assert(play.asked =~= asked);
    } else {
        let end = lemma_reply(writing);
        assert(writing.script[0] == play.script[1]);
        lemma_over(end);
        assert(play.asked =~= asked);
    }
}

/// What the reply to the question about the name leads to, where the unit file is
/// written: the session goes on with the reload.
#[verifier::spinoff_prover]
proof fn lemma_written(
    play: Play,
    context: ContextView,
    name: Seq<char>,
    dir: Seq<u8>,
    body: Seq<u8>,
) -> (next: Play)
    requires
        played(play),
        play.turn == ask_turn(
            context,
            play.turn.emits,
            show_request(context, name),
            StateView::Shadowing { name, dir, body },
        ),
        !(course(play.script) is Shadowed || course(play.script) is Unwritten),
    ensures
        played(next),
        next.turn == ask_turn(
            context,
            next.turn.emits,
            reload_request(),
            StateView::Reloading { name, path: unit_path(context, dir, name) },
        ),
        next.files == play.files.insert(unit_path(context, dir, name), body),
        next.script == play.script.skip(2),
        next.code == play.code,
        next.honest == play.honest,
        play.asked == seq![
            show_request(context, name),
            RequestView::WriteFile { dir, path: unit_path(context, dir, name), body },
        ] + next.asked,
        play.wrote == Some(play.script[1]),
        play.left == next.left,
        play.script.len() >= 2,
{
    let writing = lemma_reply(play);
    let next = lemma_reply(writing);
    assert(writing.script[0] == play.script[1]);
    assert(next.script =~= play.script.skip(2));
    assert(play.asked =~= seq![
        show_request(context, name),
        RequestView::WriteFile { dir, path: unit_path(context, dir, name), body },
    ] + next.asked);
    next
}

/// What comes of a persisted launch.
#[verifier::spinoff_prover]
proof fn lemma_persist(
    play: Play,
    context: ContextView,
    name: Seq<char>,
    dir: Seq<u8>,
    body: Seq<u8>,
)
    requires
        played(play),
        context.unit_dir == Some(dir),
        play.turn == ask_turn(
            context,
            play.turn.emits,
            show_request(context, name),
            StateView::Shadowing { name, dir, body },
        ),
    ensures
        play.asked == persist_requests(context, name, dir, body, play.script),
        play.code == persist_code(play.script),
        play.left == persist_files(context, name, dir, body, play.files, play.torn, play.script),
        play.wrote == (if course(play.script) is Shadowed {
            None
        } else {
            Some(play.script[1])
        }),
        play.honest && (course(play.script) is Unread || course(play.script) is Refused) ==> undone(
            context,
            play.script,
        ),
{
    let path = unit_path(context, dir, name);
    let script = play.script;
    if course(script) is Shadowed || course(script) is Unwritten {
        lemma_unwritten(play, context, name, dir, body);
    } else {
        let written = lemma_written(play, context, name, dir, body);
        lemma_reloading(written, context, name, path);
        assert(written.script[0] == script[2]);
        assert(written.script[1] == script[3]);
        assert(written.script.skip(2) =~= script.skip(4));
        assert(written.files.remove(path) =~= play.files.remove(path));
        assert(play.asked =~= persist_requests(context, name, dir, body, script));
    }
}

/// A persisted launch, request by request, whatever is heard. It asks whether lingering
/// is on, where the user is known, and whether a transient unit has the name. Then it
/// writes the unit file, makes systemd read it, and enables the unit. Where systemd
/// cannot read the file, the file is deleted; where it refuses the unit, the job is
/// forgotten.
pub proof fn persisting_goes_step_by_step(
    context: ContextView,
    user: Option<Seq<char>>,
    spec: RunSpecView,
    dir: Seq<u8>,
    files: Map<Seq<u8>, Seq<u8>>,
    torn: Option<Seq<u8>>,
    script: Seq<ReplyView>,
    code: u8,
)
    requires
        spec.persist,
        context.unit_dir == Some(dir),
        unsupported(spec.systemd_opts) is None,
        ends_with(run_turn(context, user, spec), script, code),
    ensures
        ({
            let name = launch_name(spec);
            let body = unit_text(name, spec);
            let own = after_lingering(user, script);
            let turn = run_turn(context, user, spec);
            &&& requests(turn, script) == linger_requests(user) + persist_requests(
                context,
                name,
                dir,
                body,
                own,
            )
            &&& code == persist_code(own)
            &&& final_files(turn, files, torn, script) == persist_files(
                context,
                name,
                dir,
                body,
                files,
                torn,
                own,
            )
            &&& write_reply(turn, script) == (if course(own) is Shadowed {
                None
            } else {
                Some(own[1])
            })
            &&& plays_truthfully(turn, files, torn, script) && (course(own) is Unread || course(
                own,
            ) is Refused) ==> undone(context, own)
        }),
{
    let name = launch_name(spec);
    let body = unit_text(name, spec);
    let play = lemma_play(run_turn(context, user, spec), files, torn, script, code);
    let own = after_lingering(user, script);
    let asked = persist_requests(context, name, dir, body, own);
    if user is Some {
        let launch = lemma_reply(play);
        lemma_persist(launch, context, name, dir, body);
    } else {
        assert(own =~= script);
        lemma_persist(play, context, name, dir, body);
        assert(linger_requests(user) + asked =~= asked);
    }
}

/// A unit file that systemd could not read is never enabled, whatever is heard.
pub proof fn an_unread_unit_is_never_enabled(
    context: ContextView,
    user: Option<Seq<char>>,
    spec: RunSpecView,
    dir: Seq<u8>,
    script: Seq<ReplyView>,
    code: u8,
)
    requires
        spec.persist,
        context.unit_dir == Some(dir),
        unsupported(spec.systemd_opts) is None,
        ends_with(run_turn(context, user, spec), script, code),
        course(after_lingering(user, script)) is Unread,
    ensures
        !requests(run_turn(context, user, spec), script).contains(
            enable_request(context, launch_name(spec)),
        ),
{
    let name = launch_name(spec);
    let body = unit_text(name, spec);
    let asked = requests(run_turn(context, user, spec), script);
    let replies = after_lingering(user, script);
    let own = persist_requests(context, name, dir, body, replies);
    let before = linger_requests(user).len();
    persisting_goes_step_by_step(context, user, spec, dir, Map::empty(), None, script, code);
    lemma_never_enabled(context, name, dir, body, replies);
    assert forall|i: int| 0 <= i < asked.len() implies asked[i] != enable_request(
        context,
        name,
    ) by {
        if i >= before {
            assert(asked[i] == own[i - before]);
        }
    }
}

/// The enabling call is none of the requests of a launch whose unit file was not read.
#[verifier::spinoff_prover]
proof fn lemma_never_enabled(
    context: ContextView,
    name: Seq<char>,
    dir: Seq<u8>,
    body: Seq<u8>,
    script: Seq<ReplyView>,
)
    requires
        course(script) is Unread,
    ensures
        ({
            let own = persist_requests(context, name, dir, body, script);
            forall|i: int|
                0 <= i < own.len() ==> #[trigger] own[i] != enable_request(context, name)
        }),
{
    lemma_verbs_differ(context, name);
}

/// A unit that systemd refused to enable and that has a unit file is disabled, exactly
/// once, and after it was refused.
pub proof fn a_refused_unit_is_disabled_once(
    context: ContextView,
    user: Option<Seq<char>>,
    spec: RunSpecView,
    dir: Seq<u8>,
    script: Seq<ReplyView>,
    code: u8,
)
    requires
        spec.persist,
        context.unit_dir == Some(dir),
        unsupported(spec.systemd_opts) is None,
        ends_with(run_turn(context, user, spec), script, code),
        course(after_lingering(user, script)) is Refused,
        after_lingering(user, script)[4] == ReplyView::Exists(true),
    ensures
        ({
            let asked = requests(run_turn(context, user, spec), script);
            let enable = enable_request(context, launch_name(spec));
            let disable = disable_request(context, launch_name(spec));
            let enabling = linger_requests(user).len() + 3;
            &&& asked[enabling as int] == enable
            &&& forall|i: int|
                0 <= i < asked.len() ==> (#[trigger] asked[i] == disable <==> i == enabling + 2)
            &&& asked.len() > enabling + 2
        }),
{
    let name = launch_name(spec);
    let body = unit_text(name, spec);
    let disable = disable_request(context, name);
    let asked = requests(run_turn(context, user, spec), script);
    let replies = after_lingering(user, script);
    let own = persist_requests(context, name, dir, body, replies);
    let before = linger_requests(user).len();
    persisting_goes_step_by_step(context, user, spec, dir, Map::empty(), None, script, code);
    lemma_one_reply_each(run_turn(context, user, spec), script);
    lemma_disabled_once(context, name, dir, body, replies);
    assert(asked[before as int + 3] == own[3]);
    assert forall|i: int| 0 <= i < asked.len() implies (#[trigger] asked[i] == disable <==> i
        == before + 5) by {
        if i >= before {
            assert(asked[i] == own[i - before]);
        }
    }
}

/// Where the disabling call stands among the requests of a launch that was refused.
#[verifier::spinoff_prover]
proof fn lemma_disabled_once(
    context: ContextView,
    name: Seq<char>,
    dir: Seq<u8>,
    body: Seq<u8>,
    script: Seq<ReplyView>,
)
    requires
        context.unit_dir == Some(dir),
        course(script) is Refused,
        script.len() > 4,
        script[4] == ReplyView::Exists(true),
    ensures
        ({
            let own = persist_requests(context, name, dir, body, script);
            &&& own.len() >= 7
            &&& own[3] == enable_request(context, name)
            &&& forall|i: int|
                0 <= i < own.len() ==> (#[trigger] own[i] == disable_request(context, name) <==> i
                    == 5)
        }),
{
    let own = persist_requests(context, name, dir, body, script);
    let forget = forget_steps(context, name, script.skip(4));
    assert(script.skip(4)[0] == script[4]);
    lemma_verbs_differ(context, name);
    assert forall|i: int| 0 <= i < own.len() implies (#[trigger] own[i] == disable_request(
        context,
        name,
    ) <==> i == 5) by {
        if i >= 4 {
            assert(own[i] == forget[i - 4]);
        }
    }
}

/// The calls that reload, disable and enable are told apart by their length.
proof fn lemma_verbs_differ(context: ContextView, name: Seq<char>)
    ensures
        reload_request() != enable_request(context, name),
        reload_request() != disable_request(context, name),
        enable_request(context, name) != disable_request(context, name),
{
    assert(reload_request()->Forward_0.args.len() == 2);
    assert(disable_request(context, name)->Forward_0.args.len() == 3);
    assert(enable_request(context, name)->Forward_0.args.len() == 4);
}

/// Persisting is all or nothing. A session that succeeds leaves the unit file, with
/// the text made for the job. One that fails leaves the files as they were if no write
/// was asked for, and no unit file for the job if the file was written, so that none
/// is left behind to fail at every boot. Where the write itself failed, at the path is
/// what that left. No other file changes.
pub proof fn persisting_is_all_or_nothing(
    context: ContextView,
    user: Option<Seq<char>>,
    spec: RunSpecView,
    dir: Seq<u8>,
    files: Map<Seq<u8>, Seq<u8>>,
    torn: Option<Seq<u8>>,
    script: Seq<ReplyView>,
    code: u8,
)
    requires
        spec.persist,
        context.unit_dir == Some(dir),
        ends_with(run_turn(context, user, spec), script, code),
        plays_truthfully(run_turn(context, user, spec), files, torn, script),
    ensures
        ({
            let name = launch_name(spec);
            let path = unit_path(context, dir, name);
            let turn = run_turn(context, user, spec);
            let after = final_files(turn, files, torn, script);
            match write_reply(turn, script) {
                None => code != 0 && after == files,
                Some(ReplyView::Done) => after == (if code == 0 {
                    files.insert(path, unit_text(name, spec))
                } else {
                    files.remove(path)
                }),
                Some(_) => code != 0 && after == torn_at(files, path, torn),
            }
        }),
{
    if unsupported(spec.systemd_opts) is None {
        persisting_goes_step_by_step(context, user, spec, dir, files, torn, script, code);
    } else {
        let play = lemma_play(run_turn(context, user, spec), files, torn, script, code);
        if user is Some {
            let end = lemma_reply(play);
            lemma_over(end);
        } else {
            lemma_over(play);
        }
    }
}

/// An override that no unit file can hold is refused before anything of the launch
/// itself runs, and so is persisting where no directory for unit files is known.
pub proof fn persisting_refuses_before_anything_runs(
    context: ContextView,
    emits: Seq<EmitView>,
    spec: RunSpecView,
)
    requires
        spec.persist,
        unsupported(spec.systemd_opts) is Some || context.unit_dir is None,
    ensures
        launch_turn(context, emits, spec).next == NextView::Exit(EXIT_USAGE),
{
}

/// A job is never persisted over a transient one of the same name: the session ends
/// before the unit file is written.
pub proof fn persisting_refuses_to_shadow(session: SessionView, reply: ReplyView)
    requires
        session.state is Shadowing,
        shadowed(reply),
    ensures
        turn_after(session, reply).next == NextView::Exit(EXIT_FAILURE),
{
}

/// Whether a request runs a program.
pub open spec fn runs(request: RequestView, program: Seq<char>) -> bool {
    match request {
        RequestView::Capture(line) | RequestView::Forward(line) => line.program == program,
        _ => false,
    }
}

/// Whether a turn and all that can follow it stay clear of `systemd-run`.
spec fn without_systemd_run(turn: TurnView) -> bool {
    match turn.next {
        NextView::Exit(_) => true,
        NextView::Ask(request, session) => !runs(request, "systemd-run"@) && waits_rightly(turn)
            && match session.state {
            StateView::Lingering { spec, .. } => spec.persist,
            StateView::Launching { .. } | StateView::Querying { .. } => false,
            _ => true,
        },
    }
}

proof fn lemma_without_systemd_run(turn: TurnView, script: Seq<ReplyView>)
    requires
        without_systemd_run(turn),
        plays(turn, script),
    ensures
        forall|i: int|
            0 <= i < requests(turn, script).len() ==> !runs(
                #[trigger] requests(turn, script)[i],
                "systemd-run"@,
            ),
    decreases script.len(),
{
    if script.len() > 0 {
        let request = turn.next->Ask_0;
        let session = turn.next->Ask_1;
        let next = turn_after(session, script[0]);
        assert(answers(request, script[0]));
        assert(fits(session.state, script[0]));
        turns_wait_rightly(session, script[0]);
        reveal_strlit("systemctl");
        reveal_strlit("systemd-run");
        assert("systemctl"@.len() != "systemd-run"@.len());
        assert(without_systemd_run(next));
        let later = requests(next, script.skip(1));
        lemma_without_systemd_run(next, script.skip(1));
        assert forall|i: int| 0 <= i < requests(turn, script).len() implies !runs(
            #[trigger] requests(turn, script)[i],
            "systemd-run"@,
        ) by {
            if i > 0 {
                assert(requests(turn, script)[i] == later[i - 1]);
            }
        }
    }
}

/// A persisted job is a unit file, not a transient unit: `systemd-run` is never
/// called for it.
pub proof fn persisting_never_calls_systemd_run(
    context: ContextView,
    user: Option<Seq<char>>,
    spec: RunSpecView,
    script: Seq<ReplyView>,
)
    requires
        spec.persist,
        plays(run_turn(context, user, spec), script),
    ensures
        forall|i: int|
            0 <= i < requests(run_turn(context, user, spec), script).len() ==> !runs(
                #[trigger] requests(run_turn(context, user, spec), script)[i],
                "systemd-run"@,
            ),
{
    reveal_strlit("loginctl");
    reveal_strlit("systemctl");
    reveal_strlit("systemd-run");
    assert("loginctl"@.len() != "systemd-run"@.len());
    assert("systemctl"@.len() != "systemd-run"@.len());
    lemma_without_systemd_run(run_turn(context, user, spec), script);
}

// ---------------------------------------------------------------------------
// Removing
// ---------------------------------------------------------------------------

/// The files without the unit files of some jobs.
pub open spec fn without_jobs(
    files: Map<Seq<u8>, Seq<u8>>,
    context: ContextView,
    names: Seq<Seq<char>>,
) -> Map<Seq<u8>, Seq<u8>>
    decreases names.len(),
{
    if names.len() == 0 {
        files
    } else {
        without_jobs(without_job(files, context, names[0]), context, names.skip(1))
    }
}

/// The requests that remove some jobs, where the replies tell the truth about the files
/// and no deletion fails: each unit is stopped and its failure record reset, and where
/// there is a unit file, the unit is disabled, the file deleted and systemd told.
pub open spec fn removal_requests(
    files: Map<Seq<u8>, Seq<u8>>,
    context: ContextView,
    names: Seq<Seq<char>>,
) -> Seq<RequestView>
    decreases names.len(),
{
    if names.len() == 0 {
        Seq::empty()
    } else {
        seq![stop_request(context, names[0]), reset_request(context, names[0])] + forget_requests(
            files,
            context,
            names[0],
        ) + removal_requests(without_job(files, context, names[0]), context, names.skip(1))
    }
}

/// The requests that remove some jobs, by what is heard.
pub open spec fn removal_steps(
    context: ContextView,
    names: Seq<Seq<char>>,
    script: Seq<ReplyView>,
) -> Seq<RequestView>
    decreases names.len(),
{
    if names.len() == 0 {
        Seq::empty()
    } else {
        let later = script.skip(2);
        let forget = forget_steps(context, names[0], later);
        seq![stop_request(context, names[0]), reset_request(context, names[0])] + forget
            + removal_steps(context, names.skip(1), later.skip(forget.len() as int))
    }
}

/// The files once some jobs are removed, by what is heard.
pub open spec fn removal_files(
    files: Map<Seq<u8>, Seq<u8>>,
    context: ContextView,
    names: Seq<Seq<char>>,
    script: Seq<ReplyView>,
) -> Map<Seq<u8>, Seq<u8>>
    decreases names.len(),
{
    if names.len() == 0 {
        files
    } else {
        let later = script.skip(2);
        let forget = forget_steps(context, names[0], later);
        removal_files(
            forgotten_files(files, context, names[0], later),
            context,
            names.skip(1),
            later.skip(forget.len() as int),
        )
    }
}

/// The request that stops a unit to remove.
pub open spec fn stop_request(context: ContextView, name: Seq<char>) -> RequestView {
    RequestView::Capture(systemctl_command().with("stop"@).with(unit_of(context, name)))
}

/// The request that resets the failure record of a unit to remove.
pub open spec fn reset_request(context: ContextView, name: Seq<char>) -> RequestView {
    RequestView::Capture(systemctl_command().with("reset-failed"@).with(unit_of(context, name)))
}

/// The confirmations that jobs were removed.
pub open spec fn removal_output(context: ContextView, names: Seq<Seq<char>>) -> Seq<EmitView> {
    Seq::new(
        names.len(),
        |i: int| EmitView::Print("removed: "@ + unit_of(context, names[i]) + "\n"@),
    )
}

proof fn lemma_one_more(context: ContextView, name: Seq<char>, rest: Seq<Seq<char>>)
    ensures
        removal_output(context, seq![name] + rest) == removal_output(context, seq![name])
            + removal_output(context, rest),
{
    assert(removal_output(context, seq![name] + rest) =~= removal_output(context, seq![name])
        + removal_output(context, rest));
}

/// The removal of one job, up to the next.
#[verifier::spinoff_prover]
proof fn lemma_remove_one(play: Play, context: ContextView, names: Seq<Seq<char>>) -> (next: Play)
    requires
        played(play),
        names.len() > 0,
        play.turn == remove_turn(context, play.turn.emits, names),
    ensures
        ({
            let later = play.script.skip(2);
            let steps = forget_steps(context, names[0], later);
            let calls = seq![stop_request(context, names[0]), reset_request(context, names[0])];
            &&& played(next)
            &&& next.turn == remove_turn(context, next.turn.emits, names.skip(1))
            &&& next.files == forgotten_files(play.files, context, names[0], later)
            &&& next.code == play.code
            &&& next.script == later.skip(steps.len() as int)
            &&& play.asked == calls + steps + next.asked
            &&& play.left == next.left
            &&& play.honest ==> {
                &&& next.honest
                &&& steps == forget_requests(play.files, context, names[0])
                &&& next.files == without_job(play.files, context, names[0])
            }
            &&& all_started(play.script) ==> {
                &&& all_started(next.script)
                &&& play.said == play.turn.emits + next.said
                &&& next.turn.emits == removal_output(context, seq![names[0]])
            }
        }),
{
    let name = names[0];
    let rest = names.skip(1);
    let none = Seq::<EmitView>::empty();
    let stopped = lemma_reply(play);
    let reset = lemma_reply(stopped);
    assert(reset.script =~= play.script.skip(2));
    let (next, notes) = lemma_forgetting(reset, context, none, name, AfterView::Remove(rest));
    let steps = forget_steps(context, name, reset.script);
    let calls = seq![stop_request(context, name), reset_request(context, name)];
    assert(play.asked =~= calls + steps + next.asked);
    if all_started(play.script) {
        lemma_all_started(play.script, 2);
        lemma_all_started(reset.script, steps.len() as int);
        let note = EmitView::Print("removed: "@ + unit_of(context, name) + "\n"@);
        assert(notes.push(note) =~= seq![note]);
        assert(removal_output(context, seq![name]) =~= seq![note]);
        assert(play.said =~= play.turn.emits + next.said);
    }
    next
}

proof fn lemma_remove(play: Play, context: ContextView, names: Seq<Seq<char>>)
    requires
        played(play),
        play.turn == remove_turn(context, play.turn.emits, names),
    ensures
        play.code == 0,
        play.asked == removal_steps(context, names, play.script),
        play.left == removal_files(play.files, context, names, play.script),
        play.honest ==> play.asked == removal_requests(play.files, context, names),
        play.honest ==> play.left == without_jobs(play.files, context, names),
        all_started(play.script) ==> play.said == play.turn.emits + removal_output(context, names),
    decreases names.len(),
{
    if names.len() == 0 {
        lemma_over(play);
        assert(play.turn.emits + removal_output(context, names) =~= play.turn.emits);
    } else {
        let rest = names.skip(1);
        let next = lemma_remove_one(play, context, names);
        lemma_remove(next, context, rest);
        if all_started(play.script) {
            lemma_one_more(context, names[0], rest);
            assert(seq![names[0]] + rest =~= names);
        }
    }
}

/// `remove` takes each job in order, whatever it hears: it stops the unit, resets its
/// failure record and forgets the job. The session succeeds, and where nothing fails to
/// start or to be deleted, the confirmations are all the output.
pub proof fn removing_goes_step_by_step(
    context: ContextView,
    emits: Seq<EmitView>,
    names: Seq<Seq<char>>,
    files: Map<Seq<u8>, Seq<u8>>,
    torn: Option<Seq<u8>>,
    script: Seq<ReplyView>,
    code: u8,
)
    requires
        ends_with(remove_turn(context, emits, names), script, code),
    ensures
        code == 0,
        requests(remove_turn(context, emits, names), script) == removal_steps(
            context,
            names,
            script,
        ),
        final_files(remove_turn(context, emits, names), files, torn, script) == removal_files(
            files,
            context,
            names,
            script,
        ),
        all_started(script) ==> output(remove_turn(context, emits, names), script) == emits
            + removal_output(context, names),
{
    let play = lemma_play(remove_turn(context, emits, names), files, torn, script, code);
    lemma_remove(play, context, names);
}

/// Where the replies tell the truth about the files and no deletion fails, `remove`
/// leaves no unit file of the jobs, and a job without a unit file causes no call but
/// those that stop and reset its unit.
pub proof fn removing_forgets_each_job(
    context: ContextView,
    emits: Seq<EmitView>,
    names: Seq<Seq<char>>,
    files: Map<Seq<u8>, Seq<u8>>,
    torn: Option<Seq<u8>>,
    script: Seq<ReplyView>,
    code: u8,
)
    requires
        ends_with(remove_turn(context, emits, names), script, code),
        plays_truthfully(remove_turn(context, emits, names), files, torn, script),
    ensures
        requests(remove_turn(context, emits, names), script) == removal_requests(
            files,
            context,
            names,
        ),
        final_files(remove_turn(context, emits, names), files, torn, script) == without_jobs(
            files,
            context,
            names,
        ),
{
    let play = lemma_play(remove_turn(context, emits, names), files, torn, script, code);
    lemma_remove(play, context, names);
}

/// What is left after some jobs were forgotten: no unit file of theirs, and every
/// other file as it was.
pub proof fn forgotten_jobs_have_no_unit_file(
    files: Map<Seq<u8>, Seq<u8>>,
    context: ContextView,
    dir: Seq<u8>,
    names: Seq<Seq<char>>,
)
    requires
        context.unit_dir == Some(dir),
    ensures
        forall|i: int|
            0 <= i < names.len() ==> !without_jobs(files, context, names).contains_key(
                unit_path(context, dir, #[trigger] names[i]),
            ),
        forall|path: Seq<u8>| #[trigger]
            without_jobs(files, context, names).contains_key(path) ==> files.contains_key(path)
                && without_jobs(files, context, names)[path] == files[path],
        forall|path: Seq<u8>|
            files.contains_key(path) && (forall|i: int|
                0 <= i < names.len() ==> unit_path(context, dir, #[trigger] names[i]) != path)
                ==> #[trigger] without_jobs(files, context, names).contains_key(path),
    decreases names.len(),
{
    if names.len() > 0 {
        let rest = names.skip(1);
        let first = unit_path(context, dir, names[0]);
        let gone = files.remove(first);
        forgotten_jobs_have_no_unit_file(gone, context, dir, rest);
        let left = without_jobs(files, context, names);
        assert(left == without_jobs(gone, context, rest));
        assert(!left.contains_key(first)) by {
            assert(!gone.contains_key(first));
        }
        assert forall|i: int| 0 <= i < names.len() implies !left.contains_key(
            unit_path(context, dir, #[trigger] names[i]),
        ) by {
            if i > 0 {
                assert(rest[i - 1] == names[i]);
            }
        }
        assert forall|path: Seq<u8>|
            files.contains_key(path) && (forall|i: int|
                0 <= i < names.len() ==> unit_path(context, dir, #[trigger] names[i])
                    != path) implies #[trigger] left.contains_key(path) by {
            assert(unit_path(context, dir, names[0]) != path);
            assert(gone.contains_key(path));
            assert forall|i: int| 0 <= i < rest.len() implies unit_path(
                context,
                dir,
                #[trigger] rest[i],
            ) != path by {
                assert(unit_path(context, dir, names[i + 1]) != path);
            }
        }
    }
}

/// `remove` succeeds whatever it hears: stopping a dead unit and resetting an unfailed
/// one carry no signal, and a file that cannot be deleted is only warned about.
pub proof fn removing_always_succeeds(
    context: ContextView,
    emits: Seq<EmitView>,
    names: Seq<Seq<char>>,
    script: Seq<ReplyView>,
    code: u8,
)
    requires
        ends_with(remove_turn(context, emits, names), script, code),
    ensures
        code == 0,
{
    removing_goes_step_by_step(context, emits, names, Map::empty(), None, script, code);
}

/// What of the output is printed: all but what goes to the error stream and what is
/// passed through from a command.
pub open spec fn printed(emits: Seq<EmitView>) -> Seq<EmitView> {
    emits.filter(|emit: EmitView| emit is Print)
}

/// Whether a turn and all that can follow it belong to a removal.
spec fn removing(turn: TurnView) -> bool {
    match turn.next {
        NextView::Exit(code) => code == 0,
        NextView::Ask(_, session) => match session.state {
            StateView::Stopping { .. } | StateView::Resetting { .. } => true,
            StateView::Checking { after, .. }
            | StateView::Disabling { after, .. }
            | StateView::Deleting { after, .. }
            | StateView::Refreshing { after, .. } => after is Remove,
            _ => false,
        },
    }
}

/// The jobs that a removal has yet to confirm.
spec fn unconfirmed(turn: TurnView) -> Seq<Seq<char>> {
    match turn.next {
        NextView::Exit(_) => Seq::empty(),
        NextView::Ask(_, session) => match session.state {
            StateView::Stopping { name, rest } | StateView::Resetting { name, rest } => seq![name]
                + rest,
            StateView::Checking { name, after, .. }
            | StateView::Disabling { name, after, .. }
            | StateView::Deleting { name, after, .. }
            | StateView::Refreshing { name, after } => seq![name] + after->Remove_0,
            _ => Seq::empty(),
        },
    }
}

proof fn lemma_printed_sum(a: Seq<EmitView>, b: Seq<EmitView>)
    ensures
        printed(a + b) == printed(a) + printed(b),
{
    Seq::filter_distributes_over_add(a, b, |emit: EmitView| emit is Print);
}

proof fn lemma_printed_one(emit: EmitView)
    ensures
        printed(seq![emit]) == (if emit is Print {
            seq![emit]
        } else {
            Seq::empty()
        }),
{
    reveal(Seq::filter);
    let none = Seq::<EmitView>::empty();
    let wanted = |emit: EmitView| emit is Print;
    assert(seq![emit].drop_last() =~= none);
    assert(none.filter(wanted) =~= none);
    assert(seq![emit].filter(wanted) =~= if emit is Print {
        none.push(emit)
    } else {
        none
    });
    assert(none.push(emit) =~= seq![emit]);
}

proof fn lemma_printed_none()
    ensures
        printed(Seq::empty()) == Seq::<EmitView>::empty(),
{
    reveal(Seq::filter);
}

/// A forgotten job is confirmed before the next one is taken up.
#[verifier::spinoff_prover]
proof fn lemma_forgotten(
    context: ContextView,
    notes: Seq<EmitView>,
    name: Seq<char>,
    rest: Seq<Seq<char>>,
)
    requires
        printed(notes) == Seq::<EmitView>::empty(),
    ensures
        ({
            let next = forgotten_turn(context, notes, name, AfterView::Remove(rest));
            &&& unconfirmed(next) == rest
            &&& printed(next.emits) == removal_output(context, seq![name])
        }),
{
    let note = EmitView::Print("removed: "@ + unit_of(context, name) + "\n"@);
    let next = forgotten_turn(context, notes, name, AfterView::Remove(rest));
    lemma_printed_sum(notes, seq![note]);
    lemma_printed_one(note);
    assert(notes.push(note) =~= notes + seq![note]);
    assert(removal_output(context, seq![name]) =~= seq![note]);
    if rest.len() > 0 {
        assert(seq![rest[0]] + rest.skip(1) =~= rest);
    } else {
        assert(rest =~= Seq::empty());
    }
}

/// One reply of a removal: what is printed next are the confirmations that are not due
/// any more.
proof fn lemma_confirming_step(session: SessionView, request: RequestView, reply: ReplyView)
    requires
        removing(ask_turn(session.context, Seq::empty(), request, session.state)),
        fits(session.state, reply),
    ensures
        ({
            let context = session.context;
            let turn = ask_turn(context, Seq::empty(), request, session.state);
            let next = turn_after(session, reply);
            &&& next.next matches NextView::Ask(_, later) ==> later.context == context
            &&& removal_output(context, unconfirmed(turn)) == printed(next.emits)
                + removal_output(context, unconfirmed(next))
        }),
{
    let context = session.context;
    let turn = ask_turn(context, Seq::empty(), request, session.state);
    let next = turn_after(session, reply);
    let none = Seq::<EmitView>::empty();
    lemma_printed_none();
    assert(printed(reply_notes("systemctl"@, reply)) == none) by {
        if let ReplyView::Failed(reason) = reply {
            lemma_printed_one(start_failure("systemctl"@, reason));
        }
    }
    match session.state {
        StateView::Resetting { name, rest } => {
            lemma_forgotten(context, none, name, rest);
            lemma_one_more(context, name, rest);
        },
        StateView::Checking { name, after, .. } => {
            lemma_forgotten(context, none, name, after->Remove_0);
            lemma_one_more(context, name, after->Remove_0);
        },
        StateView::Deleting { name, path, after } => {
            if let ReplyView::Failed(reason) = reply {
                let note = undeleted_note(path, reason);
                lemma_printed_one(note);
                lemma_forgotten(context, seq![note], name, after->Remove_0);
            }
            lemma_one_more(context, name, after->Remove_0);
        },
        StateView::Refreshing { name, after } => {
            lemma_forgotten(context, reply_notes("systemctl"@, reply), name, after->Remove_0);
            lemma_one_more(context, name, after->Remove_0);
        },
        _ => {},
    }
    if unconfirmed(next) == unconfirmed(turn) {
        assert(removal_output(context, unconfirmed(turn)) =~= none + removal_output(
            context,
            unconfirmed(next),
        ));
    }
}

proof fn lemma_confirming(turn: TurnView, context: ContextView, script: Seq<ReplyView>)
    requires
        removing(turn),
        waits_rightly(turn),
        turn.next matches NextView::Ask(_, session) ==> session.context == context,
        plays(turn, script),
        last_turn(turn, script).next is Exit,
    ensures
        printed(output(turn, script)) == printed(turn.emits) + removal_output(
            context,
            unconfirmed(turn),
        ),
    decreases script.len(),
{
    if script.len() == 0 {
        assert(printed(turn.emits) =~= printed(turn.emits) + removal_output(
            context,
            unconfirmed(turn),
        ));
    } else {
        let request = turn.next->Ask_0;
        let session = turn.next->Ask_1;
        let next = turn_after(session, script[0]);
        let rest = script.skip(1);
        assert(answers(request, script[0]));
        assert(removing(next));
        turns_wait_rightly(session, script[0]);
        lemma_confirming_step(session, request, script[0]);
        lemma_confirming(next, context, rest);
        lemma_printed_sum(turn.emits, output(next, rest));
        assert(printed(turn.emits) + (printed(next.emits) + removal_output(
            context,
            unconfirmed(next),
        )) =~= printed(turn.emits) + removal_output(context, unconfirmed(turn)));
    }
}

/// `remove` confirms every job, in order, whatever it hears, and prints nothing else.
pub proof fn removing_confirms_each_job(
    context: ContextView,
    emits: Seq<EmitView>,
    names: Seq<Seq<char>>,
    script: Seq<ReplyView>,
    code: u8,
)
    requires
        ends_with(remove_turn(context, emits, names), script, code),
    ensures
        printed(output(remove_turn(context, emits, names), script)) == printed(emits)
            + removal_output(context, names),
{
    let turn = remove_turn(context, emits, names);
    if names.len() > 0 {
        assert(seq![names[0]] + names.skip(1) =~= names);
    } else {
        assert(names =~= Seq::empty());
    }
    lemma_confirming(turn, context, script);
}

// ---------------------------------------------------------------------------
// One call
// ---------------------------------------------------------------------------

/// `list`, `status` and `logs` are one call each, and pass its exit code on.
pub proof fn queries_pass_the_exit_code_on(
    context: ContextView,
    user: Option<Seq<char>>,
    action: ActionView,
    forget: bool,
    script: Seq<ReplyView>,
    code: u8,
)
    requires
        action is List || action is Status || action is Logs,
        ends_with(action_turn(context, user, action, forget), script, code),
    ensures
        script.len() == 1,
        code == reply_code(script[0]),
{
    reveal_with_fuel(plays, 3);
    reveal_with_fuel(last_turn, 3);
    assert(script.len() > 0);
    assert(script.skip(1).len() == 0);
}

/// `clean` is one call, and succeeds exactly if that does.
pub proof fn cleaning_is_one_call(
    context: ContextView,
    user: Option<Seq<char>>,
    forget: bool,
    script: Seq<ReplyView>,
    code: u8,
)
    requires
        ends_with(action_turn(context, user, ActionView::Clean, forget), script, code),
    ensures
        script.len() == 1,
        code == 0 <==> (script[0] matches ReplyView::Output(result) && succeeded(result.status)),
{
    reveal_with_fuel(plays, 3);
    reveal_with_fuel(last_turn, 3);
    assert(script.len() > 0);
    assert(script.skip(1).len() == 0);
}

} // verus!
