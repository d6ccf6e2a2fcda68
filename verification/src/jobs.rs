//! What becomes of a job, from the words of the command line to the exit code: how it is
//! launched, persisted and removed, every call by its program and arguments, every file,
//! and every line that is printed.

use vstd::prelude::*;
use vstd::utf8::encode_utf8;

use crate::cli::{ActionView, RunSpecView};
use crate::commands::{
    call, every_job_is_named, in_force, launches_are_read_as_written, lemma_in_force,
    lemma_reported, lemma_starts, names_every, overrides_of, passed, passed_reply, reported,
    service, under, wants_persist, writes_launch,
};
use crate::error::errors_are_spelled_out;
use crate::name::{command_name, stands_for};
use crate::path::{joined, joining_puts_one_slash_between};
use crate::request::{CommandView, EmitView, ReplyView, RequestView};
use crate::session::{
    action_turn, ask_turn, first_turn, forget_turn, forgotten_turn, launch_turn, launched_turn,
    linger_command, linger_warning, persist_turn, remove_turn, run_turn, shadowed,
    systemctl_command, systemd_run_command, unit_dir, unit_of, unit_path, AfterView, NextView,
    StateView,
};
use crate::text::{
    mentions, says_only, search_finds_every_mention, text_of, trimming_takes_only_white_space,
};
use crate::trace::{
    ends_with, lemma_deleting, lemma_over, lemma_play, lemma_reply, output, played, requests, Play,
};
use crate::unit::{unit_text, unsupported};

verus! {

// ---------------------------------------------------------------------------
// Forgetting
// ---------------------------------------------------------------------------

/// The unit file of a job: `DIR/PREFIX-JOB.service`.
pub open spec fn unit_file_at(dir: Seq<u8>, p: Seq<char>, job: Seq<char>) -> Seq<u8> {
    if dir.len() == 0 || dir.last() == 47 {
        dir + encode_utf8(service(p, job))
    } else {
        dir + seq![47u8] + encode_utf8(service(p, job))
    }
}

/// The call `systemctl --user VERB UNIT`.
pub open spec fn unit_call(verb: Seq<char>, unit: Seq<char>) -> CommandView {
    call("systemctl"@, seq!["--user"@, verb, unit])
}

/// The call `systemctl --user daemon-reload`.
pub open spec fn reload_call() -> CommandView {
    call("systemctl"@, seq!["--user"@, "daemon-reload"@])
}

/// The requests that forget a job, by what is heard.
pub open spec fn forget_asks(
    p: Seq<char>,
    dir: Option<Seq<u8>>,
    job: Seq<char>,
    script: Seq<ReplyView>,
) -> Seq<RequestView> {
    match dir {
        None => Seq::empty(),
        Some(dir) => {
            let path = unit_file_at(dir, p, job);
            let disable = RequestView::Forward(unit_call("disable"@, service(p, job)));
            if script[0] != ReplyView::Exists(true) {
                seq![RequestView::Exists(path)]
            } else if script[2] is Failed {
                seq![RequestView::Exists(path), disable, RequestView::RemoveFile(path)]
            } else {
                seq![
                    RequestView::Exists(path),
                    disable,
                    RequestView::RemoveFile(path),
                    RequestView::Forward(reload_call()),
                ]
            }
        },
    }
}

/// What is reported on the way to forgetting a job, by what is heard: calls that did not
/// start, and a unit file that could not be deleted.
pub open spec fn forget_says(
    p: Seq<char>,
    dir: Option<Seq<u8>>,
    job: Seq<char>,
    script: Seq<ReplyView>,
) -> Seq<EmitView> {
    match dir {
        None => Seq::empty(),
        Some(dir) => {
            let path = unit_file_at(dir, p, job);
            if script[0] != ReplyView::Exists(true) {
                Seq::empty()
            } else {
                reported("systemctl"@, script[1]) + match script[2] {
                    ReplyView::Failed(reason) => seq![undeleted(path, reason)],
                    _ => reported("systemctl"@, script[3]),
                }
            }
        },
    }
}

/// The calls of a session, word for word.
proof fn lemma_calls(p: Seq<char>, job: Seq<char>)
    ensures
        forall|verb: Seq<char>|
            systemctl_command().with(verb).with(service(p, job)) == #[trigger] unit_call(
                verb,
                service(p, job),
            ),
        systemctl_command().with("daemon-reload"@) == reload_call(),
        systemctl_command().with("enable"@).with("--now"@).with(service(p, job)) == call(
            "systemctl"@,
            seq!["--user"@, "enable"@, "--now"@, service(p, job)],
        ),
        systemctl_command().with("show"@).with(service(p, job)).with(
            "--property=UnitFileState"@,
        ).with("--value"@) == call(
            "systemctl"@,
            seq!["--user"@, "show"@, service(p, job), "--property=UnitFileState"@, "--value"@],
        ),
{
    assert forall|verb: Seq<char>|
        systemctl_command().with(verb).with(service(p, job)) == #[trigger] unit_call(
            verb,
            service(p, job),
        ) by {
        assert(systemctl_command().with(verb).with(service(p, job)) =~= unit_call(
            verb,
            service(p, job),
        ));
    }
    assert(systemctl_command().with("daemon-reload"@) =~= reload_call());
    assert(systemctl_command().with("enable"@).with("--now"@).with(service(p, job)) =~= call(
        "systemctl"@,
        seq!["--user"@, "enable"@, "--now"@, service(p, job)],
    ));
    assert(systemctl_command().with("show"@).with(service(p, job)).with(
        "--property=UnitFileState"@,
    ).with("--value"@) =~= call(
        "systemctl"@,
        seq!["--user"@, "show"@, service(p, job), "--property=UnitFileState"@, "--value"@],
    ));
}

/// Where the unit file of a job is.
proof fn lemma_path(p: Seq<char>, unit_dir: Option<Seq<u8>>, dir: Seq<u8>, job: Seq<char>)
    ensures
        unit_of(under(p, unit_dir), job) == service(p, job),
        unit_path(under(p, unit_dir), dir, job) == unit_file_at(dir, p, job),
{
    joining_puts_one_slash_between(dir, encode_utf8(service(p, job)));
}

/// How a session that is about to forget a job goes on once the job is forgotten.
spec fn goes_on(
    play: Play,
    next: Play,
    before: Seq<EmitView>,
    notes: Seq<EmitView>,
    p: Seq<char>,
    dir: Option<Seq<u8>>,
    emits: Seq<EmitView>,
    job: Seq<char>,
    after: AfterView,
) -> bool {
    let asks = forget_asks(p, dir, job, play.script);
    &&& played(next)
    &&& next.turn == forgotten_turn(under(p, dir), notes, job, after)
    &&& next.code == play.code
    &&& next.script == play.script.skip(asks.len() as int)
    &&& play.asked == asks + next.asked
    &&& play.said == before + next.said
    &&& before + notes == emits + forget_says(p, dir, job, play.script)
}

/// The warning about a unit file that could not be deleted.
pub open spec fn undeleted(path: Seq<u8>, reason: Seq<char>) -> EmitView {
    EmitView::Report("warning: cannot delete "@ + text_of(path) + ": "@ + reason + "\n"@)
}

proof fn lemma_undeleted(path: Seq<u8>, reason: Seq<char>)
    ensures
        crate::session::undeleted_note(path, reason) == undeleted(path, reason),
{
    assert("warning: cannot delete "@ + text_of(path) + (": "@ + reason + "\n"@)
        =~= "warning: cannot delete "@ + text_of(path) + ": "@ + reason + "\n"@);
}

/// Forgetting a job that has a unit file.
#[verifier::spinoff_prover]
proof fn lemma_forgets_file(
    play: Play,
    p: Seq<char>,
    dir: Seq<u8>,
    emits: Seq<EmitView>,
    job: Seq<char>,
    after: AfterView,
) -> (res: (Play, Seq<EmitView>, Seq<EmitView>))
    requires
        played(play),
        play.turn == forget_turn(under(p, Some(dir)), emits, job, after),
        play.script[0] == ReplyView::Exists(true),
    ensures
        goes_on(play, res.0, res.1, res.2, p, Some(dir), emits, job, after),
{
    let script = play.script;
    let asks = forget_asks(p, Some(dir), job, script);
    let says = forget_says(p, Some(dir), job, script);
    let path = unit_file_at(dir, p, job);
    lemma_calls(p, job);
    lemma_path(p, Some(dir), dir, job);
    lemma_reported("systemctl"@, script[1]);
    assert(crate::trace::disable_request(under(p, Some(dir)), job) == RequestView::Forward(
        unit_call("disable"@, service(p, job)),
    ));
    let deleted = lemma_deleting(play, under(p, Some(dir)), emits, job, after);
    let before = emits + reported("systemctl"@, script[1]);
    if script[2] is Failed {
        let note = undeleted(path, script[2]->Failed_0);
        lemma_undeleted(path, script[2]->Failed_0);
        assert(before + seq![note] =~= emits + says);
        (deleted, before, seq![note])
    } else {
        lemma_reported("systemctl"@, script[3]);
        let next = lemma_reply(deleted);
        assert(next.script =~= script.skip(4));
        let notes = reported("systemctl"@, script[3]);
        assert(play.asked =~= asks + next.asked);
        assert(play.said =~= before + next.said);
        assert(before + notes =~= emits + says);
        (next, before, notes)
    }
}

/// Forgetting a job.
#[verifier::spinoff_prover]
proof fn lemma_forgets(
    play: Play,
    p: Seq<char>,
    dir: Option<Seq<u8>>,
    emits: Seq<EmitView>,
    job: Seq<char>,
    after: AfterView,
) -> (res: (Play, Seq<EmitView>, Seq<EmitView>))
    requires
        played(play),
        play.turn == forget_turn(under(p, dir), emits, job, after),
    ensures
        goes_on(play, res.0, res.1, res.2, p, dir, emits, job, after),
{
    let none = Seq::<EmitView>::empty();
    let asks = forget_asks(p, dir, job, play.script);
    match dir {
        None => {
            assert(play.script.skip(0) =~= play.script);
            assert(asks + play.asked =~= play.asked);
            assert(none + play.said =~= play.said);
            assert(none + emits =~= emits + none);
            (play, none, emits)
        },
        Some(place) => if play.script[0] == ReplyView::Exists(true) {
            lemma_forgets_file(play, p, place, emits, job, after)
        } else {
            lemma_path(p, dir, place, job);
            let next = lemma_reply(play);
            assert(play.asked =~= asks + next.asked);
            assert(emits + none =~= emits);
            (next, emits, none)
        },
    }
}

// ---------------------------------------------------------------------------
// remove
// ---------------------------------------------------------------------------

/// The requests that remove jobs, by what is heard: each job in turn is stopped, its
/// failure record is reset, and it is forgotten.
pub open spec fn removal_asks(
    p: Seq<char>,
    dir: Option<Seq<u8>>,
    jobs: Seq<Seq<char>>,
    script: Seq<ReplyView>,
) -> Seq<RequestView>
    decreases jobs.len(),
{
    if jobs.len() == 0 {
        Seq::empty()
    } else {
        let unit = service(p, jobs[0]);
        let later = script.skip(2);
        let forget = forget_asks(p, dir, jobs[0], later);
        seq![
            RequestView::Capture(unit_call("stop"@, unit)),
            RequestView::Capture(unit_call("reset-failed"@, unit)),
        ] + forget + removal_asks(p, dir, jobs.skip(1), later.skip(forget.len() as int))
    }
}

/// What is printed while jobs are removed, by what is heard: each job is confirmed, after
/// what is reported on the way to forgetting it.
pub open spec fn removal_says(
    p: Seq<char>,
    dir: Option<Seq<u8>>,
    jobs: Seq<Seq<char>>,
    script: Seq<ReplyView>,
) -> Seq<EmitView>
    decreases jobs.len(),
{
    if jobs.len() == 0 {
        Seq::empty()
    } else {
        let later = script.skip(2);
        let forget = forget_asks(p, dir, jobs[0], later);
        forget_says(p, dir, jobs[0], later) + seq![
            EmitView::Print("removed: "@ + service(p, jobs[0]) + "\n"@),
        ] + removal_says(p, dir, jobs.skip(1), later.skip(forget.len() as int))
    }
}

/// The removal of one job, up to the next.
#[verifier::spinoff_prover]
#[verifier::rlimit(30)]
proof fn lemma_removes_one(
    play: Play,
    p: Seq<char>,
    dir: Option<Seq<u8>>,
    jobs: Seq<Seq<char>>,
) -> (next: Play)
    requires
        played(play),
        jobs.len() > 0,
        play.turn == remove_turn(under(p, dir), play.turn.emits, jobs),
    ensures
        ({
            let unit = service(p, jobs[0]);
            let later = play.script.skip(2);
            let forget = forget_asks(p, dir, jobs[0], later);
            let done = EmitView::Print("removed: "@ + unit + "\n"@);
            &&& played(next)
            &&& next.turn == remove_turn(under(p, dir), next.turn.emits, jobs.skip(1))
            &&& next.code == play.code
            &&& next.script == later.skip(forget.len() as int)
            &&& play.asked == seq![
                RequestView::Capture(unit_call("stop"@, unit)),
                RequestView::Capture(unit_call("reset-failed"@, unit)),
            ] + forget + next.asked
            &&& forall|tail: Seq<EmitView>|
                next.said == #[trigger] (next.turn.emits + tail) ==> play.said == play.turn.emits
                    + (forget_says(p, dir, jobs[0], later) + seq![done] + tail)
        }),
{
    let job = jobs[0];
    let rest = jobs.skip(1);
    let unit = service(p, job);
    let none = Seq::<EmitView>::empty();
    lemma_calls(p, job);
    let stopped = lemma_reply(play);
    let reset = lemma_reply(stopped);
    let later = play.script.skip(2);
    assert(reset.script =~= later);
    let (next, before, notes) = lemma_forgets(reset, p, dir, none, job, AfterView::Remove(rest));
    let forget = forget_asks(p, dir, job, later);
    assert(play.asked =~= seq![
        RequestView::Capture(unit_call("stop"@, unit)),
        RequestView::Capture(unit_call("reset-failed"@, unit)),
    ] + forget + next.asked);
    let done = EmitView::Print("removed: "@ + unit + "\n"@);
    let says = forget_says(p, dir, job, later);
    assert(none + says =~= says);
    assert(next.turn.emits == notes.push(done));
    assert forall|tail: Seq<EmitView>|
        next.said == #[trigger] (next.turn.emits + tail) implies play.said == play.turn.emits + (
    says + seq![done] + tail) by {
        assert(before + (notes.push(done) + tail) =~= (before + notes) + seq![done] + tail);
        assert(play.said =~= play.turn.emits + (says + seq![done] + tail));
    }
    next
}

proof fn lemma_removes(
    play: Play,
    p: Seq<char>,
    dir: Option<Seq<u8>>,
    jobs: Seq<Seq<char>>,
)
    requires
        played(play),
        play.turn == remove_turn(under(p, dir), play.turn.emits, jobs),
    ensures
        play.code == 0,
        play.asked == removal_asks(p, dir, jobs, play.script),
        play.said == play.turn.emits + removal_says(p, dir, jobs, play.script),
    decreases jobs.len(),
{
    if jobs.len() == 0 {
        lemma_over(play);
        assert(play.turn.emits + removal_says(p, dir, jobs, play.script) =~= play.turn.emits);
    } else {
        let next = lemma_removes_one(play, p, dir, jobs);
        lemma_removes(next, p, dir, jobs.skip(1));
        let tail = removal_says(p, dir, jobs.skip(1), next.script);
        assert(next.said == next.turn.emits + tail);
    }
}

/// The turn that `remove` starts with.
proof fn lemma_remove_starts(
    p: Seq<char>,
    unit_dir: Option<Seq<u8>>,
    user: Option<Seq<char>>,
    jobs: Seq<Seq<char>>,
)
    ensures
        action_turn(under(p, unit_dir), user, ActionView::Remove(jobs), true) == remove_turn(
            under(p, unit_dir),
            Seq::empty(),
            jobs,
        ),
{
}

/// `remove` removes every job that is named, under the prefix in force: each in turn is
/// stopped, reset, forgotten and confirmed, whatever is heard, and the exit code is 0.
pub proof fn remove_removes_every_named_job(
    prefix: Option<Seq<char>>,
    p: Seq<char>,
    user: Option<Seq<char>>,
    unit_dir: Option<Seq<u8>>,
    words: Seq<Seq<u8>>,
    jobs: Seq<Seq<char>>,
    script: Seq<ReplyView>,
    code: u8,
)
    requires
        in_force(p, prefix),
        words.len() > 0,
        names_every(jobs, words),
        ends_with(
            first_turn(prefix, user, unit_dir, seq![encode_utf8("remove"@)] + words),
            script,
            code,
        ),
    ensures
        ({
            let turn = first_turn(prefix, user, unit_dir, seq![encode_utf8("remove"@)] + words);
            &&& requests(turn, script) == removal_asks(p, unit_dir, jobs, script)
            &&& output(turn, script) == removal_says(p, unit_dir, jobs, script)
            &&& code == 0
        }),
{
    lemma_in_force(p, prefix);
    every_job_is_named(jobs, words);
    let args = seq![encode_utf8("remove"@)] + words;
    lemma_starts(prefix, p, user, unit_dir, args, ActionView::Remove(jobs));
    let turn = remove_turn(under(p, unit_dir), Seq::empty(), jobs);
    lemma_remove_starts(p, unit_dir, user, jobs);
    let play = lemma_play(turn, Map::empty(), None, script, code);
    lemma_removes(play, p, unit_dir, jobs);
    assert(play.said =~= removal_says(p, unit_dir, jobs, script));
}

/// Whether a request is one that the removal of a job can make: it stops, resets or
/// disables the unit of the job, looks for the unit file of the job or deletes it, or
/// tells systemd that unit files have changed.
pub open spec fn concerns(
    request: RequestView,
    p: Seq<char>,
    dir: Option<Seq<u8>>,
    job: Seq<char>,
) -> bool {
    ||| request == RequestView::Capture(unit_call("stop"@, service(p, job)))
    ||| request == RequestView::Capture(unit_call("reset-failed"@, service(p, job)))
    ||| request == RequestView::Forward(unit_call("disable"@, service(p, job)))
    ||| request == RequestView::Forward(reload_call())
    ||| dir matches Some(dir) && request == RequestView::Exists(unit_file_at(dir, p, job))
    ||| dir matches Some(dir) && request == RequestView::RemoveFile(unit_file_at(dir, p, job))
}

/// Whether a request is one that the removal of one of these jobs can make.
pub open spec fn concerns_one(
    request: RequestView,
    p: Seq<char>,
    dir: Option<Seq<u8>>,
    jobs: Seq<Seq<char>>,
) -> bool {
    exists|i: int| 0 <= i < jobs.len() && concerns(request, p, dir, #[trigger] jobs[i])
}

proof fn lemma_removal_concerns(
    p: Seq<char>,
    dir: Option<Seq<u8>>,
    jobs: Seq<Seq<char>>,
    script: Seq<ReplyView>,
    k: int,
)
    requires
        0 <= k < removal_asks(p, dir, jobs, script).len(),
    ensures
        concerns_one(removal_asks(p, dir, jobs, script)[k], p, dir, jobs),
    decreases jobs.len(),
{
    let unit = service(p, jobs[0]);
    let later = script.skip(2);
    let forget = forget_asks(p, dir, jobs[0], later);
    let rest = jobs.skip(1);
    let request = removal_asks(p, dir, jobs, script)[k];
    if k < 2 {
        assert(concerns(request, p, dir, jobs[0]));
    } else if k < 2 + forget.len() {
        assert(request == forget[k - 2]);
        assert(concerns(request, p, dir, jobs[0]));
    } else {
        let further = later.skip(forget.len() as int);
        lemma_removal_concerns(p, dir, rest, further, k - 2 - forget.len());
        assert(request == removal_asks(p, dir, rest, further)[k - 2 - forget.len()]);
        let i = choose|i: int|
            0 <= i < rest.len() && concerns(request, p, dir, #[trigger] rest[i]);
        assert(concerns(request, p, dir, jobs[i + 1]));
    }
}

proof fn lemma_removal_stops(
    p: Seq<char>,
    dir: Option<Seq<u8>>,
    jobs: Seq<Seq<char>>,
    script: Seq<ReplyView>,
    i: int,
) -> (at: int)
    requires
        0 <= i < jobs.len(),
    ensures
        0 <= at < removal_asks(p, dir, jobs, script).len() - 1,
        removal_asks(p, dir, jobs, script)[at] == RequestView::Capture(
            unit_call("stop"@, service(p, jobs[i])),
        ),
        removal_asks(p, dir, jobs, script)[at + 1] == RequestView::Capture(
            unit_call("reset-failed"@, service(p, jobs[i])),
        ),
    decreases jobs.len(),
{
    if i == 0 {
        0
    } else {
        let later = script.skip(2);
        let forget = forget_asks(p, dir, jobs[0], later);
        let further = later.skip(forget.len() as int);
        let at = lemma_removal_stops(p, dir, jobs.skip(1), further, i - 1);
        at + 2 + forget.len()
    }
}

/// No request of `remove` concerns a job that is not named or another prefix, and every
/// job that is named is stopped, and then reset.
pub proof fn remove_touches_the_named_jobs_alone(
    prefix: Option<Seq<char>>,
    p: Seq<char>,
    user: Option<Seq<char>>,
    unit_dir: Option<Seq<u8>>,
    words: Seq<Seq<u8>>,
    jobs: Seq<Seq<char>>,
    script: Seq<ReplyView>,
    code: u8,
)
    requires
        in_force(p, prefix),
        words.len() > 0,
        names_every(jobs, words),
        ends_with(
            first_turn(prefix, user, unit_dir, seq![encode_utf8("remove"@)] + words),
            script,
            code,
        ),
    ensures
        ({
            let turn = first_turn(prefix, user, unit_dir, seq![encode_utf8("remove"@)] + words);
            let asked = requests(turn, script);
            &&& forall|k: int|
                0 <= k < asked.len() ==> concerns_one(#[trigger] asked[k], p, unit_dir, jobs)
            &&& forall|i: int|
                0 <= i < jobs.len() ==> {
                    &&& asked.contains(
                        RequestView::Capture(unit_call("stop"@, service(p, #[trigger] jobs[i]))),
                    )
                    &&& asked.contains(
                        RequestView::Capture(unit_call("reset-failed"@, service(p, jobs[i]))),
                    )
                }
        }),
{
    remove_removes_every_named_job(prefix, p, user, unit_dir, words, jobs, script, code);
    let asked = removal_asks(p, unit_dir, jobs, script);
    assert forall|k: int| 0 <= k < asked.len() implies concerns_one(
        #[trigger] asked[k],
        p,
        unit_dir,
        jobs,
    ) by {
        lemma_removal_concerns(p, unit_dir, jobs, script, k);
    }
    assert forall|i: int| 0 <= i < jobs.len() implies {
        &&& asked.contains(
            RequestView::Capture(unit_call("stop"@, service(p, #[trigger] jobs[i]))),
        )
        &&& asked.contains(RequestView::Capture(unit_call("reset-failed"@, service(p, jobs[i]))))
    } by {
        let at = lemma_removal_stops(p, unit_dir, jobs, script, i);
        assert(asked[at + 1] == RequestView::Capture(
            unit_call("reset-failed"@, service(p, jobs[i])),
        ));
    }
}

// ---------------------------------------------------------------------------
// Launching
// ---------------------------------------------------------------------------

/// Whether a job goes by this name: the one that the launch gives, or else that of its
/// program.
pub open spec fn goes_by(job: Seq<char>, word: Option<Seq<u8>>, command: Seq<Seq<u8>>) -> bool {
    match word {
        Some(word) => stands_for(job, text_of(word)),
        None => job == command_name(command),
    }
}

/// The question that comes before a launch, where the user is known: whether jobs survive
/// a logout.
pub open spec fn linger_asks(user: Option<Seq<char>>) -> Seq<RequestView> {
    match user {
        Some(user) => seq![
            RequestView::Capture(
                call("loginctl"@, seq!["show-user"@, user, "--property=Linger"@, "--value"@]),
            ),
        ],
        None => Seq::empty(),
    }
}

/// The warning where the answer to that question is `no`.
pub open spec fn linger_says(user: Option<Seq<char>>, script: Seq<ReplyView>) -> Seq<EmitView> {
    match (user, script[0]) {
        (Some(user), ReplyView::Output(result)) => if says_only(text_of(result.stdout), "no"@) {
            seq![
                EmitView::Report(
                    "warning: lingering is disabled for '"@ + user
                        + "' — jobs die when your last session logs out\n"@,
                ),
                EmitView::Report("  enable it once: loginctl enable-linger "@ + user + "\n"@),
            ]
        } else {
            Seq::empty()
        },
        _ => Seq::empty(),
    }
}

proof fn lemma_lingering(user: Seq<char>, script: Seq<ReplyView>)
    ensures
        RequestView::Capture(linger_command(user)) == linger_asks(Some(user))[0],
        linger_asks(Some(user)).len() == 1,
        linger_warning(user, script[0]) == linger_says(Some(user), script),
{
    assert(linger_command(user) =~= call(
        "loginctl"@,
        seq!["show-user"@, user, "--property=Linger"@, "--value"@],
    ));
    reveal_strlit("no");
    if let ReplyView::Output(result) = script[0] {
        trimming_takes_only_white_space(text_of(result.stdout), "no"@);
    }
}

/// The question about lingering, and then the launch itself.
#[verifier::spinoff_prover]
proof fn lemma_lingers(
    play: Play,
    p: Seq<char>,
    dir: Option<Seq<u8>>,
    user: Option<Seq<char>>,
    spec: RunSpecView,
) -> (next: Play)
    requires
        played(play),
        play.turn == run_turn(under(p, dir), user, spec),
    ensures
        played(next),
        next.turn == launch_turn(under(p, dir), linger_says(user, play.script), spec),
        next.script == play.script.skip(linger_asks(user).len() as int),
        next.code == play.code,
        play.asked == linger_asks(user) + next.asked,
        play.said == next.said,
{
    match user {
        Some(someone) => {
            lemma_lingering(someone, play.script);
            let next = lemma_reply(play);
            assert(play.asked =~= linger_asks(user) + next.asked);
            assert(play.said =~= next.said);
            next
        },
        None => {
            assert(play.script.skip(0) =~= play.script);
            assert(play.asked =~= linger_asks(user) + play.asked);
            play
        },
    }
}

/// What is printed of a transient launch: what `systemd-run` wrote, and why it failed.
pub open spec fn launch_says(p: Seq<char>, job: Seq<char>, reply: ReplyView) -> Seq<EmitView> {
    match reply {
        ReplyView::Output(result) => seq![EmitView::Pass(result.stdout)] + (if result.status
            == Some(0i32) {
            Seq::empty()
        } else if mentions(text_of(result.stderr), "already exists"@) {
            seq![
                EmitView::Report(
                    "error: "@ + service(p, job) + " already exists (running or failed)"@ + "\n"@,
                ),
                EmitView::Report(
                    "  see: bgrun logs "@ + job + "   remove: bgrun remove "@ + job + "\n"@,
                ),
            ]
        } else {
            seq![EmitView::Report(text_of(result.stderr))]
        }),
        _ => reported("systemd-run"@, reply),
    }
}

/// The exit code of a transient launch.
pub open spec fn launch_code(reply: ReplyView) -> u8 {
    match reply {
        ReplyView::Output(result) => if result.status != Some(0i32) && mentions(
            text_of(result.stderr),
            "already exists"@,
        ) {
            1
        } else {
            passed(result.status)
        },
        _ => 1,
    }
}

#[verifier::spinoff_prover]
proof fn lemma_launched(
    p: Seq<char>,
    dir: Option<Seq<u8>>,
    job: Seq<char>,
    reply: ReplyView,
)
    requires
        reply is Output || reply is Failed,
    ensures
        launched_turn(under(p, dir), job, reply).emits == launch_says(p, job, reply),
        launched_turn(under(p, dir), job, reply).next == NextView::Exit(launch_code(reply)),
{
    let turn = launched_turn(under(p, dir), job, reply);
    match reply {
        ReplyView::Output(result) => {
            search_finds_every_mention(text_of(result.stderr), "already exists"@);
            let first = "error: "@ + (service(p, job) + " already exists (running or failed)"@)
                + "\n"@;
            assert(first =~= "error: "@ + service(p, job) + " already exists (running or failed)"@
                + "\n"@);
            let second = "  see: bgrun logs "@ + job + (("   remove: bgrun remove "@ + job)
                + "\n"@);
            assert(second =~= "  see: bgrun logs "@ + job + "   remove: bgrun remove "@ + job
                + "\n"@);
            assert(turn.emits =~= launch_says(p, job, reply));
        },
        ReplyView::Failed(reason) => {
            lemma_reported("systemd-run"@, reply);
            assert(turn.emits =~= launch_says(p, job, reply));
        },
        _ => {},
    }
}

/// The spec that a launch is read as.
spec fn spec_of(
    name: Option<Seq<char>>,
    flags: Seq<Seq<u8>>,
    overrides: Seq<Seq<u8>>,
    command: Seq<Seq<u8>>,
) -> RunSpecView {
    RunSpecView {
        name,
        systemd_opts: overrides_of(flags, overrides),
        command,
        persist: wants_persist(flags),
    }
}

/// The turn that a launch starts with.
proof fn lemma_launch_starts(
    prefix: Option<Seq<char>>,
    p: Seq<char>,
    user: Option<Seq<char>>,
    unit_dir: Option<Seq<u8>>,
    args: Seq<Seq<u8>>,
    word: Option<Seq<u8>>,
    job: Seq<char>,
    flags: Seq<Seq<u8>>,
    overrides: Seq<Seq<u8>>,
    command: Seq<Seq<u8>>,
) -> (spec: RunSpecView)
    requires
        in_force(p, prefix),
        writes_launch(args, word, flags, overrides, command),
        goes_by(job, word, command),
    ensures
        first_turn(prefix, user, unit_dir, args) == run_turn(under(p, unit_dir), user, spec),
        spec.systemd_opts == overrides_of(flags, overrides),
        spec.command == command,
        spec.persist == wants_persist(flags),
        crate::session::launch_name(spec) == job,
{
    lemma_in_force(p, prefix);
    let name = match word {
        Some(_) => Some(job),
        None => None,
    };
    launches_are_read_as_written(args, word, name, flags, overrides, command);
    let spec = spec_of(name, flags, overrides, command);
    lemma_starts(prefix, p, user, unit_dir, args, ActionView::Run(spec));
    spec
}

/// The `systemd-run` call of a launch.
proof fn lemma_run_line(
    p: Seq<char>,
    unit_dir: Option<Seq<u8>>,
    spec: RunSpecView,
    job: Seq<char>,
)
    requires
        crate::session::launch_name(spec) == job,
    ensures
        ({
            let line = systemd_run_command(under(p, unit_dir), spec);
            &&& line.program == "systemd-run"@
            &&& line.args == seq![
                encode_utf8("--user"@),
                encode_utf8("--unit="@ + service(p, job)),
                encode_utf8("--collect"@),
            ] + spec.systemd_opts + spec.command
        }),
{
    let line = systemd_run_command(under(p, unit_dir), spec);
    assert(line.args =~= seq![
        encode_utf8("--user"@),
        encode_utf8("--unit="@ + service(p, job)),
        encode_utf8("--collect"@),
    ] + spec.systemd_opts + spec.command);
}

#[verifier::spinoff_prover]
proof fn lemma_launches(
    p: Seq<char>,
    unit_dir: Option<Seq<u8>>,
    user: Option<Seq<char>>,
    spec: RunSpecView,
    job: Seq<char>,
    script: Seq<ReplyView>,
    code: u8,
)
    requires
        !spec.persist,
        crate::session::launch_name(spec) == job,
        ends_with(run_turn(under(p, unit_dir), user, spec), script, code),
    ensures
        ({
            let turn = run_turn(under(p, unit_dir), user, spec);
            let asked = requests(turn, script);
            &&& script.len() == linger_asks(user).len() + 1
            &&& asked.len() == script.len()
            &&& asked.drop_last() == linger_asks(user)
            &&& asked.last() matches RequestView::Capture(line) && {
                &&& line.program == "systemd-run"@
                &&& line.args.len() == 3 + spec.systemd_opts.len() + spec.command.len()
                &&& line.args[0] == encode_utf8("--user"@)
                &&& line.args[1] == encode_utf8("--unit="@ + service(p, job))
                &&& line.args[2] == encode_utf8("--collect"@)
                &&& line.args.skip(3) == spec.systemd_opts + spec.command
            }
            &&& output(turn, script) == linger_says(user, script) + launch_says(
                p,
                job,
                script.last(),
            )
            &&& code == launch_code(script.last())
        }),
{
    let turn = run_turn(under(p, unit_dir), user, spec);
    let play = lemma_play(turn, Map::empty(), None, script, code);
    let launch = lemma_lingers(play, p, unit_dir, user, spec);
    let end = lemma_reply(launch);
    assert(launch.script[0] == script[linger_asks(user).len() as int]);
    lemma_launched(p, unit_dir, job, launch.script[0]);
    lemma_over(end);
    lemma_run_line(p, unit_dir, spec, job);
    let line = systemd_run_command(under(p, unit_dir), spec);
    assert(line.args.skip(3) =~= spec.systemd_opts + spec.command);
    assert(play.asked =~= linger_asks(user).push(RequestView::Capture(line)));
    assert(play.asked.drop_last() =~= linger_asks(user));
    assert(script.len() == linger_asks(user).len() + 1);
    assert(play.said =~= linger_says(user, script) + launch_says(p, job, script.last()));
}

/// A launch without `--persist` is one call of `systemd-run`, after the question about
/// lingering. Its arguments are `--user`, the unit, `--collect`, every override and every
/// word of the command, in order and nothing else. What it wrote is passed on, and so is
/// its exit code.
#[verifier::spinoff_prover]
pub proof fn launches_run_the_whole_command(
    prefix: Option<Seq<char>>,
    p: Seq<char>,
    user: Option<Seq<char>>,
    unit_dir: Option<Seq<u8>>,
    args: Seq<Seq<u8>>,
    word: Option<Seq<u8>>,
    job: Seq<char>,
    flags: Seq<Seq<u8>>,
    overrides: Seq<Seq<u8>>,
    command: Seq<Seq<u8>>,
    script: Seq<ReplyView>,
    code: u8,
)
    requires
        in_force(p, prefix),
        writes_launch(args, word, flags, overrides, command),
        goes_by(job, word, command),
        !wants_persist(flags),
        ends_with(first_turn(prefix, user, unit_dir, args), script, code),
    ensures
        ({
            let turn = first_turn(prefix, user, unit_dir, args);
            let asked = requests(turn, script);
            let given = overrides_of(flags, overrides);
            &&& script.len() == linger_asks(user).len() + 1
            &&& asked.len() == script.len()
            &&& asked.drop_last() == linger_asks(user)
            &&& asked.last() matches RequestView::Capture(line) && {
                &&& line.program == "systemd-run"@
                &&& line.args.len() == 3 + given.len() + command.len()
                &&& line.args[0] == encode_utf8("--user"@)
                &&& line.args[1] == encode_utf8("--unit="@ + service(p, job))
                &&& line.args[2] == encode_utf8("--collect"@)
                &&& line.args.skip(3) == given + command
            }
            &&& output(turn, script) == linger_says(user, script) + launch_says(
                p,
                job,
                script.last(),
            )
            &&& code == launch_code(script.last())
        }),
{
    let spec = lemma_launch_starts(
        prefix,
        p,
        user,
        unit_dir,
        args,
        word,
        job,
        flags,
        overrides,
        command,
    );
    lemma_launches(p, unit_dir, user, spec, job, script, code);
}

// ---------------------------------------------------------------------------
// Persisting
// ---------------------------------------------------------------------------

/// Whether the answer is that a transient unit has the name.
pub open spec fn taken(reply: ReplyView) -> bool {
    reply matches ReplyView::Output(result) && says_only(text_of(result.stdout), "transient"@)
}

/// Whether a forwarded call succeeded.
pub open spec fn worked(reply: ReplyView) -> bool {
    reply == ReplyView::Status(Some(0i32))
}

/// The requests that enable a unit, and forget the job where systemd refuses.
pub open spec fn enable_asks(
    p: Seq<char>,
    dir: Seq<u8>,
    job: Seq<char>,
    script: Seq<ReplyView>,
) -> Seq<RequestView> {
    seq![
        RequestView::Forward(
            call("systemctl"@, seq!["--user"@, "enable"@, "--now"@, service(p, job)]),
        ),
    ] + (if worked(script[0]) {
        Seq::empty()
    } else {
        forget_asks(p, Some(dir), job, script.skip(1))
    })
}

/// What is printed once the unit is to be enabled.
pub open spec fn enable_says(
    p: Seq<char>,
    dir: Seq<u8>,
    job: Seq<char>,
    script: Seq<ReplyView>,
) -> Seq<EmitView> {
    if worked(script[0]) {
        seq![EmitView::Print("persisted: "@ + service(p, job) + " (starts on every boot)\n"@)]
    } else {
        reported("systemctl"@, script[0]) + forget_says(p, Some(dir), job, script.skip(1))
    }
}

/// The requests that make systemd read the unit file, and what follows: the unit is
/// enabled, or else the file is deleted again.
pub open spec fn reload_asks(
    p: Seq<char>,
    dir: Seq<u8>,
    job: Seq<char>,
    script: Seq<ReplyView>,
) -> Seq<RequestView> {
    seq![RequestView::Forward(reload_call())] + (if worked(script[0]) {
        enable_asks(p, dir, job, script.skip(1))
    } else {
        seq![RequestView::RemoveFile(unit_file_at(dir, p, job))]
    })
}

/// What is printed once systemd is to read the unit file.
pub open spec fn reload_says(
    p: Seq<char>,
    dir: Seq<u8>,
    job: Seq<char>,
    script: Seq<ReplyView>,
) -> Seq<EmitView> {
    if worked(script[0]) {
        enable_says(p, dir, job, script.skip(1))
    } else {
        reported("systemctl"@, script[0])
    }
}

/// The exit code once systemd is to read the unit file: that of the first call that did
/// not succeed, and 0 where both did.
pub open spec fn reload_code(script: Seq<ReplyView>) -> u8 {
    if worked(script[0]) {
        passed_reply(script[1])
    } else {
        passed_reply(script[0])
    }
}

/// The requests of a persisted launch: whether the name is taken; the unit file, if not;
/// and what follows, if the file could be written.
pub open spec fn persist_asks(
    p: Seq<char>,
    dir: Seq<u8>,
    job: Seq<char>,
    body: Seq<u8>,
    script: Seq<ReplyView>,
) -> Seq<RequestView> {
    let show = RequestView::Capture(
        call(
            "systemctl"@,
            seq!["--user"@, "show"@, service(p, job), "--property=UnitFileState"@, "--value"@],
        ),
    );
    let write = RequestView::WriteFile { dir, path: unit_file_at(dir, p, job), body };
    if taken(script[0]) {
        seq![show]
    } else if script[1] is Failed {
        seq![show, write]
    } else {
        seq![show, write] + reload_asks(p, dir, job, script.skip(2))
    }
}

/// What is printed of a persisted launch.
pub open spec fn persist_says(
    p: Seq<char>,
    dir: Seq<u8>,
    job: Seq<char>,
    script: Seq<ReplyView>,
) -> Seq<EmitView> {
    if taken(script[0]) {
        seq![
            EmitView::Report(
                "error: "@ + service(p, job) + " is already running as a transient job"@ + "\n"@,
            ),
            EmitView::Report("  stop it first: bgrun remove "@ + job + "\n"@),
        ]
    } else {
        match script[1] {
            ReplyView::Failed(reason) => seq![
                EmitView::Report(
                    "error: "@ + "cannot write "@ + text_of(unit_file_at(dir, p, job)) + ": "@
                        + reason + "\n"@,
                ),
            ],
            _ => reload_says(p, dir, job, script.skip(2)),
        }
    }
}

/// The exit code of a persisted launch.
pub open spec fn persist_exit(script: Seq<ReplyView>) -> u8 {
    if taken(script[0]) || script[1] is Failed {
        1
    } else {
        reload_code(script.skip(2))
    }
}

#[verifier::spinoff_prover]
proof fn lemma_enables(play: Play, p: Seq<char>, dir: Seq<u8>, job: Seq<char>)
    requires
        played(play),
        play.turn == ask_turn(
            under(p, Some(dir)),
            play.turn.emits,
            RequestView::Forward(
                call("systemctl"@, seq!["--user"@, "enable"@, "--now"@, service(p, job)]),
            ),
            StateView::Enabling { name: job },
        ),
    ensures
        play.script.len() > 0,
        play.asked == enable_asks(p, dir, job, play.script),
        play.said == play.turn.emits + enable_says(p, dir, job, play.script),
        play.code == passed_reply(play.script[0]),
{
    let reply = play.script[0];
    let next = lemma_reply(play);
    let notes = reported("systemctl"@, reply);
    lemma_reported("systemctl"@, reply);
    if worked(reply) {
        lemma_over(next);
        assert(play.asked =~= enable_asks(p, dir, job, play.script));
        assert(play.said =~= play.turn.emits + enable_says(p, dir, job, play.script));
    } else {
        let after = AfterView::Exit(passed_reply(reply));
        let (end, before, last) = lemma_forgets(next, p, Some(dir), notes, job, after);
        lemma_over(end);
        assert(play.asked =~= enable_asks(p, dir, job, play.script));
        assert(play.said =~= play.turn.emits + (before + last));
    }
}

/// What follows once systemd has read the unit file.
#[verifier::spinoff_prover]
proof fn lemma_reloaded(play: Play, p: Seq<char>, dir: Seq<u8>, job: Seq<char>) -> (next: Play)
    requires
        played(play),
        worked(play.script[0]),
        play.turn == ask_turn(
            under(p, Some(dir)),
            Seq::empty(),
            RequestView::Forward(reload_call()),
            StateView::Reloading { name: job, path: unit_file_at(dir, p, job) },
        ),
    ensures
        played(next),
        next.turn == ask_turn(
            under(p, Some(dir)),
            Seq::empty(),
            RequestView::Forward(
                call("systemctl"@, seq!["--user"@, "enable"@, "--now"@, service(p, job)]),
            ),
            StateView::Enabling { name: job },
        ),
        play.script.len() > 0,
        next.script == play.script.skip(1),
        next.code == play.code,
        play.asked == seq![RequestView::Forward(reload_call())] + next.asked,
        play.said == next.said,
{
    lemma_calls(p, job);
    let next = lemma_reply(play);
    assert(play.said =~= next.said);
    next
}

/// What follows where systemd could not read the unit file.
#[verifier::spinoff_prover]
proof fn lemma_unread(play: Play, p: Seq<char>, dir: Seq<u8>, job: Seq<char>)
    requires
        played(play),
        !worked(play.script[0]),
        play.turn == ask_turn(
            under(p, Some(dir)),
            Seq::empty(),
            RequestView::Forward(reload_call()),
            StateView::Reloading { name: job, path: unit_file_at(dir, p, job) },
        ),
    ensures
        play.asked == seq![RequestView::Forward(reload_call())] + seq![
            RequestView::RemoveFile(unit_file_at(dir, p, job)),
        ],
        play.said == reported("systemctl"@, play.script[0]),
        play.code == passed_reply(play.script[0]),
{
    lemma_reported("systemctl"@, play.script[0]);
    let next = lemma_reply(play);
    assert(next.turn.next->Ask_0 == RequestView::RemoveFile(unit_file_at(dir, p, job)));
    let end = lemma_reply(next);
    lemma_over(end);
    assert(play.asked =~= seq![RequestView::Forward(reload_call())] + seq![
        RequestView::RemoveFile(unit_file_at(dir, p, job)),
    ]);
    assert(play.said =~= reported("systemctl"@, play.script[0]));
}

#[verifier::spinoff_prover]
proof fn lemma_reloads(play: Play, p: Seq<char>, dir: Seq<u8>, job: Seq<char>)
    requires
        played(play),
        play.turn == ask_turn(
            under(p, Some(dir)),
            Seq::empty(),
            RequestView::Forward(reload_call()),
            StateView::Reloading { name: job, path: unit_file_at(dir, p, job) },
        ),
    ensures
        play.asked == reload_asks(p, dir, job, play.script),
        play.said == reload_says(p, dir, job, play.script),
        play.code == reload_code(play.script),
{
    let script = play.script;
    if worked(script[0]) {
        let next = lemma_reloaded(play, p, dir, job);
        lemma_enables(next, p, dir, job);
        assert(next.script[0] == script[1]);
        assert(next.turn.emits + enable_says(p, dir, job, next.script) =~= enable_says(
            p,
            dir,
            job,
            next.script,
        ));
    } else {
        lemma_unread(play, p, dir, job);
    }
}

proof fn lemma_taken(reply: ReplyView)
    ensures
        taken(reply) == shadowed(reply),
{
    reveal_strlit("transient");
    if let ReplyView::Output(result) = reply {
        trimming_takes_only_white_space(text_of(result.stdout), "transient"@);
    }
}

/// A persisted launch where no unit file is written.
#[verifier::spinoff_prover]
#[verifier::rlimit(30)]
proof fn lemma_persists_nothing(
    play: Play,
    p: Seq<char>,
    dir: Seq<u8>,
    job: Seq<char>,
    body: Seq<u8>,
)
    requires
        played(play),
        taken(play.script[0]) || play.script[1] is Failed,
        play.turn == ask_turn(
            under(p, Some(dir)),
            play.turn.emits,
            persist_asks(p, dir, job, body, play.script)[0],
            StateView::Shadowing { name: job, dir, body },
        ),
    ensures
        play.asked == persist_asks(p, dir, job, body, play.script),
        play.said == play.turn.emits + persist_says(p, dir, job, play.script),
        play.code == 1,
{
    let script = play.script;
    let path = unit_file_at(dir, p, job);
    lemma_path(p, Some(dir), dir, job);
    lemma_taken(script[0]);
    let writing = lemma_reply(play);
    if taken(script[0]) {
        lemma_over(writing);
        let line = "error: "@ + (service(p, job) + " is already running as a transient job"@)
            + "\n"@;
        assert(line =~= "error: "@ + service(p, job) + " is already running as a transient job"@
            + "\n"@);
        assert(writing.turn.emits =~= persist_says(p, dir, job, script));
    } else {
        let end = lemma_reply(writing);
        assert(writing.script[0] == script[1]);
        lemma_over(end);
        let reason = script[1]->Failed_0;
        let line = "error: "@ + ("cannot write "@ + text_of(path) + (": "@ + reason)) + "\n"@;
        assert(line =~= "error: "@ + "cannot write "@ + text_of(path) + ": "@ + reason + "\n"@);
        assert(end.turn.emits =~= persist_says(p, dir, job, script));
        assert(writing.said =~= end.turn.emits);
    }
    assert(play.asked =~= persist_asks(p, dir, job, body, script));
}

/// A persisted launch.
#[verifier::spinoff_prover]
#[verifier::rlimit(30)]
proof fn lemma_persists(
    play: Play,
    p: Seq<char>,
    dir: Seq<u8>,
    job: Seq<char>,
    body: Seq<u8>,
)
    requires
        played(play),
        play.turn == ask_turn(
            under(p, Some(dir)),
            play.turn.emits,
            persist_asks(p, dir, job, body, play.script)[0],
            StateView::Shadowing { name: job, dir, body },
        ),
    ensures
        play.asked == persist_asks(p, dir, job, body, play.script),
        play.said == play.turn.emits + persist_says(p, dir, job, play.script),
        play.code == persist_exit(play.script),
{
    let script = play.script;
    if taken(script[0]) || script[1] is Failed {
        lemma_persists_nothing(play, p, dir, job, body);
    } else {
        lemma_path(p, Some(dir), dir, job);
        lemma_calls(p, job);
        lemma_taken(script[0]);
        let writing = lemma_reply(play);
        let reloading = lemma_reply(writing);
        assert(writing.script[0] == script[1]);
        assert(reloading.script =~= script.skip(2));
        lemma_reloads(reloading, p, dir, job);
        assert(play.asked =~= persist_asks(p, dir, job, body, script));
        assert(play.said =~= play.turn.emits + persist_says(p, dir, job, script));
    }
}

#[verifier::spinoff_prover]
proof fn lemma_persist_starts(
    p: Seq<char>,
    dir: Seq<u8>,
    emits: Seq<EmitView>,
    spec: RunSpecView,
    job: Seq<char>,
    body: Seq<u8>,
    script: Seq<ReplyView>,
)
    requires
        spec.persist,
        crate::session::launch_name(spec) == job,
        unsupported(spec.systemd_opts) is None,
        body == unit_text(job, spec),
    ensures
        launch_turn(under(p, Some(dir)), emits, spec) == ask_turn(
            under(p, Some(dir)),
            emits,
            persist_asks(p, dir, job, body, script)[0],
            StateView::Shadowing { name: job, dir, body },
        ),
{
    lemma_calls(p, job);
}

#[verifier::spinoff_prover]
proof fn lemma_persisting(
    p: Seq<char>,
    dir: Seq<u8>,
    user: Option<Seq<char>>,
    spec: RunSpecView,
    job: Seq<char>,
    script: Seq<ReplyView>,
    code: u8,
)
    requires
        spec.persist,
        crate::session::launch_name(spec) == job,
        unsupported(spec.systemd_opts) is None,
        ends_with(run_turn(under(p, Some(dir)), user, spec), script, code),
    ensures
        ({
            let turn = run_turn(under(p, Some(dir)), user, spec);
            let own = script.skip(linger_asks(user).len() as int);
            let body = unit_text(job, spec);
            &&& requests(turn, script) == linger_asks(user) + persist_asks(p, dir, job, body, own)
            &&& output(turn, script) == linger_says(user, script) + persist_says(p, dir, job, own)
            &&& code == persist_exit(own)
        }),
{
    let turn = run_turn(under(p, Some(dir)), user, spec);
    let play = lemma_play(turn, Map::empty(), None, script, code);
    let launch = lemma_lingers(play, p, Some(dir), user, spec);
    let body = unit_text(job, spec);
    lemma_persist_starts(p, dir, linger_says(user, script), spec, job, body, launch.script);
    lemma_persists(launch, p, dir, job, body);
}

/// A launch with `--persist` asks whether the name is taken, writes the unit file of the
/// job, makes systemd read it, and enables and starts the unit. Where systemd cannot read
/// the file or refuses the unit, what was done is undone, and the exit code is the one
/// that systemd's call gave.
#[verifier::spinoff_prover]
pub proof fn persisting_writes_enables_and_undoes(
    prefix: Option<Seq<char>>,
    p: Seq<char>,
    user: Option<Seq<char>>,
    dir: Seq<u8>,
    args: Seq<Seq<u8>>,
    word: Option<Seq<u8>>,
    job: Seq<char>,
    flags: Seq<Seq<u8>>,
    overrides: Seq<Seq<u8>>,
    command: Seq<Seq<u8>>,
    script: Seq<ReplyView>,
    code: u8,
)
    requires
        in_force(p, prefix),
        writes_launch(args, word, flags, overrides, command),
        goes_by(job, word, command),
        wants_persist(flags),
        unsupported(overrides_of(flags, overrides)) is None,
        ends_with(first_turn(prefix, user, Some(dir), args), script, code),
    ensures
        ({
            let turn = first_turn(prefix, user, Some(dir), args);
            let own = script.skip(linger_asks(user).len() as int);
            let body = unit_text(
                job,
                RunSpecView {
                    name: Some(job),
                    systemd_opts: overrides_of(flags, overrides),
                    command,
                    persist: true,
                },
            );
            &&& requests(turn, script) == linger_asks(user) + persist_asks(p, dir, job, body, own)
            &&& output(turn, script) == linger_says(user, script) + persist_says(p, dir, job, own)
            &&& code == persist_exit(own)
        }),
{
    let spec = lemma_launch_starts(
        prefix,
        p,
        user,
        Some(dir),
        args,
        word,
        job,
        flags,
        overrides,
        command,
    );
    lemma_persisting(p, dir, user, spec, job, script, code);
}

/// Why a job cannot be persisted.
pub open spec fn refusal(opts: Seq<Seq<u8>>) -> Seq<char> {
    match unsupported(opts) {
        Some(fault) => "cannot persist '"@ + text_of(fault)
            + "': only -p KEY=VALUE overrides can be written to a unit file"@,
        None => "no user unit directory: neither XDG_CONFIG_HOME nor HOME is set"@,
    }
}

#[verifier::spinoff_prover]
proof fn lemma_refusing(
    p: Seq<char>,
    unit_dir: Option<Seq<u8>>,
    user: Option<Seq<char>>,
    spec: RunSpecView,
    script: Seq<ReplyView>,
    code: u8,
)
    requires
        spec.persist,
        unsupported(spec.systemd_opts) is Some || unit_dir is None,
        ends_with(run_turn(under(p, unit_dir), user, spec), script, code),
    ensures
        ({
            let turn = run_turn(under(p, unit_dir), user, spec);
            &&& requests(turn, script) == linger_asks(user)
            &&& output(turn, script) == linger_says(user, script).push(
                EmitView::Report("error: "@ + refusal(spec.systemd_opts) + "\n"@),
            )
            &&& code == 2
        }),
{
    let turn = run_turn(under(p, unit_dir), user, spec);
    let play = lemma_play(turn, Map::empty(), None, script, code);
    let launch = lemma_lingers(play, p, unit_dir, user, spec);
    match unsupported(spec.systemd_opts) {
        Some(fault) => errors_are_spelled_out(text_of(fault)),
        None => errors_are_spelled_out(Seq::empty()),
    }
    assert(launch.turn == persist_turn(under(p, unit_dir), linger_says(user, script), spec));
    lemma_over(launch);
    assert(play.asked =~= linger_asks(user));
}

/// An override that no unit file can hold is refused, by name and with exit code 2: of
/// the launch itself, nothing runs. So is persisting where no directory for unit files is
/// known.
#[verifier::spinoff_prover]
pub proof fn persisting_refuses_by_name(
    prefix: Option<Seq<char>>,
    p: Seq<char>,
    user: Option<Seq<char>>,
    unit_dir: Option<Seq<u8>>,
    args: Seq<Seq<u8>>,
    word: Option<Seq<u8>>,
    job: Seq<char>,
    flags: Seq<Seq<u8>>,
    overrides: Seq<Seq<u8>>,
    command: Seq<Seq<u8>>,
    script: Seq<ReplyView>,
    code: u8,
)
    requires
        in_force(p, prefix),
        writes_launch(args, word, flags, overrides, command),
        goes_by(job, word, command),
        wants_persist(flags),
        unsupported(overrides_of(flags, overrides)) is Some || unit_dir is None,
        ends_with(first_turn(prefix, user, unit_dir, args), script, code),
    ensures
        ({
            let turn = first_turn(prefix, user, unit_dir, args);
            let message = refusal(overrides_of(flags, overrides));
            &&& requests(turn, script) == linger_asks(user)
            &&& output(turn, script) == linger_says(user, script).push(
                EmitView::Report("error: "@ + message + "\n"@),
            )
            &&& code == 2
        }),
{
    let spec = lemma_launch_starts(
        prefix,
        p,
        user,
        unit_dir,
        args,
        word,
        job,
        flags,
        overrides,
        command,
    );
    lemma_refusing(p, unit_dir, user, spec, script, code);
}

// ---------------------------------------------------------------------------
// Where unit files live
// ---------------------------------------------------------------------------

/// A path with a slash at its end, unless it is empty.
pub open spec fn slashed(path: Seq<u8>) -> Seq<u8> {
    if path.len() == 0 || path.last() == 47 {
        path
    } else {
        path + seq![47u8]
    }
}

/// Unit files live in `systemd/user` under the configuration directory that is set and
/// not empty, or else under `.config` in the home directory; with neither, nowhere.
pub proof fn unit_files_live_under_systemd_user(
    config_home: Option<Seq<u8>>,
    home: Option<Seq<u8>>,
)
    ensures
        ({
            let place = encode_utf8("systemd"@) + seq![47u8] + encode_utf8("user"@);
            let found = unit_dir(config_home, home);
            match (config_home, home) {
                (Some(config), _) if config.len() > 0 => found == Some(slashed(config) + place),
                (_, Some(home)) => found == Some(
                    slashed(home) + encode_utf8(".config"@) + seq![47u8] + place,
                ),
                _ => found is None,
            }
        }),
{
    reveal_strlit(".config");
    reveal_strlit("systemd");
    vstd::utf8::is_ascii_chars_encode_utf8(".config"@);
    vstd::utf8::is_ascii_chars_encode_utf8("systemd"@);
    let dot_config = encode_utf8(".config"@);
    let systemd = encode_utf8("systemd"@);
    let user = encode_utf8("user"@);
    assert(".config"@[6] == 'g' && dot_config.last() == 103);
    assert("systemd"@[6] == 'd' && systemd.last() == 100);
    let place = systemd + seq![47u8] + user;
    match (config_home, home) {
        (Some(config), _) if config.len() > 0 => {
            joining_puts_one_slash_between(config, systemd);
            let base = joined(config, systemd);
            assert(base.last() == systemd.last());
            joining_puts_one_slash_between(base, user);
            assert(joined(base, user) =~= slashed(config) + place);
        },
        (_, Some(home)) => {
            joining_puts_one_slash_between(home, dot_config);
            let config = joined(home, dot_config);
            assert(config.last() == dot_config.last());
            joining_puts_one_slash_between(config, systemd);
            let base = joined(config, systemd);
            assert(base.last() == systemd.last());
            joining_puts_one_slash_between(base, user);
            assert(joined(base, user) =~= slashed(home) + dot_config + seq![47u8] + place);
        },
        _ => {},
    }
}

} // verus!
