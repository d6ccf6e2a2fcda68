//! End-to-end tests: whole sessions against stand-ins for the systemd tools and the
//! unit files. Each call is logged, so the tests pin down the exact subprocess call
//! shapes.

use std::collections::BTreeMap;

use bgrun::{accepts, advance, begin, CommandLine, Emit, Environment, Next, Output, Reply, Request};

const SYSTEMD_RUN_ALREADY_EXISTS: &str =
    "Failed to start transient service unit: Unit bgrun-dup.service already exists.";

/// How a stand-in answers calls that contain some text.
struct Rule {
    program: String,
    needle: String,
    reply: Result<(i32, String, String), String>,
}

/// Stand-ins for every systemd tool, and for the disk.
struct Sandbox {
    rules: Vec<Rule>,
    files: BTreeMap<Vec<u8>, Vec<u8>>,
    calls: Vec<String>,
    unwritable: bool,
    undeletable: bool,
    config_home: Option<Vec<u8>>,
    user: Option<String>,
}

/// What a session printed, and its exit code.
struct Finished {
    code: u8,
    stdout: String,
    stderr: String,
}

impl Sandbox {
    fn new() -> Self {
        Sandbox {
            rules: Vec::new(),
            files: BTreeMap::new(),
            calls: Vec::new(),
            unwritable: false,
            undeletable: false,
            config_home: Some(b"/sandbox".to_vec()),
            user: Some("tester".to_string()),
        }
    }

    fn rule(&mut self, program: &str, needle: &str, code: i32, stdout: &str, stderr: &str) {
        self.rules.push(Rule {
            program: program.to_string(),
            needle: needle.to_string(),
            reply: Ok((code, stdout.to_string(), stderr.to_string())),
        });
    }

    fn missing(&mut self, program: &str, reason: &str) {
        self.rules.push(Rule {
            program: program.to_string(),
            needle: "".to_string(),
            reply: Err(reason.to_string()),
        });
    }

    fn fail_duplicate(&mut self) {
        let message = format!("{SYSTEMD_RUN_ALREADY_EXISTS}\n");
        self.rule("systemd-run", "", 1, "", &message);
    }

    fn fail_with(&mut self, name: &str, message: &str) {
        self.rule(name, "", 1, "", &format!("{message}\n"));
    }

    fn fail_verb(&mut self, name: &str, verb: &str, message: &str) {
        self.rule(name, &format!(" {verb} "), 1, "", &format!("{message}\n"));
    }

    fn unit_state(&mut self, state: &str) {
        self.rule("systemctl", "UnitFileState", 0, &format!("{state}\n"), "");
    }

    fn linger_disabled(&mut self) {
        self.rule("loginctl", "", 0, "no\n", "");
    }

    fn unit_path(&self, name: &str) -> Vec<u8> {
        format!("/sandbox/systemd/user/{name}").into_bytes()
    }

    fn unit_file(&self, name: &str) -> Option<String> {
        self.files
            .get(&self.unit_path(name))
            .map(|body| String::from_utf8(body.clone()).unwrap())
    }

    fn write_unit_file(&mut self, name: &str) {
        let path = self.unit_path(name);
        self.files
            .insert(path, b"[Service]\nExecStart=true\n".to_vec());
    }

    fn call(&mut self, line: &CommandLine) -> Result<(i32, String, String), String> {
        let mut text = line.program.clone();
        for arg in &line.args {
            text.push(' ');
            text.push_str(&String::from_utf8_lossy(arg));
        }
        let padded = format!(" {text} ");
        for rule in &self.rules {
            if rule.program == line.program && padded.contains(&rule.needle) {
                if rule.reply.is_ok() {
                    self.calls.push(text);
                }
                return rule.reply.clone();
            }
        }
        self.calls.push(text);
        let stdout = match line.program.as_str() {
            "systemd-run" => "Running as unit: test.service.\n",
            "loginctl" => "yes\n",
            _ => "",
        };
        Ok((0, stdout.to_string(), String::new()))
    }

    fn perform(&mut self, request: Request, finished: &mut Finished) -> Reply {
        match request {
            Request::Capture(line) => match self.call(&line) {
                Ok((code, stdout, stderr)) => Reply::Output(Output {
                    status: Some(code),
                    stdout: stdout.into_bytes(),
                    stderr: stderr.into_bytes(),
                }),
                Err(reason) => Reply::Failed(reason),
            },
            Request::Forward(line) => match self.call(&line) {
                Ok((code, stdout, stderr)) => {
                    finished.stdout.push_str(&stdout);
                    finished.stderr.push_str(&stderr);
                    Reply::Status(Some(code))
                }
                Err(reason) => Reply::Failed(reason),
            },
            Request::WriteFile { dir, path, body } => {
                assert!(path.starts_with(&dir));
                if self.unwritable {
                    return Reply::Failed("read-only".to_string());
                }
                self.files.insert(path, body);
                Reply::Done
            }
            Request::RemoveFile(path) => {
                if self.undeletable {
                    return Reply::Failed("permission denied".to_string());
                }
                match self.files.remove(&path) {
                    Some(_) => Reply::Done,
                    None => Reply::Failed("no such file".to_string()),
                }
            }
            Request::Exists(path) => Reply::Exists(self.files.contains_key(&path)),
        }
    }

    fn run(&mut self, args: &[&str]) -> Finished {
        self.run_with(args, None)
    }

    fn run_with(&mut self, args: &[&str], prefix: Option<&str>) -> Finished {
        let environment = Environment {
            prefix: prefix.map(str::to_string),
            user: self.user.clone(),
            config_home: self.config_home.clone(),
            home: None,
        };
        let args: Vec<Vec<u8>> = args.iter().map(|a| a.as_bytes().to_vec()).collect();
        let mut finished = Finished {
            code: 0,
            stdout: String::new(),
            stderr: String::new(),
        };
        let mut turn = begin(&environment, &args);
        loop {
            for emit in &turn.emits {
                match emit {
                    Emit::Print(text) => finished.stdout.push_str(text),
                    Emit::Pass(bytes) => finished.stdout.push_str(&String::from_utf8_lossy(bytes)),
                    Emit::Report(text) => finished.stderr.push_str(text),
                }
            }
            match turn.next {
                Next::Exit(code) => {
                    finished.code = code;
                    return finished;
                }
                Next::Ask(request, session) => {
                    let reply = self.perform(request, &mut finished);
                    assert!(accepts(&session, &reply));
                    turn = advance(session, reply);
                }
            }
        }
    }

    fn calls_containing(&self, needle: &str) -> Vec<&String> {
        self.calls
            .iter()
            .filter(|line| line.contains(needle))
            .collect()
    }

    fn position(&self, needle: &str) -> usize {
        match self.calls.iter().position(|line| line.contains(needle)) {
            Some(at) => at,
            None => panic!("missing call containing {needle:?} in {:?}", self.calls),
        }
    }
}

// ----------------------------------------------------------------- run --

#[test]
fn run_passes_exact_argv_to_systemd_run() {
    let mut sandbox = Sandbox::new();
    let output = sandbox.run(&["--", "sleep", "5"]);

    assert_eq!(output.code, 0);
    assert!(output.stdout.contains("Running as unit"));
    assert!(
        sandbox
            .calls_containing("systemd-run --user --unit=bgrun-sleep.service --collect sleep 5")
            .len()
            == 1,
        "calls: {:?}",
        sandbox.calls
    );
    assert!(
        !output.stderr.contains("warning"),
        "no linger warning when enabled"
    );
}

#[test]
fn run_derives_name_from_command_basename() {
    let mut sandbox = Sandbox::new();
    sandbox.run(&["--", "/usr/bin/make", "-j4"]);
    assert!(sandbox.calls_containing("--unit=bgrun-make.service").len() == 1);
}

#[test]
fn run_warns_when_lingering_is_disabled() {
    let mut sandbox = Sandbox::new();
    sandbox.linger_disabled();

    let output = sandbox.run(&["--", "sleep", "5"]);

    assert_eq!(output.code, 0);
    let err = output.stderr;
    assert!(err.contains("lingering is disabled"), "stderr: {err}");
    assert!(err.contains("loginctl enable-linger"), "stderr: {err}");
    assert!(
        sandbox
            .calls_containing("loginctl show-user tester --property=Linger --value")
            .len()
            == 1
    );
    assert_eq!(
        err,
        "warning: lingering is disabled for 'tester' — jobs die when your last session logs out\n  \
         enable it once: loginctl enable-linger tester\n"
    );
}

#[test]
fn white_space_around_the_answer_about_lingering_does_not_matter() {
    for (answer, warns) in [
        ("no", true),
        (" \t\u{a0}no\u{3000}\r\n", true),
        ("no way", false),
        ("n o", false),
        ("", false),
        ("\n", false),
    ] {
        let mut sandbox = Sandbox::new();
        sandbox.rule("loginctl", "", 0, answer, "");
        let output = sandbox.run(&["--", "sleep", "5"]);
        assert_eq!(output.stderr.contains("warning"), warns, "{answer:?}");
    }
}

#[test]
fn the_question_about_lingering_never_blocks_a_launch() {
    let mut sandbox = Sandbox::new();
    sandbox.missing("loginctl", "not found");
    let output = sandbox.run(&["--", "sleep", "5"]);
    assert_eq!(output.code, 0);
    assert_eq!(output.stderr, "");
    assert_eq!(sandbox.calls.len(), 1);

    let mut sandbox = Sandbox::new();
    sandbox.user = None;
    sandbox.run(&["--", "sleep", "5"]);
    assert_eq!(
        sandbox.calls,
        vec!["systemd-run --user --unit=bgrun-sleep.service --collect sleep 5"]
    );
}

#[test]
fn duplicate_name_prints_friendly_hint_without_racing() {
    let mut sandbox = Sandbox::new();
    sandbox.fail_duplicate();

    let output = sandbox.run(&["add", "dup", "--", "sleep", "5"]);

    assert_eq!(output.code, 1);
    let err = output.stderr;
    assert!(
        err.contains("bgrun-dup.service already exists (running or failed)"),
        "stderr: {err}"
    );
    assert!(err.contains("bgrun logs dup"), "stderr: {err}");
    assert!(err.contains("bgrun remove dup"), "stderr: {err}");
    assert_eq!(
        err,
        "error: bgrun-dup.service already exists (running or failed)\n  \
         see: bgrun logs dup   remove: bgrun remove dup\n"
    );
}

#[test]
fn other_systemd_run_failures_pass_through() {
    let mut sandbox = Sandbox::new();
    sandbox.fail_with("systemd-run", "some other systemd error");

    let output = sandbox.run(&["--", "sleep", "5"]);

    assert_eq!(output.code, 1);
    assert!(output.stderr.contains("some other systemd error"));
    assert!(!output.stderr.contains("already exists (running or failed)"));
}

#[test]
fn a_systemd_run_that_does_not_start_is_reported() {
    let mut sandbox = Sandbox::new();
    sandbox.missing("systemd-run", "not found");
    let output = sandbox.run(&["--", "sleep", "5"]);
    assert_eq!(output.code, 1);
    assert_eq!(output.stderr, "error: cannot run systemd-run: not found\n");
}

#[test]
fn add_forwards_overrides_verbatim() {
    let mut sandbox = Sandbox::new();
    let output = sandbox.run(&["add", "build", "-p", "WorkingDirectory=/tmp", "--", "make"]);

    assert_eq!(output.code, 0);
    assert!(
        sandbox
            .calls_containing(
                "systemd-run --user --unit=bgrun-build.service --collect -p WorkingDirectory=/tmp make"
            )
            .len()
            == 1
    );
}

#[test]
fn restart_becomes_a_systemd_property_on_the_transient_unit() {
    let mut sandbox = Sandbox::new();
    let output = sandbox.run(&["add", "--restart", "--", "sleep", "5"]);

    assert_eq!(output.code, 0);
    assert!(
        sandbox
            .calls_containing(
                "systemd-run --user --unit=bgrun-sleep.service --collect -p Restart=on-failure sleep 5"
            )
            .len()
            == 1,
        "calls: {:?}",
        sandbox.calls
    );
}

#[test]
fn bare_run_accepts_the_same_flags() {
    let mut sandbox = Sandbox::new();
    let output = sandbox.run(&["--restart", "-p", "MemoryMax=1G", "--", "sleep", "5"]);

    assert_eq!(output.code, 0);
    assert!(
        sandbox
            .calls_containing(
                "systemd-run --user --unit=bgrun-sleep.service --collect -p Restart=on-failure -p MemoryMax=1G sleep 5"
            )
            .len()
            == 1,
        "calls: {:?}",
        sandbox.calls
    );
}

// ---------------------------------------------------------- persistence --

#[test]
fn persist_writes_an_enabled_unit_file_instead_of_running_systemd_run() {
    let mut sandbox = Sandbox::new();
    let output = sandbox.run(&[
        "add",
        "build",
        "--persist",
        "-p",
        "MemoryMax=1G",
        "--",
        "make",
    ]);

    assert_eq!(output.code, 0);
    let body = sandbox
        .unit_file("bgrun-build.service")
        .expect("unit file was written");
    assert!(body.contains("ExecStart=\"make\"\n"), "{body}");
    assert!(body.contains("MemoryMax=1G\n"), "{body}");
    assert!(body.contains("WantedBy=default.target\n"), "{body}");

    assert!(
        sandbox.position("systemctl --user daemon-reload")
            < sandbox.position("systemctl --user enable --now bgrun-build.service")
    );
    assert!(
        sandbox
            .calls
            .iter()
            .all(|line| !line.contains("systemd-run")),
        "a persisted job is a unit file, not a transient unit: {:?}",
        sandbox.calls
    );
    assert!(output.stdout.contains("persisted: bgrun-build.service"));
    assert_eq!(
        output.stdout,
        "persisted: bgrun-build.service (starts on every boot)\n"
    );
}

#[test]
fn persist_refuses_to_shadow_a_running_transient_job() {
    let mut sandbox = Sandbox::new();
    sandbox.unit_state("transient");

    let output = sandbox.run(&["add", "api", "--persist", "--", "make"]);

    assert_eq!(output.code, 1);
    let err = output.stderr;
    assert!(
        err.contains("bgrun-api.service is already running as a transient job"),
        "stderr: {err}"
    );
    assert!(err.contains("bgrun remove api"), "stderr: {err}");
    assert!(sandbox.unit_file("bgrun-api.service").is_none());
    assert!(sandbox.calls_containing("enable").is_empty());
}

#[test]
fn persist_may_replace_an_already_persisted_job() {
    let mut sandbox = Sandbox::new();
    sandbox.write_unit_file("bgrun-api.service");
    sandbox.unit_state("enabled");

    let output = sandbox.run(&["add", "api", "--persist", "--", "make", "-j8"]);

    assert_eq!(output.code, 0);
    let body = sandbox.unit_file("bgrun-api.service").expect("rewritten");
    assert!(body.contains("ExecStart=\"make\" \"-j8\"\n"), "{body}");
}

#[test]
fn persist_rejects_an_override_it_cannot_write_before_touching_disk() {
    let mut sandbox = Sandbox::new();
    let output = sandbox.run(&["add", "--persist", "--working-directory=/tmp", "--", "make"]);

    assert_eq!(output.code, 2);
    assert!(
        output.stderr.contains("only -p KEY=VALUE overrides"),
        "stderr: {}",
        output.stderr
    );
    assert!(sandbox.unit_file("bgrun-make.service").is_none());
    assert!(sandbox.calls_containing("systemctl").is_empty());
    assert!(sandbox.calls_containing("systemd-run").is_empty());
}

#[test]
fn persist_needs_a_unit_directory() {
    let mut sandbox = Sandbox::new();
    sandbox.config_home = None;
    let output = sandbox.run(&["--persist", "--", "make"]);
    assert_eq!(output.code, 2);
    assert!(output.stderr.contains("no user unit directory"));
    assert!(sandbox.calls_containing("systemctl").is_empty());
}

#[test]
fn persist_reports_a_file_it_cannot_write() {
    let mut sandbox = Sandbox::new();
    sandbox.unwritable = true;
    let output = sandbox.run(&["add", "api", "--persist", "--", "make"]);
    assert_eq!(output.code, 1);
    assert_eq!(
        output.stderr,
        "error: cannot write /sandbox/systemd/user/bgrun-api.service: read-only\n"
    );
    assert!(sandbox.calls_containing("daemon-reload").is_empty());
}

#[test]
fn a_unit_systemd_cannot_read_is_deleted() {
    let mut sandbox = Sandbox::new();
    sandbox.fail_verb("systemctl", "daemon-reload", "Failed to reload");
    let output = sandbox.run(&["add", "api", "--persist", "--", "make"]);
    assert_eq!(output.code, 1);
    assert!(sandbox.unit_file("bgrun-api.service").is_none());
    assert!(sandbox.calls_containing("enable").is_empty());
}

#[test]
fn a_unit_systemd_refuses_is_not_left_wired_into_every_boot() {
    let mut sandbox = Sandbox::new();
    sandbox.fail_verb("systemctl", "enable", "Failed to prepare unit");

    let output = sandbox.run(&["add", "build", "--persist", "--", "make"]);

    assert_eq!(output.code, 1);
    assert!(output.stderr.contains("Failed to prepare unit"));
    assert!(
        sandbox.unit_file("bgrun-build.service").is_none(),
        "a refused unit file must not be left behind to fail at every boot"
    );
    assert!(
        sandbox
            .calls_containing("systemctl --user disable bgrun-build.service")
            .len()
            == 1
    );
}

#[test]
fn remove_deletes_the_unit_file_of_a_persisted_job() {
    let mut sandbox = Sandbox::new();
    sandbox.write_unit_file("bgrun-build.service");

    let output = sandbox.run(&["remove", "build"]);

    assert_eq!(output.code, 0);
    assert!(sandbox.unit_file("bgrun-build.service").is_none());
    assert!(
        sandbox
            .calls_containing("systemctl --user disable bgrun-build.service")
            .len()
            == 1
    );
}

#[test]
fn remove_warns_about_a_file_it_cannot_delete() {
    let mut sandbox = Sandbox::new();
    sandbox.write_unit_file("bgrun-build.service");
    sandbox.undeletable = true;
    let output = sandbox.run(&["remove", "build"]);
    assert_eq!(output.code, 0);
    assert_eq!(
        output.stderr,
        "warning: cannot delete /sandbox/systemd/user/bgrun-build.service: permission denied\n"
    );
    assert_eq!(output.stdout, "removed: bgrun-build.service\n");
}

#[test]
fn remove_says_nothing_about_transient_jobs() {
    let mut sandbox = Sandbox::new();
    let output = sandbox.run(&["remove", "a"]);

    assert_eq!(output.code, 0);
    let calls = &sandbox.calls;
    assert_eq!(
        calls.len(),
        2,
        "a transient job has no unit file to disable: {calls:?}"
    );
    assert!(
        calls[0].ends_with("systemctl --user stop bgrun-a.service"),
        "{calls:?}"
    );
    assert!(
        calls[1].ends_with("systemctl --user reset-failed bgrun-a.service"),
        "{calls:?}"
    );
}

#[test]
fn stop_keeps_the_job_and_resume_starts_it_again() {
    let mut sandbox = Sandbox::new();
    sandbox.write_unit_file("bgrun-build.service");

    let output = sandbox.run(&["stop", "build"]);

    assert_eq!(output.code, 0);
    assert!(output.stdout.contains("stopped: bgrun-build.service"));
    assert!(
        sandbox.unit_file("bgrun-build.service").is_some(),
        "stop must not forget a persisted job"
    );
    let calls = &sandbox.calls;
    assert_eq!(calls.len(), 1, "stop is one systemctl call: {calls:?}");
    assert!(
        calls[0].ends_with("systemctl --user stop bgrun-build.service"),
        "{calls:?}"
    );

    let output = sandbox.run(&["resume", "build"]);

    assert_eq!(output.code, 0);
    assert!(output.stdout.contains("resumed: bgrun-build.service"));
    assert!(
        sandbox
            .calls_containing("systemctl --user start bgrun-build.service")
            .len()
            == 1
    );
}

#[test]
fn a_stop_systemd_refuses_is_reported_as_a_failure() {
    let mut sandbox = Sandbox::new();
    // One named unit fails; the loop must still reach the next name.
    sandbox.rule("systemctl", "bgrun-a.service", 1, "", "Failed to stop\n");

    let output = sandbox.run(&["stop", "a", "b"]);

    assert_eq!(output.code, 1);
    assert!(output.stderr.contains("Failed to stop"));
    assert!(!output.stdout.contains("stopped: bgrun-a.service"));
    assert!(
        output.stdout.contains("stopped: bgrun-b.service"),
        "one bad name must not skip the rest"
    );
}

#[test]
fn a_stop_that_does_not_start_is_reported_for_each_name() {
    let mut sandbox = Sandbox::new();
    sandbox.missing("systemctl", "not found");
    let output = sandbox.run(&["stop", "a", "b"]);
    assert_eq!(output.code, 1);
    assert_eq!(
        output.stderr,
        "error: cannot run systemctl: not found\nerror: cannot run systemctl: not found\n"
    );
    assert_eq!(output.stdout, "");
}

// ------------------------------------------------------- introspection --

#[test]
fn list_queries_all_units_with_the_prefix_glob() {
    let mut sandbox = Sandbox::new();
    let output = sandbox.run(&["list"]);

    assert_eq!(output.code, 0);
    assert!(
        sandbox
            .calls_containing("systemctl --user list-units bgrun-*.service --all --no-pager")
            .len()
            == 1
    );
}

#[test]
fn status_targets_the_unit() {
    let mut sandbox = Sandbox::new();
    let output = sandbox.run(&["status", "web"]);

    assert_eq!(output.code, 0);
    assert!(
        sandbox
            .calls_containing("systemctl --user status bgrun-web.service")
            .len()
            == 1
    );
}

#[test]
fn queries_pass_the_exit_code_on() {
    let mut sandbox = Sandbox::new();
    sandbox.rule("systemctl", " status ", 3, "", "");
    assert_eq!(sandbox.run(&["status", "web"]).code, 3);
    sandbox.missing("journalctl", "not found");
    let output = sandbox.run(&["logs", "web"]);
    assert_eq!(output.code, 1);
    assert_eq!(output.stderr, "error: cannot run journalctl: not found\n");
}

#[test]
fn end_to_end_logs_forwards_journalctl_options() {
    let mut sandbox = Sandbox::new();
    let output = sandbox.run(&["logs", "web", "-n", "50"]);

    assert_eq!(output.code, 0);
    assert!(
        sandbox
            .calls_containing("journalctl --user -u bgrun-web.service -n 50")
            .len()
            == 1
    );
}

#[test]
fn remove_stops_and_resets_each_name_in_order() {
    let mut sandbox = Sandbox::new();
    let output = sandbox.run(&["remove", "a", "b"]);

    assert_eq!(output.code, 0);
    assert!(
        sandbox.position("systemctl --user stop bgrun-a.service")
            < sandbox.position("systemctl --user reset-failed bgrun-a.service")
    );
    assert!(
        sandbox.position("systemctl --user reset-failed bgrun-a.service")
            < sandbox.position("systemctl --user stop bgrun-b.service")
    );
    assert_eq!(output.stdout.matches("removed: bgrun-").count(), 2);
}

#[test]
fn remove_succeeds_whatever_systemctl_says() {
    let mut sandbox = Sandbox::new();
    sandbox.missing("systemctl", "not found");
    let output = sandbox.run(&["remove", "a"]);
    assert_eq!(output.code, 0);
    assert_eq!(output.stdout, "removed: bgrun-a.service\n");
    assert_eq!(output.stderr, "");
}

#[test]
fn clean_resets_the_prefix_glob() {
    let mut sandbox = Sandbox::new();
    let output = sandbox.run(&["clean"]);

    assert_eq!(output.code, 0);
    assert!(
        sandbox
            .calls_containing("systemctl --user reset-failed bgrun-*.service")
            .len()
            == 1
    );
    assert!(output.stdout.contains("failed bgrun units"));
    assert!(output.stdout.contains("collected automatically"));
}

#[test]
fn a_clean_that_fails_is_passed_on() {
    let mut sandbox = Sandbox::new();
    sandbox.rule("systemctl", "reset-failed", 4, "", "no bus\n");
    let output = sandbox.run(&["clean"]);
    assert_eq!(output.code, 4);
    assert_eq!(output.stderr, "no bus\n");
    assert_eq!(output.stdout, "");
}

// ----------------------------------------------------------- prefixes --

#[test]
fn custom_prefix_changes_unit_names() {
    let mut sandbox = Sandbox::new();
    let output = sandbox.run_with(&["add", "dl", "--", "wget", "x"], Some("jobs"));

    assert_eq!(output.code, 0);
    assert!(sandbox.calls_containing("--unit=jobs-dl.service").len() == 1);

    sandbox.run_with(&["clean"], Some("jobs"));
    assert!(
        sandbox
            .calls_containing("systemctl --user reset-failed jobs-*.service")
            .len()
            == 1
    );
}

#[test]
fn invalid_prefix_is_rejected() {
    let mut sandbox = Sandbox::new();
    let output = sandbox.run_with(&["list"], Some("bg[run]"));

    assert_eq!(output.code, 2);
    assert!(output.stderr.contains("invalid BGRUN_PREFIX"));
    assert!(
        sandbox.calls.is_empty(),
        "nothing may run with a bad prefix"
    );
}

// ------------------------------------------------------- usage errors --

#[test]
fn help_flag_exits_successfully() {
    let mut sandbox = Sandbox::new();
    let output = sandbox.run(&["--help"]);

    assert_eq!(output.code, 0);
    let out = output.stdout;
    assert!(out.contains("Usage:"));
    assert!(out.contains("loginctl enable-linger"));
    assert!(out.contains("only clears units that exited non-zero"));
    assert!(sandbox.calls.is_empty());
}

#[test]
fn help_names_the_prefix_and_every_command() {
    let mut sandbox = Sandbox::new();
    let out = sandbox.run_with(&["help"], Some("jobs")).stdout;
    assert!(out.contains("forget failed jobs-* units"));
    assert!(out.contains("Prefix is 'jobs'"));
    for verb in ["add", "list", "status", "logs", "stop", "resume", "remove", "clean"] {
        assert!(out.contains(&format!("\n  bgrun {verb}")), "{verb}");
    }
    for flag in ["--restart", "--persist"] {
        assert!(out.contains(&format!("\n  {flag}    ")), "{flag}");
    }
}

#[test]
fn unknown_command_exits_with_usage_code() {
    let mut sandbox = Sandbox::new();
    let output = sandbox.run(&["wat"]);

    assert_eq!(output.code, 2);
    assert!(output.stderr.contains("unknown command 'wat'"));
}

#[test]
fn missing_separator_exits_with_usage_code() {
    let mut sandbox = Sandbox::new();
    let output = sandbox.run(&["add", "x"]);

    assert_eq!(output.code, 2);
    assert!(output.stderr.contains("missing '--'"));
}

#[test]
fn empty_invocation_shows_usage() {
    let mut sandbox = Sandbox::new();
    let output = sandbox.run(&[]);

    assert_eq!(output.code, 0);
    assert!(output.stdout.contains("Usage:"));
}

// --------------------------------------------------------------- files --

#[test]
fn only_persist_and_remove_touch_unit_files() {
    for args in [
        vec!["list"],
        vec!["status", "build"],
        vec!["logs", "build"],
        vec!["stop", "build"],
        vec!["resume", "build"],
        vec!["clean"],
        vec!["help"],
        vec!["add", "build", "--", "make"],
        vec!["wat"],
        vec!["add", "build", "-b", "--slice=x", "--", "make"],
    ] {
        let mut sandbox = Sandbox::new();
        sandbox.write_unit_file("bgrun-build.service");
        let before = sandbox.files.clone();
        sandbox.run(&args);
        assert_eq!(sandbox.files, before, "{args:?}");
    }
}

#[test]
fn remove_leaves_the_unit_files_of_other_jobs_alone() {
    let mut sandbox = Sandbox::new();
    for name in ["a", "b", "c"] {
        sandbox.write_unit_file(&format!("bgrun-{name}.service"));
    }
    let output = sandbox.run(&["remove", "a", "c", "a"]);
    assert_eq!(output.code, 0);
    assert!(sandbox.unit_file("bgrun-a.service").is_none());
    assert!(sandbox.unit_file("bgrun-b.service").is_some());
    assert!(sandbox.unit_file("bgrun-c.service").is_none());
    assert_eq!(
        output.stdout,
        "removed: bgrun-a.service\nremoved: bgrun-c.service\nremoved: bgrun-a.service\n"
    );
}

#[test]
fn remove_without_a_unit_directory_still_stops_and_resets() {
    let mut sandbox = Sandbox::new();
    sandbox.config_home = None;
    let output = sandbox.run(&["remove", "a"]);
    assert_eq!(output.code, 0);
    assert_eq!(
        sandbox.calls,
        vec![
            "systemctl --user stop bgrun-a.service",
            "systemctl --user reset-failed bgrun-a.service"
        ]
    );
}

#[test]
fn a_persisted_launch_makes_these_calls_in_this_order() {
    let asked = [
        "loginctl show-user tester --property=Linger --value",
        "systemctl --user show bgrun-api.service --property=UnitFileState --value",
        "systemctl --user daemon-reload",
        "systemctl --user enable --now bgrun-api.service",
    ];
    let undone = [
        "systemctl --user disable bgrun-api.service",
        "systemctl --user daemon-reload",
    ];
    let args = ["add", "api", "--persist", "--", "./srv"];

    let mut sandbox = Sandbox::new();
    assert_eq!(sandbox.run(&args).code, 0);
    assert_eq!(sandbox.calls, asked);
    assert!(sandbox.unit_file("bgrun-api.service").is_some());

    let mut refused = Sandbox::new();
    refused.fail_verb("systemctl", "enable", "refused");
    assert_eq!(refused.run(&args).code, 1);
    assert_eq!(refused.calls, [&asked[..], &undone[..]].concat());
    assert!(refused.files.is_empty());

    let mut unread = Sandbox::new();
    unread.rule("systemctl", "daemon-reload", 7, "", "");
    assert_eq!(unread.run(&args).code, 7);
    assert_eq!(unread.calls, asked[..3]);
    assert!(unread.files.is_empty());
}

#[test]
fn a_failed_write_changes_no_other_file() {
    let mut sandbox = Sandbox::new();
    sandbox.write_unit_file("bgrun-other.service");
    sandbox.unwritable = true;
    let output = sandbox.run(&["add", "api", "--persist", "--", "./srv"]);
    assert_eq!(output.code, 1);
    assert_eq!(sandbox.files.len(), 1);
    assert!(sandbox.unit_file("bgrun-other.service").is_some());
}

#[test]
fn remove_confirms_each_job_whatever_it_hears() {
    let mut sandbox = Sandbox::new();
    sandbox.write_unit_file("bgrun-a.service");
    sandbox.undeletable = true;
    sandbox.missing("systemctl", "not found");
    let output = sandbox.run(&["remove", "a", "b"]);
    assert_eq!(output.code, 0);
    assert_eq!(
        output.stdout,
        "removed: bgrun-a.service\nremoved: bgrun-b.service\n"
    );
    assert_eq!(
        output.stderr,
        "error: cannot run systemctl: not found\n\
         warning: cannot delete /sandbox/systemd/user/bgrun-a.service: permission denied\n"
    );
}

#[test]
fn undoing_a_persisted_launch_does_not_need_the_deletion_to_work() {
    let args = ["add", "api", "--persist", "--", "./srv"];

    let mut refused = Sandbox::new();
    refused.undeletable = true;
    refused.fail_verb("systemctl", "enable", "refused");
    let output = refused.run(&args);
    assert_eq!(output.code, 1);
    assert_eq!(refused.calls_containing(" disable ").len(), 1);
    assert_eq!(refused.calls_containing("daemon-reload").len(), 1);
    assert!(output.stderr.ends_with(
        "warning: cannot delete /sandbox/systemd/user/bgrun-api.service: permission denied\n"
    ));
    assert!(refused.unit_file("bgrun-api.service").is_some());

    let mut unread = Sandbox::new();
    unread.undeletable = true;
    unread.rule("systemctl", "daemon-reload", 7, "", "");
    assert_eq!(unread.run(&args).code, 7);
    assert!(unread.calls_containing(" enable ").is_empty());
}

#[test]
fn remove_goes_on_after_a_file_it_cannot_delete() {
    let mut sandbox = Sandbox::new();
    sandbox.write_unit_file("bgrun-a.service");
    sandbox.undeletable = true;
    assert_eq!(sandbox.run(&["remove", "a", "b"]).code, 0);
    assert_eq!(
        sandbox.calls,
        [
            "systemctl --user stop bgrun-a.service",
            "systemctl --user reset-failed bgrun-a.service",
            "systemctl --user disable bgrun-a.service",
            "systemctl --user stop bgrun-b.service",
            "systemctl --user reset-failed bgrun-b.service",
        ]
    );
}

#[test]
fn a_transient_launch_makes_two_calls() {
    let mut sandbox = Sandbox::new();
    sandbox.run(&["add", "x", "--", "sleep", "5"]);
    assert_eq!(
        sandbox.calls,
        [
            "loginctl show-user tester --property=Linger --value",
            "systemd-run --user --unit=bgrun-x.service --collect sleep 5",
        ]
    );
    sandbox.user = None;
    sandbox.calls.clear();
    sandbox.run(&["add", "x", "--", "sleep", "5"]);
    assert_eq!(
        sandbox.calls,
        ["systemd-run --user --unit=bgrun-x.service --collect sleep 5"]
    );
}
