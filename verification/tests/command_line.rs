use bgrun::cli::parse_add;
use bgrun::{parse, parse_invocation, Action, Invocation, JobName, ParseError, RunSpec};

fn os(args: &[&str]) -> Vec<Vec<u8>> {
    args.iter().map(|a| a.as_bytes().to_vec()).collect()
}

fn s(name: &str) -> JobName {
    JobName::parse(name.as_bytes())
}

fn run(args: &[&str]) -> RunSpec {
    let action = parse(&os(args)).unwrap();
    let Action::Run(spec) = action else {
        panic!("expected Run, got {action:?}");
    };
    spec
}

#[test]
fn no_arguments_is_help() {
    assert_eq!(parse(&[]), Ok(Action::Help));
}

#[test]
fn help_flags() {
    for flag in ["help", "-h", "--help"] {
        assert_eq!(parse(&os(&[flag])), Ok(Action::Help), "flag: {flag}");
    }
}

#[test]
fn bare_run_derives_name() {
    let action = parse(&os(&["--", "sleep", "5"])).unwrap();
    let Action::Run(spec) = action else {
        panic!("expected Run, got {action:?}");
    };
    assert_eq!(spec.name, None);
    assert!(spec.systemd_opts.is_empty());
    assert_eq!(spec.command, os(&["sleep", "5"]));
}

#[test]
fn bare_run_without_command_is_an_error() {
    assert_eq!(parse(&os(&["--"])), Err(ParseError::MissingCommand));
}

#[test]
fn add_with_name_and_opts() {
    let action = parse(&os(&[
        "add",
        "build",
        "-p",
        "MemoryMax=1G",
        "--",
        "make",
        "-j2",
    ]))
    .unwrap();
    let Action::Run(spec) = action else {
        panic!("expected Run");
    };
    assert_eq!(spec.name, Some(s("build")));
    assert_eq!(spec.systemd_opts, os(&["-p", "MemoryMax=1G"]));
    assert_eq!(spec.command, os(&["make", "-j2"]));
}

#[test]
fn add_name_derived_when_first_token_is_a_flag() {
    let action = parse(&os(&["add", "-p", "X=1", "--", "make"])).unwrap();
    let Action::Run(spec) = action else {
        panic!("expected Run");
    };
    assert_eq!(spec.name, None);
    assert_eq!(spec.systemd_opts, os(&["-p", "X=1"]));
}

#[test]
fn add_separator_is_the_first_double_dash() {
    let action = parse(&os(&["add", "j", "--", "echo", "--", "x"])).unwrap();
    let Action::Run(spec) = action else {
        panic!("expected Run");
    };
    assert_eq!(spec.command, os(&["echo", "--", "x"]));
}

#[test]
fn add_immediate_separator_has_no_name() {
    let action = parse(&os(&["add", "--", "foo", "bar"])).unwrap();
    let Action::Run(spec) = action else {
        panic!("expected Run");
    };
    assert_eq!(spec.name, None);
    assert_eq!(spec.command, os(&["foo", "bar"]));
}

#[test]
fn add_requires_separator() {
    assert_eq!(parse(&os(&["add"])), Err(ParseError::MissingSeparator));
    assert_eq!(parse(&os(&["add", "x"])), Err(ParseError::MissingSeparator));
    assert_eq!(
        parse(&os(&["add", "-p", "X=1"])),
        Err(ParseError::MissingSeparator)
    );
}

#[test]
fn add_requires_command_after_separator() {
    assert_eq!(
        parse(&os(&["add", "x", "--"])),
        Err(ParseError::MissingCommand)
    );
}

#[test]
fn list_and_clean_take_no_arguments() {
    assert_eq!(parse(&os(&["list"])), Ok(Action::List));
    assert_eq!(parse(&os(&["clean"])), Ok(Action::Clean));
    assert_eq!(
        parse(&os(&["list", "extra"])),
        Err(ParseError::UnexpectedArgument {
            action: "list".into()
        })
    );
}

#[test]
fn clean_refuses_arguments_by_its_own_name() {
    assert_eq!(
        parse(&os(&["clean", "a", "b"])),
        Err(ParseError::UnexpectedArgument {
            action: "clean".into()
        })
    );
}

#[test]
fn status_takes_exactly_one_name() {
    assert_eq!(parse(&os(&["status", "web"])), Ok(Action::Status(s("web"))));
    assert_eq!(
        parse(&os(&["status"])),
        Err(ParseError::MissingArgument {
            action: "status".into()
        })
    );
    assert_eq!(
        parse(&os(&["status", "a", "b"])),
        Err(ParseError::UnexpectedArgument {
            action: "status".into()
        })
    );
}

#[test]
fn lib_logs_forwards_journalctl_options() {
    let action = parse(&os(&["logs", "web", "-n", "50", "--follow"])).unwrap();
    let Action::Logs {
        name,
        journalctl_opts,
    } = action
    else {
        panic!("expected Logs");
    };
    assert_eq!(name, s("web"));
    assert_eq!(journalctl_opts, os(&["-n", "50", "--follow"]));
}

#[test]
fn logs_needs_a_name() {
    assert_eq!(
        parse(&os(&["logs"])),
        Err(ParseError::MissingArgument {
            action: "logs".into()
        })
    );
}

#[test]
fn stop_and_remove_accept_multiple_names() {
    assert_eq!(
        parse(&os(&["stop", "a", "b"])),
        Ok(Action::Remove(vec![s("a"), s("b")]))
    );
    assert_eq!(
        parse(&os(&["remove", "a"])),
        Ok(Action::Remove(vec![s("a")]))
    );
    assert_eq!(
        parse(&os(&["stop"])),
        Err(ParseError::MissingArgument {
            action: "stop".into()
        })
    );
}

#[test]
fn only_remove_forgets() {
    assert_eq!(
        parse_invocation(&os(&["remove", "a"])),
        Ok(Invocation {
            action: Action::Remove(vec![s("a")]),
            forget: true
        })
    );
    assert_eq!(
        parse_invocation(&os(&["stop", "a"])),
        Ok(Invocation {
            action: Action::Remove(vec![s("a")]),
            forget: false
        })
    );
    assert_eq!(
        parse_invocation(&os(&["resume", "a", "b c"])),
        Ok(Invocation {
            action: Action::Resume(vec![s("a"), s("b-c")]),
            forget: false
        })
    );
    assert_eq!(
        parse_invocation(&os(&["remove"])),
        Err(ParseError::MissingArgument {
            action: "remove".into()
        })
    );
    assert_eq!(
        parse_invocation(&os(&["resume"])),
        Err(ParseError::MissingArgument {
            action: "resume".into()
        })
    );
}

#[test]
fn unknown_command() {
    assert_eq!(
        parse(&os(&["wat"])),
        Err(ParseError::UnknownCommand {
            command: "wat".into()
        })
    );
}

#[test]
fn a_command_without_separator_is_unknown() {
    assert_eq!(
        parse(&os(&["make", "-j8"])),
        Err(ParseError::UnknownCommand {
            command: "make".into()
        })
    );
}

#[test]
fn restart_is_an_override_in_front_of_the_others() {
    for flag in ["--restart", "-r"] {
        let spec = run(&["add", "api", flag, "-p", "X=1", "--", "./server"]);
        assert_eq!(spec.name, Some(s("api")));
        assert_eq!(
            spec.systemd_opts,
            os(&["-p", "Restart=on-failure", "-p", "X=1"])
        );
        assert!(!spec.persist);
    }
}

#[test]
fn persist_is_a_flag_of_its_own() {
    for flag in ["--persist", "-b"] {
        let spec = run(&[flag, "--", "./sync.sh", "~/data"]);
        assert_eq!(spec.name, None);
        assert!(spec.systemd_opts.is_empty());
        assert_eq!(spec.command, os(&["./sync.sh", "~/data"]));
        assert!(spec.persist);
    }
}

#[test]
fn flags_combine_in_any_order() {
    for flags in [["-r", "-b"], ["--persist", "--restart"]] {
        let spec = run(&[flags[0], flags[1], "--", "make"]);
        assert_eq!(spec.systemd_opts, os(&["-p", "Restart=on-failure"]));
        assert!(spec.persist);
    }
    let spec = run(&["-r", "-r", "--", "make"]);
    assert_eq!(spec.systemd_opts, os(&["-p", "Restart=on-failure"]));
}

#[test]
fn flags_behind_an_override_or_in_the_command_are_left_alone() {
    let spec = run(&["add", "x", "-p", "X=1", "-r", "--", "make", "--persist"]);
    assert_eq!(spec.systemd_opts, os(&["-p", "X=1", "-r"]));
    assert_eq!(spec.command, os(&["make", "--persist"]));
    assert!(!spec.persist);
}

#[test]
fn a_flag_in_the_name_position_is_no_name() {
    let spec = run(&["add", "--restart", "--", "sleep", "5"]);
    assert_eq!(spec.name, None);
}

#[test]
fn both_launch_forms_agree() {
    for words in [
        vec!["-r", "-p", "X=1", "--", "make"],
        vec!["--", "make"],
        vec!["--working-directory=/tmp", "--", "make"],
        vec!["-b", "--"],
    ] {
        let mut longer = vec!["add"];
        longer.extend(words.iter());
        assert_eq!(parse(&os(&words)), parse(&os(&longer)), "{words:?}");
    }
}

#[test]
fn an_option_without_separator_is_an_unknown_command() {
    for words in [vec!["--wat"], vec!["--restart", "sleep", "5"], vec!["-"]] {
        assert_eq!(
            parse(&os(&words)),
            Err(ParseError::UnknownCommand {
                command: words[0].into()
            })
        );
    }
}

#[test]
fn words_that_are_not_utf8_pass_through() {
    let args = vec![
        b"add".to_vec(),
        b"n\xff".to_vec(),
        b"-p".to_vec(),
        b"A=\xfe".to_vec(),
        b"--".to_vec(),
        b"cmd\x80".to_vec(),
    ];
    let Ok(Action::Run(spec)) = parse(&args) else {
        panic!("expected Run");
    };
    assert_eq!(spec.name, Some(s("n-")));
    assert_eq!(spec.systemd_opts, vec![b"-p".to_vec(), b"A=\xfe".to_vec()]);
    assert_eq!(spec.command, vec![b"cmd\x80".to_vec()]);
    assert_eq!(
        parse(&[b"\xff".to_vec()]),
        Err(ParseError::UnknownCommand {
            command: "\u{fffd}".into()
        })
    );
}

#[test]
fn every_name_is_sanitized() {
    assert_eq!(
        parse(&os(&["status", "my job!"])),
        Ok(Action::Status(s("my-job-")))
    );
    assert_eq!(
        parse(&os(&["remove", "a/b", ""])),
        Ok(Action::Remove(vec![s("a-b"), s("job")]))
    );
    let spec = run(&["add", "a b", "--", "make"]);
    assert_eq!(spec.name, Some(s("a-b")));
}

#[test]
fn more_words_only_lengthen_the_command() {
    for words in [
        vec!["add", "x", "-r", "-p", "A=1", "--", "make"],
        vec!["add", "--", "make"],
        vec!["-b", "--", "make"],
        vec!["--", "make"],
    ] {
        let mut spec = run(&words);
        let mut longer = words.clone();
        longer.extend(["--", "-r", "x"]);
        spec.command.extend(os(&["--", "-r", "x"]));
        assert_eq!(run(&longer), spec, "{words:?}");
    }
}

#[test]
fn add_reads_the_words_that_follow_it() {
    assert_eq!(parse_add(&os(&[])), Err(ParseError::MissingSeparator));
    assert_eq!(parse_add(&os(&["x", "--"])), Err(ParseError::MissingCommand));
    let launch = |name: Option<JobName>, command: &[&str]| {
        Ok(Action::Run(RunSpec {
            name,
            systemd_opts: os(&["-p", "A=1"]),
            command: os(command),
            persist: false,
        }))
    };
    assert_eq!(
        parse_add(&os(&["x", "-p", "A=1", "--", "make"])),
        launch(Some(s("x")), &["make"])
    );
    assert_eq!(
        parse_add(&os(&["x", "-p", "A=1", "--", "make", "--", "-b"])),
        launch(Some(s("x")), &["make", "--", "-b"])
    );
    assert_eq!(
        parse_add(&os(&["-p", "A=1", "--", "make"])),
        launch(None, &["make"])
    );
    assert_eq!(
        parse_add(&os(&["-p", "A=1", "--", "make", "--", "-b"])),
        launch(None, &["make", "--", "-b"])
    );
}
