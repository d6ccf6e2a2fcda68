use bgrun::{JobName, ParseError, Prefix};

fn s(name: &str) -> JobName {
    JobName::parse(name.as_bytes())
}

fn os(args: &[&str]) -> Vec<Vec<u8>> {
    args.iter().map(|a| a.as_bytes().to_vec()).collect()
}

// -- JobName ----------------------------------------------------------------

#[test]
fn job_name_sanitizes_disallowed_characters() {
    assert_eq!(s("my job!"), s("my-job-"));
    assert_eq!(s("a/b\tc"), s("a-b-c"));
    assert_eq!(s("héllo"), s("h-llo"));
    assert_eq!(s("web:worker_2.config"), s("web:worker_2.config"));
}

#[test]
fn job_name_text_is_exact() {
    assert_eq!(s("my job!").to_string(), "my-job-");
    assert_eq!(s("héllo").as_str(), "h-llo");
    assert_eq!(s("web:worker_2.config").to_string(), "web:worker_2.config");
    assert_eq!(JobName::from_text("a b").as_str(), "a-b");
}

#[test]
fn job_name_of_ill_formed_bytes_has_a_hyphen_for_each_replacement() {
    assert_eq!(JobName::parse(b"a\xffb").as_str(), "a-b");
    assert_eq!(JobName::parse(b"\xff").as_str(), "-");
}

#[test]
fn job_name_empty_falls_back_to_job() {
    assert_eq!(s(""), s("job"));
    assert_eq!(s(""), s("job"));
    assert_eq!(s("").as_str(), "job");
}

#[test]
fn job_name_sanitizing_twice_is_sanitizing_once() {
    for raw in ["", "my job!", "héllo", "plain", "a/b"] {
        let once = s(raw);
        assert_eq!(s(once.as_str()), once);
    }
}

#[test]
fn job_name_clone_is_equal() {
    let name = s("web");
    assert_eq!(name.clone(), name);
}

#[test]
fn job_name_from_command_uses_basename() {
    assert_eq!(
        JobName::from_command(&os(&["/usr/bin/make", "-j4"])),
        s("make")
    );
    assert_eq!(JobName::from_command(&os(&["./run.sh"])), s("run.sh"));
    assert_eq!(JobName::from_command(&os(&["/"])), s("job"));
    assert_eq!(JobName::from_command(&os(&[])), s("job"));
}

#[test]
fn job_name_from_command_agrees_with_std_paths() {
    for path in [
        "", ".", "..", "/", "//", "/.", "./", "./.", "a", "a/", "a//", "a/.", "a/./", "a/..",
        "a/../", "./a", "../a", "/a/b", "a/./b", "a//b", "...", "a/...", "/usr/bin/make", ".hidden",
        "x/.hidden/.", "..a", "a..",
    ] {
        let expected = match std::path::Path::new(path).file_name() {
            Some(name) => s(name.to_str().unwrap()),
            None => s("job"),
        };
        assert_eq!(JobName::from_command(&os(&[path])), expected, "path: {path}");
    }
}

// -- Prefix -----------------------------------------------------------------

#[test]
fn prefix_accepts_plain_names() {
    assert!(Prefix::parse("bgrun").is_ok());
    assert!(Prefix::parse("my_jobs-2").is_ok());
}

#[test]
fn prefix_rejects_empty_and_metacharacters() {
    assert!(Prefix::parse("").is_err());
    assert!(Prefix::parse("bg[run]").is_err());
    assert!(Prefix::parse("bg*").is_err());
    assert!(Prefix::parse("bg run").is_err());
}

#[test]
fn prefix_rejection_names_the_value() {
    for raw in ["", "bg*", "bg.run", "préfixe"] {
        assert_eq!(
            Prefix::parse(raw),
            Err(ParseError::InvalidPrefix { value: raw.into() })
        );
    }
}

#[test]
fn prefix_keeps_its_text() {
    let p = Prefix::parse("my_jobs-2").unwrap();
    assert_eq!(p.as_str(), "my_jobs-2");
    assert_eq!(p.to_string(), "my_jobs-2");
    assert_eq!(p.clone(), p);
}

#[test]
fn prefix_builds_unit_and_glob() {
    let p = Prefix::parse("jobs").unwrap();
    assert_eq!(p.unit(&s("dl")), "jobs-dl.service");
    assert_eq!(p.glob(), "jobs-*.service");
}

#[test]
fn prefix_from_env_falls_back_to_bgrun() {
    assert_eq!(Prefix::from_env(None).unwrap().as_str(), "bgrun");
    assert_eq!(Prefix::from_env(Some("jobs")).unwrap().as_str(), "jobs");
    assert_eq!(
        Prefix::from_env(Some("")),
        Err(ParseError::InvalidPrefix { value: "".into() })
    );
}

#[test]
fn units_of_different_jobs_differ() {
    let p = Prefix::parse("bgrun").unwrap();
    let q = Prefix::parse("other").unwrap();
    assert_ne!(p.unit(&s("a")), p.unit(&s("b")));
    assert_ne!(p.unit(&s("a")), q.unit(&s("a")));
}

#[test]
fn units_match_the_glob_of_their_prefix() {
    let p = Prefix::parse("bgrun").unwrap();
    let glob = p.glob();
    let parts: Vec<&str> = glob.split('*').collect();
    assert_eq!(parts.len(), 2);
    let unit = p.unit(&s("a:b"));
    assert!(unit.starts_with(parts[0]));
    assert!(unit.ends_with(parts[1]));
}

// -- error wording ----------------------------------------------------------

#[test]
fn parse_errors_are_actionable() {
    assert_eq!(
        ParseError::UnknownCommand {
            command: "wat".into()
        }
        .to_string(),
        "unknown command 'wat' (run 'bgrun help' for usage)"
    );
    assert_eq!(
        ParseError::MissingSeparator.to_string(),
        "missing '--' before the command (usage: bgrun add [NAME] [opts] -- <cmd> [args])"
    );
    assert_eq!(
        ParseError::InvalidPrefix {
            value: "a[b".into()
        }
        .to_string(),
        "invalid BGRUN_PREFIX \"a[b\": use only ASCII letters, digits, '-' and '_'"
    );
}

#[test]
fn the_other_errors_are_worded_too() {
    assert_eq!(
        ParseError::MissingCommand.to_string(),
        "missing command after '--'"
    );
    assert_eq!(
        ParseError::MissingArgument {
            action: "status".into()
        }
        .to_string(),
        "status: missing job name"
    );
    assert_eq!(
        ParseError::UnexpectedArgument {
            action: "list".into()
        }
        .to_string(),
        "list: unexpected extra arguments"
    );
    assert_eq!(
        ParseError::InvalidPrefix {
            value: "a\"b\n".into()
        }
        .to_string(),
        "invalid BGRUN_PREFIX \"a\\\"b\\n\": use only ASCII letters, digits, '-' and '_'"
    );
    assert_eq!(
        ParseError::UnsupportedOverride {
            value: "--slice=x".into()
        }
        .to_string(),
        "cannot persist '--slice=x': only -p KEY=VALUE overrides can be written to a unit file"
    );
    assert_eq!(
        ParseError::NoUnitDirectory.to_string(),
        "no user unit directory: neither XDG_CONFIG_HOME nor HOME is set"
    );
}

#[test]
fn a_rejected_prefix_is_worded_around_what_is_shown() {
    assert_eq!(
        ParseError::invalid_prefix("<x>"),
        "invalid BGRUN_PREFIX <x>: use only ASCII letters, digits, '-' and '_'"
    );
}
