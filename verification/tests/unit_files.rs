use bgrun::{unit_file, user_unit_dir, ExitCodes, JobName, Output, ParseError, RunSpec};

fn os(args: &[&str]) -> Vec<Vec<u8>> {
    args.iter().map(|a| a.as_bytes().to_vec()).collect()
}

fn render(opts: &[&str], command: &[&str]) -> Result<String, ParseError> {
    let spec = RunSpec {
        name: None,
        systemd_opts: os(opts),
        command: os(command),
        persist: true,
    };
    unit_file(&JobName::parse(b"build"), &spec).map(|body| String::from_utf8(body).unwrap())
}

#[test]
fn unit_file_is_exact() {
    assert_eq!(
        render(&["-p", "MemoryMax=1G", "-p", "Nice=5"], &["make", "-j8"]).unwrap(),
        "[Unit]\nDescription=bgrun job build\n\n[Service]\nExecStart=\"make\" \"-j8\"\n\
         MemoryMax=1G\nNice=5\n\n[Install]\nWantedBy=default.target\n"
    );
}

#[test]
fn words_are_quoted() {
    let body = render(&[], &["echo", "a b", "\"q\"", "c:\\d", "100%", "$HOME", "", "é"]).unwrap();
    assert!(
        body.contains(
            "ExecStart=\"echo\" \"a b\" \"\\\"q\\\"\" \"c:\\\\d\" \"100%%\" \"$HOME\" \"\" \"é\"\n"
        ),
        "{body}"
    );
}

#[test]
fn a_command_stays_on_one_line() {
    let body = render(&[], &["echo", "a\nExecStart=evil\t\u{7f}"]).unwrap();
    assert!(
        body.contains("ExecStart=\"echo\" \"a\\x0aExecStart=evil\\x09\\x7f\"\n"),
        "{body}"
    );
}

#[test]
fn different_commands_have_different_unit_files() {
    assert_ne!(render(&[], &["a b"]), render(&[], &["a", "b"]));
    assert_ne!(render(&[], &["a\" \"b"]), render(&[], &["a", "b"]));
    assert_ne!(render(&[], &["%"]), render(&[], &["%%"]));
}

#[test]
fn overrides_that_are_no_settings_are_refused() {
    for (opts, value) in [
        (vec!["--working-directory=/tmp"], "--working-directory=/tmp"),
        (vec!["-p", "A=1", "--slice=x"], "--slice=x"),
        (vec!["-p"], "-p"),
        (vec!["-p", "A=1", "-p"], "-p"),
        (vec!["-p", "novalue"], "novalue"),
        (vec!["-p", "=x"], "=x"),
        (vec!["-p", "#A=1"], "#A=1"),
        (vec!["-p", "A=1\nB=2"], "A=1\nB=2"),
        (vec!["-p", "A=1\rB=2"], "A=1\rB=2"),
        (vec!["-p", "A=1\\"], "A=1\\"),
    ] {
        assert_eq!(
            render(&opts, &["make"]),
            Err(ParseError::UnsupportedOverride {
                value: value.into()
            }),
            "{opts:?}"
        );
    }
}

#[test]
fn settings_may_be_empty_or_hold_equals_signs() {
    let body = render(&["-p", "Environment=", "-p", "Environment=A=b c"], &["make"]).unwrap();
    assert!(body.contains("\nEnvironment=\nEnvironment=A=b c\n"), "{body}");
}

#[test]
fn restart_can_be_persisted_with_other_settings() {
    let body = render(&["-p", "Restart=on-failure", "-p", "Nice=5"], &["make"]).unwrap();
    assert!(body.contains("\nRestart=on-failure\nNice=5\n"), "{body}");
}

#[test]
fn unit_directory_follows_the_environment() {
    let dir = |config: Option<&str>, home: Option<&str>| {
        let config = config.map(|c| c.as_bytes().to_vec());
        let home = home.map(|h| h.as_bytes().to_vec());
        user_unit_dir(&config, &home).map(|d| String::from_utf8(d).unwrap())
    };
    assert_eq!(
        dir(Some("/cfg"), Some("/home/x")),
        Some("/cfg/systemd/user".into())
    );
    assert_eq!(dir(Some("/cfg/"), None), Some("/cfg/systemd/user".into()));
    assert_eq!(
        dir(Some(""), Some("/home/x")),
        Some("/home/x/.config/systemd/user".into())
    );
    assert_eq!(
        dir(None, Some("/home/x")),
        Some("/home/x/.config/systemd/user".into())
    );
    assert_eq!(dir(None, Some("")), Some(".config/systemd/user".into()));
    assert_eq!(dir(Some(""), None), None);
    assert_eq!(dir(None, None), None);
}

#[test]
fn exit_codes_are_passed_on() {
    assert_eq!(ExitCodes::failure(), 1);
    assert_eq!(ExitCodes::usage(), 2);
    assert_eq!(ExitCodes::of_status(Some(0)), 0);
    assert_eq!(ExitCodes::of_status(Some(3)), 3);
    assert_eq!(ExitCodes::of_status(Some(255)), 255);
    assert_eq!(ExitCodes::of_status(Some(256)), 1);
    assert_eq!(ExitCodes::of_status(Some(-1)), 1);
    assert_eq!(ExitCodes::of_status(None), 1);
    let output = Output {
        status: Some(7),
        stdout: Vec::new(),
        stderr: Vec::new(),
    };
    assert_eq!(ExitCodes::of(&output), 7);
}

/// Reads the words of a quoted command line back, as systemd does.
fn read_back(line: &str) -> Vec<String> {
    let mut words = Vec::new();
    let mut chars = line.chars();
    loop {
        assert_eq!(chars.next(), Some('"'));
        let mut word = String::new();
        loop {
            match chars.next().unwrap() {
                '"' => break,
                '\\' => match chars.next().unwrap() {
                    'x' => {
                        let high = chars.next().unwrap().to_digit(16).unwrap();
                        let low = chars.next().unwrap().to_digit(16).unwrap();
                        word.push(char::from_u32(16 * high + low).unwrap());
                    }
                    c => word.push(c),
                },
                '%' => {
                    assert_eq!(chars.next(), Some('%'));
                    word.push('%');
                }
                c => word.push(c),
            }
        }
        words.push(word);
        match chars.next() {
            None => return words,
            Some(c) => assert_eq!(c, ' '),
        }
    }
}

#[test]
fn a_command_reads_back_as_it_was_given() {
    for command in [
        vec!["make"],
        vec!["echo", "", "a b", "\"", "\\", "%h", "\n\r\t", "\u{1}\u{7f}", "é", "--", "-p"],
        vec!["a\" \"b", "\\x41"],
    ] {
        let body = render(&[], &command).unwrap();
        let line = body
            .lines()
            .find_map(|line| line.strip_prefix("ExecStart="))
            .unwrap();
        assert_eq!(read_back(line), command);
    }
}
