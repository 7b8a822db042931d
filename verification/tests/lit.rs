use rlit::lit::{
    apply_check, command_output, rec_check_output, report_failure, CommandOutcome, LitError,
    LitTest, LitTester, LitTesterBuilder, LitTesterBuilderError,
};

fn dummy_lit_test() -> LitTester {
    LitTester {
        cmd: "".into(),
        args: vec![],
        checks: vec![],
    }
}

/// Stands in for running the tester's command: what `cargo help`, `cargo holp`
/// and a command that does not exist give.
fn run(lt: &LitTester) -> CommandOutcome {
    let first_arg = lt.args.first().map(|arg| arg.as_str());
    match (lt.cmd.as_str(), first_arg) {
        ("cargo", Some("help")) => CommandOutcome::Exited {
            success: true,
            code: Some(0),
            stdout: "Rust's package manager\n\nUsage: cargo [OPTIONS] [COMMAND]\n"
                .as_bytes()
                .to_vec(),
        },
        ("cargo", _) => CommandOutcome::Exited {
            success: false,
            code: Some(101),
            stdout: vec![],
        },
        _ => CommandOutcome::NotRun {
            os_error: "Os { code: 2, kind: NotFound, message: \"No such file or directory\" }"
                .into(),
        },
    }
}

fn cargo_help() -> CommandOutcome {
    run(&LitTester {
        cmd: "cargo".into(),
        args: vec!["help".into()],
        checks: vec![],
    })
}

fn cargo_holp() -> CommandOutcome {
    run(&LitTester {
        cmd: "cargo".into(),
        args: vec!["holp".into()],
        checks: vec![],
    })
}

fn command_does_not_exist() -> CommandOutcome {
    run(&LitTester {
        cmd: "command_does_not_exist".into(),
        args: vec![],
        checks: vec![],
    })
}

#[test]
fn run_command_success() -> Result<(), LitError> {
    let lt = LitTester {
        cmd: "cargo".into(),
        args: vec!["help".into()],
        checks: Vec::new(),
    };

    match command_output(run(&lt)) {
        Ok(_) => Ok(()),
        Err(err) => Err(err),
    }
}

#[test]
fn run_command_failed_no_success() -> Result<(), Vec<u8>> {
    let lt = LitTester {
        cmd: "cargo".into(),
        args: vec!["holp".into()],
        checks: Vec::new(),
    };

    match command_output(run(&lt)) {
        Ok(ok) => Err(ok),
        Err(_) => Ok(()),
    }
}

#[test]
fn run_command_failed_os_error() -> Result<(), Vec<u8>> {
    let lt = LitTester {
        cmd: "command_does_not_exist".into(),
        args: vec![],
        checks: Vec::new(),
    };

    match command_output(run(&lt)) {
        Ok(ok) => Err(ok),
        Err(_) => Ok(()),
    }
}

#[test]
fn command_output_is_what_was_written() {
    let outcome = CommandOutcome::Exited {
        success: true,
        code: Some(0),
        stdout: vec![104, 105],
    };
    assert_eq!(Ok(vec![104u8, 105u8]), command_output(outcome));
}

#[test]
fn command_output_reports_exit_code() {
    assert_eq!(
        Err(vec!["Command failed with exit code: Some(101)".to_string()]),
        command_output(cargo_holp())
    );
    let negative = CommandOutcome::Exited {
        success: false,
        code: Some(-1),
        stdout: vec![1, 2, 3],
    };
    assert_eq!(
        Err(vec!["Command failed with exit code: Some(-1)".to_string()]),
        command_output(negative)
    );
    let lowest = CommandOutcome::Exited {
        success: false,
        code: Some(i32::MIN),
        stdout: vec![],
    };
    assert_eq!(
        Err(vec![format!("Command failed with exit code: {:?}", Some(i32::MIN))]),
        command_output(lowest)
    );
    let zero = CommandOutcome::Exited {
        success: false,
        code: Some(0),
        stdout: vec![],
    };
    assert_eq!(
        Err(vec!["Command failed with exit code: Some(0)".to_string()]),
        command_output(zero)
    );
}

#[test]
fn command_output_reports_missing_exit_code() {
    let killed = CommandOutcome::Exited {
        success: false,
        code: None,
        stdout: vec![],
    };
    assert_eq!(
        Err(vec!["Command failed with exit code: None".to_string()]),
        command_output(killed)
    );
}

#[test]
fn command_output_reports_os_error() {
    assert_eq!(
        Err(vec![
            "OS Error running command: Os { code: 2, kind: NotFound, message: \"No such file or directory\" }"
                .to_string()
        ]),
        command_output(command_does_not_exist())
    );
}

#[test]
fn decode_stdout_valid_utf8() {
    assert_eq!(Ok(()), dummy_lit_test().check_output("Hello".as_bytes()));
}

#[test]
fn decode_stdout_invalid_utf8() {
    dummy_lit_test()
        .check_output(&[255u8])
        .expect_err("unexpected decode without error");
}

#[test]
fn decode_stdout_reports_decoder_error() {
    let bytes = [72u8, 105u8, 255u8];
    let decoder_error = std::str::from_utf8(&bytes).expect_err("bytes are no UTF-8");
    assert_eq!(
        Err(vec![format!(
            "Utf8 decoding stdout failed with {:?}",
            decoder_error
        )]),
        dummy_lit_test().check_output(&bytes)
    );
    assert_eq!(
        Err(vec![
            "Utf8 decoding stdout failed with Utf8Error { valid_up_to: 2, error_len: Some(1) }"
                .to_string()
        ]),
        dummy_lit_test().check_output(&bytes)
    );
}

#[test]
fn decode_stdout_then_check() {
    let lt = LitTester {
        cmd: "".into(),
        args: vec![],
        checks: vec!["é".into(), "ü".into()],
    };
    assert_eq!(Ok(()), lt.check_output("héllo wörld ü".as_bytes()));
    assert_eq!(
        Err(vec!["failed to find check string: ü".to_string()]),
        lt.check_output("héllo wörld".as_bytes())
    );
}

#[test]
fn check_decoded_takes_text_or_report() {
    let lt = LitTester {
        cmd: "".into(),
        args: vec![],
        checks: vec!["lo".into()],
    };
    assert_eq!(Ok(()), lt.check_decoded(Ok("hello")));
    assert_eq!(
        Err(vec!["failed to find check string: lo".to_string()]),
        lt.check_decoded(Ok("help"))
    );
    assert_eq!(
        Err(vec!["Utf8 decoding stdout failed with broken".to_string()]),
        lt.check_decoded(Err("broken".to_string()))
    );
}

#[test]
fn run_test_success() -> Result<(), LitError> {
    let lt = LitTester {
        cmd: "cargo".into(),
        args: vec!["help".into()],
        checks: vec![],
    };
    lt.run_test(run(&lt))
}

#[test]
fn run_test_failed() {
    let lt = LitTester {
        cmd: "cargo".into(),
        args: vec!["holp".into()],
        checks: vec![],
    };
    lt.run_test(run(&lt))
        .expect_err("expected LitTest to fail");
}

#[test]
fn run_test_checks_what_was_written() {
    let lt = LitTester {
        cmd: "cargo".into(),
        args: vec!["help".into()],
        checks: vec!["package manager".into(), "Usage".into(), "Usage".into()],
    };
    assert_eq!(
        Err(vec!["failed to find check string: Usage".to_string()]),
        lt.run_test(cargo_help())
    );
    let not_text = CommandOutcome::Exited {
        success: true,
        code: Some(0),
        stdout: vec![255],
    };
    assert_eq!(
        Err(vec![
            "Utf8 decoding stdout failed with Utf8Error { valid_up_to: 0, error_len: Some(1) }"
                .to_string()
        ]),
        lt.run_test(not_text)
    );
    assert_eq!(
        Err(vec!["Command failed with exit code: Some(101)".to_string()]),
        lt.run_test(cargo_holp())
    );
}

#[test]
fn test_success() {
    let lt = LitTester {
        cmd: "cargo".into(),
        args: vec!["help".into()],
        checks: vec![],
    };
    assert_eq!(Ok(()), lt.test(run(&lt)));
}

#[should_panic]
#[test]
fn test_fails() {
    let lt = LitTester {
        cmd: "cargo".into(),
        args: vec!["holp".into()],
        checks: vec![],
    };
    if lt.test(run(&lt)).is_err() {
        panic!("lit test failed");
    }
}

#[test]
fn test_failure_is_reported() {
    let lt = LitTester {
        cmd: "cargo".into(),
        args: vec!["help".into()],
        checks: vec!["al".into(), "Usage".into(), "el".into()],
    };
    assert_eq!(
        Err(
            "Lit test failed with:\n  failed to find check string: al\n  failed to find check string: el\n"
                .to_string()
        ),
        lt.test(cargo_help())
    );
    assert_eq!(
        Err("Lit test failed with:\n  Command failed with exit code: Some(101)\n".to_string()),
        lt.test(cargo_holp())
    );
}

#[test]
fn report_failure_lists_each_report() {
    assert_eq!("Lit test failed with:\n", report_failure(&vec![]));
    assert_eq!(
        "Lit test failed with:\n  one\n  two\n",
        report_failure(&vec!["one".to_string(), "two".to_string()])
    );
}

#[test]
fn apply_check_at_start() {
    let output = "Hello world";
    let check_str = "Hello";

    assert_eq!(
        " world",
        apply_check(check_str, output).expect("expect to find substring")
    );
}

#[test]
fn apply_check_mid() {
    let output = "Hello world";
    let check_str = "lo";

    assert_eq!(
        " world",
        apply_check(check_str, output).expect("expect to find substring")
    );
}

#[test]
fn apply_check_err() {
    let output = "Hello world";
    let check_str = "the";

    assert_eq!(
        "failed to find check string: the",
        apply_check(check_str, output).expect_err("expect apply_check to fail")
    );
}

#[test]
fn apply_check_first_of_several() {
    assert_eq!(Ok("cadabra abracadabra"), apply_check("bra", "abracadabra abracadabra"));
}

#[test]
fn apply_check_empty_check() {
    assert_eq!(Ok("Hello"), apply_check("", "Hello"));
    assert_eq!(Ok(""), apply_check("", ""));
}

#[test]
fn apply_check_at_end() {
    assert_eq!(Ok(""), apply_check("world", "Hello world"));
    assert_eq!(Ok(""), apply_check("Hello world", "Hello world"));
}

#[test]
fn apply_check_longer_than_output() {
    assert_eq!(
        Err("failed to find check string: Hello world!".to_string()),
        apply_check("Hello world!", "Hello world")
    );
    assert_eq!(
        Err("failed to find check string: a".to_string()),
        apply_check("a", "")
    );
}

#[test]
fn apply_check_beyond_ascii() {
    assert_eq!(Ok(" grün"), apply_check("ß", "groß grün"));
    assert_eq!(Ok("n"), apply_check("ü", "groß grün"));
    assert_eq!(Ok("b→c"), apply_check("→", "a→b→c"));
    assert_eq!(Ok("→c"), apply_check("a→b", "a→b→c"));
    assert_eq!(
        Err("failed to find check string: ö".to_string()),
        apply_check("ö", "groß grün")
    );
}

#[test]
fn rec_check_output_adds_to_reports() {
    let checks: Vec<String> = vec!["wo".into(), "lo".into(), "rld".into(), "x".into()];
    let mut errs: Vec<String> = vec!["earlier".into()];
    rec_check_output(&checks, "hello world", &mut errs);
    assert_eq!(
        vec![
            "earlier".to_string(),
            "failed to find check string: lo".to_string(),
            "failed to find check string: x".to_string()
        ],
        errs
    );
}

#[test]
fn rec_check_output_without_checks() {
    let mut errs: Vec<String> = vec![];
    rec_check_output(&[], "hello world", &mut errs);
    assert!(errs.is_empty());
}

#[test]
fn check_output_empty_checks() {
    let lt = LitTester {
        cmd: "".into(),
        args: vec![],
        checks: vec![],
    };

    assert_eq!(Ok(()), lt.check_output_stdout(""));
}

#[test]
fn check_output_first_check_fails() {
    let lt = LitTester {
        cmd: "".into(),
        args: vec![],
        checks: vec!["the".into()],
    };

    assert_eq!(
        Err(vec!["failed to find check string: the".into()]),
        lt.check_output_stdout("hello world")
    );
}

#[test]
fn check_output_one_check() {
    let lt = LitTester {
        cmd: "".into(),
        args: vec![],
        checks: vec!["lo".into()],
    };

    assert_eq!(Ok(()), lt.check_output_stdout("hello world"));
}

#[test]
fn check_output_two_checks() {
    let lt = LitTester {
        cmd: "".into(),
        args: vec![],
        checks: vec!["lo".into(), "orl".into()],
    };

    assert_eq!(Ok(()), lt.check_output_stdout("hello world"));
}

#[test]
fn check_output_two_checks_adjecent() {
    let lt = LitTester {
        cmd: "".into(),
        args: vec![],
        checks: vec!["lo".into(), " wo".into()],
    };

    assert_eq!(Ok(()), lt.check_output_stdout("hello world"));
}

#[test]
fn check_output_two_checks_wrong_order() {
    let lt = LitTester {
        cmd: "".into(),
        args: vec![],
        checks: vec!["wo".into(), "lo".into()],
    };

    assert_eq!(
        Err(vec!["failed to find check string: lo".into()]),
        lt.check_output_stdout("hello world")
    );
}

#[test]
fn check_output_two_checks_only_first_fails() {
    let lt = LitTester {
        cmd: "".into(),
        args: vec![],
        checks: vec!["al".into(), "lo".into()],
    };

    assert_eq!(
        Err(vec!["failed to find check string: al".into()]),
        lt.check_output_stdout("hello world")
    );
}

#[test]
fn check_output_three_checks_middle_fails() {
    let lt = LitTester {
        cmd: "".into(),
        args: vec![],
        checks: vec!["el".into(), "el".into(), "lo".into()],
    };

    assert_eq!(
        Err(vec!["failed to find check string: el".into()]),
        lt.check_output_stdout("hello world")
    );
}

#[test]
fn builder_pattern() {
    let lt = LitTest::default()
        .cmd("cargo")
        .build()
        .expect("LitTestBuilder failed");
    assert_eq!("cargo", lt.cmd);
    assert!(lt.args.is_empty());
    assert!(lt.checks.is_empty());
}

#[test]
fn builder_keeps_what_was_set() {
    let lt = LitTesterBuilder::default()
        .cmd(String::from("cargo"))
        .args(vec!["run".into(), "--quiet".into()])
        .checks(vec!["== test ==".into()])
        .build()
        .expect("LitTestBuilder failed");
    assert_eq!("cargo", lt.cmd);
    assert_eq!(vec!["run".to_string(), "--quiet".to_string()], lt.args);
    assert_eq!(vec!["== test ==".to_string()], lt.checks);
}

#[test]
fn builder_last_setting_counts() {
    let mut builder = LitTest::default();
    builder.cmd("cargo");
    builder.cmd("rustc");
    builder.args(vec!["a".into()]);
    builder.args(vec![]);
    let lt = builder.build().expect("LitTestBuilder failed");
    assert_eq!("rustc", lt.cmd);
    assert!(lt.args.is_empty());
}

#[test]
fn builder_without_command_fails() {
    let result = LitTest::default()
        .args(vec!["run".into()])
        .checks(vec!["x".into()])
        .build();
    match result {
        Err(LitTesterBuilderError::UninitializedField(name)) => assert_eq!("cmd", name),
        _ => panic!("expected the builder to fail"),
    }
}

#[test]
fn builder_test_judges_the_run() {
    let mut builder = LitTest::default();
    builder.cmd("cargo").checks(vec!["Usage".into(), "nothing".into()]);
    assert_eq!(
        Err("Lit test failed with:\n  failed to find check string: nothing\n".to_string()),
        builder.test(cargo_help())
    );
    builder.checks(vec!["Usage".into()]);
    assert_eq!(Ok(()), builder.test(cargo_help()));
}
