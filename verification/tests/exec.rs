use herdr_updater::exec::{
    after_poll, have, lookup_program, resolve, spawn_error, ExecError, Output, Polled, Wait,
};

#[test]
fn output_drops_only_trailing_line_ends() {
    let output = Output { code: 0, stdout: " hi \r\n\n".into(), stderr: String::new() };
    assert!(output.ok());
    assert_eq!(output.trimmed(), " hi ");
}

#[test]
fn failed_calls_say_why() {
    assert_eq!(ExecError::Timeout { secs: 20 }.describe(), "timed out after 20s");
    assert_eq!(spawn_error("herdr", "No such file").describe(), "could not run: herdr: No such file");
}

#[test]
fn a_program_is_there_when_its_lookup_succeeded() {
    let found = Ok(Output { code: 0, stdout: "/bin/sh\n".into(), stderr: String::new() });
    let missing = Ok(Output { code: 1, stdout: String::new(), stderr: String::new() });
    assert!(have(&found));
    assert!(!have(&missing));
    assert!(!have(&Err(ExecError::Timeout { secs: 1 })));
    assert_eq!(lookup_program(true), "where");
    assert_eq!(lookup_program(false), "which");
}

#[test]
fn a_program_is_where_its_lookup_says_first() {
    let found = Ok(Output {
        code: 0,
        stdout: "/usr/bin/herdr\r\n/bin/herdr\n".into(),
        stderr: String::new(),
    });
    assert_eq!(resolve(&found).as_deref(), Some("/usr/bin/herdr"));
    let silent = Ok(Output { code: 0, stdout: String::new(), stderr: String::new() });
    assert_eq!(resolve(&silent), None);
    let failed = Ok(Output { code: 1, stdout: "/bin/herdr".into(), stderr: String::new() });
    assert_eq!(resolve(&failed), None);
}

#[test]
fn a_child_is_waited_for_until_its_deadline() {
    assert!(matches!(after_poll("git", Polled::Exited(Some(3)), 5), Wait::Done { code: 3 }));
    assert!(matches!(after_poll("git", Polled::Exited(None), 5), Wait::Done { code: -1 }));
    assert!(matches!(after_poll("git", Polled::Running { late: false }, 5), Wait::Again));
    assert!(matches!(
        after_poll("git", Polled::Running { late: true }, 5),
        Wait::Kill(ExecError::Timeout { secs: 5 })
    ));
    match after_poll("git", Polled::Lost("no child".into()), 5) {
        Wait::Fail(error) => assert_eq!(error.describe(), "could not run: git: no child"),
        other => panic!("unexpected {other:?}"),
    }
}
