//! How an invocation is made up, and what a runner does with it.
use git_grove::error::ExitClass;
use git_grove::git::runner::{GitOutput, GitRunner, Invocation, RecordingFake};

fn bytes(text: &str) -> Vec<u8> {
    text.as_bytes().to_vec()
}

#[test]
fn builds_the_argument_vector_with_pins_first() {
    let inv = Invocation::new()
        .git_dir(b"/g/.bare")
        .args(&["worktree", "list"]);
    assert_eq!(
        inv.argv_for_test(),
        vec!["--git-dir=/g/.bare", "worktree", "list"]
    );
}

#[test]
fn includes_work_tree_when_set() {
    let inv = Invocation::new()
        .git_dir(b"/g/.bare/worktrees/main")
        .work_tree(b"/g/main")
        .args(&["status"]);
    assert_eq!(
        inv.argv_for_test(),
        vec![
            "--git-dir=/g/.bare/worktrees/main",
            "--work-tree=/g/main",
            "status"
        ]
    );
}

#[test]
fn per_child_environment_preserves_order_and_locale_pin_wins_last() {
    let invocation = Invocation::new()
        .env("GIT_OPTIONAL_LOCKS", "0")
        .env("LC_ALL", "caller")
        .c_locale();
    assert_eq!(
        invocation.environment_for_test(),
        vec![
            (bytes("GIT_OPTIONAL_LOCKS"), bytes("0")),
            (bytes("LC_ALL"), bytes("caller")),
            (bytes("LC_ALL"), bytes("C")),
            (bytes("LANGUAGE"), Vec::new()),
        ]
    );
}

#[test]
fn fake_records_calls_and_returns_queued_responses() {
    let mut fake = RecordingFake::new();
    fake.push_response(GitOutput {
        status: 0,
        stdout: b"ok".to_vec(),
        stderr: Vec::new(),
    });
    let out = fake.run(Invocation::new().args(&["version"])).unwrap();
    assert_eq!(out.stdout, b"ok");
    assert_eq!(fake.calls()[0].argv_for_test(), vec!["version"]);
}

#[test]
fn run_ok_returns_failure_with_git_stderr() {
    let mut fake = RecordingFake::new();
    fake.push_response(GitOutput {
        status: 129,
        stdout: Vec::new(),
        stderr: b"unknown option\n".to_vec(),
    });

    let error = fake.run_ok(Invocation::new().args(&["status"])).unwrap_err();

    assert_eq!(error.class, ExitClass::Failure);
    assert_eq!(error.message, "git status failed");
    assert_eq!(error.detail.as_deref(), Some("unknown option"));
}

#[test]
fn the_locale_pin_is_environment_not_argv() {
    let inv = Invocation::new().c_locale().args(&["push"]);

    assert_eq!(inv.argv_for_test(), vec!["push"]);
    assert!(inv.is_c_locale());
}

#[test]
fn a_plain_invocation_is_not_locale_pinned() {
    assert!(!Invocation::new().args(&["push"]).is_c_locale());
}

#[test]
fn run_classified_marks_the_invocation_and_otherwise_delegates_to_run() {
    let mut fake = RecordingFake::new();
    fake.push_response(GitOutput {
        status: 128,
        stdout: Vec::new(),
        stderr: b"fatal: the receiving end does not support --atomic push\n".to_vec(),
    });

    let out = fake
        .run_classified(Invocation::new().git_dir(b"/g/.bare").args(&["push"]))
        .unwrap();

    assert_eq!(out.status, 128);
    assert_eq!(
        out.stderr,
        b"fatal: the receiving end does not support --atomic push\n"
    );
    let call = &fake.calls()[0];
    assert!(call.is_c_locale());
    assert_eq!(call.argv_for_test(), vec!["--git-dir=/g/.bare", "push"]);
}




#[test]
fn fake_preserves_non_unicode_argument_bytes() {
    let mut fake = RecordingFake::new();
    let argument = b"branch-\xff".to_vec();

    fake.run(Invocation::new().arg(&argument)).unwrap();

    assert_eq!(
        fake.calls()[0].argv_os(),
        vec![b"branch-\xff".to_vec()]
    );
}
