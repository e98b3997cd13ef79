//! Which remotes are fetched, and how.
use git_grove::error::ExitClass;
use git_grove::git::fetch::FetchPlan;
use git_grove::git::runner::{GitOutput, RecordingFake};
use git_grove::git::worktrees::WorktreeRecord;
use git_grove::grove::discover::Grove;

fn bytes(text: &str) -> Vec<u8> {
    text.as_bytes().to_vec()
}

fn output(status: i32, stdout: &[u8], stderr: &[u8]) -> GitOutput {
    GitOutput {
        status,
        stdout: stdout.to_vec(),
        stderr: stderr.to_vec(),
    }
}

fn grove() -> Grove {
    Grove { root: "/g".into() }
}

fn record(branch: Option<&str>, detached: bool) -> WorktreeRecord {
    WorktreeRecord {
        path: "/g/wt".into(),
        head: Some(bytes("abc")),
        branch: branch.map(bytes),
        bare: false,
        detached,
        locked: None,
        prunable: None,
    }
}

fn unborn_record(branch: &str) -> WorktreeRecord {
    WorktreeRecord {
        path: "/g/wt".into(),
        head: Some("0".repeat(40).into_bytes()),
        branch: Some(bytes(branch)),
        bare: false,
        detached: false,
        locked: None,
        prunable: None,
    }
}

fn upstream_response(remote: &str, branch: &str) -> GitOutput {
    output(
        0,
        format!("refs/remotes/{remote}/{branch}\0{remote}/{branch}\0{remote}\0\n").as_bytes(),
        b"",
    )
}

#[test]
fn detached_and_unborn_worktrees_contribute_no_remote() {
    let mut fake = RecordingFake::new();
    let records = vec![
        record(None, true),
        record(None, false),
        unborn_record("main"),
    ];

    let plan = FetchPlan::from_records(&mut fake, &grove(), &records).unwrap();

    assert_eq!(plan.remotes, Vec::<Vec<u8>>::new());
    assert!(fake.calls().is_empty());
}

#[test]
fn a_local_only_branch_contributes_no_remote() {
    let mut fake = RecordingFake::new();
    fake.push_response(output(0, b"refs/heads/main\0main\0.\0\n", b""));
    let records = vec![record(Some("topic"), false)];

    let plan = FetchPlan::from_records(&mut fake, &grove(), &records).unwrap();

    assert_eq!(plan.remotes, Vec::<Vec<u8>>::new());
}

#[test]
fn duplicate_branches_query_the_upstream_once() {
    let mut fake = RecordingFake::new();
    fake.push_response(upstream_response("origin", "topic"));
    let records = vec![record(Some("topic"), false), record(Some("topic"), false)];

    let plan = FetchPlan::from_records(&mut fake, &grove(), &records).unwrap();

    assert_eq!(plan.remotes, vec![bytes("origin")]);
    assert_eq!(fake.calls().len(), 1);
}

#[test]
fn two_remotes_are_deduplicated_and_sorted_by_raw_bytes() {
    let mut fake = RecordingFake::new();
    fake.push_response(upstream_response("z-remote", "topic"));
    fake.push_response(upstream_response("a-remote", "other"));
    let records = vec![record(Some("topic"), false), record(Some("other"), false)];

    let plan = FetchPlan::from_records(&mut fake, &grove(), &records).unwrap();

    assert_eq!(
        plan.remotes,
        vec![bytes("a-remote"), bytes("z-remote")]
    );
}

#[test]
fn skip_fetch_all_is_not_consulted() {
    let mut fake = RecordingFake::new();
    fake.push_response(upstream_response("origin", "topic"));
    let records = vec![record(Some("topic"), false)];

    let plan = FetchPlan::from_records(&mut fake, &grove(), &records).unwrap();

    assert_eq!(plan.remotes, vec![bytes("origin")]);
    assert_eq!(
        fake.calls()[0].argv_for_test(),
        [
            "--git-dir=/g/.bare",
            "for-each-ref",
            "--format=%(upstream)%00%(upstream:short)%00%(upstream:remotename)%00",
            "--",
            "refs/heads/topic",
        ]
    );
}

#[test]
fn an_unexpected_upstream_query_status_is_a_failure() {
    let mut fake = RecordingFake::new();
    fake.push_response(output(7, b"", b"broken query"));
    let records = vec![record(Some("topic"), false)];

    let error = FetchPlan::from_records(&mut fake, &grove(), &records).unwrap_err();

    assert_eq!(error.class, ExitClass::Failure);
}

#[test]
fn an_empty_plan_performs_no_fetch() {
    let mut fake = RecordingFake::new();
    let plan = FetchPlan { remotes: vec![] };

    plan.execute(&mut fake, &grove()).unwrap();

    assert!(fake.calls().is_empty());
}

#[test]
fn execute_issues_one_exact_atomic_fetch_per_remote() {
    let mut fake = RecordingFake::new();
    let plan = FetchPlan {
        remotes: vec![bytes("origin")],
    };

    plan.execute(&mut fake, &grove()).unwrap();

    assert_eq!(
        fake.calls()[0].argv_for_test(),
        [
            "--git-dir=/g/.bare",
            "fetch",
            "--atomic",
            "--prune",
            "--no-prune-tags",
            "--no-recurse-submodules",
            "--no-auto-maintenance",
            "--no-write-commit-graph",
            "--",
            "origin",
        ]
    );
}

#[test]
fn execute_fetches_two_remotes_in_raw_byte_order_without_all_or_multiple() {
    let mut fake = RecordingFake::new();
    let plan = FetchPlan {
        remotes: vec![bytes("a-remote"), bytes("z-remote")],
    };

    plan.execute(&mut fake, &grove()).unwrap();

    let calls = fake.calls();
    assert_eq!(calls.len(), 2);
    assert_eq!(calls[0].argv_for_test().last().unwrap(), "a-remote");
    assert_eq!(calls[1].argv_for_test().last().unwrap(), "z-remote");
    for call in &calls {
        let argv = call.argv_for_test();
        assert!(!argv.contains(&"--all".to_string()));
        assert!(!argv.contains(&"--multiple".to_string()));
    }
}

#[test]
fn execute_stops_at_the_first_fetch_failure() {
    let mut fake = RecordingFake::new();
    fake.push_response(output(1, b"", b"fetch failed"));
    let plan = FetchPlan {
        remotes: vec![bytes("a-remote"), bytes("z-remote")],
    };

    let error = plan.execute(&mut fake, &grove()).unwrap_err();

    assert_eq!(error.class, ExitClass::Failure);
    assert_eq!(error.detail.as_deref(), Some(r"fetch\x20failed"));
    assert_eq!(fake.calls().len(), 1);
}
