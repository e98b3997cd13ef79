//! Adopting an existing repository: what is refused before anything is touched.
use git_grove::commands::adopt::args::{AdoptAction, AdoptArgs};
use git_grove::commands::adopt::queries::{select_remote, snapshot, validate_single_worktree};
use git_grove::commands::init::post_mutation_layout_error;
use git_grove::error::{ExitClass, GroveError};
use git_grove::git::runner::{GitOutput, RecordingFake};

fn bytes(text: &str) -> Vec<u8> {
    text.as_bytes().to_vec()
}

#[test]
fn recovery_arguments_are_mutually_exclusive_with_fresh_decisions() {
    let mut args = AdoptArgs::fresh(None);
    args.action = AdoptAction::Continue;
    args.remote = Some(bytes("origin"));
    assert!(args.validate().is_err());
    args.remote = None;
    args.default_branch = Some(bytes("main"));
    assert!(args.validate().is_err());
}

#[test]
fn option_shaped_remote_and_branch_names_are_rejected_before_git() {
    for remote in [true, false] {
        let mut args = AdoptArgs::fresh(None);
        if remote {
            args.remote = Some(bytes("-remote"));
        } else {
            args.default_branch = Some(bytes("-branch"));
        }
        assert!(args.validate().is_err());
    }
}

#[test]
fn worktree_parser_requires_the_exact_single_root() {
    assert!(validate_single_worktree(b"worktree /repo\0HEAD a\0\0", b"/repo").is_ok());
    assert!(
        validate_single_worktree(b"worktree /repo\0\0worktree /other\0\0", b"/repo").is_err()
    );
}

#[test]
fn snapshots_pin_optional_locks_in_the_child_only() {
    let mut fake = RecordingFake::new();
    fake.push_response(GitOutput {
        status: 0,
        stdout: b"snapshot".to_vec(),
        stderr: vec![],
    });
    let proof = snapshot(&mut fake, b"/repo", &["status", "-z"]).unwrap();
    assert_eq!(proof.bytes, b"snapshot");
    assert_eq!(
        fake.calls()[0].environment_for_test(),
        vec![(bytes("GIT_OPTIONAL_LOCKS"), bytes("0"))]
    );
}

#[test]
fn a_remote_is_chosen_only_where_there_is_one_choice() {
    let two = vec![bytes("origin"), bytes("upstream")];
    assert_eq!(
        select_remote(&None, &vec![bytes("upstream")]).unwrap(),
        Some(bytes("upstream"))
    );
    assert_eq!(select_remote(&None, &Vec::new()).unwrap(), None);
    assert_eq!(
        select_remote(&Some(bytes("upstream")), &two).unwrap(),
        Some(bytes("upstream"))
    );
    assert!(select_remote(&Some(bytes("elsewhere")), &two).is_err());
}

#[test]
fn post_mutation_path_policy_errors_are_state_conflicts() {
    let error = post_mutation_layout_error(
        GroveError::usage("worktree path changed".to_string())
            .with_detail("foreign entry preserved".to_string()),
    );

    assert_eq!(error.class, ExitClass::NeedsDecision);
    assert_eq!(error.message, "worktree path changed");
    assert_eq!(error.detail.as_deref(), Some("foreign entry preserved"));
}
