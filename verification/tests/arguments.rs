//! What is asked for, what is refused before anything is done, and what is written at the end.
use git_grove::cli::parse_create_target;
use git_grove::commands::add::AddMode;
use git_grove::commands::adopt::journal::{parse_state, Progress};
use git_grove::commands::adopt::recover::find_transaction;
use git_grove::commands::list::Row;
use git_grove::error::ExitClass;
use git_grove::grove::metadata::{require_supported, Metadata, PublishState, FORMAT_VERSION};
use git_grove::output::{porcelain, row_line};
use git_grove::policy::{gate, is_redirecting};

fn bytes(text: &str) -> Vec<u8> {
    text.as_bytes().to_vec()
}

fn list(words: &[&str]) -> Vec<Vec<u8>> {
    words.iter().map(|word| bytes(word)).collect()
}

// --------------------------------------------------------------------- arguments

#[test]
fn a_repository_to_create_is_an_owner_and_a_name() {
    let (owner, name) = parse_create_target(b"acme/\xffwidget").unwrap();
    assert_eq!(owner, b"acme");
    assert_eq!(name, b"\xffwidget");
    for wrong in ["", "acme", "/widget", "acme/", "/", "acme/group/widget", "acme//widget"] {
        let error = parse_create_target(wrong.as_bytes()).unwrap_err();
        assert_eq!(error.class, ExitClass::Usage, "{wrong}");
        assert_eq!(error.message, "--create needs <owner>/<name>");
    }
}

#[test]
fn an_added_worktree_has_a_branch_or_a_revision() {
    let mode = AddMode::asked(Some(bytes("topic")), None, Some(bytes("main")), None).unwrap();
    assert!(matches!(
        mode,
        AddMode::Branch { branch, dir: None, start: Some(start) }
            if branch == b"topic" && start == b"main"
    ));
    let mode = AddMode::asked(Some(bytes("review")), None, None, Some(bytes("v1"))).unwrap();
    assert!(matches!(
        mode,
        AddMode::Detached { revision, dir: Some(dir) } if revision == b"v1" && dir == b"review"
    ));
    let mode = AddMode::asked(None, None, None, Some(bytes("v1"))).unwrap();
    assert!(matches!(mode, AddMode::Detached { dir: None, .. }));
    let error = AddMode::asked(None, Some(bytes("dir")), None, None).unwrap_err();
    assert_eq!(error.message, "add needs a branch");
    let error = AddMode::asked(Some(bytes("a")), Some(bytes("b")), None, Some(bytes("v1")))
        .unwrap_err();
    assert_eq!(error.class, ExitClass::Usage);
    assert_eq!(error.message, "a detached worktree takes at most one directory");
}

// ------------------------------------------------------------------------- policy

#[test]
fn a_recent_git_in_a_plain_environment_is_accepted() {
    for version in ["git version 2.47.0\n", "git version 2.51.1.windows.1\n", "git version 3.0 (x)\n"] {
        let found = gate(version.as_bytes(), &list(&["HOME", "GIT_EDITOR"]), false).unwrap();
        assert!(found.is_empty(), "{version}");
    }
}

#[test]
fn an_old_git_is_refused_with_or_without_consent() {
    for ignoring in [false, true] {
        let error = gate(b"git version 2.46.9\n", &list(&["GIT_DIR"]), ignoring).unwrap_err();
        assert_eq!(error.class, ExitClass::Usage);
        assert_eq!(error.message, "git 2.46 is too old; git-grove needs 2.47");
        let error = gate(b"not git\n", &Vec::new(), ignoring).unwrap_err();
        assert_eq!(error.class, ExitClass::Failure);
        assert_eq!(error.message, "cannot read the version of git from \"not\\x20git\\n\"");
    }
}

#[test]
fn a_redirecting_environment_is_refused_or_reported() {
    let variables = list(&["GIT_WORK_TREE", "PATH", "GIT_CONFIG_COUNT", "GIT_PAGER"]);
    let error = gate(b"git version 2.47.0\n", &variables, false).unwrap_err();
    assert_eq!(error.class, ExitClass::Usage);
    assert_eq!(
        error.message,
        "the environment redirects git: GIT_WORK_TREE, GIT_CONFIG_COUNT"
    );
    assert_eq!(
        error.detail.as_deref(),
        Some("unset them, or pass --ignore-unsupported")
    );
    assert_eq!(
        gate(b"git version 2.47.0\n", &variables, true).unwrap(),
        list(&["GIT_WORK_TREE", "GIT_CONFIG_COUNT"])
    );
    for name in ["GIT_DIR", "GIT_INDEX_FILE", "GIT_OBJECT_DIRECTORY", "GIT_CONFIG_GLOBAL"] {
        assert!(is_redirecting(name.as_bytes()), "{name}");
    }
    assert!(!is_redirecting(b"GIT_DI"));
}

#[test]
fn a_record_of_a_later_release_is_refused() {
    let mut record = Metadata {
        version: Some(FORMAT_VERSION),
        default_branch: None,
        remote: None,
        publish_state: PublishState::Unpublished,
        publish_remote: None,
        publish_url: None,
        publish_provider: None,
        publish_owner: None,
        publish_name: None,
    };
    assert!(require_supported(&record, b"/g").is_ok());
    record.version = None;
    assert!(require_supported(&record, b"/g").is_ok());
    record.version = Some(FORMAT_VERSION + 1);
    let error = require_supported(&record, b"/g").unwrap_err();
    assert_eq!(error.class, ExitClass::Usage);
    assert_eq!(error.message, "/g was written by a newer git-grove");
}

// ------------------------------------------------------------------------ adoption

#[test]
fn a_stored_state_is_a_byte_for_each_phase_and_one_for_the_course() {
    let (done, progress) = parse_state(&[1, 1, 0, 0, 0, 0, 0, 1, 2]).unwrap();
    assert_eq!(done, [true, true, false, false, false, false, false, true]);
    assert_eq!(progress, Progress::Aborting);
    for (byte, course) in [
        (0, Progress::Forward),
        (1, Progress::Committed),
        (3, Progress::Aborted),
    ] {
        assert_eq!(parse_state(&[0, 0, 0, 0, 0, 0, 0, 0, byte]).unwrap().1, course);
    }
    assert!(parse_state(&[0; 8]).is_none());
    assert!(parse_state(&[0; 10]).is_none());
    assert!(parse_state(&[0, 0, 0, 0, 0, 0, 0, 0, 4]).is_none());
}

#[test]
fn one_transaction_is_recovered_and_several_are_not() {
    let names = list(&[".git", ".grove-adopt-00ff", "src", ".grove-adopt"]);
    assert_eq!(find_transaction(&names, b"/r").unwrap(), b".grove-adopt-00ff");
    let error = find_transaction(&list(&[".git"]), b"/r").unwrap_err();
    assert_eq!(error.class, ExitClass::Usage);
    assert_eq!(error.message, "/r has no interrupted adoption");
    let error =
        find_transaction(&list(&[".grove-adopt-a", ".grove-adopt-b"]), b"/r").unwrap_err();
    assert_eq!(error.class, ExitClass::NeedsDecision);
    assert_eq!(error.message, "/r has several adoption transactions");
}

// -------------------------------------------------------------------------- output

fn row(status: &'static str, branch: Option<&str>, counts: Option<(u64, u64)>) -> Row {
    Row {
        status,
        path: b"/g/a\xff b".to_vec(),
        branch: branch.map(bytes),
        ahead: counts.map(|(ahead, _)| ahead),
        behind: counts.map(|(_, behind)| behind),
    }
}

#[test]
fn a_listing_for_a_program_has_five_terminated_fields_in_a_row() {
    assert_eq!(porcelain(&Vec::new()), b"git-grove-list-v1\0");
    let rows = vec![
        row("clean", Some("topic"), Some((0, 12))),
        row("detached", None, None),
    ];
    let written = porcelain(&rows);
    assert_eq!(
        written,
        b"git-grove-list-v1\0clean\0/g/a\xff b\0topic\00\x0012\0detached\0/g/a\xff b\0\0\0\0"
    );
    let fields: Vec<&[u8]> = written.split(|byte| *byte == 0).collect();
    assert_eq!(fields.len(), 1 + 5 * rows.len() + 1);
    assert_eq!(fields[3], b"topic");
}

#[test]
fn a_row_for_a_reader_is_escaped() {
    assert_eq!(
        row_line(&row("behind", Some("topic"), Some((0, 12)))),
        "behind /g/a\\xFF\\x20b topic +0 -12"
    );
    assert_eq!(row_line(&row("detached", None, None)), "detached /g/a\\xFF\\x20b");
}
