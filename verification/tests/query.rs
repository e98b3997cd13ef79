//! Questions about branches, and where fetch refspecs map them.
use git_grove::error::ExitClass;
use git_grove::git::query::{
    branch_checked_out_at, local_branch_exists, map_refspec, remote_candidates,
};
use git_grove::git::runner::{GitOutput, RecordingFake};
use git_grove::grove::discover::Grove;

fn bytes(text: &str) -> Vec<u8> {
    text.as_bytes().to_vec()
}

fn output(status: i32, stdout: &[u8], stderr: &[u8]) -> GitOutput {
    GitOutput {
        status,
        stdout: stdout.to_vec(),
        stderr: stderr.to_vec(),
    }
}

fn grove() -> Grove {
    Grove { root: "/g".into() }
}

#[test]
fn maps_wildcard_and_narrowed_fetch_refspecs() {
    assert_eq!(
        map_refspec(
            b"+refs/heads/*:refs/remotes/origin/*",
            b"refs/heads/release/1"
        ),
        Some(b"refs/remotes/origin/release/1".to_vec())
    );
    assert_eq!(
        map_refspec(
            b"+refs/heads/main:refs/remotes/upstream/main",
            b"refs/heads/main"
        ),
        Some(b"refs/remotes/upstream/main".to_vec())
    );
    assert_eq!(
        map_refspec(
            b"+refs/heads/main:refs/remotes/upstream/main",
            b"refs/heads/other"
        ),
        None
    );
}

#[test]
fn resolves_candidates_through_each_fetch_refspec_and_sorts_them() {
    let mut fake = RecordingFake::new();
    fake.push_response(output(0, b"origin\nup/stream\n", b""));
    fake.push_response(output(0, b"+refs/heads/*:refs/remotes/origin/*\n", b""));
    fake.push_response(output(0, b"", b""));
    fake.push_response(output(
        0,
        b"+refs/heads/topic:refs/remotes/up/stream/topic\n",
        b"",
    ));
    fake.push_response(output(0, b"", b""));

    let candidates = remote_candidates(&mut fake, &grove(), b"topic").unwrap();

    assert_eq!(
        candidates,
        [
            bytes("origin/topic"),
            bytes("up/stream/topic")
        ]
    );
    let calls = fake.calls();
    assert_eq!(
        calls[3].argv_for_test(),
        [
            "--git-dir=/g/.bare",
            "config",
            "--get-all",
            "remote.up/stream.fetch"
        ]
    );
}

#[test]
fn does_not_treat_unexpected_query_status_as_absence() {
    let mut fake = RecordingFake::new();
    fake.push_response(output(7, b"", b"broken query"));

    let error = local_branch_exists(&mut fake, &grove(), b"main").unwrap_err();

    assert_eq!(error.class, ExitClass::Failure);
    assert!(error.message.contains("exit status 7"));
    assert_eq!(error.detail.as_deref(), Some(r"broken\x20query"));
}

#[test]
fn parses_checked_out_branch_and_path_as_raw_bytes() {
    let mut fake = RecordingFake::new();
    fake.push_response(output(
        0,
        b"worktree /g/work-\xfe\0HEAD deadbeef\0branch refs/heads/topic-\xff\0\0",
        b"",
    ));

    let branch = b"topic-\xff";
    let path = branch_checked_out_at(&mut fake, &grove(), branch).unwrap();

    assert_eq!(path, Some(b"/g/work-\xfe".to_vec()));
}
