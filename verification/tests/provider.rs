//! The commands run for a hosting provider, and the versions of them that are accepted.
use git_grove::error::ExitClass;
use git_grove::git::provider::{
    build_command, check_provider_version, Provider, ProviderCommand, ProviderOutput,
    ProviderRunner, RecordingFake,
};

fn bytes(text: &str) -> Vec<u8> {
    text.as_bytes().to_vec()
}

/// Whether a command sets or removes a variable.
fn named(command: &ProviderCommand, name: &str) -> bool {
    command.set.iter().any(|pair| pair.0 == name) || command.removed.contains(&name)
}

#[test]
fn github_pins_gh_host_and_removes_gh_repo() {
    let cmd = build_command(
        Provider::GitHub,
        &vec![bytes("repo")],
        b"/tmp/scratch",
    );
    assert_eq!(cmd.program, "gh");
    assert!(cmd.set.contains(&("GH_HOST", "github.com")));
    assert!(cmd.removed.contains(&"GH_REPO"));
    assert!(!named(&cmd, "GITLAB_HOST"));
}

#[test]
fn gitlab_pins_gitlab_host_and_leaves_gh_variables_alone() {
    let cmd = build_command(
        Provider::GitLab,
        &vec![bytes("repo")],
        b"/tmp/scratch",
    );
    assert_eq!(cmd.program, "glab");
    assert!(cmd.set.contains(&("GITLAB_HOST", "gitlab.com")));
    assert!(!named(&cmd, "GH_HOST"));
}

#[test]
fn gh_token_and_gitlab_token_are_never_touched() {
    for provider in [Provider::GitHub, Provider::GitLab] {
        let cmd = build_command(provider, &Vec::new(), b"/tmp/scratch");
            assert!(!named(&cmd, "GH_TOKEN"));
        assert!(!named(&cmd, "GITLAB_TOKEN"));
    }
}

#[test]
fn cwd_is_always_the_scratch_directory() {
    let cmd = build_command(Provider::GitHub, &Vec::new(), b"/tmp/scratch-xyz");
    assert_eq!(cmd.current_dir, b"/tmp/scratch-xyz");
}

#[test]
fn args_pass_through_unmodified() {
    let cmd = build_command(
        Provider::GitHub,
        &vec![bytes("repo"), bytes("create")],
        b"/tmp/scratch",
    );
    assert_eq!(cmd.args, vec![bytes("repo"), bytes("create")]);
}

#[test]
fn recording_fake_records_provider_and_argv_and_returns_queued_responses() {
    let mut fake = RecordingFake::new();
    fake.push_response(ProviderOutput {
        status: 0,
        stdout: b"ok".to_vec(),
        stderr: Vec::new(),
    });

    let out = fake
        .run(Provider::GitHub, vec![bytes("repo"), bytes("view")])
        .unwrap();

    assert_eq!(out.stdout, b"ok");
    assert_eq!(
        fake.calls()[0],
        (
            Provider::GitHub,
            vec![bytes("repo"), bytes("view")]
        )
    );
}



#[test]
fn version_gate_accepts_the_measured_minimum() {
    let mut fake = RecordingFake::new();
    fake.push_response(ProviderOutput {
        status: 0,
        stdout: b"gh version 2.97.0 (2026-07-31)\n".to_vec(),
        stderr: Vec::new(),
    });

    check_provider_version(&mut fake, Provider::GitHub).unwrap();
    assert_eq!(
        fake.calls()[0],
        (Provider::GitHub, vec![bytes("--version")])
    );
}

#[test]
fn version_gate_refuses_below_the_floor_with_usage() {
    let mut fake = RecordingFake::new();
    fake.push_response(ProviderOutput {
        status: 0,
        stdout: b"gh version 2.96.0 (2026-06-01)\n".to_vec(),
        stderr: Vec::new(),
    });

    let error = check_provider_version(&mut fake, Provider::GitHub).unwrap_err();

    assert_eq!(error.class, ExitClass::Usage);
}

#[test]
fn version_gate_accepts_the_measured_glab_minimum() {
    let mut fake = RecordingFake::new();
    fake.push_response(ProviderOutput {
        status: 0,
        stdout: b"glab 1.114.0 (4d7c6cda7)\n".to_vec(),
        stderr: Vec::new(),
    });

    check_provider_version(&mut fake, Provider::GitLab).unwrap();
}

#[test]
fn version_gate_refuses_glab_below_the_floor() {
    let mut fake = RecordingFake::new();
    fake.push_response(ProviderOutput {
        status: 0,
        stdout: b"glab 1.113.0 (deadbeef)\n".to_vec(),
        stderr: Vec::new(),
    });

    let error = check_provider_version(&mut fake, Provider::GitLab).unwrap_err();

    assert_eq!(error.class, ExitClass::Usage);
}

#[test]
fn version_gate_treats_unparsable_output_as_failure() {
    let mut fake = RecordingFake::new();
    fake.push_response(ProviderOutput {
        status: 0,
        stdout: b"not a version\n".to_vec(),
        stderr: Vec::new(),
    });

    let error = check_provider_version(&mut fake, Provider::GitHub).unwrap_err();

    assert_eq!(error.class, ExitClass::Failure);
}
