//! Publishing: whether a rerun is accepted, what is inspected before anything is changed, how the
//! remote is configured and pushed to, and how a repository is created on a hosting provider.
use git_grove::commands::publish::{
    accept_rerun, check_publishable_repository, preflight, validate_remote_name, Preflight,
    Request, Resume,
};
use git_grove::commands::publish_create::{
    check_provider_auth, derive_and_publish, finish_repo_view, reconcile_create, repo_view,
    run_create, run_sequencing as sequence, CreateRequest, CreateResume, RepoView,
    ReportedRepository,
};
use git_grove::commands::publish_push::attempt_gh_default_branch_repair;
use git_grove::commands::publish_run::{heal_incomplete_creating_receipt, run};
use git_grove::error::{ExitClass, GroveError, Result};
use git_grove::git::fetch::FetchPlan;
use git_grove::git::provider::{
    Provider, ProviderOutput as PO, ProviderRunner, ProviderSession, RecordingFake as ProviderFake,
};
use git_grove::git::remote::PROBE_PREFIX;
use git_grove::git::runner::{GitOutput, RecordingFake};
use git_grove::grove::discover::Grove;
use git_grove::grove::metadata::{Metadata, PublishState};

fn bytes(text: &str) -> Vec<u8> {
    text.as_bytes().to_vec()
}

/// A provider whose program cannot be started.
struct AlwaysFails;

impl ProviderRunner for AlwaysFails {
    fn session(&self) -> ProviderSession {
        unreachable!("a model is never asked for at run time")
    }

    fn run(&mut self, _: Provider, _: Vec<Vec<u8>>) -> Result<PO> {
        Err(GroveError::failure(
            "cannot run gh: No such file or directory".to_string(),
        ))
    }
}

fn field(value: &serde_json::Value, name: &str) -> Vec<u8> {
    bytes(value[name].as_str().unwrap())
}

/// What `gh repo view` reports.
fn reported(report: &[u8]) -> std::result::Result<ReportedRepository, String> {
    let value: serde_json::Value =
        serde_json::from_slice(report).map_err(|error| error.to_string())?;
    Ok(ReportedRepository {
        https_url: field(&value, "url"),
        ssh_url: field(&value, "sshUrl"),
        is_empty: value["isEmpty"].as_bool().unwrap(),
        full_name: field(&value, "nameWithOwner"),
    })
}

fn run_sequencing<P: ProviderRunner>(
    git: &mut RecordingFake,
    provider: &mut P,
    grove: &Grove,
    request: &CreateRequest,
    flight: &Preflight,
    continuing: bool,
) -> Result<RepoView> {
    let report = sequence(git, provider, grove, request, flight, continuing)?;
    finish_repo_view(
        git,
        grove,
        request,
        repo_view(reported(&report).unwrap(), request),
    )
}

fn grove() -> Grove {
    Grove { root: "/g".into() }
}

const CONFIG: &str = "/g/.bare/config";
const BARE: &str = "--git-dir=/g/.bare";
const URL: &str = "https://example.invalid/r.git";
const OID: &str = "c3d445388f83a72043990aeaf22af9ba74aa4797";

fn out(status: i32, stdout: &[u8]) -> GitOutput {
    GitOutput {
        status,
        stdout: stdout.to_vec(),
        stderr: Vec::new(),
    }
}

fn values(values: &[&[u8]]) -> GitOutput {
    let mut stdout = Vec::new();
    for value in values {
        stdout.extend_from_slice(value);
        stdout.push(0);
    }
    out(0, &stdout)
}

fn absent() -> GitOutput {
    out(1, b"")
}

fn request() -> Request {
    Request {
        url: bytes(URL),
        remote: bytes("origin"),
        all_branches: false,
    }
}

fn metadata_of(
    state: PublishState,
    publish_remote: Option<&str>,
    publish_url: Option<&str>,
) -> Metadata {
    Metadata {
        version: Some(1),
        default_branch: Some(bytes("main")),
        remote: None,
        publish_state: state,
        publish_remote: publish_remote.map(bytes),
        publish_url: publish_url.map(bytes),
        publish_provider: None,
        publish_owner: None,
        publish_name: None,
    }
}

fn unpublished() -> Metadata {
    metadata_of(PublishState::Unpublished, None, None)
}


#[test]
fn unpublished_with_no_remote_is_a_fresh_publication() {
    assert_eq!(
        accept_rerun(&unpublished(), None, &request()).unwrap(),
        Resume::Fresh
    );
}

#[test]
fn unpublished_with_a_remote_already_at_that_name_is_a_decision() {
    let error = accept_rerun(
        &unpublished(),
        Some(bytes("https://other.invalid/r.git").as_slice()),
        &request(),
    )
    .unwrap_err();

    assert_eq!(error.class, ExitClass::NeedsDecision);
    assert!(error.message.contains("origin"));
    assert!(error
        .detail
        .unwrap()
        .contains("https://other.invalid/r.git"));
}

#[test]
fn unpublished_carrying_receipt_keys_is_a_failure() {
    let metadata = metadata_of(PublishState::Unpublished, Some("origin"), Some(URL));

    let error = accept_rerun(&metadata, None, &request()).unwrap_err();

    assert_eq!(error.class, ExitClass::Failure);
}

#[test]
fn publishing_with_a_matching_receipt_and_no_remote_resumes() {
    let metadata = metadata_of(PublishState::Publishing, Some("origin"), Some(URL));

    assert_eq!(
        accept_rerun(&metadata, None, &request()).unwrap(),
        Resume::ResumePublishing
    );
}

#[test]
fn publishing_with_a_matching_receipt_and_a_matching_remote_resumes() {
    let metadata = metadata_of(PublishState::Publishing, Some("origin"), Some(URL));

    assert_eq!(
        accept_rerun(&metadata, Some(bytes(URL).as_slice()), &request()).unwrap(),
        Resume::ResumePublishing
    );
}

#[test]
fn publishing_whose_remote_drifted_from_the_receipt_is_a_decision() {
    let metadata = metadata_of(PublishState::Publishing, Some("origin"), Some(URL));

    let error = accept_rerun(
        &metadata,
        Some(bytes("https://other.invalid/r.git").as_slice()),
        &request(),
    )
    .unwrap_err();

    assert_eq!(error.class, ExitClass::NeedsDecision);
    let detail = error.detail.unwrap();
    assert!(detail.contains(URL));
    assert!(detail.contains("https://other.invalid/r.git"));
}

#[test]
fn a_receipt_for_a_different_url_is_a_decision_naming_both() {
    let metadata = metadata_of(
        PublishState::Publishing,
        Some("origin"),
        Some("https://typo.invalid/r.git"),
    );

    let error = accept_rerun(&metadata, None, &request()).unwrap_err();

    assert_eq!(error.class, ExitClass::NeedsDecision);
    let detail = error.detail.unwrap();
    assert!(detail.contains("https://typo.invalid/r.git"));
    assert!(detail.contains(URL));
}

#[test]
fn a_receipt_for_a_different_remote_name_is_a_decision_naming_both() {
    let metadata = metadata_of(PublishState::Publishing, Some("upstream"), Some(URL));

    let error = accept_rerun(&metadata, None, &request()).unwrap_err();

    assert_eq!(error.class, ExitClass::NeedsDecision);
    let detail = error.detail.unwrap();
    assert!(detail.contains("upstream"));
    assert!(detail.contains("origin"));
}

#[test]
fn published_with_a_matching_receipt_and_remote_is_a_repair() {
    let metadata = metadata_of(PublishState::Published, Some("origin"), Some(URL));

    assert_eq!(
        accept_rerun(&metadata, Some(bytes(URL).as_slice()), &request()).unwrap(),
        Resume::RepairPublished
    );
}

#[test]
fn published_with_a_matching_receipt_but_no_remote_is_a_decision() {
    let metadata = metadata_of(PublishState::Published, Some("origin"), Some(URL));

    let error = accept_rerun(&metadata, None, &request()).unwrap_err();

    assert_eq!(error.class, ExitClass::NeedsDecision);
}

#[test]
fn published_with_a_matching_receipt_but_a_differing_remote_is_a_decision() {
    let metadata = metadata_of(PublishState::Published, Some("origin"), Some(URL));

    let error = accept_rerun(
        &metadata,
        Some(bytes("https://other.invalid/r.git").as_slice()),
        &request(),
    )
    .unwrap_err();

    assert_eq!(error.class, ExitClass::NeedsDecision);
}

#[test]
fn published_with_a_differing_receipt_is_a_decision() {
    let metadata = metadata_of(
        PublishState::Published,
        Some("origin"),
        Some("https://other.invalid/r.git"),
    );

    let error = accept_rerun(
        &metadata,
        Some(bytes("https://other.invalid/r.git").as_slice()),
        &request(),
    )
    .unwrap_err();

    assert_eq!(error.class, ExitClass::NeedsDecision);
}

#[test]
fn a_cloned_grove_is_refused_with_a_decision_not_a_failure() {
    let metadata = metadata_of(PublishState::Published, None, None);

    let error = accept_rerun(&metadata, Some(bytes(URL).as_slice()), &request()).unwrap_err();

    assert_eq!(error.class, ExitClass::NeedsDecision);
    assert!(error.message.contains("already published"));
}

#[test]
fn a_cloned_grove_whose_remote_was_removed_can_be_published_afresh() {
    let metadata = metadata_of(PublishState::Published, None, None);

    assert_eq!(
        accept_rerun(&metadata, None, &request()).unwrap(),
        Resume::Fresh
    );
}

#[test]
fn a_bare_publish_against_a_creating_grove_with_a_complete_receipt_is_a_decision() {
    let mut metadata = unpublished();
    metadata.publish_state = PublishState::Creating;
    metadata.publish_provider = Some(bytes("github"));
    metadata.publish_owner = Some(bytes("acme"));
    metadata.publish_name = Some(bytes("widgets"));
    metadata.publish_remote = Some(bytes("origin"));

    let error = accept_rerun(&metadata, None, &request()).unwrap_err();

    assert_eq!(error.class, ExitClass::NeedsDecision);
    assert!(error.message.contains("github"));
    let detail = error.detail.unwrap();
    assert!(detail.contains("acme"));
    assert!(detail.contains("widgets"));
    assert!(detail.contains("--create"));
}

#[test]
fn a_creating_grove_with_a_corrupted_classic_receipt_fails_cleanly_instead_of_panicking() {
    let mut metadata = unpublished();
    metadata.publish_state = PublishState::Creating;
    metadata.publish_provider = Some(bytes("github"));
    metadata.publish_owner = Some(bytes("acme"));
    metadata.publish_name = Some(bytes("widgets"));
    metadata.publish_remote = Some(bytes("origin"));
    metadata.publish_url = Some(bytes(URL));

    let error = accept_rerun(&metadata, None, &request()).unwrap_err();

    assert_eq!(error.class, ExitClass::Failure);
}


fn creating_metadata(
    provider: Option<&str>,
    owner: Option<&str>,
    name: Option<&str>,
    remote: Option<&str>,
) -> Metadata {
    let mut metadata = unpublished();
    metadata.publish_state = PublishState::Creating;
    metadata.publish_provider = provider.map(bytes);
    metadata.publish_owner = owner.map(bytes);
    metadata.publish_name = name.map(bytes);
    metadata.publish_remote = remote.map(bytes);
    metadata
}

#[test]
fn an_incomplete_creating_receipt_is_healed_before_accept_rerun_ever_sees_it() {
    for missing in 0..4 {
        let mut fields = [
            Some("github"),
            Some("acme"),
            Some("widgets"),
            Some("origin"),
        ];
        fields[missing] = None;
        let metadata = creating_metadata(fields[0], fields[1], fields[2], fields[3]);
        let mut fake = RecordingFake::new();
        for _ in 0..5 {
            fake.push_response(out(0, b""));
        }
        fake.push_response(absent()); // grove.version
        fake.push_response(absent()); // grove.defaultBranch
        fake.push_response(absent()); // grove.remote
        fake.push_response(out(0, b"unpublished\n")); // grove.publishState
        fake.push_response(absent()); // grove.publishRemote
        fake.push_response(absent()); // grove.publishUrl
        fake.push_response(absent()); // grove.publishProvider
        fake.push_response(absent()); // grove.publishOwner
        fake.push_response(absent()); // grove.publishName

        let healed = heal_incomplete_creating_receipt(&mut fake, &grove(), &metadata).unwrap();

        assert_eq!(
            healed.publish_state,
            PublishState::Unpublished,
            "missing {missing}"
        );
        let calls = calls_of(&fake);
        assert_eq!(calls.len(), 14, "missing {missing}");
        assert_eq!(
            calls[0],
            vec![
                "config",
                "--file",
                CONFIG,
                "--unset-all",
                "grove.publishProvider"
            ]
        );
        assert_eq!(
            calls[3],
            vec![
                "config",
                "--file",
                CONFIG,
                "--unset-all",
                "grove.publishRemote"
            ]
        );
        assert_eq!(
            calls[4],
            vec![
                "config",
                "--file",
                CONFIG,
                "grove.publishState",
                "unpublished"
            ]
        );
    }
}

#[test]
fn a_complete_creating_receipt_is_never_healed() {
    let metadata = creating_metadata(
        Some("github"),
        Some("acme"),
        Some("widgets"),
        Some("origin"),
    );
    let mut fake = RecordingFake::new();

    let healed = heal_incomplete_creating_receipt(&mut fake, &grove(), &metadata).unwrap();

    assert_eq!(healed, metadata);
    assert!(fake.calls().is_empty());
}

#[test]
fn a_creating_grove_with_a_forbidden_url_is_never_auto_healed() {
    for keys in [
        creating_metadata(
            Some("github"),
            Some("acme"),
            Some("widgets"),
            Some("origin"),
        ),
        creating_metadata(Some("github"), None, Some("widgets"), Some("origin")),
    ] {
        let mut metadata = keys;
        metadata.publish_url = Some(bytes(URL));
        let mut fake = RecordingFake::new();

        let healed = heal_incomplete_creating_receipt(&mut fake, &grove(), &metadata).unwrap();

        assert_eq!(healed, metadata);
        assert!(fake.calls().is_empty(), "no rollback may be attempted here");
    }
}

#[test]
fn a_non_creating_state_is_never_healed_even_with_stray_creating_keys() {
    let mut fake = RecordingFake::new();
    let metadata = unpublished();

    let healed = heal_incomplete_creating_receipt(&mut fake, &grove(), &metadata).unwrap();

    assert_eq!(healed, metadata);
    assert!(fake.calls().is_empty());
}


#[test]
fn a_dot_git_suffix_is_a_difference_not_the_same_url() {
    let metadata = metadata_of(
        PublishState::Publishing,
        Some("origin"),
        Some("https://example.invalid/r"),
    );

    let error = accept_rerun(&metadata, None, &request()).unwrap_err();

    assert_eq!(error.class, ExitClass::NeedsDecision);
}

#[test]
fn a_trailing_slash_is_a_difference_not_the_same_url() {
    let metadata = metadata_of(
        PublishState::Publishing,
        Some("origin"),
        Some("https://example.invalid/r.git/"),
    );

    let error = accept_rerun(&metadata, None, &request()).unwrap_err();

    assert_eq!(error.class, ExitClass::NeedsDecision);
}

#[test]
fn a_case_difference_is_a_difference() {
    let metadata = metadata_of(
        PublishState::Publishing,
        Some("origin"),
        Some("https://Example.invalid/r.git"),
    );

    let error = accept_rerun(&metadata, None, &request()).unwrap_err();

    assert_eq!(error.class, ExitClass::NeedsDecision);
}

#[test]
fn a_non_utf8_url_round_trips_through_the_matrix_by_bytes() {
    let mut raw = b"https://example.invalid/r-".to_vec();
    raw.push(0xff);
    let request = Request {
        url: raw.clone(),
        remote: bytes("origin"),
        all_branches: false,
    };
    let mut metadata = metadata_of(PublishState::Publishing, Some("origin"), None);
    metadata.publish_url = Some(raw);

    assert_eq!(
        accept_rerun(&metadata, None, &request).unwrap(),
        Resume::ResumePublishing
    );
}


fn script_preflight(fake: &mut RecordingFake) {
    fake.push_response(absent()); // remote.origin.url
    fake.push_response(out(0, b"")); // check-ref-format
    fake.push_response(out(0, b"refs/heads/main\n")); // has_any_commit
    fake.push_response(out(0, b"")); // show-ref --verify refs/heads/main
}

fn calls_of(fake: &RecordingFake) -> Vec<Vec<String>> {
    fake.calls()
        .iter()
        .map(|call| call.argv_for_test())
        .collect()
}

fn wrote_no_publish_state(fake: &RecordingFake) -> bool {
    !calls_of(fake)
        .iter()
        .any(|call| call.iter().any(|arg| arg == "grove.publishState"))
}

#[test]
fn an_empty_url_is_a_usage_error() {
    let mut fake = RecordingFake::new();
    fake.push_response(absent());
    let request = Request {
        url: Vec::new(),
        remote: bytes("origin"),
        all_branches: false,
    };

    let error = run(&mut fake, &grove(), &unpublished(), &request, None).unwrap_err();

    assert_eq!(error.class, ExitClass::Usage);
    assert!(wrote_no_publish_state(&fake));
}

#[test]
fn a_remote_name_git_rejects_is_a_usage_error_decided_by_git() {
    let mut fake = RecordingFake::new();
    fake.push_response(absent());
    fake.push_response(out(1, b"")); // check-ref-format refuses
    let request = Request {
        url: bytes(URL),
        remote: bytes("a b"),
        all_branches: false,
    };

    let error = run(&mut fake, &grove(), &unpublished(), &request, None).unwrap_err();

    assert_eq!(error.class, ExitClass::Usage);
    assert_eq!(
        calls_of(&fake)[1],
        ["check-ref-format", "refs/remotes/a b/HEAD"]
    );
    assert!(wrote_no_publish_state(&fake));
}

#[test]
fn a_two_level_remote_name_is_accepted() {
    let mut fake = RecordingFake::new();

    validate_remote_name(&mut fake, b"a/b").unwrap();

    assert_eq!(
        calls_of(&fake)[0],
        ["check-ref-format", "refs/remotes/a/b/HEAD"]
    );
}

#[test]
fn an_unborn_grove_is_a_decision_to_commit_first() {
    let mut fake = RecordingFake::new();
    fake.push_response(absent());
    fake.push_response(out(0, b""));
    fake.push_response(out(0, b"")); // has_any_commit: nothing

    let error = run(&mut fake, &grove(), &unpublished(), &request(), None).unwrap_err();

    assert_eq!(error.class, ExitClass::NeedsDecision);
    assert!(error.detail.unwrap().contains("commit"));
    assert!(wrote_no_publish_state(&fake));
}

#[test]
fn a_missing_default_branch_key_is_derived_from_the_bare_head() {
    let mut fake = RecordingFake::new();
    fake.push_response(out(0, b""));
    fake.push_response(out(0, b"refs/heads/trunk\n"));
    fake.push_response(out(0, b"refs/heads/trunk\n")); // symbolic-ref HEAD
    fake.push_response(out(0, b"")); // show-ref --verify
    let mut metadata = unpublished();
    metadata.default_branch = None;

    let flight = preflight(&mut fake, &grove(), &metadata, &request()).unwrap();

    assert_eq!(flight.default_branch, bytes("trunk"));
    assert_eq!(
        calls_of(&fake)[2],
        [BARE, "symbolic-ref", "--quiet", "HEAD"]
    );
}

#[test]
fn an_ambiguous_default_branch_is_a_decision() {
    for response in [
        out(1, b""),
        out(0, b"refs/tags/v1\n"),
        out(0, b"refs/heads/\n"),
    ] {
        let mut fake = RecordingFake::new();
        fake.push_response(out(0, b""));
        fake.push_response(out(0, b"refs/heads/main\n"));
        fake.push_response(response);
        let mut metadata = unpublished();
        metadata.default_branch = None;

        let error = preflight(&mut fake, &grove(), &metadata, &request()).unwrap_err();

        assert_eq!(error.class, ExitClass::NeedsDecision);
        assert!(error.message.contains("default branch"));
    }
}

#[test]
fn a_default_branch_that_does_not_exist_is_a_decision() {
    let mut fake = RecordingFake::new();
    fake.push_response(absent());
    fake.push_response(out(0, b""));
    fake.push_response(out(0, b"refs/heads/other\n"));
    fake.push_response(out(1, b"")); // show-ref --verify: no refs/heads/main

    let error = run(&mut fake, &grove(), &unpublished(), &request(), None).unwrap_err();

    assert_eq!(error.class, ExitClass::NeedsDecision);
    assert!(error.message.contains("main"));
    assert!(wrote_no_publish_state(&fake));
}

#[test]
fn check_publishable_repository_gives_the_same_refusals_as_preflight_with_no_url_at_all() {
    let mut fake = RecordingFake::new();
    fake.push_response(out(0, b"")); // has_any_commit: nothing

    let error = check_publishable_repository(&mut fake, &grove(), &unpublished()).unwrap_err();

    assert_eq!(error.class, ExitClass::NeedsDecision);
    assert!(error.detail.unwrap().contains("commit"));

    let mut fake = RecordingFake::new();
    fake.push_response(out(0, b"refs/heads/main\n"));
    fake.push_response(out(1, b"")); // show-ref --verify: no refs/heads/main

    let error = check_publishable_repository(&mut fake, &grove(), &unpublished()).unwrap_err();

    assert_eq!(error.class, ExitClass::NeedsDecision);
    assert!(error.message.contains("main"));
}

#[test]
fn check_publishable_repository_succeeds_on_a_grove_ready_to_publish() {
    let mut fake = RecordingFake::new();
    fake.push_response(out(0, b"refs/heads/main\n"));
    fake.push_response(out(0, b"")); // show-ref --verify refs/heads/main

    let flight = check_publishable_repository(&mut fake, &grove(), &unpublished()).unwrap();

    assert_eq!(flight.default_branch, bytes("main"));
}


fn advert_of(symref: &str, heads: &[(&str, &str)]) -> GitOutput {
    let mut stdout = format!("ref: {symref}\tHEAD\n{OID}\tHEAD\n");
    for (name, oid) in heads {
        stdout.push_str(&format!("{oid}\t{name}\n"));
    }
    out(0, stdout.as_bytes())
}

#[test]
fn an_empty_remote_is_never_probed() {
    let mut fake = RecordingFake::new();
    script_preflight(&mut fake);
    fake.push_response(out(0, b"")); // purge: no probe refs
    fake.push_response(out(0, b"")); // ls-remote: empty
    for _ in 0..3 {
        fake.push_response(out(0, b"")); // the three receipt writes
    }
    fake.push_response(out(0, b"")); // remote add
    fake.push_response(values(&[URL.as_bytes()]));
    fake.push_response(values(&[b"+refs/heads/*:refs/remotes/origin/*"]));
    fake.push_response(values(&[b"true"]));
    fake.push_response(values(&[b"origin"]));

    script_tail(&mut fake);

    run(&mut fake, &grove(), &unpublished(), &request(), None).unwrap();

    let calls = calls_of(&fake);
    assert!(!calls.iter().any(|call| call.contains(&"fetch".to_string())));
    assert!(!calls
        .iter()
        .any(|call| call.contains(&"merge-base".to_string())));
}

#[test]
fn a_remote_whose_head_names_another_branch_is_refused_before_any_probe() {
    let mut fake = RecordingFake::new();
    script_preflight(&mut fake);
    fake.push_response(out(0, b""));
    fake.push_response(advert_of(
        "refs/heads/master",
        &[("refs/heads/master", OID)],
    ));

    let error = run(&mut fake, &grove(), &unpublished(), &request(), None).unwrap_err();

    assert_eq!(error.class, ExitClass::NeedsDecision);
    assert!(error.detail.unwrap().contains("refs/heads/master"));
    let calls = calls_of(&fake);
    assert!(!calls.iter().any(|call| call.contains(&"fetch".to_string())));
    assert!(wrote_no_publish_state(&fake));
}

#[test]
fn a_remote_with_a_dangling_head_is_refused_before_any_probe() {
    let mut fake = RecordingFake::new();
    script_preflight(&mut fake);
    fake.push_response(out(0, b""));
    fake.push_response(out(0, format!("{OID}\trefs/heads/main\n").as_bytes()));

    let error = run(&mut fake, &grove(), &unpublished(), &request(), None).unwrap_err();

    assert_eq!(error.class, ExitClass::NeedsDecision);
    let calls = calls_of(&fake);
    assert!(!calls.iter().any(|call| call.contains(&"fetch".to_string())));
    assert!(wrote_no_publish_state(&fake));
}

#[test]
fn a_remote_not_advertising_the_default_branch_is_refused_before_any_probe() {
    let mut fake = RecordingFake::new();
    script_preflight(&mut fake);
    fake.push_response(out(0, b""));
    fake.push_response(advert_of("refs/heads/main", &[("refs/heads/other", OID)]));

    let error = run(&mut fake, &grove(), &unpublished(), &request(), None).unwrap_err();

    assert_eq!(error.class, ExitClass::NeedsDecision);
    let calls = calls_of(&fake);
    assert!(!calls.iter().any(|call| call.contains(&"fetch".to_string())));
    assert!(wrote_no_publish_state(&fake));
}

fn script_probe(fake: &mut RecordingFake, ancestry: i32) {
    fake.push_response(advert_of("refs/heads/main", &[("refs/heads/main", OID)]));
    fake.push_response(out(0, b"")); // probe fetch
    fake.push_response(out(ancestry, b"")); // merge-base --is-ancestor
    fake.push_response(out(0, b"")); // update-ref -d
}

fn probe_ref_deleted(fake: &RecordingFake) -> bool {
    calls_of(fake).iter().any(|call| {
        call.contains(&"update-ref".to_string())
            && call.iter().any(|arg| {
                arg.starts_with(PROBE_PREFIX)
            })
    })
}

#[test]
fn a_strictly_behind_remote_is_probed_and_accepted() {
    let mut fake = RecordingFake::new();
    script_preflight(&mut fake);
    fake.push_response(out(0, b""));
    script_probe(&mut fake, 0);
    for _ in 0..3 {
        fake.push_response(out(0, b""));
    }
    fake.push_response(out(0, b"")); // remote add
    fake.push_response(values(&[URL.as_bytes()]));
    fake.push_response(values(&[b"+refs/heads/*:refs/remotes/origin/*"]));
    fake.push_response(values(&[b"true"]));
    fake.push_response(values(&[b"origin"]));

    script_tail(&mut fake);

    run(&mut fake, &grove(), &unpublished(), &request(), None).unwrap();

    assert!(probe_ref_deleted(&fake));
}

#[test]
fn a_diverged_remote_is_refused_and_never_forced() {
    let mut fake = RecordingFake::new();
    script_preflight(&mut fake);
    fake.push_response(out(0, b""));
    script_probe(&mut fake, 1);

    let error = run(&mut fake, &grove(), &unpublished(), &request(), None).unwrap_err();

    assert_eq!(error.class, ExitClass::NeedsDecision);
    assert!(error.message.contains("diverged"));
    assert!(probe_ref_deleted(&fake));
    assert!(wrote_no_publish_state(&fake));
    assert!(!calls_of(&fake)
        .iter()
        .any(|call| call.iter().any(|arg| arg.starts_with("--force"))));
}

#[test]
fn a_vanished_probe_ref_is_not_a_divergence_verdict() {
    let mut fake = RecordingFake::new();
    script_preflight(&mut fake);
    fake.push_response(out(0, b""));
    script_probe(&mut fake, 128);

    let error = run(&mut fake, &grove(), &unpublished(), &request(), None).unwrap_err();

    assert_eq!(error.class, ExitClass::NeedsDecision);
    assert!(error.message.contains("vanished"));
    assert!(!error.message.contains("diverged"));
    assert!(error
        .detail
        .unwrap()
        .contains("another `git grove publish` may be running"));
    assert!(wrote_no_publish_state(&fake));
}

#[test]
fn a_failing_advertisement_leaves_the_grove_untouched() {
    let mut fake = RecordingFake::new();
    script_preflight(&mut fake);
    fake.push_response(out(0, b""));
    fake.push_response(GitOutput {
        status: 128,
        stdout: Vec::new(),
        stderr: b"fatal: '/srv/nope.git' does not appear to be a git repository\n".to_vec(),
    });

    let error = run(&mut fake, &grove(), &unpublished(), &request(), None).unwrap_err();

    assert_eq!(error.class, ExitClass::Failure);
    assert!(wrote_no_publish_state(&fake));
}

#[test]
fn leftover_probe_refs_are_purged_first_and_reported() {
    let mut fake = RecordingFake::new();
    script_preflight(&mut fake);
    fake.push_response(out(0, b"refs/grove/publish-probe/stale\n"));
    fake.push_response(out(0, b"")); // update-ref -d for the stale ref
    fake.push_response(out(0, b"")); // ls-remote: empty target
    for _ in 0..3 {
        fake.push_response(out(0, b""));
    }
    fake.push_response(out(0, b""));
    fake.push_response(values(&[URL.as_bytes()]));
    fake.push_response(values(&[b"+refs/heads/*:refs/remotes/origin/*"]));
    fake.push_response(values(&[b"true"]));
    fake.push_response(values(&[b"origin"]));

    script_tail(&mut fake);

    let report = run(&mut fake, &grove(), &unpublished(), &request(), None).unwrap();

    assert_eq!(
        report.diagnostics,
        vec!["removed a leftover publication probe ref refs/grove/publish-probe/stale"]
    );
    let calls = calls_of(&fake);
    let purge = calls
        .iter()
        .position(|call| {
            call.contains(&"for-each-ref".to_string())
                && call.iter().any(|arg| arg.contains("publish-probe"))
        })
        .unwrap();
    let advertise = calls
        .iter()
        .position(|call| call.contains(&"ls-remote".to_string()))
        .unwrap();
    assert!(purge < advertise);
}

fn script_tail(fake: &mut RecordingFake) {
    fake.push_response(out(0, b"")); // push --atomic
    fake.push_response(out(0, b"refs/heads/main\n")); // list_local_heads
    fake.push_response(out(0, b"")); // show-ref refs/remotes/origin/main
    fake.push_response(out(0, b"")); // branch.main.remote write
    fake.push_response(out(0, b"")); // branch.main.merge write
    fake.push_response(values(&[b"origin"]));
    fake.push_response(values(&[b"refs/heads/main"]));
    fake.push_response(out(0, b"")); // ref_exists refs/remotes/origin/main
    fake.push_response(advert_of("refs/heads/main", &[("refs/heads/main", OID)]));
    fake.push_response(out(0, b"")); // remote set-head --auto
    fake.push_response(out(0, b"refs/remotes/origin/main\n")); // symbolic-ref
    fake.push_response(out(0, format!("{OID}\n").as_bytes())); // show-ref --hash
    fake.push_response(out(0, format!("{OID}\n").as_bytes())); // rev-parse
    for _ in 0..3 {
        fake.push_response(out(0, b"")); // the published receipt
    }
}


#[test]
fn a_fresh_publication_adds_the_remote_after_dashes_and_verifies_every_write() {
    let mut fake = RecordingFake::new();
    script_preflight(&mut fake);
    fake.push_response(out(0, b""));
    fake.push_response(out(0, b"")); // ls-remote: empty
    for _ in 0..3 {
        fake.push_response(out(0, b""));
    }
    fake.push_response(out(0, b"")); // remote add
    fake.push_response(values(&[URL.as_bytes()]));
    fake.push_response(values(&[b"+refs/heads/*:refs/remotes/origin/*"]));
    fake.push_response(values(&[b"true"]));
    fake.push_response(values(&[b"origin"]));

    script_tail(&mut fake);

    run(&mut fake, &grove(), &unpublished(), &request(), None).unwrap();

    let calls = calls_of(&fake);
    assert!(calls.contains(&vec![
        BARE.to_string(),
        "remote".into(),
        "add".into(),
        "--".into(),
        "origin".into(),
        URL.into(),
    ]));
    assert!(calls.contains(&vec![
        "config".to_string(),
        "--null".into(),
        "--file".into(),
        CONFIG.into(),
        "--get-all".into(),
        "remote.origin.fetch".into(),
    ]));
    assert!(calls.contains(&vec![
        "config".to_string(),
        "--null".into(),
        "--file".into(),
        CONFIG.into(),
        "--get-all".into(),
        "worktree.guessRemote".into(),
    ]));
}

#[test]
fn the_receipt_is_written_immediately_before_the_first_mutation() {
    let mut fake = RecordingFake::new();
    script_preflight(&mut fake);
    fake.push_response(out(0, b""));
    fake.push_response(out(0, b""));
    for _ in 0..3 {
        fake.push_response(out(0, b""));
    }
    fake.push_response(out(0, b""));
    fake.push_response(values(&[URL.as_bytes()]));
    fake.push_response(values(&[b"+refs/heads/*:refs/remotes/origin/*"]));
    fake.push_response(values(&[b"true"]));
    fake.push_response(values(&[b"origin"]));

    script_tail(&mut fake);

    run(&mut fake, &grove(), &unpublished(), &request(), None).unwrap();

    let calls = calls_of(&fake);
    let state = calls
        .iter()
        .position(|call| call.contains(&"grove.publishState".to_string()))
        .unwrap();
    let add = calls
        .iter()
        .position(|call| call.contains(&"add".to_string()))
        .unwrap();
    let advertise = calls
        .iter()
        .position(|call| call.contains(&"ls-remote".to_string()))
        .unwrap();
    assert_eq!(
        &calls[state..state + 3],
        [
            vec![
                "config".to_string(),
                "--file".into(),
                CONFIG.into(),
                "grove.publishState".into(),
                "publishing".into()
            ],
            vec![
                "config".to_string(),
                "--file".into(),
                CONFIG.into(),
                "grove.publishRemote".into(),
                "origin".into()
            ],
            vec![
                "config".to_string(),
                "--file".into(),
                CONFIG.into(),
                "grove.publishUrl".into(),
                URL.into()
            ],
        ]
    );
    assert!(advertise < state, "the inspection precedes the receipt");
    assert_eq!(state + 3, add, "nothing separates the receipt from the add");
}

#[test]
fn a_resumed_publication_does_not_add_the_remote_again() {
    let mut fake = RecordingFake::new();
    fake.push_response(values(&[URL.as_bytes()])); // remote.origin.url is live
    fake.push_response(out(0, b""));
    fake.push_response(out(0, b"refs/heads/main\n"));
    fake.push_response(out(0, b""));
    fake.push_response(out(0, b""));
    fake.push_response(out(0, b"")); // ls-remote: empty
    for _ in 0..3 {
        fake.push_response(out(0, b""));
    }
    fake.push_response(values(&[URL.as_bytes()]));
    fake.push_response(values(&[b"+refs/heads/*:refs/remotes/origin/*"]));
    fake.push_response(values(&[b"true"]));
    fake.push_response(values(&[b"origin"]));
    let metadata = metadata_of(PublishState::Publishing, Some("origin"), Some(URL));

    script_tail(&mut fake);

    run(&mut fake, &grove(), &metadata, &request(), None).unwrap();

    assert!(!calls_of(&fake)
        .iter()
        .any(|call| call.contains(&"remote".to_string()) && call.contains(&"add".to_string())));
}

#[test]
fn a_narrowed_or_missing_fetch_refspec_is_rewritten_and_reverified() {
    let mut fake = RecordingFake::new();
    script_preflight(&mut fake);
    fake.push_response(out(0, b""));
    fake.push_response(out(0, b""));
    for _ in 0..3 {
        fake.push_response(out(0, b""));
    }
    fake.push_response(out(0, b"")); // remote add
    fake.push_response(values(&[URL.as_bytes()]));
    fake.push_response(values(&[b"+refs/heads/main:refs/remotes/origin/main"]));
    fake.push_response(out(0, b"")); // unset-all
    fake.push_response(out(0, b"")); // config --add
    fake.push_response(values(&[b"+refs/heads/*:refs/remotes/origin/*"]));
    fake.push_response(values(&[b"true"]));
    fake.push_response(values(&[b"origin"]));

    script_tail(&mut fake);

    run(&mut fake, &grove(), &unpublished(), &request(), None).unwrap();

    let calls = calls_of(&fake);
    assert!(calls.contains(&vec![
        "config".to_string(),
        "--file".into(),
        CONFIG.into(),
        "--unset-all".into(),
        "remote.origin.fetch".into(),
    ]));
    assert!(calls.contains(&vec![
        "config".to_string(),
        "--file".into(),
        CONFIG.into(),
        "--add".into(),
        "remote.origin.fetch".into(),
        "+refs/heads/*:refs/remotes/origin/*".into(),
    ]));
}

#[test]
fn a_remote_url_git_did_not_store_verbatim_is_a_failure() {
    let mut fake = RecordingFake::new();
    script_preflight(&mut fake);
    fake.push_response(out(0, b""));
    fake.push_response(out(0, b""));
    for _ in 0..3 {
        fake.push_response(out(0, b""));
    }
    fake.push_response(out(0, b"")); // remote add
    fake.push_response(values(&[b"https://example.invalid/r"])); // not verbatim

    let error = run(&mut fake, &grove(), &unpublished(), &request(), None).unwrap_err();

    assert_eq!(error.class, ExitClass::Failure);
    assert!(error.detail.unwrap().contains("https://example.invalid/r"));
}

#[test]
fn an_absent_guess_remote_key_is_written_and_verified() {
    let mut fake = RecordingFake::new();
    script_preflight(&mut fake);
    fake.push_response(out(0, b""));
    fake.push_response(out(0, b""));
    for _ in 0..3 {
        fake.push_response(out(0, b""));
    }
    fake.push_response(out(0, b""));
    fake.push_response(values(&[URL.as_bytes()]));
    fake.push_response(values(&[b"+refs/heads/*:refs/remotes/origin/*"]));
    fake.push_response(absent()); // worktree.guessRemote missing
    fake.push_response(out(0, b"")); // write it
    fake.push_response(values(&[b"true"])); // verify
    fake.push_response(absent()); // grove.remote missing
    fake.push_response(out(0, b""));
    fake.push_response(values(&[b"origin"]));

    script_tail(&mut fake);

    run(&mut fake, &grove(), &unpublished(), &request(), None).unwrap();

    let calls = calls_of(&fake);
    assert!(calls.contains(&vec![
        "config".to_string(),
        "--file".into(),
        CONFIG.into(),
        "worktree.guessRemote".into(),
        "true".into(),
    ]));
    assert!(calls.contains(&vec![
        "config".to_string(),
        "--file".into(),
        CONFIG.into(),
        "grove.remote".into(),
        "origin".into(),
    ]));
}

#[test]
fn a_url_that_never_round_trips_is_a_verification_failure_not_a_loop() {
    let mut fake = RecordingFake::new();
    script_preflight(&mut fake);
    fake.push_response(out(0, b""));
    fake.push_response(out(0, b""));
    for _ in 0..3 {
        fake.push_response(out(0, b""));
    }
    fake.push_response(out(0, b""));
    fake.push_response(values(&[URL.as_bytes()]));
    fake.push_response(values(&[b"+refs/heads/*:refs/remotes/origin/*"]));
    fake.push_response(absent());
    fake.push_response(out(0, b""));
    fake.push_response(absent()); // still absent after the write

    let error = run(&mut fake, &grove(), &unpublished(), &request(), None).unwrap_err();

    assert_eq!(error.class, ExitClass::Failure);
    assert!(error.message.contains("worktree.guessRemote"));
}


fn script_through_configuration(fake: &mut RecordingFake) {
    script_preflight(fake);
    fake.push_response(out(0, b"")); // purge
    fake.push_response(out(0, b"")); // ls-remote: empty target
    for _ in 0..3 {
        fake.push_response(out(0, b"")); // publishing receipt
    }
    fake.push_response(out(0, b"")); // remote add
    fake.push_response(values(&[URL.as_bytes()]));
    fake.push_response(values(&[b"+refs/heads/*:refs/remotes/origin/*"]));
    fake.push_response(values(&[b"true"]));
    fake.push_response(values(&[b"origin"]));
}

fn push_call(fake: &RecordingFake) -> Vec<String> {
    calls_of(fake)
        .into_iter()
        .find(|call| call.contains(&"push".to_string()))
        .expect("a push must have been issued")
}

#[test]
fn the_default_push_is_one_explicit_non_forced_atomic_refspec() {
    let mut fake = RecordingFake::new();
    script_through_configuration(&mut fake);
    script_tail(&mut fake);

    run(&mut fake, &grove(), &unpublished(), &request(), None).unwrap();

    assert_eq!(
        push_call(&fake),
        [
            BARE,
            "push",
            "--atomic",
            "--",
            "origin",
            "refs/heads/main:refs/heads/main",
        ]
    );
}

#[test]
fn no_publication_invocation_ever_forces_or_sets_upstream() {
    let mut fake = RecordingFake::new();
    script_through_configuration(&mut fake);
    script_tail(&mut fake);

    run(&mut fake, &grove(), &unpublished(), &request(), None).unwrap();

    for call in calls_of(&fake) {
        for forbidden in [
            "--force",
            "--force-with-lease",
            "--set-upstream",
            "-u",
            "--all",
            "--mirror",
            "--tags",
        ] {
            assert!(
                !call.iter().any(|arg| arg == forbidden),
                "{forbidden} appeared in {call:?}"
            );
        }
    }
}

#[test]
fn the_push_child_is_locale_pinned_so_its_stderr_can_be_classified() {
    let mut fake = RecordingFake::new();
    script_through_configuration(&mut fake);
    script_tail(&mut fake);

    run(&mut fake, &grove(), &unpublished(), &request(), None).unwrap();

    let pinned: Vec<bool> = fake
        .calls()
        .iter()
        .filter(|call| call.argv_for_test().contains(&"push".to_string()))
        .map(|call| call.is_c_locale())
        .collect();
    assert_eq!(pinned, vec![true]);
}

#[test]
fn all_branches_pushes_every_local_head_in_one_atomic_push() {
    let mut fake = RecordingFake::new();
    script_preflight(&mut fake);
    fake.push_response(out(0, b""));
    fake.push_response(out(0, b""));
    for _ in 0..3 {
        fake.push_response(out(0, b""));
    }
    fake.push_response(out(0, b""));
    fake.push_response(values(&[URL.as_bytes()]));
    fake.push_response(values(&[b"+refs/heads/*:refs/remotes/origin/*"]));
    fake.push_response(values(&[b"true"]));
    fake.push_response(values(&[b"origin"]));
    fake.push_response(out(
        0,
        b"refs/heads/main\nrefs/heads/topic/x\nrefs/heads/z\n",
    ));
    fake.push_response(out(0, b"")); // the single push
    fake.push_response(out(0, b"refs/heads/main\n")); // configure_upstreams
    fake.push_response(out(0, b""));
    fake.push_response(out(0, b""));
    fake.push_response(out(0, b""));
    fake.push_response(values(&[b"origin"]));
    fake.push_response(values(&[b"refs/heads/main"]));
    fake.push_response(out(0, b"")); // verify_tracking_ref: ref_exists
    fake.push_response(advert_of("refs/heads/main", &[("refs/heads/main", OID)])); // server_head_matches
    fake.push_response(out(0, b"")); // remote set-head --auto
    fake.push_response(out(0, b"refs/remotes/origin/main\n")); // remote_head_branch: symbolic-ref
    fake.push_response(out(0, format!("{OID}\n").as_bytes())); // remote_head_branch: show-ref --hash
    fake.push_response(out(0, format!("{OID}\n").as_bytes())); // remote_head_branch: rev-parse
    for _ in 0..3 {
        fake.push_response(out(0, b"")); // the published receipt
    }
    let request = Request {
        url: bytes(URL),
        remote: bytes("origin"),
        all_branches: true,
    };

    let report = run(&mut fake, &grove(), &unpublished(), &request, None).unwrap();
    assert_eq!(report.class, ExitClass::Success);

    let pushes: Vec<Vec<String>> = calls_of(&fake)
        .into_iter()
        .filter(|call| call.contains(&"push".to_string()))
        .collect();
    assert_eq!(pushes.len(), 1, "one atomic push, never one per branch");
    assert_eq!(
        pushes[0],
        [
            BARE,
            "push",
            "--atomic",
            "--",
            "origin",
            "refs/heads/main:refs/heads/main",
            "refs/heads/topic/x:refs/heads/topic/x",
            "refs/heads/z:refs/heads/z",
        ]
    );
}

#[test]
fn a_target_that_does_not_advertise_atomic_push_is_a_named_decision() {
    let mut fake = RecordingFake::new();
    script_through_configuration(&mut fake);
    fake.push_response(GitOutput {
        status: 128,
        stdout: Vec::new(),
        stderr: b"fatal: the receiving end does not support --atomic push\nfatal: the remote end hung up unexpectedly\n".to_vec(),
    });

    let error = run(&mut fake, &grove(), &unpublished(), &request(), None).unwrap_err();

    assert_eq!(error.class, ExitClass::NeedsDecision);
    assert!(error.message.contains("atomic push"));
    assert!(error.detail.unwrap().contains("nothing was published"));
}

#[test]
fn any_other_push_failure_is_a_failure_that_leaves_the_state_publishing() {
    let mut fake = RecordingFake::new();
    script_through_configuration(&mut fake);
    fake.push_response(GitOutput {
        status: 1,
        stdout: Vec::new(),
        stderr: b"remote: rejected by policy\nerror: failed to push some refs\n".to_vec(),
    });

    let error = run(&mut fake, &grove(), &unpublished(), &request(), None).unwrap_err();

    assert_eq!(error.class, ExitClass::Failure);
    assert!(error.detail.unwrap().contains("rejected"));
    let states: Vec<String> = calls_of(&fake)
        .into_iter()
        .filter(|call| call.contains(&"grove.publishState".to_string()))
        .map(|call| call.last().unwrap().clone())
        .collect();
    assert_eq!(states, vec!["publishing"], "the state is never advanced");
}


#[test]
fn upstreams_are_written_explicitly_and_the_happy_path_never_fetches() {
    let mut fake = RecordingFake::new();
    script_through_configuration(&mut fake);
    script_tail(&mut fake);

    run(&mut fake, &grove(), &unpublished(), &request(), None).unwrap();

    let calls = calls_of(&fake);
    assert!(calls.contains(&vec![
        "config".to_string(),
        "--file".into(),
        CONFIG.into(),
        "branch.main.remote".into(),
        "origin".into(),
    ]));
    assert!(calls.contains(&vec![
        "config".to_string(),
        "--file".into(),
        CONFIG.into(),
        "branch.main.merge".into(),
        "refs/heads/main".into(),
    ]));
    assert!(
        !calls.iter().any(|call| call.contains(&"fetch".to_string())),
        "the push creates the tracking ref itself; no fetch is needed"
    );
}

#[test]
fn set_head_passes_auto_before_the_dashes_that_guard_the_remote_name() {
    let mut fake = RecordingFake::new();
    script_through_configuration(&mut fake);
    script_tail(&mut fake);

    run(&mut fake, &grove(), &unpublished(), &request(), None).unwrap();

    assert!(calls_of(&fake).contains(&vec![
        BARE.to_string(),
        "remote".into(),
        "set-head".into(),
        "--auto".into(),
        "--".into(),
        "origin".into(),
    ]));
}

#[test]
fn an_absent_tracking_ref_is_fetched_as_an_explicit_fallback() {
    let mut fake = RecordingFake::new();
    script_through_configuration(&mut fake);
    fake.push_response(out(0, b"")); // push
    fake.push_response(out(0, b"refs/heads/main\n"));
    fake.push_response(out(0, b""));
    fake.push_response(out(0, b""));
    fake.push_response(out(0, b""));
    fake.push_response(values(&[b"origin"]));
    fake.push_response(values(&[b"refs/heads/main"]));
    fake.push_response(out(1, b"")); // tracking ref absent
    fake.push_response(out(0, b"")); // fallback fetch
    fake.push_response(out(0, b"")); // present now
    fake.push_response(advert_of("refs/heads/main", &[("refs/heads/main", OID)]));
    fake.push_response(out(0, b"")); // set-head
    fake.push_response(out(0, b"refs/remotes/origin/main\n"));
    fake.push_response(out(0, format!("{OID}\n").as_bytes()));
    fake.push_response(out(0, format!("{OID}\n").as_bytes()));
    for _ in 0..3 {
        fake.push_response(out(0, b""));
    }

    run(&mut fake, &grove(), &unpublished(), &request(), None).unwrap();

    let fetches: Vec<Vec<String>> = calls_of(&fake)
        .into_iter()
        .filter(|call| call.contains(&"fetch".to_string()))
        .collect();
    assert_eq!(fetches.len(), 1);
    assert_eq!(fetches[0], sync_fetch_argv());
}

fn sync_fetch_argv() -> Vec<String> {
    let mut fake = RecordingFake::new();
    FetchPlan {
        remotes: vec![bytes("origin")],
    }
    .execute(&mut fake, &grove())
    .unwrap();
    fake.calls()[0].argv_for_test()
}

#[test]
fn an_unconfirmed_server_head_keeps_publishing_and_asks_for_a_decision() {
    let mut fake = RecordingFake::new();
    script_through_configuration(&mut fake);
    fake.push_response(out(0, b"")); // push
    fake.push_response(out(0, b"refs/heads/main\n"));
    fake.push_response(out(0, b""));
    fake.push_response(out(0, b""));
    fake.push_response(out(0, b""));
    fake.push_response(values(&[b"origin"]));
    fake.push_response(values(&[b"refs/heads/main"]));
    fake.push_response(out(0, b"")); // tracking ref exists
    fake.push_response(out(0, format!("{OID}\trefs/heads/main\n").as_bytes()));

    let report = run(&mut fake, &grove(), &unpublished(), &request(), None).unwrap();

    assert_eq!(report.class, ExitClass::NeedsDecision);
    assert!(report.lines[0].contains("published main"));
    assert!(report
        .diagnostics
        .last()
        .unwrap()
        .contains("set it by hand"));
    let states: Vec<String> = calls_of(&fake)
        .into_iter()
        .filter(|call| call.contains(&"grove.publishState".to_string()))
        .map(|call| call.last().unwrap().clone())
        .collect();
    assert_eq!(
        states,
        vec!["publishing"],
        "the state is kept at publishing, not advanced and not rolled back"
    );
}

#[test]
fn a_server_head_naming_another_branch_is_a_decision_even_when_set_head_would_succeed() {
    let mut fake = RecordingFake::new();
    script_preflight(&mut fake);
    fake.push_response(out(0, b"")); // purge
    fake.push_response(out(0, b"")); // ls-remote: the target is empty
    for _ in 0..3 {
        fake.push_response(out(0, b""));
    }
    fake.push_response(out(0, b"")); // remote add
    fake.push_response(values(&[URL.as_bytes()]));
    fake.push_response(values(&[b"+refs/heads/*:refs/remotes/origin/*"]));
    fake.push_response(values(&[b"true"]));
    fake.push_response(values(&[b"origin"]));
    fake.push_response(out(0, b"refs/heads/main\nrefs/heads/master\n"));
    fake.push_response(out(0, b"")); // the single push
    fake.push_response(out(0, b"refs/heads/main\n")); // configure_upstreams
    fake.push_response(out(0, b""));
    fake.push_response(out(0, b""));
    fake.push_response(out(0, b""));
    fake.push_response(values(&[b"origin"]));
    fake.push_response(values(&[b"refs/heads/main"]));
    fake.push_response(out(0, b"")); // tracking ref exists
    fake.push_response(advert_of(
        "refs/heads/master",
        &[("refs/heads/main", OID), ("refs/heads/master", OID)],
    ));
    let request = Request {
        url: bytes(URL),
        remote: bytes("origin"),
        all_branches: true,
    };

    let report = run(&mut fake, &grove(), &unpublished(), &request, None).unwrap();

    assert_eq!(report.class, ExitClass::NeedsDecision);
    assert!(report
        .diagnostics
        .last()
        .unwrap()
        .contains("set it by hand"));
    assert!(
        !calls_of(&fake)
            .iter()
            .any(|call| call.contains(&"set-head".to_string())),
        "there is nothing sane to point the local remote HEAD at"
    );
    let states: Vec<String> = calls_of(&fake)
        .into_iter()
        .filter(|call| call.contains(&"grove.publishState".to_string()))
        .map(|call| call.last().unwrap().clone())
        .collect();
    assert_eq!(states, vec!["publishing"]);
}

#[test]
fn a_confirmed_server_head_advances_the_receipt_to_published() {
    let mut fake = RecordingFake::new();
    script_through_configuration(&mut fake);
    script_tail(&mut fake);

    let report = run(&mut fake, &grove(), &unpublished(), &request(), None).unwrap();

    assert_eq!(report.class, ExitClass::Success);
    let states: Vec<String> = calls_of(&fake)
        .into_iter()
        .filter(|call| call.contains(&"grove.publishState".to_string()))
        .map(|call| call.last().unwrap().clone())
        .collect();
    assert_eq!(states, vec!["publishing", "published"]);
}


fn published_metadata() -> Metadata {
    metadata_of(PublishState::Published, Some("origin"), Some(URL))
}

fn script_repair_preamble(fake: &mut RecordingFake) {
    fake.push_response(values(&[URL.as_bytes()])); // live remote url
    fake.push_response(out(0, b"")); // check-ref-format
    fake.push_response(out(0, b"refs/heads/main\n")); // has_any_commit
    fake.push_response(out(0, b"")); // show-ref refs/heads/main
    fake.push_response(out(0, b"")); // the sync-shaped fetch
    fake.push_response(values(&[URL.as_bytes()])); // remote.origin.url
    fake.push_response(values(&[b"+refs/heads/*:refs/remotes/origin/*"]));
    fake.push_response(values(&[b"true"])); // worktree.guessRemote
    fake.push_response(values(&[b"origin"])); // grove.remote
    fake.push_response(out(0, b"refs/heads/main\n")); // configure_upstreams
    fake.push_response(out(0, b""));
    fake.push_response(out(0, b""));
    fake.push_response(out(0, b""));
    fake.push_response(values(&[b"origin"]));
    fake.push_response(values(&[b"refs/heads/main"]));
}

fn script_repair_tail(fake: &mut RecordingFake) {
    fake.push_response(out(0, b"")); // tracking ref exists
    fake.push_response(advert_of("refs/heads/main", &[("refs/heads/main", OID)]));
    fake.push_response(out(0, b"")); // set-head
    fake.push_response(out(0, b"refs/remotes/origin/main\n"));
    fake.push_response(out(0, format!("{OID}\n").as_bytes()));
    fake.push_response(out(0, format!("{OID}\n").as_bytes()));
}

#[test]
fn a_repair_run_fetches_exactly_as_sync_does_and_uses_no_probe_ref() {
    let mut fake = RecordingFake::new();
    script_repair_preamble(&mut fake);
    fake.push_response(out(0, b"")); // is_ancestor: tracking is an ancestor
    fake.push_response(out(0, format!("{OID}\n").as_bytes())); // remote oid
    fake.push_response(out(0, format!("{OID}\n").as_bytes())); // local oid
    script_repair_tail(&mut fake);

    let report = run(&mut fake, &grove(), &published_metadata(), &request(), None).unwrap();

    assert_eq!(report.class, ExitClass::Success);
    assert!(report.lines[0].contains("already at"));
    let calls = calls_of(&fake);
    let fetches: Vec<&Vec<String>> = calls
        .iter()
        .filter(|call| call.contains(&"fetch".to_string()))
        .collect();
    assert_eq!(fetches.len(), 1);
    assert_eq!(*fetches[0], sync_fetch_argv());
    assert!(
        !calls
            .iter()
            .any(|call| call.iter().any(|arg| arg.contains("publish-probe"))),
        "the repair path compares against the tracking ref, never a probe ref"
    );
    assert!(!calls.iter().any(|call| call.contains(&"push".to_string())));
}

#[test]
fn a_repair_run_pushes_when_the_target_is_strictly_behind() {
    let mut fake = RecordingFake::new();
    script_repair_preamble(&mut fake);
    fake.push_response(out(0, b"")); // is_ancestor: Ancestor
    fake.push_response(out(0, format!("{OID}\n").as_bytes())); // remote oid
    fake.push_response(out(0, b"aaaaaaa\n")); // local oid differs
    fake.push_response(out(0, b"")); // push
    script_repair_tail(&mut fake);

    let report = run(&mut fake, &grove(), &published_metadata(), &request(), None).unwrap();

    assert_eq!(report.class, ExitClass::Success);
    assert!(report.lines[0].contains("advanced main"));
    assert_eq!(
        push_call(&fake),
        [
            BARE,
            "push",
            "--atomic",
            "--",
            "origin",
            "refs/heads/main:refs/heads/main",
        ]
    );
}

#[test]
fn a_repair_run_refuses_when_the_target_is_ahead_or_diverged() {
    let mut fake = RecordingFake::new();
    script_repair_preamble(&mut fake);
    fake.push_response(out(1, b"")); // is_ancestor: NotAncestor

    let error = run(&mut fake, &grove(), &published_metadata(), &request(), None).unwrap_err();

    assert_eq!(error.class, ExitClass::NeedsDecision);
    assert!(error.detail.unwrap().contains("nothing was pushed"));
    assert!(!calls_of(&fake)
        .iter()
        .any(|call| call.contains(&"push".to_string())));
}

#[test]
fn a_repair_run_whose_tracking_ref_vanished_is_a_failure() {
    let mut fake = RecordingFake::new();
    script_repair_preamble(&mut fake);
    fake.push_response(out(128, b"")); // is_ancestor: MissingObject

    let error = run(&mut fake, &grove(), &published_metadata(), &request(), None).unwrap_err();

    assert_eq!(error.class, ExitClass::Failure);
    assert!(error.message.contains("vanished"));
}

#[test]
fn a_repair_run_demotes_to_publishing_when_the_server_head_no_longer_matches() {
    let mut fake = RecordingFake::new();
    script_repair_preamble(&mut fake);
    fake.push_response(out(0, b""));
    fake.push_response(out(0, format!("{OID}\n").as_bytes()));
    fake.push_response(out(0, format!("{OID}\n").as_bytes()));
    fake.push_response(out(0, b"")); // tracking ref exists
    fake.push_response(advert_of("refs/heads/master", &[("refs/heads/main", OID)]));
    for _ in 0..3 {
        fake.push_response(out(0, b""));
    }

    let report = run(&mut fake, &grove(), &published_metadata(), &request(), None).unwrap();

    assert_eq!(report.class, ExitClass::NeedsDecision);
    let states: Vec<String> = calls_of(&fake)
        .into_iter()
        .filter(|call| call.contains(&"grove.publishState".to_string()))
        .map(|call| call.last().unwrap().clone())
        .collect();
    assert_eq!(states, vec!["publishing"]);
    let receipts: Vec<Vec<String>> = calls_of(&fake)
        .into_iter()
        .filter(|call| {
            call.iter()
                .any(|arg| arg == "grove.publishUrl" || arg == "grove.publishRemote")
        })
        .collect();
    assert_eq!(
        receipts.last().unwrap().last().unwrap(),
        URL,
        "the receipt itself is untouched, so the matrix still resumes"
    );
}


const OWNER: &str = "acme";
const NAME: &str = "widgets";
const HTTPS_URL: &str = "https://github.com/acme/widgets.git";
const SSH_URL: &str = "git@github.com:acme/widgets.git";

/// Creates the requested repository, which is to fail.
fn create(git: &mut RecordingFake, provider: &mut ProviderFake, metadata: &Metadata) -> GroveError {
    let read = |report: Vec<u8>| reported(&report);
    run_create(git, provider, &grove(), metadata, &create_request(), read, None).unwrap_err()
}

fn create_request() -> CreateRequest {
    CreateRequest {
        owner: bytes(OWNER),
        name: bytes(NAME),
        provider: Provider::GitHub,
        public: false,
        remote: bytes("origin"),
        all_branches: false,
    }
}

fn po(status: i32, stdout: &[u8]) -> PO {
    PO {
        status,
        stdout: stdout.to_vec(),
        stderr: Vec::new(),
    }
}

fn po_err(status: i32, stderr: &[u8]) -> PO {
    PO {
        status,
        stdout: Vec::new(),
        stderr: stderr.to_vec(),
    }
}

fn gh_view_json(name_with_owner: &str, is_empty: bool) -> Vec<u8> {
    format!(
        r#"{{"url":"{HTTPS_URL}","sshUrl":"{SSH_URL}","isEmpty":{is_empty},"nameWithOwner":"{name_with_owner}"}}"#
    )
    .into_bytes()
}


#[test]
fn reconcile_create_is_fresh_when_nothing_is_recorded_at_all() {
    let metadata = unpublished();

    assert_eq!(
        reconcile_create(&metadata, None, &create_request()).unwrap(),
        CreateResume::Fresh
    );
}

#[test]
fn reconcile_create_is_fresh_for_a_published_grove_with_no_receipt_and_no_live_remote() {
    let metadata = metadata_of(PublishState::Published, None, None);

    assert_eq!(
        reconcile_create(&metadata, None, &create_request()).unwrap(),
        CreateResume::Fresh
    );
}

#[test]
fn reconcile_create_refuses_a_stray_remote_on_an_unpublished_grove() {
    let metadata = unpublished();

    let error = reconcile_create(
        &metadata,
        Some(bytes("https://other.invalid/r.git").as_slice()),
        &create_request(),
    )
    .unwrap_err();

    assert_eq!(error.class, ExitClass::NeedsDecision);
}

#[test]
fn reconcile_create_refuses_a_grove_already_publishing_or_published_with_no_creating_receipt() {
    for state in [PublishState::Publishing, PublishState::Published] {
        let metadata = metadata_of(state, Some("origin"), Some(URL));

        let error = reconcile_create(&metadata, Some(bytes(URL).as_slice()), &create_request())
            .unwrap_err();

        assert_eq!(error.class, ExitClass::NeedsDecision);
        assert!(error.detail.unwrap().contains("--create"));
    }
}

fn creating_receipt_metadata(
    owner: &str,
    name: &str,
    remote: &str,
    provider: &str,
) -> Metadata {
    creating_metadata(Some(provider), Some(owner), Some(name), Some(remote))
}

#[test]
fn reconcile_create_continues_a_matching_creating_grove() {
    let metadata = creating_receipt_metadata(OWNER, NAME, "origin", "github");

    assert_eq!(
        reconcile_create(&metadata, None, &create_request()).unwrap(),
        CreateResume::Continue
    );
}

#[test]
fn reconcile_create_resumes_existing_for_a_matching_publishing_grove() {
    let mut metadata = creating_receipt_metadata(OWNER, NAME, "origin", "github");
    metadata.publish_state = PublishState::Publishing;
    metadata.publish_remote = Some(bytes("origin"));
    metadata.publish_url = Some(bytes(URL));

    let resume = reconcile_create(&metadata, None, &create_request()).unwrap();

    assert_eq!(
        resume,
        CreateResume::ResumeExisting(Request {
            url: bytes(URL),
            remote: bytes("origin"),
            all_branches: false,
        })
    );
}

#[test]
fn reconcile_create_refuses_a_mismatched_owner_or_name() {
    let metadata = creating_receipt_metadata("other-owner", NAME, "origin", "github");

    let error = reconcile_create(&metadata, None, &create_request()).unwrap_err();

    assert_eq!(error.class, ExitClass::NeedsDecision);
    assert!(error.detail.unwrap().contains("other-owner"));
}

#[test]
fn reconcile_create_refuses_a_mismatched_remote_specifically() {
    let metadata = creating_receipt_metadata(OWNER, NAME, "upstream", "github");

    let error = reconcile_create(&metadata, None, &create_request()).unwrap_err();

    assert_eq!(error.class, ExitClass::NeedsDecision);
    let detail = error.detail.unwrap();
    assert!(detail.contains("upstream"));
    assert!(detail.contains("origin"));
}


#[test]
fn fresh_sequencing_succeeds_when_create_returns_zero() {
    let mut git = RecordingFake::new();
    let mut provider = ProviderFake::new();
    provider.push_response(po(0, b"")); // create
    provider.push_response(po(0, &gh_view_json("acme/widgets", true))); // repo view

    let view = run_sequencing(
        &mut git,
        &mut provider,
        &grove(),
        &create_request(),
        &Preflight {
            default_branch: bytes("main"),
        },
        false,
    )
    .unwrap();

    assert_eq!(view.https_url, bytes(HTTPS_URL));
    assert!(view.is_empty);
    assert!(
        git.calls().is_empty(),
        "no git call happens during sequencing itself"
    );
}

#[test]
fn fresh_sequencing_rolls_back_and_surfaces_the_original_failure_when_repo_view_confirms_missing(
) {
    let mut git = RecordingFake::new();
    let mut provider = ProviderFake::new();
    provider.push_response(po_err(1, b"some generic failure")); // create
    provider.push_response(po(1, b"")); // repo view: missing

    let error = run_sequencing(
        &mut git,
        &mut provider,
        &grove(),
        &create_request(),
        &flight(),
        false,
    )
    .unwrap_err();

    assert_eq!(error.class, ExitClass::Failure);
    assert!(error.detail.unwrap().contains("some generic failure"));
    assert_eq!(
        calls_of(&git)[0],
        vec![
            "config",
            "--file",
            CONFIG,
            "--unset-all",
            "grove.publishProvider"
        ]
    );
}

#[test]
fn fresh_sequencing_maps_ghs_exit_4_to_a_decision() {
    let mut git = RecordingFake::new();
    let mut provider = ProviderFake::new();
    provider.push_response(po(4, b"authentication required")); // create
    provider.push_response(po(1, b"")); // repo view: missing

    let error = run_sequencing(
        &mut git,
        &mut provider,
        &grove(),
        &create_request(),
        &flight(),
        false,
    )
    .unwrap_err();

    assert_eq!(error.class, ExitClass::NeedsDecision);
}

#[test]
fn fresh_sequencing_surfaces_a_create_failures_stdout_when_stderr_is_empty() {
    let mut git = RecordingFake::new();
    let mut provider = ProviderFake::new();
    provider.push_response(po(1, b"rate limit exceeded")); // create: stdout only
    provider.push_response(po(1, b"")); // repo view: missing

    let error = run_sequencing(
        &mut git,
        &mut provider,
        &grove(),
        &create_request(),
        &flight(),
        false,
    )
    .unwrap_err();

    assert_eq!(error.class, ExitClass::Failure);
    assert_eq!(error.detail.as_deref(), Some("rate limit exceeded"));
}

#[test]
fn fresh_sequencing_treats_create_failure_as_success_when_repo_view_confirms_it_exists_and_matches(
) {
    let mut git = RecordingFake::new();
    let mut provider = ProviderFake::new();
    provider.push_response(po(1, b"rate limited")); // create fails
    provider.push_response(po(0, &gh_view_json("acme/widgets", false))); // exists, matches, non-empty

    let view = run_sequencing(
        &mut git,
        &mut provider,
        &grove(),
        &create_request(),
        &flight(),
        false,
    )
    .unwrap();

    assert!(!view.is_empty);
    assert!(
        git.calls().is_empty(),
        "the original failure is not surfaced"
    );
}

#[test]
fn fresh_sequencing_refuses_an_unrelated_existing_repository_and_rolls_back() {
    let mut git = RecordingFake::new();
    let mut provider = ProviderFake::new();
    provider.push_response(po(1, b"name already exists"));
    provider.push_response(po(0, &gh_view_json("someone-else/widgets", true)));

    let error = run_sequencing(
        &mut git,
        &mut provider,
        &grove(),
        &create_request(),
        &flight(),
        false,
    )
    .unwrap_err();

    assert_eq!(error.class, ExitClass::NeedsDecision);
    assert!(error.message.contains("unrelated"));
    assert_eq!(
        calls_of(&git)[0],
        vec![
            "config",
            "--file",
            CONFIG,
            "--unset-all",
            "grove.publishProvider"
        ]
    );
}

#[test]
fn continuation_sequencing_never_calls_create_when_repo_view_already_confirms_it() {
    for is_empty in [true, false] {
        let mut git = RecordingFake::new();
        let mut provider = ProviderFake::new();
        provider.push_response(po(0, &gh_view_json("acme/widgets", is_empty)));

        run_sequencing(
            &mut git,
            &mut provider,
            &grove(),
            &create_request(),
            &flight(),
            true,
        )
        .unwrap();

        assert_eq!(
            provider.calls().len(),
            1,
            "create must never be called on this path"
        );
        assert!(!provider.calls()[0].1.contains(&bytes("create")));
    }
}

#[test]
fn continuation_sequencing_falls_through_to_create_when_repo_view_finds_nothing() {
    let mut git = RecordingFake::new();
    let mut provider = ProviderFake::new();
    provider.push_response(po(1, b""));
    provider.push_response(po(0, b"")); // create
    provider.push_response(po(0, &gh_view_json("acme/widgets", true)));

    let view = run_sequencing(
        &mut git,
        &mut provider,
        &grove(),
        &create_request(),
        &flight(),
        true,
    )
    .unwrap();

    assert!(view.is_empty);
    assert_eq!(provider.calls().len(), 3);
}

#[test]
fn continuation_sequencing_refuses_an_unrelated_repo_view_result_without_ever_calling_create() {
    let mut git = RecordingFake::new();
    let mut provider = ProviderFake::new();
    provider.push_response(po(0, &gh_view_json("someone-else/widgets", true)));

    let error = run_sequencing(
        &mut git,
        &mut provider,
        &grove(),
        &create_request(),
        &flight(),
        true,
    )
    .unwrap_err();

    assert_eq!(error.class, ExitClass::NeedsDecision);
    assert_eq!(provider.calls().len(), 1, "create must never be called");
}

#[test]
fn repo_view_erroring_stays_creating_and_names_the_four_keys() {
    let mut git = RecordingFake::new();

    let error = run_sequencing(
        &mut git,
        &mut AlwaysFails,
        &grove(),
        &create_request(),
        &flight(),
        true,
    )
    .unwrap_err();

    assert_eq!(error.class, ExitClass::Failure);
    let detail = error.detail.unwrap();
    assert!(detail.contains("grove.publishProvider"));
    assert!(
        detail.contains("cannot run gh: No such file or directory"),
        "the underlying spawn failure must not be discarded: {detail}"
    );
    assert!(
        git.calls().is_empty(),
        "the receipt is never rolled back here"
    );
}

fn flight() -> Preflight {
    Preflight {
        default_branch: bytes("main"),
    }
}


fn view_of(is_empty: bool) -> RepoView {
    RepoView {
        https_url: bytes(HTTPS_URL),
        ssh_url: bytes(SSH_URL),
        is_empty,
        matches_target: true,
    }
}

#[test]
fn derive_and_publish_uses_https_by_default() {
    let mut git = RecordingFake::new();
    let mut provider = ProviderFake::new();
    provider.push_response(po(1, b"")); // git_protocol lookup fails -> default https

    let request =
        derive_and_publish(&mut git, &mut provider, &grove(), &create_request(), view_of(true))
            .unwrap();

    assert_eq!(request.url, bytes(HTTPS_URL));
    let calls = calls_of(&git);
    assert_eq!(
        calls[0],
        vec![
            "config",
            "--file",
            CONFIG,
            "grove.publishState",
            "publishing"
        ]
    );
    assert!(calls
        .iter()
        .any(|call| call.last() == Some(&HTTPS_URL.to_string())));
}

#[test]
fn derive_and_publish_uses_ssh_when_git_protocol_is_scoped_to_ssh() {
    let mut git = RecordingFake::new();
    let mut provider = ProviderFake::new();
    provider.push_response(po(0, b"ssh\n"));

    let request =
        derive_and_publish(&mut git, &mut provider, &grove(), &create_request(), view_of(true))
            .unwrap();

    assert_eq!(request.url, bytes(SSH_URL));
    assert_eq!(
        provider.calls()[0].1,
        vec![
            bytes("config"),
            bytes("get"),
            bytes("git_protocol"),
            bytes("--host"),
            bytes("github.com"),
        ],
        "the git_protocol lookup must be host-scoped, never the unscoped form"
    );
}

#[test]
fn derive_and_publish_leaves_the_creating_keys_untouched() {
    let mut git = RecordingFake::new();
    let mut provider = ProviderFake::new();
    provider.push_response(po(0, b"https\n"));

    derive_and_publish(&mut git, &mut provider, &grove(), &create_request(), view_of(true)).unwrap();

    let calls = calls_of(&git);
    assert!(!calls.iter().any(|call| call
        .iter()
        .any(|arg| arg.starts_with("grove.publishProvider")
            || arg.starts_with("grove.publishOwner")
            || arg.starts_with("grove.publishName"))));
}


#[test]
fn check_provider_auth_accepts_a_zero_exit() {
    let mut provider = ProviderFake::new();
    provider.push_response(po(0, b""));

    check_provider_auth(&mut provider, Provider::GitHub).unwrap();
}

#[test]
fn check_provider_auth_refuses_a_nonzero_exit_as_a_decision() {
    let mut provider = ProviderFake::new();
    provider.push_response(po(1, b"not logged in"));

    let error = check_provider_auth(&mut provider, Provider::GitHub).unwrap_err();

    assert_eq!(error.class, ExitClass::NeedsDecision);
    assert!(error.message.contains("github.com"));
}


#[test]
fn gh_default_branch_repair_is_a_noop_without_a_provider_runner() {
    let metadata = creating_receipt_metadata(OWNER, NAME, "origin", "github");
    let mut provider = ProviderFake::new();
    attempt_gh_default_branch_repair(&mut provider, false, &metadata, &request(), &flight())
        .unwrap();
    assert!(provider.calls().is_empty());
}

#[test]
fn gh_default_branch_repair_is_a_noop_for_a_bare_published_grove() {
    let mut provider = ProviderFake::new();
    let metadata = unpublished();

    attempt_gh_default_branch_repair(&mut provider, true, &metadata, &request(), &flight())
        .unwrap();

    assert!(provider.calls().is_empty());
}

#[test]
fn gh_default_branch_repair_never_applies_to_gitlab() {
    let mut provider = ProviderFake::new();
    let metadata = creating_receipt_metadata(OWNER, NAME, "origin", "gitlab");

    attempt_gh_default_branch_repair(&mut provider, true, &metadata, &request(), &flight())
        .unwrap();

    assert!(provider.calls().is_empty());
}

#[test]
fn gh_default_branch_repair_runs_gh_repo_edit_for_a_matching_creating_grove() {
    let mut provider = ProviderFake::new();
    provider.push_response(po(0, b""));
    let metadata = creating_receipt_metadata(OWNER, NAME, "origin", "github");

    attempt_gh_default_branch_repair(&mut provider, true, &metadata, &request(), &flight())
        .unwrap();

    assert_eq!(
        provider.calls()[0],
        (
            Provider::GitHub,
            vec![
                bytes("repo"),
                bytes("edit"),
                bytes("acme/widgets"),
                bytes("--default-branch"),
                bytes("main"),
            ]
        )
    );
}


#[test]
fn run_create_fresh_writes_the_creating_receipt_then_hands_off_to_run() {
    let mut git = RecordingFake::new();
    let mut provider = ProviderFake::new();
    provider.push_response(po(0, b"gh version 2.97.0 (2026-07-31)\n")); // version gate
    provider.push_response(po(0, b"")); // auth status
    provider.push_response(po(0, b"")); // create
    provider.push_response(po(0, &gh_view_json("acme/widgets", true))); // repo view
    provider.push_response(po(1, b"")); // git_protocol -> default https

    git.push_response(out(0, b"")); // validate_remote_name: check-ref-format
    git.push_response(out(0, b"refs/heads/main\n")); // has_any_commit
    git.push_response(out(0, b"")); // show-ref --verify refs/heads/main
    git.push_response(absent());
    for _ in 0..5 {
        git.push_response(out(0, b""));
    }
    for _ in 0..3 {
        git.push_response(out(0, b""));
    }
    git.push_response(absent()); // grove.version
    git.push_response(out(0, b"main\n")); // grove.defaultBranch
    git.push_response(absent()); // grove.remote
    git.push_response(out(0, b"publishing\n")); // grove.publishState
    git.push_response(out(0, b"origin\n")); // grove.publishRemote
    git.push_response(out(0, format!("{HTTPS_URL}\n").as_bytes())); // grove.publishUrl
    git.push_response(out(0, b"github\n")); // grove.publishProvider
    git.push_response(out(0, format!("{OWNER}\n").as_bytes())); // grove.publishOwner
    git.push_response(out(0, format!("{NAME}\n").as_bytes())); // grove.publishName
    git.push_response(absent());
    git.push_response(out(0, b"")); // check-ref-format
    git.push_response(out(0, b"")); // has_any_commit: nothing this time

    let metadata = unpublished();
    let error = create(&mut git, &mut provider, &metadata);

    assert_eq!(error.class, ExitClass::NeedsDecision);
    assert!(error.detail.unwrap().contains("commit"));
    let calls = calls_of(&git);
    assert!(calls.iter().any(
        |call| call == &vec!["config", "--file", CONFIG, "grove.publishState", "creating"]
    ));
    assert!(calls.iter().any(|call| call
        == &vec![
            "config",
            "--file",
            CONFIG,
            "grove.publishState",
            "publishing"
        ]));
}

#[test]
fn run_create_refuses_below_the_version_floor_before_touching_the_grove() {
    let mut git = RecordingFake::new();
    let mut provider = ProviderFake::new();
    provider.push_response(po(0, b"gh version 2.90.0 (2026-01-01)\n"));

    let metadata = unpublished();
    let error = create(&mut git, &mut provider, &metadata);

    assert_eq!(error.class, ExitClass::Usage);
    assert!(git.calls().is_empty());
}

#[test]
fn run_create_refuses_an_unauthenticated_provider_after_the_local_preflight() {
    let mut git = RecordingFake::new();
    let mut provider = ProviderFake::new();
    provider.push_response(po(0, b"gh version 2.97.0 (2026-07-31)\n"));
    provider.push_response(po(1, b"not logged in"));
    git.push_response(out(0, b"")); // check-ref-format
    git.push_response(out(0, b"refs/heads/main\n"));
    git.push_response(out(0, b""));

    let metadata = unpublished();
    let error = create(&mut git, &mut provider, &metadata);

    assert_eq!(error.class, ExitClass::NeedsDecision);
}

#[test]
fn run_create_against_an_already_published_creating_grove_never_touches_the_provider() {
    let mut git = RecordingFake::new();
    let mut provider = ProviderFake::new();
    provider.push_response(po(0, b"gh version 2.97.0 (2026-07-31)\n")); // version gate
    provider.push_response(po(0, b"")); // auth status
    git.push_response(out(0, b"")); // check-ref-format
    git.push_response(out(0, b"refs/heads/main\n"));
    git.push_response(out(0, b""));
    git.push_response(values(&[URL.as_bytes()])); // live_remote_url

    let mut metadata = creating_receipt_metadata(OWNER, NAME, "origin", "github");
    metadata.publish_state = PublishState::Published;
    metadata.publish_remote = Some(bytes("origin"));
    metadata.publish_url = Some(bytes(URL));

    create(&mut git, &mut provider, &metadata);
    assert_eq!(
        provider.calls().len(),
        2,
        "only the version gate and auth check ran"
    );
}
