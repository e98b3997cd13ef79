//! What a target advertises, and the refs under which its history is probed.
use git_grove::error::ExitClass;
use git_grove::git::fetch::FetchPlan;
use git_grove::git::remote::{
    advertise, delete_probe_ref, fetch_probe, is_ancestor, purge_probe_refs, Ancestry,
    PROBE_PREFIX,
};
use git_grove::git::runner::{GitOutput, RecordingFake};
use git_grove::grove::discover::Grove;

fn bytes(text: &str) -> Vec<u8> {
    text.as_bytes().to_vec()
}

fn grove() -> Grove {
    Grove { root: "/g".into() }
}

const BARE: &str = "--git-dir=/g/.bare";

fn output(status: i32, stdout: &[u8], stderr: &[u8]) -> GitOutput {
    GitOutput {
        status,
        stdout: stdout.to_vec(),
        stderr: stderr.to_vec(),
    }
}

const OID: &str = "c3d445388f83a72043990aeaf22af9ba74aa4797";
const OTHER_OID: &str = "1111111111111111111111111111111111111111";

#[test]
fn zero_bytes_means_the_remote_is_empty() {
    let mut fake = RecordingFake::new();
    fake.push_response(output(0, b"", b""));

    let advert = advertise(&mut fake, b"/srv/r.git").unwrap();

    assert!(advert.empty);
    assert_eq!(advert.head_symref, None);
    assert_eq!(advert.head_oid, None);
    assert!(advert.heads.is_empty());
}

#[test]
fn asks_the_remote_with_an_exact_argument_vector() {
    let mut fake = RecordingFake::new();
    fake.push_response(output(0, b"", b""));

    advertise(&mut fake, b"-weird-url").unwrap();

    assert_eq!(
        fake.calls()[0].argv_for_test(),
        [
            "ls-remote",
            "--symref",
            "--",
            "-weird-url",
            "HEAD",
            "refs/heads/*"
        ]
    );
}

#[test]
fn passes_the_url_through_as_raw_bytes() {
    let mut fake = RecordingFake::new();
    fake.push_response(output(0, b"", b""));
    let url = b"/srv/r-\xff.git".to_vec();

    advertise(&mut fake, url.as_slice()).unwrap();

    assert_eq!(fake.calls()[0].argv_os()[3], url);
}

#[test]
fn parses_the_measured_non_empty_advertisement() {
    let mut fake = RecordingFake::new();
    fake.push_response(output(
        0,
        format!(
            "ref: refs/heads/main\tHEAD\n{OID}\tHEAD\n{OID}\trefs/heads/main\n{OTHER_OID}\trefs/heads/topic/x\n"
        )
        .as_bytes(),
        b"",
    ));

    let advert = advertise(&mut fake, b"/srv/r.git").unwrap();

    assert!(!advert.empty);
    assert_eq!(advert.head_symref, Some(bytes("refs/heads/main")));
    assert_eq!(advert.head_oid, Some(bytes(OID)));
    assert_eq!(
        advert.heads,
        vec![
            (bytes("refs/heads/main"), bytes(OID)),
            (
                bytes("refs/heads/topic/x"),
                bytes(OTHER_OID)
            ),
        ]
    );
    assert_eq!(advert.head_oid_for(b"main"), Some(&bytes(OID)));
    assert_eq!(
        advert.head_oid_for(b"topic/x"),
        Some(&bytes(OTHER_OID))
    );
    assert_eq!(advert.head_oid_for(b"absent"), None);
}

#[test]
fn round_trips_a_non_utf8_branch_name_as_raw_bytes() {
    let mut fake = RecordingFake::new();
    let mut stdout = format!("ref: refs/heads/main\tHEAD\n{OID}\tHEAD\n{OID}\t").into_bytes();
    stdout.extend_from_slice(b"refs/heads/odd-\xff\n");
    fake.push_response(output(0, &stdout, b""));

    let advert = advertise(&mut fake, b"/srv/r.git").unwrap();

    assert_eq!(
        advert.heads,
        vec![(
            b"refs/heads/odd-\xff".to_vec(),
            bytes(OID)
        )]
    );
    assert_eq!(advert.head_oid_for(b"odd-\xff"), Some(&bytes(OID)));
}

#[test]
fn a_remote_advertising_only_head_is_not_empty() {
    let mut fake = RecordingFake::new();
    fake.push_response(output(0, format!("{OID}\tHEAD\n").as_bytes(), b""));

    let advert = advertise(&mut fake, b"/srv/r.git").unwrap();

    assert!(!advert.empty);
    assert!(advert.heads.is_empty());
    assert_eq!(advert.head_oid, Some(bytes(OID)));
}

#[test]
fn a_malformed_advertisement_is_a_failure_not_a_best_guess() {
    for stdout in [
        b"no-tab-here\n".to_vec(),
        b"ref: \tHEAD\n".to_vec(),
        b"ref: refs/heads/main\tHEAD\nref: refs/heads/other\tHEAD\n".to_vec(),
        format!("{OID}\trefs/heads/main\n{OTHER_OID}\trefs/heads/main\n").into_bytes(),
        format!("{OID}\tHEAD\n{OTHER_OID}\tHEAD\n").into_bytes(),
        b"\tHEAD\n".to_vec(),
    ] {
        let mut fake = RecordingFake::new();
        fake.push_response(output(0, &stdout, b""));

        let error = advertise(&mut fake, b"/srv/r.git").unwrap_err();

        assert_eq!(
            error.class,
            ExitClass::Failure,
            "stdout: {}",
            String::from_utf8_lossy(&stdout)
        );
    }
}

#[test]
fn a_non_zero_ls_remote_exit_is_a_failure_carrying_escaped_stderr() {
    let mut fake = RecordingFake::new();
    fake.push_response(output(
        128,
        b"",
        b"fatal: '/srv/nope.git' does not appear to be a git repository\n\xff",
    ));

    let error = advertise(&mut fake, b"/srv/nope.git").unwrap_err();

    assert_eq!(error.class, ExitClass::Failure);
    assert!(error.message.contains("/srv/nope.git"));
    assert_eq!(
        error.detail.as_deref(),
        Some(
            r"fatal:\x20'/srv/nope.git'\x20does\x20not\x20appear\x20to\x20be\x20a\x20git\x20repository\n\xFF"
        )
    );
}

#[test]
fn the_probe_fetch_uses_the_measured_flag_set() {
    let mut fake = RecordingFake::new();

    let probe = fetch_probe(&mut fake, &grove(), b"/srv/r.git", b"main").unwrap();

    let argv = fake.calls()[0].argv_for_test();
    let (head, tail) = argv.split_at(argv.len() - 3);
    assert_eq!(
        head,
        [
            BARE,
            "fetch",
            "--atomic",
            "--no-tags",
            "--no-write-fetch-head",
            "--no-recurse-submodules",
            "--no-auto-maintenance",
            "--no-write-commit-graph",
        ]
    );
    assert_eq!(tail[0], "--");
    assert_eq!(tail[1], "/srv/r.git");
    assert_eq!(tail[2], format!("+refs/heads/main:{}", String::from_utf8(probe.name.clone()).unwrap()));
    assert!(probe.name.starts_with(PROBE_PREFIX.as_bytes()));
    assert_eq!(probe.name.len(), PROBE_PREFIX.len() + 32);
}

fn fetch_flags(argv: Vec<String>) -> Vec<String> {
    argv.into_iter()
        .skip_while(|arg| arg != "fetch")
        .take_while(|arg| arg != "--")
        .filter(|arg| arg.starts_with("--"))
        .collect()
}

#[test]
fn the_probe_flag_set_is_the_sync_fetch_flag_set_by_construction() {
    let mut fake = RecordingFake::new();
    fetch_probe(&mut fake, &grove(), b"/srv/r.git", b"main").unwrap();
    let probe = fetch_flags(fake.calls()[0].argv_for_test());

    let mut sync_fake = RecordingFake::new();
    FetchPlan {
        remotes: vec![bytes("origin")],
    }
    .execute(&mut sync_fake, &grove())
    .unwrap();
    let mut expected = fetch_flags(sync_fake.calls()[0].argv_for_test());

    assert!(expected.contains(&"--prune".to_string()));
    assert!(expected.contains(&"--no-prune-tags".to_string()));
    expected.retain(|flag| flag != "--prune" && flag != "--no-prune-tags");
    expected.insert(1, "--no-tags".to_string());
    expected.insert(2, "--no-write-fetch-head".to_string());
    assert_eq!(probe, expected);
}

#[test]
fn each_probe_ref_gets_a_fresh_nonce() {
    let mut fake = RecordingFake::new();

    let first = fetch_probe(&mut fake, &grove(), b"/srv/r.git", b"main").unwrap();
    let second = fetch_probe(&mut fake, &grove(), b"/srv/r.git", b"main").unwrap();

    assert_ne!(first.name, second.name);
}

#[test]
fn a_probe_fetch_failure_names_the_branch_and_escapes_stderr() {
    let mut fake = RecordingFake::new();
    fake.push_response(output(
        128,
        b"",
        b"fatal: couldn't find remote ref refs/heads/main\n",
    ));

    let error = fetch_probe(&mut fake, &grove(), b"/srv/r.git", b"main").unwrap_err();

    assert_eq!(error.class, ExitClass::Failure);
    assert!(error.message.contains("main"));
    assert_eq!(
        error.detail.as_deref(),
        Some(r"fatal:\x20couldn't\x20find\x20remote\x20ref\x20refs/heads/main\n")
    );
}

#[test]
fn a_non_utf8_branch_reaches_the_refspec_as_raw_bytes() {
    let mut fake = RecordingFake::new();

    let probe = fetch_probe(&mut fake, &grove(), b"/srv/r.git", b"odd-\xff").unwrap();

    let argv = fake.calls()[0].argv_os();
    let mut expected = b"+refs/heads/odd-\xff:".to_vec();
    expected.extend_from_slice(&probe.name);
    assert_eq!(argv[argv.len() - 1], expected);
}

#[test]
fn ancestry_is_classified_three_ways() {
    for (status, expected) in [
        (0, Ancestry::Ancestor),
        (1, Ancestry::NotAncestor),
        (128, Ancestry::MissingObject),
    ] {
        let mut fake = RecordingFake::new();
        fake.push_response(output(status, b"", b""));

        let verdict = is_ancestor(&mut fake, &grove(), b"probe", b"refs/heads/main").unwrap();

        assert_eq!(verdict, expected);
    }
}

#[test]
fn ancestry_asks_git_with_end_of_options_before_the_revisions() {
    let mut fake = RecordingFake::new();

    is_ancestor(&mut fake, &grove(), b"-probe", b"refs/heads/main").unwrap();

    assert_eq!(
        fake.calls()[0].argv_for_test(),
        [
            BARE,
            "merge-base",
            "--is-ancestor",
            "--end-of-options",
            "-probe",
            "refs/heads/main",
        ]
    );
}

#[test]
fn an_unexpected_ancestry_exit_is_a_failure() {
    let mut fake = RecordingFake::new();
    fake.push_response(output(3, b"", b"broken"));

    let error = is_ancestor(&mut fake, &grove(), b"a", b"b").unwrap_err();

    assert_eq!(error.class, ExitClass::Failure);
    assert!(error.message.contains("exit status 3"));
}

#[test]
fn purging_deletes_every_listed_probe_ref_and_reports_the_names() {
    let mut fake = RecordingFake::new();
    fake.push_response(output(
        0,
        b"refs/grove/publish-probe/aa\nrefs/grove/publish-probe/bb\n",
        b"",
    ));

    let purged = purge_probe_refs(&mut fake, &grove()).unwrap();

    assert_eq!(
        purged,
        vec![
            bytes("refs/grove/publish-probe/aa"),
            bytes("refs/grove/publish-probe/bb"),
        ]
    );
    let calls: Vec<Vec<String>> = fake
        .calls()
        .iter()
        .map(|call| call.argv_for_test())
        .collect();
    assert_eq!(
        calls[0],
        [
            BARE,
            "for-each-ref",
            "--format=%(refname)",
            "--",
            "refs/grove/publish-probe/*",
        ]
    );
    assert_eq!(
        calls[1],
        [
            BARE,
            "update-ref",
            "-d",
            "--",
            "refs/grove/publish-probe/aa"
        ]
    );
    assert_eq!(
        calls[2],
        [
            BARE,
            "update-ref",
            "-d",
            "--",
            "refs/grove/publish-probe/bb"
        ]
    );
}

#[test]
fn purging_an_empty_namespace_deletes_nothing() {
    let mut fake = RecordingFake::new();
    fake.push_response(output(0, b"", b""));

    let purged = purge_probe_refs(&mut fake, &grove()).unwrap();

    assert!(purged.is_empty());
    assert_eq!(fake.calls().len(), 1);
}

#[test]
fn purging_refuses_a_ref_listed_outside_the_probe_namespace() {
    let mut fake = RecordingFake::new();
    fake.push_response(output(0, b"refs/heads/main\n", b""));

    let error = purge_probe_refs(&mut fake, &grove()).unwrap_err();

    assert_eq!(error.class, ExitClass::Failure);
    assert_eq!(fake.calls().len(), 1);
}

#[test]
fn deleting_refuses_a_ref_outside_the_probe_namespace() {
    let mut fake = RecordingFake::new();

    let error = delete_probe_ref(&mut fake, &grove(), b"refs/heads/main").unwrap_err();

    assert_eq!(error.class, ExitClass::Failure);
    assert!(fake.calls().is_empty());
}

#[test]
fn a_failed_probe_ref_delete_is_reported() {
    let mut fake = RecordingFake::new();
    fake.push_response(output(1, b"", b"error: cannot lock ref\n"));

    let error = delete_probe_ref(&mut fake, &grove(), b"refs/grove/publish-probe/aa").unwrap_err();

    assert_eq!(error.class, ExitClass::Failure);
    assert_eq!(
        error.detail.as_deref(),
        Some(r"error:\x20cannot\x20lock\x20ref\n")
    );
}
