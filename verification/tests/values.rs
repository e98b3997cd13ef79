//! Paths, orders, numbers and records: the values that everything else is made of.
use git_grove::bytes::{contains_run, split_non_empty, split_on, without_line_ends};
use git_grove::commands::adopt::inventory::first_component;
use git_grove::commands::adopt::private::is_known_shared_top_level;
use git_grove::commands::adopt::steps::{payload_pointer, pointer_admin};
use git_grove::commands::init::normalize_absolute;
use git_grove::error::{ExitClass, GroveError};
use git_grove::fsx::mountinfo::parse_u64;
use git_grove::fsx::nonce::hex_nonce;
use git_grove::fsx::write::split_path;
use git_grove::git::config::{refspec_destination, validate_refspec_destinations};
use git_grove::git::runner::{GitOutput, GitRunner, Invocation, Session};
use git_grove::grove::discover::Grove;
use git_grove::grove::layout::validate_relative_worktree_path;
use git_grove::grove::metadata::{
    read, rollback_creating_receipt, write_creating_receipt, write_receipt, write_to_config,
    CreatingReceipt, Metadata, PublishState, Receipt,
};
use git_grove::grove::state::{parse_counts, pointed_directory};
use git_grove::hooks::add_exclude_entry;
use git_grove::order::{insert_sorted, is_less, sort_all, sort_unique};
use git_grove::path::{
    components, file_name, is_same_path, is_within, join_path, parent_path, Component,
};
use git_grove::text::{hex, number, seconds_number, status_number, trimmed};
use std::collections::BTreeMap;

fn list(words: &[&str]) -> Vec<Vec<u8>> {
    words.iter().map(|word| word.as_bytes().to_vec()).collect()
}

// ----------------------------------------------------------------------- paths

#[test]
fn a_normal_path_is_left_as_it_is() {
    for (path, normal) in [("/a/./b/../c//", "/a/c"), ("/", "/"), ("/x/..", "/")] {
        let first = normalize_absolute(path.as_bytes()).unwrap();
        assert_eq!(first, normal.as_bytes());
        assert_eq!(normalize_absolute(&first).unwrap(), first);
    }
}

#[test]
fn a_parent_is_kept_as_it_is_written() {
    for (path, parent) in [
        ("/a//b/c", Some("/a//b")),
        ("/a/./b//c/./", Some("/a/./b")),
        ("//x", Some("/")),
        ("///a//", Some("/")),
        ("./x", Some(".")),
        ("./././x", Some(".")),
        (".", Some("")),
        ("x", Some("")),
        ("x/..", Some("x")),
        ("a//.//b", Some("a")),
        ("/", None),
        ("", None),
    ] {
        let found = parent_path(path.as_bytes());
        assert_eq!(found.as_deref(), parent.map(str::as_bytes), "{path}");
        let std = std::path::Path::new(path).parent();
        assert_eq!(std.map(|p| p.as_os_str().as_encoded_bytes()), found.as_deref(), "{path}");
    }
    assert_eq!(
        split_path(b"/a//b/./name/").unwrap(),
        (b"/a//b".to_vec(), b"name".to_vec())
    );
}

#[test]
fn white_space_is_dropped_at_both_ends_only() {
    for text in [" a b ", "\u{3000}x\u{85}\n", "", " \t", "x", "\u{200b}x\u{200b}"] {
        assert_eq!(trimmed(text), text.trim());
    }
    for c in (0..0x3100).filter_map(char::from_u32) {
        let text = format!("{c}x{c}");
        assert_eq!(trimmed(&text), text.trim(), "{c:?}");
    }
}

// ---------------------------------------------------------------------- order

#[test]
fn bytes_are_ordered_as_unsigned_numbers_and_a_prefix_comes_first() {
    assert!(is_less(b"a", b"b"));
    assert!(is_less(b"a", b"a\x00"));
    assert!(is_less(b"\x7f", b"\x80"));
    assert!(!is_less(b"b", b"a"));
    assert!(!is_less(b"same", b"same"));
}

#[test]
fn a_sorted_list_keeps_duplicates_and_a_sorted_set_does_not() {
    let mixed = list(&["topic", "main", "topic", "a"]);
    assert_eq!(sort_all(&mixed), list(&["a", "main", "topic", "topic"]));
    assert_eq!(sort_unique(&mixed), list(&["a", "main", "topic"]));
    let mut sorted = list(&["a", "c"]);
    insert_sorted(&mut sorted, b"b".to_vec());
    assert_eq!(sorted, list(&["a", "b", "c"]));
}

// ---------------------------------------------------------------------- paths

#[test]
fn containment_goes_by_whole_components() {
    assert!(is_within(b"/g", b"/g"));
    assert!(is_within(b"/g/topic/deep", b"/g/topic"));
    assert!(is_within(b"/g//topic/./deep/", b"/g/topic"));
    assert!(!is_within(b"/g/topical", b"/g/topic"));
    assert!(!is_within(b"/g", b"/g/topic"));
    assert!(is_same_path(b"/g/topic/", b"/g/./topic"));
    assert!(!is_same_path(b"/g/topic", b"/g/../topic"));
}

#[test]
fn joining_adds_the_components_of_a_relative_path_and_an_absolute_one_replaces() {
    assert_eq!(join_path(b"/g", b"topic"), b"/g/topic");
    assert_eq!(join_path(b"/g/", b"topic"), b"/g/topic");
    assert_eq!(join_path(b"/g", b"/elsewhere"), b"/elsewhere");
    assert_eq!(parent_path(b"/g/topic"), Some(b"/g".to_vec()));
    assert_eq!(parent_path(b"/"), None);
    assert_eq!(file_name(b"/g/topic/"), Some(b"topic".to_vec()));
    assert_eq!(file_name(b"/g/.."), None);
    let parts = components(b"./a/../b");
    assert!(matches!(parts[0], Component::Current));
    assert!(matches!(&parts[1], Component::Normal(name) if name == b"a"));
    assert!(matches!(parts[2], Component::Parent));
    assert!(matches!(&parts[3], Component::Normal(name) if name == b"b"));
    assert_eq!(parts.len(), 4);
}

#[test]
fn a_normal_path_has_neither_current_nor_parent_components() {
    assert_eq!(normalize_absolute(b"/a/./b/../c").unwrap(), b"/a/c");
    assert_eq!(normalize_absolute(b"/").unwrap(), b"/");
}

#[test]
fn relative_places_stay_below_the_root_and_out_of_its_administration() {
    assert_eq!(validate_relative_worktree_path(b"topic/deep").unwrap(), b"topic/deep");
    assert_eq!(validate_relative_worktree_path(b"./topic").unwrap(), b"topic");
    for refused in [&b"/topic"[..], b"../topic", b"topic/../..", b"", b".", b".git", b".bare/x"] {
        let error = validate_relative_worktree_path(refused).unwrap_err();
        assert_eq!(error.class, ExitClass::Usage);
    }
}

#[test]
fn a_pointer_leads_to_the_administration_it_was_made_for() {
    let pointer = payload_pointer(b"/repo", b"/repo/topic").unwrap();
    assert_eq!(pointer, b"gitdir: /repo/.bare/worktrees/topic\n");
    assert_eq!(pointer_admin(&pointer).unwrap(), b"/repo/.bare/worktrees/topic");
    assert_eq!(pointed_directory(&pointer), Some(b"/repo/.bare/worktrees/topic".to_vec()));
    assert_eq!(pointed_directory(b"gitdir: /repo"), None);
    assert_eq!(pointed_directory(b"/repo\n"), None);
    assert!(payload_pointer(b"/repo", b"/").is_err());
}

#[test]
fn the_top_of_a_git_directory_is_told_apart_by_name() {
    assert_eq!(first_component(b"refs/heads/main"), Some(b"refs".to_vec()));
    assert_eq!(first_component(b""), None);
    assert!(is_known_shared_top_level(b"packed-refs"));
    assert!(!is_known_shared_top_level(b"HEAD"));
}

// ----------------------------------------------------------- numbers and text

#[test]
fn numbers_are_written_in_decimal_and_read_back() {
    for n in [0, 9, 10, 65536, u64::MAX] {
        assert_eq!(number(n), format!("{n}"));
        assert_eq!(parse_u64(number(n).as_bytes()), Some(n));
    }
    for status in [i32::MIN, -1, 0, 128] {
        assert_eq!(status_number(status), format!("{status}"));
    }
    for refused in [&b""[..], b"-1", b"1 ", b"18446744073709551616"] {
        assert_eq!(parse_u64(refused), None);
    }
    assert_eq!(parse_counts(b"2\t13\n".to_vec()).unwrap(), (2, 13));
    assert!(parse_counts(b"2 13\n".to_vec()).is_err());
}

#[test]
fn bytes_are_written_in_hexadecimal() {
    assert_eq!(hex(b"\x00\x0f\xa0\xff"), "000fa0ff");
    let nonce = hex_nonce().unwrap();
    assert!(nonce.len() == 32 && nonce.bytes().all(|b| b.is_ascii_hexdigit()));
    assert_ne!(nonce, hex_nonce().unwrap());
}

#[test]
fn byte_strings_are_split_at_every_separator() {
    assert_eq!(split_on(b"a\0\0b\0", 0), list(&["a", "", "b", ""]));
    assert_eq!(split_non_empty(b"a\0\0b\0", 0), list(&["a", "b"]));
    assert_eq!(without_line_ends(b"a\nb\r\n\n".to_vec()), b"a\nb");
    assert!(contains_run(b"not a git repository", b"git"));
    assert!(!contains_run(b"gi", b"git"));
}

#[test]
fn every_class_of_error_has_a_status_of_its_own() {
    let errors = [
        GroveError::usage("a".to_string()),
        GroveError::needs_decision("b".to_string()),
        GroveError::failure("c".to_string()),
    ];
    let codes: Vec<u8> = errors.iter().map(|error| error.class.code()).collect();
    assert!(codes[0] != codes[1] && codes[1] != codes[2] && codes[0] != codes[2]);
    assert_eq!(ExitClass::Success.code(), 0);
}

#[test]
fn an_entry_is_excluded_once_however_often_it_is_added() {
    let once = add_exclude_entry(b"*.log", b"/settings");
    assert_eq!(once, b"*.log\n/settings\n");
    assert_eq!(add_exclude_entry(&once, b"/settings"), once);
}

// ------------------------------------------------------------------- refspecs

#[test]
fn refspecs_map_refs_only_into_the_namespace_of_their_remote() {
    assert_eq!(
        refspec_destination(b"+refs/heads/*:refs/remotes/origin/*", b"refs/heads/main"),
        Some(b"refs/remotes/origin/main".to_vec())
    );
    assert_eq!(
        refspec_destination(b"refs/heads/main:refs/remotes/origin/main", b"refs/heads/topic"),
        None
    );
    let inside = list(&["+refs/heads/*:refs/remotes/origin/*"]);
    assert!(validate_refspec_destinations(&inside, b"origin").is_ok());
    for outside in ["+refs/heads/*:refs/heads/*", "+refs/heads/*:refs/remotes/other/*"] {
        assert!(validate_refspec_destinations(&list(&[outside]), b"origin").is_err());
    }
}

// ------------------------------------------------------------------ the record

/// A Git that keeps a configuration.
struct Configured {
    values: BTreeMap<Vec<u8>, Vec<u8>>,
}

impl GitRunner for Configured {
    fn session(&self) -> Session {
        unreachable!("a model is never asked for at run time")
    }

    fn run(&mut self, invocation: Invocation) -> Result<GitOutput, GroveError> {
        let words: Vec<Vec<u8>> = invocation.argv_os();
        let mut status = 0;
        let mut stdout = Vec::new();
        let key = words[words.len() - 1].clone();
        if words.contains(&b"--get".to_vec()) {
            match self.values.get(&key) {
                Some(value) => {
                    stdout = value.clone();
                    stdout.push(b'\n');
                }
                None => status = 1,
            }
        } else if words.contains(&b"--unset-all".to_vec()) {
            status = if self.values.remove(&key).is_some() { 0 } else { 5 };
        } else {
            self.values.insert(words[words.len() - 2].clone(), key);
        }
        Ok(GitOutput { status, stdout, stderr: Vec::new() })
    }
}

fn fresh_record() -> Metadata {
    Metadata {
        version: Some(1),
        default_branch: Some(b"main".to_vec()),
        remote: Some(b"origin".to_vec()),
        publish_state: PublishState::Unpublished,
        publish_remote: None,
        publish_url: None,
        publish_provider: None,
        publish_owner: None,
        publish_name: None,
    }
}

#[test]
fn a_record_reads_back_as_it_was_written() {
    let mut git = Configured { values: BTreeMap::new() };
    let grove = Grove::at(b"/g");
    write_to_config(&mut git, b"/g/.bare/config", &fresh_record()).unwrap();
    assert_eq!(read(&mut git, &grove).unwrap(), fresh_record());

    let creating = CreatingReceipt {
        provider: b"github".to_vec(),
        owner: b"owner".to_vec(),
        name: b"name".to_vec(),
        remote: b"origin".to_vec(),
    };
    write_creating_receipt(&mut git, &grove, &creating).unwrap();
    let record = read(&mut git, &grove).unwrap();
    assert_eq!(record.publish_state, PublishState::Creating);
    assert_eq!(record.publish_provider, Some(b"github".to_vec()));
    assert_eq!(record.publish_owner, Some(b"owner".to_vec()));
    assert_eq!(record.publish_name, Some(b"name".to_vec()));
    assert_eq!(record.publish_remote, Some(b"origin".to_vec()));

    rollback_creating_receipt(&mut git, &grove).unwrap();
    assert_eq!(read(&mut git, &grove).unwrap(), fresh_record());

    let receipt = Receipt { remote: b"origin".to_vec(), url: b"\xff/url".to_vec() };
    write_receipt(&mut git, &grove, PublishState::Published, &receipt).unwrap();
    let record = read(&mut git, &grove).unwrap();
    assert_eq!(record.publish_state, PublishState::Published);
    assert_eq!(record.publish_remote, Some(b"origin".to_vec()));
    assert_eq!(record.publish_url, Some(b"\xff/url".to_vec()));
}

#[test]
fn every_state_of_a_publication_has_a_word_of_its_own() {
    for state in [
        PublishState::Unpublished,
        PublishState::Creating,
        PublishState::Publishing,
        PublishState::Published,
    ] {
        assert_eq!(PublishState::parse(state.word().as_bytes()), Some(state));
    }
    assert_eq!(PublishState::parse(b"Published"), None);
}

#[test]
fn seconds_are_written_with_their_sign() {
    assert_eq!(seconds_number(0), "0");
    assert_eq!(seconds_number(-7), "-7");
    assert_eq!(seconds_number(i64::MIN), "-9223372036854775808");
    assert_eq!(seconds_number(i64::MAX), "9223372036854775807");
}
