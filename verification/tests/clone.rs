//! Where a clone goes.
use git_grove::commands::clone::{
    derive_directory_name, expand_user_path_with, find_home, resolve_target, HomeResolver,
    Homes as Model, SystemHomes,
};
use git_grove::error::{ExitClass, Result};

struct Homes;

impl HomeResolver for Homes {
    fn homes(&self) -> Model {
        unreachable!("a model is never asked for at run time")
    }

    fn current_home(&self) -> Option<Vec<u8>> {
        Some(b"/home/current".to_vec())
    }

    fn named_home(&self, user: &[u8]) -> Result<Option<Vec<u8>>> {
        Ok((user == b"alice").then_some(b"/srv/alice".to_vec()))
    }
}

#[test]
fn derives_raw_directory_names_like_git_without_dot_git() {
    for (url, expected) in [
        (
            b"git@github.com:user/repo.git".as_slice(),
            b"repo".as_slice(),
        ),
        (b"https://host/group/repo/", b"repo"),
        (b"ssh://host/group/repo.git/", b"repo"),
        (b"/srv/repo.git", b"repo"),
        (b"file:///srv/repo/.git", b"repo"),
        (b"host:path/repo-\xff.git", b"repo-\xff"),
    ] {
        assert_eq!(derive_directory_name(url).unwrap(), expected);
    }
    for invalid in [b"".as_slice(), b"/", b"/.git", b".", b".."] {
        assert!(derive_directory_name(invalid).is_none());
    }
}

#[test]
fn expands_current_and_named_users_without_process_global_state() {
    assert_eq!(
        expand_user_path_with(b"~/src", &Homes).unwrap(),
        b"/home/current/src"
    );
    assert_eq!(
        expand_user_path_with(b"~alice/src", &Homes).unwrap(),
        b"/srv/alice/src"
    );
    assert_eq!(expand_user_path_with(b"./src", &Homes).unwrap(), b"./src");
    assert_eq!(
        expand_user_path_with(b"~/x-\xff", &Homes).unwrap(),
        b"/home/current/x-\xff"
    );
}

#[test]
fn rejects_unknown_or_malformed_user_expansions() {
    assert_eq!(
        expand_user_path_with(b"~alice", &Homes).unwrap(),
        b"/srv/alice"
    );
    for path in ["~missing/x", "~alice//x", "~a:b/x"] {
        assert_eq!(
            expand_user_path_with(path.as_bytes(), &Homes)
                .unwrap_err()
                .class,
            ExitClass::Usage
        );
    }
}

struct Raw;

impl HomeResolver for Raw {
    fn homes(&self) -> Model {
        unreachable!("a model is never asked for at run time")
    }

    fn current_home(&self) -> Option<Vec<u8>> {
        None
    }

    fn named_home(&self, user: &[u8]) -> Result<Option<Vec<u8>>> {
        assert_eq!(user, b"u\xff");
        Ok(Some(b"/raw/home".to_vec()))
    }
}

#[test]
fn preserves_non_utf8_named_user_lookup() {
    assert_eq!(
        expand_user_path_with(b"~u\xff/repo", &Raw).unwrap(),
        b"/raw/home/repo"
    );
}

#[test]
fn homes_are_looked_up_by_name() {
    let passwd = b"root:x:0:0:root:/root:/bin/sh\nalice:x:1:1::/srv/alice:/bin/sh\n";
    assert_eq!(find_home(passwd, b"alice"), Some(b"/srv/alice".to_vec()));
    assert_eq!(find_home(passwd, b"ali"), None);
    let homes = SystemHomes {
        current: Some(b"/home/me".to_vec()),
        passwd: Ok(passwd.to_vec()),
    };
    assert_eq!(
        expand_user_path_with(b"~alice/x", &homes).unwrap(),
        b"/srv/alice/x"
    );
    let unreadable = SystemHomes {
        current: None,
        passwd: Err("denied".to_string()),
    };
    assert_eq!(
        expand_user_path_with(b"~alice/x", &unreadable)
            .unwrap_err()
            .class,
        ExitClass::Failure
    );
    assert!(expand_user_path_with(b"~/x", &unreadable).is_err());
}

#[test]
fn a_clone_goes_where_it_is_told_or_where_its_address_says() {
    assert_eq!(
        resolve_target(b"https://host/group/repo.git", &None, b"/work", &Homes).unwrap(),
        b"/work/repo"
    );
    assert_eq!(
        resolve_target(
            b"https://host/group/repo.git",
            &Some(b"~alice/here".to_vec()),
            b"/work",
            &Homes
        )
        .unwrap(),
        b"/srv/alice/here"
    );
    assert_eq!(
        resolve_target(b"/", &None, b"/work", &Homes)
            .unwrap_err()
            .class,
        ExitClass::Usage
    );
}

#[test]
fn a_final_slash_makes_no_difference_to_the_derived_name() {
    for url in ["/srv/project.git", "host:group/name", "name/.git", "."] {
        let slashed = format!("{url}/");
        let name = derive_directory_name(url.as_bytes());
        assert_eq!(derive_directory_name(slashed.as_bytes()), name);
        if let Some(name) = name {
            assert!(url.contains(std::str::from_utf8(&name).unwrap()));
        }
    }
}
