//! Clone a repository into a new grove: where it goes, and what a clone must be like.
use vstd::prelude::*;
use crate::bytes::{
    after, copied, find, has_byte, has_prefix, is_lit, joined, lemma_views_push, lit, non_empty,
    opt_view, position, prefixed, same, same_list, split, split_non_empty, split_on, starts_with,
    strip_prefix, strip_suffix, views, without_prefix, without_suffix, BACKSLASH, COLON, LF, NUL,
    SLASH, TILDE,
};
use crate::commands::init::{conflict, normalize_absolute, normalized};
use crate::commands::publish_push::{escape_all, escaped_list, wildcard_of, wildcard_refspec};
use crate::error::{
    bytes_outcome, detailed, failure, failure_error, list_outcome, plain, usage, ErrorView,
    GroveError, Result,
};
use crate::fsx::files::{
    ask_bytes, ask_facts, bytes_step, facts_step, FailureKind, FileRequest, FileSession, FileSystem,
};
use crate::git::config::{
    config_key, config_values, config_values_run, destinations_checked, is_only, key_of,
    list_local_heads, local_heads_run, one_line_of, required, required_step, set_config,
    set_config_run, state_conflict_error, trim_one_line, validate_refspec_destinations, Outcome,
};
use crate::git::query::{opt_outcome, worktree_list};
use crate::git::runner::{args1, args2, args3, invoke_in, GitRunner, Invocation, Session};
use crate::path::{child, is_same_path, is_within, join_path, join_word, same_path, within};
use crate::text::{escape, escaped, join, joined_text, text};

verus! {

broadcast use lemma_views_push;

// --------------------------------------------------------------------- the name

/// A byte string without the slashes at its end.
pub open spec fn without_slashes(s: Seq<u8>) -> Seq<u8>
    decreases s.len(),
{
    if s.len() > 0 && s.last() == SLASH {
        without_slashes(s.drop_last())
    } else {
        s
    }
}

/// A locator without the mark of a Git directory at its end.
pub open spec fn without_git(s: Seq<u8>) -> Seq<u8> {
    match without_suffix(s, lit("/.git")) {
        Some(rest) => rest,
        None => match without_suffix(s, lit(".git")) {
            Some(rest) => rest,
            None => s,
        },
    }
}

/// Where the last part of a locator begins: after the last slash or colon before `n`.
pub open spec fn base_start(s: Seq<u8>, n: int) -> int
    decreases n,
{
    if n <= 0 {
        0
    } else if s[n - 1] == SLASH || s[n - 1] == COLON {
        n
    } else {
        base_start(s, n - 1)
    }
}

/// The directory that a clone goes into by default: the last part of the locator, without a
/// `.git` at its end.
pub open spec fn derived_name(url: Seq<u8>) -> Option<Seq<u8>> {
    let s = without_slashes(without_git(without_slashes(url)));
    let base = after(s, base_start(s, s.len() as int));
    if base.len() == 0 || base == lit(".") || base == lit("..") {
        None
    } else {
        Some(base)
    }
}

fn trim_slashes(s: &[u8]) -> (r: &[u8])
    ensures
        r@ == without_slashes(s@),
{
    let mut n: usize = s.len();
    proof {
        assert(s@.subrange(0, n as int) =~= s@);
    }
    while n > 0 && s[n - 1] == SLASH
        invariant
            n <= s.len(),
            without_slashes(s@) == without_slashes(s@.subrange(0, n as int)),
        decreases n,
    {
        proof {
            assert(s@.subrange(0, n as int).drop_last() =~= s@.subrange(0, n - 1));
        }
        n = n - 1;
    }
    vstd::slice::slice_subrange(s, 0, n)
}

/// The directory that a clone goes into by default.
pub fn derive_directory_name(url: &[u8]) -> (r: Option<Vec<u8>>)
    ensures
        opt_view(r) == derived_name(url@),
{
    let trimmed = trim_slashes(url);
    let stripped = match strip_suffix(trimmed, "/.git".as_bytes()) {
        Some(rest) => rest,
        None => match strip_suffix(trimmed, ".git".as_bytes()) {
            Some(rest) => rest,
            None => trimmed,
        },
    };
    let s = trim_slashes(stripped);
    let mut start: usize = s.len();
    while start > 0 && s[start - 1] != SLASH && s[start - 1] != COLON
        invariant
            start <= s.len(),
            base_start(s@, s@.len() as int) == base_start(s@, start as int),
        decreases start,
    {
        start = start - 1;
    }
    let base = vstd::slice::slice_subrange(s, start, s.len());
    if base.len() == 0 || is_lit(base, ".") || is_lit(base, "..") {
        None
    } else {
        Some(copied(base))
    }
}

proof fn lemma_base(s: Seq<u8>, n: int)
    requires
        0 <= n <= s.len(),
    ensures
        0 <= base_start(s, n) <= n,
        forall|i: int| base_start(s, n) <= i < n ==> s[i] != SLASH && s[i] != COLON,
    decreases n,
{
    if n > 0 && s[n - 1] != SLASH && s[n - 1] != COLON {
        lemma_base(s, n - 1);
    }
}

/// A derived name is the name of one directory entry: it is not empty, not `.` or `..`, and
/// holds no slash and no colon.
pub proof fn derived_names_are_names(url: Seq<u8>)
    requires
        derived_name(url) is Some,
    ensures
        crate::path::names_one(derived_name(url)->Some_0),
        !derived_name(url)->Some_0.contains(COLON),
{
    let s = without_slashes(without_git(without_slashes(url)));
    lemma_base(s, s.len() as int);
    let k = base_start(s, s.len() as int);
    let base = after(s, k);
    assert forall|i: int| 0 <= i < base.len() implies base[i] != SLASH && base[i] != COLON by {
        assert(base[i] == s[k + i]);
    }
}

/// A slash at the end of a locator makes no difference to the name.
pub proof fn final_slashes_are_ignored(url: Seq<u8>)
    ensures
        derived_name(url.push(SLASH)) == derived_name(url),
{
    assert(url.push(SLASH).drop_last() =~= url);
}

proof fn lemma_without_slashes(s: Seq<u8>)
    ensures
        without_slashes(s).len() <= s.len(),
        without_slashes(s) == s.take(without_slashes(s).len() as int),
    decreases s.len(),
{
    if s.len() > 0 && s.last() == SLASH {
        lemma_without_slashes(s.drop_last());
        let n = without_slashes(s).len() as int;
        assert(s.drop_last().take(n) =~= s.take(n));
    } else {
        assert(s.take(s.len() as int) =~= s);
    }
}

/// A derived name stands in the locator as it is.
pub proof fn derived_names_stand_in_the_locator(url: Seq<u8>)
    requires
        derived_name(url) is Some,
    ensures
        exists|i: int, j: int|
            0 <= i <= j <= url.len() && derived_name(url)->Some_0 == #[trigger] url.subrange(i, j),
{
    let trimmed = without_slashes(url);
    let stripped = without_git(trimmed);
    let s = without_slashes(stripped);
    lemma_without_slashes(url);
    lemma_without_slashes(stripped);
    assert(stripped =~= trimmed.take(stripped.len() as int));
    assert(s =~= url.take(s.len() as int));
    lemma_base(s, s.len() as int);
    let at = base_start(s, s.len() as int);
    assert(after(s, at) =~= url.subrange(at, s.len() as int));
}

// ------------------------------------------------------------- home directories

/// What is known of home directories: the current user's, and how a named user's is looked up.
pub struct Homes {
    pub current: Option<Seq<u8>>,
    pub named: spec_fn(Seq<u8>) -> Outcome<Option<Seq<u8>>>,
}

/// Finds home directories.
pub trait HomeResolver {
    spec fn homes(&self) -> Homes;

    /// The current user's home directory, if it is known.
    fn current_home(&self) -> (r: Option<Vec<u8>>)
        ensures
            opt_view(r) == self.homes().current,
    ;

    /// The home directory of the user with a name, if there is one.
    fn named_home(&self, user: &[u8]) -> (r: Result<Option<Vec<u8>>>)
        ensures
            opt_outcome(r) == (self.homes().named)(user@),
    ;
}

/// The home directory that a table of users gives a name, looked for from line `i` on.
pub open spec fn home_from(lines: Seq<Seq<u8>>, user: Seq<u8>, i: int) -> Option<Seq<u8>>
    decreases lines.len() - i,
{
    if i >= lines.len() {
        None
    } else {
        let fields = split(lines[i], COLON);
        if fields.len() >= 7 && fields[0] == user {
            Some(fields[5])
        } else {
            home_from(lines, user, i + 1)
        }
    }
}

/// The home directory that a table of users gives a name: the first of its lines that has seven
/// fields, the name among them first, and the directory sixth.
pub open spec fn home_in(passwd: Seq<u8>, user: Seq<u8>) -> Option<Seq<u8>> {
    home_from(split(passwd, LF), user, 0)
}

/// Finds a name's home directory in a table of users.
pub fn find_home(passwd: &[u8], user: &[u8]) -> (r: Option<Vec<u8>>)
    ensures
        opt_view(r) == home_in(passwd@, user@),
{
    let lines = split_on(passwd, LF);
    let ghost all = views(lines@);
    let mut i: usize = 0;
    while i < lines.len()
        invariant
            i <= lines.len(),
            all == views(lines@),
            all == split(passwd@, LF),
            all.len() == lines@.len(),
            home_from(all, user@, 0) == home_from(all, user@, i as int),
        decreases lines.len() - i,
    {
        proof {
            assert(all[i as int] == lines@[i as int]@);
        }
        let fields = split_on(lines[i].as_slice(), COLON);
        proof {
            assert(views(fields@).len() == fields@.len());
        }
        if fields.len() >= 7 {
            proof {
                assert(views(fields@)[0] == fields@[0]@);
                assert(views(fields@)[5] == fields@[5]@);
            }
            if same(fields[0].as_slice(), user) {
                return Some(copied(fields[5].as_slice()));
            }
        }
        i = i + 1;
    }
    None
}

/// Home directories from what the system holds of its users: the current user's home, and the
/// table of users, or why it cannot be read.
#[derive(Debug)]
pub struct SystemHomes {
    pub current: Option<Vec<u8>>,
    pub passwd: std::result::Result<Vec<u8>, String>,
}

pub open spec fn table_lookup(passwd: std::result::Result<Vec<u8>, String>, user: Seq<u8>) -> Outcome<
    Option<Seq<u8>>,
> {
    match passwd {
        Err(why) => Err(failure("cannot read /etc/passwd: "@ + why@)),
        Ok(table) => Ok(home_in(table@, user)),
    }
}

impl HomeResolver for SystemHomes {
    open spec fn homes(&self) -> Homes {
        Homes {
            current: opt_view(self.current),
            named: |user: Seq<u8>| table_lookup(self.passwd, user),
        }
    }

    fn current_home(&self) -> (r: Option<Vec<u8>>) {
        crate::bytes::copied_opt(&self.current)
    }

    fn named_home(&self, user: &[u8]) -> (r: Result<Option<Vec<u8>>>) {
        match &self.passwd {
            Err(why) => Err(
                GroveError::failure(text("cannot read /etc/passwd: ").concat(why.as_str())),
            ),
            Ok(table) => Ok(find_home(table.as_slice(), user)),
        }
    }
}

/// The user that a path names after a tilde, and the rest of the path.
pub open spec fn user_of(path: Seq<u8>) -> Seq<u8> {
    path.subrange(1, find(path, SLASH))
}

pub open spec fn rest_of(path: Seq<u8>) -> Seq<u8> {
    let k = find(path, SLASH);
    if k < path.len() {
        after(path, k + 1)
    } else {
        seq![]
    }
}

pub open spec fn malformed_user(user: Seq<u8>, rest: Seq<u8>) -> bool {
    (rest.len() > 0 && rest[0] == SLASH) || user.contains(COLON) || user.contains(NUL)
        || user.contains(BACKSLASH)
}

pub open spec fn no_home(user: Seq<u8>) -> ErrorView {
    usage(
        "cannot find a home directory for "@ + if user.len() == 0 {
            "the current user"@
        } else {
            escape(user)
        },
    )
}

/// A path with `~` or `~user` in front replaced by the home directory it stands for.
pub open spec fn expanded(path: Seq<u8>, homes: Homes) -> Outcome<Seq<u8>> {
    if path.len() == 0 || path[0] != TILDE {
        Ok(path)
    } else if malformed_user(user_of(path), rest_of(path)) {
        Err(usage("cannot expand malformed user path "@ + escape(path)))
    } else {
        let home = if user_of(path).len() == 0 {
            Ok(homes.current)
        } else {
            (homes.named)(user_of(path))
        };
        match home {
            Err(e) => Err(e),
            Ok(None) => Err(no_home(user_of(path))),
            Ok(Some(h)) => if rest_of(path).len() == 0 {
                Ok(h)
            } else {
                Ok(child(h, rest_of(path)))
            },
        }
    }
}

/// Replaces `~` or `~user` in front of a path by the home directory it stands for.
pub fn expand_user_path_with<H: HomeResolver + ?Sized>(path: &[u8], resolver: &H) -> (r: Result<
    Vec<u8>,
>)
    ensures
        bytes_outcome(r) == expanded(path@, resolver.homes()),
{
    if path.len() == 0 || path[0] != TILDE {
        return Ok(copied(path));
    }
    let slash: usize = position(path, SLASH);
    proof {
        crate::bytes::lemma_find_bounds(path@, SLASH, 0);
        assert(find(path@, SLASH) > 0);
    }
    let user = vstd::slice::slice_subrange(path, 1, slash);
    let rest: &[u8] = if slash < path.len() {
        vstd::slice::slice_subrange(path, slash + 1, path.len())
    } else {
        vstd::slice::slice_subrange(path, 0, 0)
    };
    proof {
        assert(rest@ =~= rest_of(path@));
    }
    if (rest.len() > 0 && rest[0] == SLASH) || has_byte(user, COLON) || has_byte(user, NUL)
        || has_byte(user, BACKSLASH) {
        return Err(
            GroveError::usage(
                text("cannot expand malformed user path ").concat(escaped(path).as_str()),
            ),
        );
    }
    let home = if user.len() == 0 {
        resolver.current_home()
    } else {
        resolver.named_home(user)?
    };
    match home {
        None => {
            let who = if user.len() == 0 {
                text("the current user")
            } else {
                escaped(user)
            };
            Err(
                GroveError::usage(
                    text("cannot find a home directory for ").concat(who.as_str()),
                ),
            )
        },
        Some(home) => if rest.len() == 0 {
            Ok(home)
        } else {
            Ok(join_path(home.as_slice(), rest))
        },
    }
}

/// The directory that a clone is to fill.
pub open spec fn target_of_clone(
    url: Seq<u8>,
    dir: Option<Seq<u8>>,
    cwd: Seq<u8>,
    homes: Homes,
) -> Outcome<Seq<u8>> {
    let requested = match dir {
        Some(d) => expanded(d, homes),
        None => match derived_name(url) {
            Some(name) => Ok(name),
            None => Err(
                detailed(
                    usage("cannot derive a directory name from "@ + escape(url)),
                    "pass the directory explicitly"@,
                ),
            ),
        },
    };
    match requested {
        Err(e) => Err(e),
        Ok(path) => normalized(child(cwd, path)),
    }
}

/// Finds the directory that a clone is to fill.
pub fn resolve_target<H: HomeResolver + ?Sized>(
    url: &[u8],
    dir: &Option<Vec<u8>>,
    cwd: &[u8],
    resolver: &H,
) -> (r: Result<Vec<u8>>)
    ensures
        bytes_outcome(r) == target_of_clone(url@, opt_view(*dir), cwd@, resolver.homes()),
{
    let requested = match dir {
        Some(d) => expand_user_path_with(d.as_slice(), resolver)?,
        None => match derive_directory_name(url) {
            Some(name) => name,
            None => return Err(
                GroveError::usage(
                    text("cannot derive a directory name from ").concat(escaped(url).as_str()),
                ).with_detail(text("pass the directory explicitly")),
            ),
        },
    };
    normalize_absolute(join_path(cwd, requested.as_slice()).as_slice())
}

// ------------------------------------------------------------- after the clone

pub open spec fn retained() -> Seq<char> {
    "the partial clone was retained for inspection"@
}

/// The clone must be bare.
pub open spec fn bare_checked(s: Session, bare: Seq<u8>) -> (Session, Outcome<()>) {
    match required_step(
        s,
        invoke_in(bare, args2(lit("rev-parse"), lit("--is-bare-repository"))),
        "rev-parse --is-bare-repository"@,
    ) {
        (s1, Err(e)) => (s1, Err(e)),
        (s1, Ok(out)) => match one_line_of(out.stdout, "bare-repository result"@) {
            Err(e) => (s1, Err(e)),
            Ok(line) => if line == lit("true") {
                (s1, Ok(()))
            } else {
                (
                    s1,
                    Err(state_conflict_error("the cloned repository is not bare"@, retained())),
                )
            },
        },
    }
}

/// The clone must have exactly the remote that was asked for.
pub open spec fn remote_checked(s: Session, bare: Seq<u8>, remote: Seq<u8>) -> (
    Session,
    Outcome<()>,
) {
    match required_step(s, invoke_in(bare, args1(lit("remote"))), "remote list"@) {
        (s1, Err(e)) => (s1, Err(e)),
        (s1, Ok(out)) => if non_empty(split(out.stdout, LF)) == seq![remote] {
            (s1, Ok(()))
        } else {
            (
                s1,
                Err(
                    state_conflict_error(
                        "the clone did not create exactly the requested remote"@,
                        "expected "@ + escape(remote) + ", found "@ + escape(out.stdout),
                    ),
                ),
            )
        },
    }
}

/// The remote must have exactly the URL that was asked for.
pub open spec fn url_checked(s: Session, bare: Seq<u8>, remote: Seq<u8>, url: Seq<u8>) -> (
    Session,
    Outcome<()>,
) {
    match config_values_run(s, child(bare, lit("config")), key_of("remote.", remote, ".url")) {
        (s1, Err(e)) => (s1, Err(e)),
        (s1, Ok(urls)) => if urls == seq![url] {
            (s1, Ok(()))
        } else {
            (
                s1,
                Err(
                    state_conflict_error(
                        "the clone changed the requested remote URL"@,
                        "expected "@ + escape(url) + ", found "@ + joined_text(
                            escaped_list(urls),
                            ", "@,
                        ),
                    ),
                ),
            )
        },
    }
}

/// What the remote fetches must stay in the remote's own namespace.
pub open spec fn refspecs_checked(s: Session, bare: Seq<u8>, remote: Seq<u8>) -> (
    Session,
    Outcome<Seq<Seq<u8>>>,
) {
    match config_values_run(s, child(bare, lit("config")), key_of("remote.", remote, ".fetch")) {
        (s1, Err(e)) => (s1, Err(e)),
        (s1, Ok(refspecs)) => match destinations_checked(refspecs, remote) {
            Err(e) => (s1, Err(e)),
            Ok(_) => (s1, Ok(refspecs)),
        },
    }
}

/// Where the clone keeps its objects.
pub open spec fn objects_asked(s: Session, bare: Seq<u8>) -> (Session, Outcome<Seq<u8>>) {
    match required_step(
        s,
        invoke_in(bare, args3(lit("rev-parse"), lit("--verify"), lit("HEAD^{commit}"))),
        "rev-parse --verify HEAD"@,
    ) {
        (s1, Err(e)) => (s1, Err(e)),
        (s1, Ok(_)) => match required_step(
            s1,
            invoke_in(bare, args3(lit("rev-parse"), lit("--git-path"), lit("objects"))),
            "rev-parse --git-path objects"@,
        ) {
            (s2, Err(e)) => (s2, Err(e)),
            (s2, Ok(out)) => (s2, one_line_of(out.stdout, "object directory"@)),
        },
    }
}

/// A path as the file system has it.
pub open spec fn resolve_run(f: FileSession, path: Seq<u8>, what: Seq<char>) -> (
    FileSession,
    Outcome<Seq<u8>>,
) {
    match bytes_step(f, FileRequest::Canonicalize(path)) {
        (f1, Err(e)) => (f1, Err(failure("cannot resolve "@ + what + ": "@ + e.text))),
        (f1, Ok(p)) => (f1, Ok(p)),
    }
}

/// The objects must lie in the bare repository itself, in its own directory for them, and there
/// must be no other database that they lean on.
pub open spec fn objects_checked(f: FileSession, bare: Seq<u8>, objects: Seq<u8>) -> (
    FileSession,
    Outcome<()>,
) {
    match resolve_run(f, objects, "cloned object directory"@) {
        (f1, Err(e)) => (f1, Err(e)),
        (f1, Ok(actual)) => match resolve_run(
            f1,
            child(bare, lit("objects")),
            "held .bare object directory"@,
        ) {
            (f2, Err(e)) => (f2, Err(e)),
            (f2, Ok(expected)) => match resolve_run(f2, bare, "held .bare"@) {
                (f3, Err(e)) => (f3, Err(e)),
                (f3, Ok(canonical)) => if !same_path(actual, expected) || same_path(
                    actual,
                    canonical,
                ) || !within(actual, canonical) {
                    (
                        f3,
                        Err(
                            state_conflict_error(
                                "the clone redirected its object directory outside .bare"@,
                                retained(),
                            ),
                        ),
                    )
                } else {
                    alternates_checked(f3, bare)
                },
            },
        },
    }
}

pub open spec fn alternates_checked(f: FileSession, bare: Seq<u8>) -> (FileSession, Outcome<()>) {
    match facts_step(f, FileRequest::Inspect(child(bare, lit("objects/info/alternates")))) {
        (f1, Ok(_)) => (
            f1,
            Err(
                state_conflict_error(
                    "the clone retained an alternate object database"@,
                    "retry with --dissociate or without --reference"@,
                ),
            ),
        ),
        (f1, Err(e)) => if e.kind == FailureKind::NotFound {
            (f1, Ok(()))
        } else {
            (f1, Err(failure("cannot inspect clone alternates: "@ + e.text)))
        },
    }
}

/// The one worktree that a fresh bare clone registers: itself.
pub open spec fn registered_in(stdout: Seq<u8>) -> Outcome<Seq<u8>> {
    let fields = non_empty(split(stdout, NUL));
    if fields.len() == 2 && starts_with(fields[0], lit("worktree ")) && fields[1] == lit("bare") {
        Ok(fields[0])
    } else {
        Err(
            state_conflict_error(
                "the cloned repository has incompatible worktree registrations"@,
                escape(stdout),
            ),
        )
    }
}

/// The registration must lead to the bare repository.
pub open spec fn registration_checked(f: FileSession, bare: Seq<u8>, field: Seq<u8>) -> (
    FileSession,
    Outcome<()>,
) {
    let path = after(field, lit("worktree ").len() as int);
    let (f1, registered) = bytes_step(f, FileRequest::Canonicalize(path));
    let (f2, held) = bytes_step(f1, FileRequest::Canonicalize(bare));
    let agree = match (registered, held) {
        (Ok(a), Ok(b)) => same_path(a, b),
        (Err(_), Err(_)) => true,
        _ => false,
    };
    if agree {
        (f2, Ok(()))
    } else {
        (
            f2,
            Err(
                state_conflict_error(
                    "the cloned bare worktree registration points elsewhere"@,
                    escape(field),
                ),
            ),
        )
    }
}

/// Everything that a clone must be like before it is made a grove; with what its remote fetches.
pub open spec fn postconditions_run(
    s: Session,
    f: FileSession,
    bare: Seq<u8>,
    url: Seq<u8>,
    remote: Seq<u8>,
) -> (Session, FileSession, Outcome<Seq<Seq<u8>>>) {
    match bare_checked(s, bare) {
        (s1, Err(e)) => (s1, f, Err(e)),
        (s1, Ok(_)) => match remote_checked(s1, bare, remote) {
            (s2, Err(e)) => (s2, f, Err(e)),
            (s2, Ok(_)) => match url_checked(s2, bare, remote, url) {
                (s3, Err(e)) => (s3, f, Err(e)),
                (s3, Ok(_)) => match refspecs_checked(s3, bare, remote) {
                    (s4, Err(e)) => (s4, f, Err(e)),
                    (s4, Ok(refspecs)) => match objects_asked(s4, bare) {
                        (s5, Err(e)) => (s5, f, Err(e)),
                        (s5, Ok(objects)) => match objects_checked(f, bare, objects) {
                            (f1, Err(e)) => (s5, f1, Err(e)),
                            (f1, Ok(_)) => match registrations_run(s5, f1, bare) {
                                (s6, f2, Err(e)) => (s6, f2, Err(e)),
                                (s6, f2, Ok(_)) => (s6, f2, Ok(refspecs)),
                            },
                        },
                    },
                },
            },
        },
    }
}

pub open spec fn registrations_run(s: Session, f: FileSession, bare: Seq<u8>) -> (
    Session,
    FileSession,
    Outcome<()>,
) {
    match required_step(s, worktree_list(bare), "worktree list --porcelain -z"@) {
        (s1, Err(e)) => (s1, f, Err(e)),
        (s1, Ok(out)) => match registered_in(out.stdout) {
            Err(e) => (s1, f, Err(e)),
            Ok(field) => {
                let (f1, r) = registration_checked(f, bare, field);
                (s1, f1, r)
            },
        },
    }
}

fn check_bare<R: GitRunner + ?Sized>(runner: &mut R, bare: &[u8]) -> (r: Result<()>)
    ensures
        (final(runner).session(), plain(r)) == bare_checked(old(runner).session(), bare@),
{
    let output = required(
        runner,
        Invocation::new().git_dir(bare).word("rev-parse").word("--is-bare-repository"),
        "rev-parse --is-bare-repository",
    )?;
    let line = trim_one_line(output.stdout, "bare-repository result")?;
    if !is_lit(line.as_slice(), "true") {
        return Err(
            conflict(
                text("the cloned repository is not bare"),
                text("the partial clone was retained for inspection"),
            ),
        );
    }
    Ok(())
}

fn check_remote<R: GitRunner + ?Sized>(runner: &mut R, bare: &[u8], remote: &[u8]) -> (r: Result<()>)
    ensures
        (final(runner).session(), plain(r)) == remote_checked(
            old(runner).session(),
            bare@,
            remote@,
        ),
{
    let output = required(runner, Invocation::new().git_dir(bare).word("remote"), "remote list")?;
    let names = split_non_empty(output.stdout.as_slice(), LF);
    if !is_only(&names, remote) {
        return Err(
            conflict(
                text("the clone did not create exactly the requested remote"),
                text("expected ").concat(escaped(remote).as_str()).concat(", found ").concat(
                    escaped(output.stdout.as_slice()).as_str(),
                ),
            ),
        );
    }
    Ok(())
}

fn check_url<R: GitRunner + ?Sized>(runner: &mut R, bare: &[u8], remote: &[u8], url: &[u8]) -> (r:
    Result<()>)
    ensures
        (final(runner).session(), plain(r)) == url_checked(
            old(runner).session(),
            bare@,
            remote@,
            url@,
        ),
{
    let config = join_word(bare, "config");
    let key = config_key("remote.", remote, ".url");
    let urls = config_values(runner, config.as_slice(), key.as_slice())?;
    if !is_only(&urls, url) {
        return Err(
            conflict(
                text("the clone changed the requested remote URL"),
                text("expected ").concat(escaped(url).as_str()).concat(", found ").concat(
                    join(&escape_all(&urls), ", ").as_str(),
                ),
            ),
        );
    }
    Ok(())
}

fn check_refspecs<R: GitRunner + ?Sized>(runner: &mut R, bare: &[u8], remote: &[u8]) -> (r: Result<
    Vec<Vec<u8>>,
>)
    ensures
        (final(runner).session(), list_outcome(r)) == refspecs_checked(
            old(runner).session(),
            bare@,
            remote@,
        ),
{
    let config = join_word(bare, "config");
    let key = config_key("remote.", remote, ".fetch");
    let refspecs = config_values(runner, config.as_slice(), key.as_slice())?;
    validate_refspec_destinations(&refspecs, remote)?;
    Ok(refspecs)
}

fn ask_objects<R: GitRunner + ?Sized>(runner: &mut R, bare: &[u8]) -> (r: Result<Vec<u8>>)
    ensures
        (final(runner).session(), bytes_outcome(r)) == objects_asked(
            old(runner).session(),
            bare@,
        ),
{
    required(
        runner,
        Invocation::new().git_dir(bare).word("rev-parse").word("--verify").word("HEAD^{commit}"),
        "rev-parse --verify HEAD",
    )?;
    let output = required(
        runner,
        Invocation::new().git_dir(bare).word("rev-parse").word("--git-path").word("objects"),
        "rev-parse --git-path objects",
    )?;
    trim_one_line(output.stdout, "object directory")
}

fn resolve<F: FileSystem + ?Sized>(files: &mut F, path: &[u8], what: &str) -> (r: Result<Vec<u8>>)
    ensures
        (final(files).files(), bytes_outcome(r)) == resolve_run(
            old(files).files(),
            path@,
            what@,
        ),
{
    match ask_bytes(files, FileRequest::Canonicalize(copied(path))) {
        Err(e) => Err(
            GroveError::failure(
                text("cannot resolve ").concat(what).concat(": ").concat(e.text.as_str()),
            ),
        ),
        Ok(p) => Ok(p),
    }
}

fn check_objects<F: FileSystem + ?Sized>(files: &mut F, bare: &[u8], objects: &[u8]) -> (r: Result<()>)
    ensures
        (final(files).files(), plain(r)) == objects_checked(
            old(files).files(),
            bare@,
            objects@,
        ),
{
    let actual = resolve(files, objects, "cloned object directory")?;
    let own = join_word(bare, "objects");
    let expected = resolve(files, own.as_slice(), "held .bare object directory")?;
    let canonical = resolve(files, bare, "held .bare")?;
    if !is_same_path(actual.as_slice(), expected.as_slice()) || is_same_path(
        actual.as_slice(),
        canonical.as_slice(),
    ) || !is_within(actual.as_slice(), canonical.as_slice()) {
        return Err(
            conflict(
                text("the clone redirected its object directory outside .bare"),
                text("the partial clone was retained for inspection"),
            ),
        );
    }
    match ask_facts(
        files,
        FileRequest::Inspect(join_word(bare, "objects/info/alternates")),
    ) {
        Ok(_) => Err(
            conflict(
                text("the clone retained an alternate object database"),
                text("retry with --dissociate or without --reference"),
            ),
        ),
        Err(e) => {
            if e.kind == FailureKind::NotFound {
                Ok(())
            } else {
                Err(
                    GroveError::failure(
                        text("cannot inspect clone alternates: ").concat(e.text.as_str()),
                    ),
                )
            }
        },
    }
}

fn registered_worktree(stdout: &[u8]) -> (r: Result<Vec<u8>>)
    ensures
        bytes_outcome(r) == registered_in(stdout@),
{
    let fields = split_non_empty(stdout, NUL);
    proof {
        assert(views(fields@).len() == fields@.len());
    }
    if fields.len() == 2 {
        proof {
            assert(views(fields@)[0] == fields@[0]@);
            assert(views(fields@)[1] == fields@[1]@);
        }
        if has_prefix(fields[0].as_slice(), "worktree ".as_bytes()) && is_lit(
            fields[1].as_slice(),
            "bare",
        ) {
            return Ok(copied(fields[0].as_slice()));
        }
    }
    Err(
        conflict(
            text("the cloned repository has incompatible worktree registrations"),
            escaped(stdout),
        ),
    )
}

fn check_registration<F: FileSystem + ?Sized>(files: &mut F, bare: &[u8], field: &[u8]) -> (r: Result<
    (),
>)
    requires
        starts_with(field@, lit("worktree ")),
    ensures
        (final(files).files(), plain(r)) == registration_checked(
            old(files).files(),
            bare@,
            field@,
        ),
{
    let path = match strip_prefix(field, "worktree ".as_bytes()) {
        Some(path) => path,
        None => {
            proof {
                assert(false);
            }
            field
        },
    };
    let registered = ask_bytes(files, FileRequest::Canonicalize(copied(path)));
    let held = ask_bytes(files, FileRequest::Canonicalize(copied(bare)));
    let agree = match (&registered, &held) {
        (Ok(a), Ok(b)) => is_same_path(a.as_slice(), b.as_slice()),
        (Err(_), Err(_)) => true,
        _ => false,
    };
    if agree {
        Ok(())
    } else {
        Err(
            conflict(
                text("the cloned bare worktree registration points elsewhere"),
                escaped(field),
            ),
        )
    }
}

fn check_registrations<R: GitRunner + ?Sized, F: FileSystem + ?Sized>(
    runner: &mut R,
    files: &mut F,
    bare: &[u8],
) -> (r: Result<()>)
    ensures
        (final(runner).session(), final(files).files(), plain(r)) == registrations_run(
            old(runner).session(),
            old(files).files(),
            bare@,
        ),
{
    let output = required(
        runner,
        Invocation::new().git_dir(bare).word("worktree").word("list").word("--porcelain").word("-z"),
        "worktree list --porcelain -z",
    )?;
    let field = registered_worktree(output.stdout.as_slice())?;
    check_registration(files, bare, field.as_slice())
}

/// Checks everything that a clone must be like before it is made a grove; returns what its
/// remote fetches.
pub fn validate_clone_postconditions<R: GitRunner + ?Sized, F: FileSystem + ?Sized>(
    runner: &mut R,
    files: &mut F,
    bare: &[u8],
    requested_url: &[u8],
    remote: &[u8],
) -> (r: Result<Vec<Vec<u8>>>)
    ensures
        (final(runner).session(), final(files).files(), list_outcome(r)) == postconditions_run(
            old(runner).session(),
            old(files).files(),
            bare@,
            requested_url@,
            remote@,
        ),
{
    check_bare(runner, bare)?;
    check_remote(runner, bare, remote)?;
    check_url(runner, bare, remote, requested_url)?;
    let refspecs = check_refspecs(runner, bare, remote)?;
    let objects = ask_objects(runner, bare)?;
    check_objects(files, bare, objects.as_slice())?;
    check_registrations(runner, files, bare)?;
    Ok(refspecs)
}

/// A clone that passes has exactly the remote and the URL that were asked for, and everything
/// that its remote fetches stays in the remote's namespace.
pub proof fn accepted_clones_are_what_was_asked_for(
    s: Session,
    f: FileSession,
    bare: Seq<u8>,
    url: Seq<u8>,
    remote: Seq<u8>,
)
    requires
        postconditions_run(s, f, bare, url, remote).2 is Ok,
    ensures
        ({
            let s1 = bare_checked(s, bare).0;
            let s2 = remote_checked(s1, bare, remote).0;
            let s3 = url_checked(s2, bare, remote, url).0;
            let refspecs = postconditions_run(s, f, bare, url, remote).2->Ok_0;
            &&& bare_checked(s, bare).1 is Ok
            &&& remote_checked(s1, bare, remote).1 is Ok
            &&& config_values_run(
                s2,
                child(bare, lit("config")),
                key_of("remote.", remote, ".url"),
            ).1 == Ok::<Seq<Seq<u8>>, ErrorView>(seq![url])
            &&& config_values_run(
                s3,
                child(bare, lit("config")),
                key_of("remote.", remote, ".fetch"),
            ).1 == Ok::<Seq<Seq<u8>>, ErrorView>(refspecs)
            &&& destinations_checked(refspecs, remote) is Ok
        }),
{
}

// ------------------------------------------------------------------ what is fetched

/// The refspec that fetches one branch to where the remote keeps it.
pub open spec fn narrow_refspec(source: Seq<u8>, remote: Seq<u8>) -> Seq<u8> {
    let branch = match without_prefix(source, lit("refs/heads/")) {
        Some(b) => b,
        None => source,
    };
    lit("+refs/heads/") + branch + lit(":refs/remotes/") + remote + lit("/") + branch
}

/// The refspecs that a clone without any is given: one for each branch it has, if it was
/// narrowed, and otherwise the one for all branches.
pub open spec fn wanted_refspecs(s: Session, bare: Seq<u8>, remote: Seq<u8>, narrowed: bool) -> (
    Session,
    Outcome<Seq<Seq<u8>>>,
) {
    if narrowed {
        match local_heads_run(s, bare) {
            (s1, Err(e)) => (s1, Err(e)),
            (s1, Ok(heads)) => if heads.len() == 0 {
                (
                    s1,
                    Err(
                        state_conflict_error(
                            "the narrowed clone retained no local branches"@,
                            retained(),
                        ),
                    ),
                )
            } else {
                (s1, Ok(heads.map_values(|source: Seq<u8>| narrow_refspec(source, remote))))
            },
        }
    } else {
        (s, Ok(seq![wildcard_of(remote)]))
    }
}

/// Writing values one after the other, from `i` on.
pub open spec fn set_from(
    s: Session,
    config: Seq<u8>,
    key: Seq<u8>,
    values: Seq<Seq<u8>>,
    i: int,
) -> (Session, Outcome<()>)
    decreases values.len() - i,
{
    if i >= values.len() {
        (s, Ok(()))
    } else {
        match set_config_run(s, config, key, values[i], true) {
            (s1, Err(e)) => (s1, Err(e)),
            (s1, Ok(_)) => set_from(s1, config, key, values, i + 1),
        }
    }
}

/// Giving a clone refspecs where it has none, and reading them back.
pub open spec fn repair_run(
    s: Session,
    bare: Seq<u8>,
    remote: Seq<u8>,
    narrowed: bool,
    existing: Seq<Seq<u8>>,
) -> (Session, Outcome<Seq<Seq<u8>>>) {
    if existing.len() > 0 {
        (s, Ok(existing))
    } else {
        let config = child(bare, lit("config"));
        let key = key_of("remote.", remote, ".fetch");
        match wanted_refspecs(s, bare, remote, narrowed) {
            (s1, Err(e)) => (s1, Err(e)),
            (s1, Ok(values)) => match set_from(s1, config, key, values, 0) {
                (s2, Err(e)) => (s2, Err(e)),
                (s2, Ok(_)) => match config_values_run(s2, config, key) {
                    (s3, Err(e)) => (s3, Err(e)),
                    (s3, Ok(written)) => if written != values {
                        (s3, Err(failure("fetch refspec verification failed"@)))
                    } else {
                        match destinations_checked(written, remote) {
                            Err(e) => (s3, Err(e)),
                            Ok(_) => (s3, Ok(written)),
                        }
                    },
                },
            },
        }
    }
}

fn narrow(heads: &Vec<Vec<u8>>, remote: &[u8]) -> (r: Vec<Vec<u8>>)
    ensures
        views(r@) == views(heads@).map_values(|source: Seq<u8>| narrow_refspec(source, remote@)),
{
    let ghost all = views(heads@).map_values(|source: Seq<u8>| narrow_refspec(source, remote@));
    let mut out: Vec<Vec<u8>> = Vec::new();
    let mut i: usize = 0;
    proof {
        assert(views(out@) =~= all.subrange(0, 0));
    }
    while i < heads.len()
        invariant
            i <= heads.len(),
            all == views(heads@).map_values(
                |source: Seq<u8>| narrow_refspec(source, remote@),
            ),
            all.len() == heads@.len(),
            views(out@) == all.subrange(0, i as int),
        decreases heads.len() - i,
    {
        broadcast use lemma_views_push;

        let source = heads[i].as_slice();
        let branch = match strip_prefix(source, "refs/heads/".as_bytes()) {
            Some(b) => b,
            None => source,
        };
        let from = prefixed("+refs/heads/", branch);
        let to = joined(
            joined(from.as_slice(), ":refs/remotes/".as_bytes()).as_slice(),
            remote,
        );
        let value = joined(joined(to.as_slice(), "/".as_bytes()).as_slice(), branch);
        proof {
            assert(all[i as int] == narrow_refspec(heads@[i as int]@, remote@));
            assert(all.subrange(0, i + 1) =~= all.subrange(0, i as int).push(all[i as int]));
        }
        out.push(value);
        i = i + 1;
    }
    proof {
        assert(all.subrange(0, i as int) =~= all);
    }
    out
}

fn wanted<R: GitRunner + ?Sized>(runner: &mut R, bare: &[u8], remote: &[u8], narrowed: bool) -> (r:
    Result<Vec<Vec<u8>>>)
    ensures
        (final(runner).session(), list_outcome(r)) == wanted_refspecs(
            old(runner).session(),
            bare@,
            remote@,
            narrowed,
        ),
{
    if narrowed {
        let heads = list_local_heads(runner, bare)?;
        proof {
            assert(views(heads@).len() == heads@.len());
        }
        if heads.len() == 0 {
            return Err(
                conflict(
                    text("the narrowed clone retained no local branches"),
                    text("the partial clone was retained for inspection"),
                ),
            );
        }
        Ok(narrow(&heads, remote))
    } else {
        let mut values: Vec<Vec<u8>> = Vec::new();
        values.push(wildcard_refspec(remote));
        proof {
            assert(views(values@) =~= seq![wildcard_of(remote@)]);
        }
        Ok(values)
    }
}

fn set_all<R: GitRunner + ?Sized>(runner: &mut R, config: &[u8], key: &[u8], values: &Vec<Vec<u8>>) -> (r:
    Result<()>)
    ensures
        (final(runner).session(), plain(r)) == set_from(
            old(runner).session(),
            config@,
            key@,
            views(values@),
            0,
        ),
{
    let ghost all = views(values@);
    let mut i: usize = 0;
    while i < values.len()
        invariant
            i <= values.len(),
            all == views(values@),
            all.len() == values@.len(),
            set_from(old(runner).session(), config@, key@, all, 0) == set_from(
                runner.session(),
                config@,
                key@,
                all,
                i as int,
            ),
        decreases values.len() - i,
    {
        proof {
            assert(all[i as int] == values@[i as int]@);
        }
        set_config(runner, config, key, values[i].as_slice(), true)?;
        i = i + 1;
    }
    Ok(())
}

/// Gives a clone refspecs where it has none; returns what its remote fetches.
pub fn repair_refspecs<R: GitRunner + ?Sized>(
    runner: &mut R,
    bare: &[u8],
    remote: &[u8],
    narrowed: bool,
    existing: Vec<Vec<u8>>,
) -> (r: Result<Vec<Vec<u8>>>)
    ensures
        (final(runner).session(), list_outcome(r)) == repair_run(
            old(runner).session(),
            bare@,
            remote@,
            narrowed,
            views(existing@),
        ),
{
    proof {
        assert(views(existing@).len() == existing@.len());
    }
    if existing.len() > 0 {
        return Ok(existing);
    }
    let config = join_word(bare, "config");
    let key = config_key("remote.", remote, ".fetch");
    let values = wanted(runner, bare, remote, narrowed)?;
    set_all(runner, config.as_slice(), key.as_slice(), &values)?;
    let written = config_values(runner, config.as_slice(), key.as_slice())?;
    if !same_list(&written, &values) {
        return Err(failure_error("fetch refspec verification failed"));
    }
    validate_refspec_destinations(&written, remote)?;
    Ok(written)
}

/// What the clone had is kept: refspecs are written only where there were none.
pub proof fn existing_refspecs_are_kept(
    s: Session,
    bare: Seq<u8>,
    remote: Seq<u8>,
    narrowed: bool,
    existing: Seq<Seq<u8>>,
)
    requires
        existing.len() > 0,
    ensures
        repair_run(s, bare, remote, narrowed, existing) == (
            s,
            Ok::<Seq<Seq<u8>>, ErrorView>(existing),
        ),
{
}

} // verus!
