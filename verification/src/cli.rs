//! What a command line asks for, before its options are parsed.
use vstd::prelude::*;
use vstd::slice::slice_subrange;
use crate::bytes::{
    after, bytes_of, copied, find, has_prefix, is_lit, lemma_find_bounds, lemma_split_fields,
    lemma_split_joined, lit, position, split, split_on, starts_with, views, AT, BACKSLASH, COLON,
    DASH, DOT, PLUS, SLASH,
};
use crate::error::{
    detailed, list_outcome, usage, usage_error, ErrorView, ExitClass, GroveError, Result,
};
use crate::fsx::files::{ask_found, found_step, AnswerView, FileRequest, FileSession, FileSystem};
use crate::git::config::Outcome;
use crate::grove::discover::{discover, discover_run};
use crate::path::{absolute, child, is_absolute, join_path, join_word};
use crate::text::{lossy, lossy_text, text};

verus! {

/// The shells that completion code is made for.
#[derive(Clone, Copy, Debug, PartialEq, Eq, Structural)]
pub enum CompletionShell {
    Zsh,
    Bash,
    Fish,
}

/// The commands and their aliases.
pub open spec fn known(arg: Seq<u8>) -> bool {
    ||| arg == lit("clone")
    ||| arg == lit("plant")
    ||| arg == lit("init")
    ||| arg == lit("seed")
    ||| arg == lit("add")
    ||| arg == lit("sprout")
    ||| arg == lit("adopt")
    ||| arg == lit("transplant")
    ||| arg == lit("list")
    ||| arg == lit("survey")
    ||| arg == lit("sync")
    ||| arg == lit("tend")
    ||| arg == lit("publish")
    ||| arg == lit("propagate")
    ||| arg == lit("setup")
    ||| arg == lit("hook-guard")
    ||| arg == lit("completion")
    ||| arg == lit("help")
}

/// Whether an argument is a command or an alias.
pub fn is_known(arg: &[u8]) -> (r: bool)
    ensures
        r == known(arg@),
{
    is_lit(arg, "clone") || is_lit(arg, "plant") || is_lit(arg, "init") || is_lit(arg, "seed")
        || is_lit(arg, "add") || is_lit(arg, "sprout") || is_lit(arg, "adopt") || is_lit(
        arg,
        "transplant",
    ) || is_lit(arg, "list") || is_lit(arg, "survey") || is_lit(arg, "sync") || is_lit(arg, "tend")
        || is_lit(arg, "publish") || is_lit(arg, "propagate") || is_lit(arg, "setup")
        || is_lit(arg, "hook-guard") || is_lit(arg, "completion")
        || is_lit(arg, "help")
}

// --------------------------------------------------------------------- locators

pub open spec fn alphabetic(b: u8) -> bool {
    0x41 <= b <= 0x5a || 0x61 <= b <= 0x7a
}

pub open spec fn scheme_byte(b: u8) -> bool {
    alphabetic(b) || 0x30 <= b <= 0x39 || b == PLUS || b == DASH || b == DOT
}

pub open spec fn white(b: u8) -> bool {
    b == 0x20 || b == 0x09 || b == 0x0a || b == 0x0c || b == 0x0d
}

/// A scheme: a letter, then letters, digits, `+`, `-` and `.`.
pub open spec fn scheme(s: Seq<u8>) -> bool {
    s.len() > 0 && alphabetic(s[0]) && forall|i: int| 0 <= i < s.len() ==> scheme_byte(
        #[trigger] s[i],
    )
}

/// The bytes that end a scheme stand at `i`.
pub open spec fn scheme_ends_at(s: Seq<u8>, i: int) -> bool {
    0 <= i && i + 3 <= s.len() && s[i] == COLON && s[i + 1] == SLASH && s[i + 2] == SLASH
}

/// Whether what stands before the first `://` is a scheme.
pub open spec fn with_scheme(s: Seq<u8>) -> bool {
    exists|i: int|
        #[trigger] scheme_ends_at(s, i) && scheme(s.subrange(0, i)) && forall|j: int|
            0 <= j < i ==> !#[trigger] scheme_ends_at(s, j)
}

fn is_scheme(s: &[u8]) -> (r: bool)
    ensures
        r == scheme(s@),
{
    if s.len() == 0 {
        return false;
    }
    let first: u8 = s[0];
    if !((0x41 <= first && first <= 0x5a) || (0x61 <= first && first <= 0x7a)) {
        return false;
    }
    let mut i: usize = 0;
    while i < s.len()
        invariant
            i <= s.len(),
            forall|j: int| 0 <= j < i ==> scheme_byte(#[trigger] s@[j]),
        decreases s.len() - i,
    {
        let b: u8 = s[i];
        if !((0x41 <= b && b <= 0x5a) || (0x61 <= b && b <= 0x7a) || (0x30 <= b && b <= 0x39) || b
            == PLUS || b == DASH || b == DOT) {
            proof {
                assert(!scheme_byte(s@[i as int]));
            }
            return false;
        }
        i = i + 1;
    }
    true
}

/// Whether a locator begins with a scheme.
pub fn has_scheme(s: &[u8]) -> (r: bool)
    ensures
        r == with_scheme(s@),
{
    let mut i: usize = 0;
    while i < s.len()
        invariant
            i <= s.len(),
            forall|j: int| 0 <= j < i ==> !#[trigger] scheme_ends_at(s@, j),
        decreases s.len() - i,
    {
        if s.len() - i >= 3 && s[i] == COLON && s[i + 1] == SLASH && s[i + 2] == SLASH {
            let head = slice_subrange(s, 0, i);
            let r = is_scheme(head);
            proof {
                assert(scheme_ends_at(s@, i as int));
                if with_scheme(s@) {
                    let k = choose|k: int|
                        #[trigger] scheme_ends_at(s@, k) && scheme(s@.subrange(0, k)) && forall|
                            j: int,
                        |
                            0 <= j < k ==> !#[trigger] scheme_ends_at(s@, j);
                    assert(k == i);
                }
            }
            return r;
        }
        i = i + 1;
    }
    false
}

pub open spec fn no_white(s: Seq<u8>) -> bool {
    forall|i: int| 0 <= i < s.len() ==> !white(#[trigger] s[i])
}

/// The host, and a user before it, of a locator without a scheme.
pub open spec fn scp_host(host: Seq<u8>) -> bool {
    &&& host.len() > 0
    &&& no_white(host)
    &&& !host.contains(SLASH)
    &&& !host.contains(BACKSLASH)
    &&& host.last() != AT
}

/// Whether a locator has the form `host:repository`, or `user@host:repository`.
pub open spec fn scp_locator(s: Seq<u8>) -> bool {
    exists|colon: int|
        0 <= colon < s.len() && #[trigger] s[colon] == COLON && !s.subrange(0, colon).contains(
            COLON,
        ) && scp_host(s.subrange(0, colon)) && colon + 1 < s.len() && no_white(
            s.subrange(colon + 1, s.len() as int),
        )
}

fn without_white(s: &[u8]) -> (r: bool)
    ensures
        r == no_white(s@),
{
    let mut i: usize = 0;
    while i < s.len()
        invariant
            i <= s.len(),
            forall|j: int| 0 <= j < i ==> !white(#[trigger] s@[j]),
        decreases s.len() - i,
    {
        let b: u8 = s[i];
        if b == 0x20 || b == 0x09 || b == 0x0a || b == 0x0c || b == 0x0d {
            proof {
                assert(white(s@[i as int]));
            }
            return false;
        }
        i = i + 1;
    }
    true
}

/// Whether a locator has the form `host:repository`.
pub fn is_scp_locator(s: &[u8]) -> (r: bool)
    ensures
        r == scp_locator(s@),
{
    let colon: usize = position(s, COLON);
    proof {
        crate::bytes::lemma_find_bounds(s@, COLON, 0);
        assert forall|k: int|
            0 <= k < s@.len() && #[trigger] s@[k] == COLON && !s@.subrange(0, k).contains(
                COLON,
            ) implies k == colon by {
            if colon < k {
                assert(s@.subrange(0, k)[colon as int] == COLON);
            }
        }
    }
    if colon >= s.len() {
        return false;
    }
    let host = slice_subrange(s, 0, colon);
    let repository = slice_subrange(s, colon + 1, s.len());
    let r = host.len() > 0 && repository.len() > 0 && without_white(host)
        && !crate::bytes::has_byte(host, SLASH) && !crate::bytes::has_byte(host, BACKSLASH)
        && host[host.len() - 1] != AT && without_white(repository);
    proof {
        assert(s@[colon as int] == COLON);
        assert(!s@.subrange(0, colon as int).contains(COLON));
    }
    r
}

/// Whether a locator says that it is a path.
pub open spec fn explicit_path(s: Seq<u8>) -> bool {
    ||| absolute(s)
    ||| s == lit("~")
    ||| starts_with(s, lit("~/"))
    ||| starts_with(s, lit("./"))
    ||| starts_with(s, lit("../"))
}

/// Whether a locator says that it is a path.
pub fn is_explicit_path(s: &[u8]) -> (r: bool)
    ensures
        r == explicit_path(s@),
{
    is_absolute(s) || is_lit(s, "~") || has_prefix(s, "~/".as_bytes()) || has_prefix(
        s,
        "./".as_bytes(),
    ) || has_prefix(s, "../".as_bytes())
}

/// Whether a path leads to a repository, one with a worktree or a bare one.
pub open spec fn repository_run(f: FileSession, path: Seq<u8>) -> (FileSession, bool) {
    let (f1, pointer) = found_step(f, FileRequest::Exists(child(path, lit(".git"))));
    if pointer {
        (f1, true)
    } else {
        let (f2, head) = found_step(f1, FileRequest::IsFile(child(path, lit("HEAD"))));
        if head {
            found_step(f2, FileRequest::IsDirectory(child(path, lit("objects"))))
        } else {
            (f2, false)
        }
    }
}

/// Whether a path leads to a repository.
pub fn is_existing_repository<F: FileSystem + ?Sized>(files: &mut F, path: &[u8]) -> (r: bool)
    ensures
        (final(files).files(), r) == repository_run(old(files).files(), path@),
{
    if ask_found(files, FileRequest::Exists(join_word(path, ".git"))) {
        return true;
    }
    if !ask_found(files, FileRequest::IsFile(join_word(path, "HEAD"))) {
        return false;
    }
    ask_found(files, FileRequest::IsDirectory(join_word(path, "objects")))
}

/// Whether an argument names a repository. The file system is asked only when the argument's
/// own form does not tell.
pub open spec fn locator_run(f: FileSession, arg: Seq<u8>, cwd: Seq<u8>) -> (FileSession, bool) {
    if with_scheme(arg) || scp_locator(arg) || explicit_path(arg) {
        (f, true)
    } else {
        repository_run(f, child(cwd, arg))
    }
}

/// Whether an argument names a repository.
pub fn looks_like_locator<F: FileSystem + ?Sized>(files: &mut F, arg: &[u8], cwd: &[u8]) -> (r: bool)
    ensures
        (final(files).files(), r) == locator_run(old(files).files(), arg@, cwd@),
{
    if has_scheme(arg) || is_scp_locator(arg) || is_explicit_path(arg) {
        return true;
    }
    is_existing_repository(files, join_path(cwd, arg).as_slice())
}

// ------------------------------------------------------------- default actions

pub open spec fn unknown_word(arg: Seq<u8>) -> ErrorView {
    detailed(
        usage("`"@ + lossy_text(arg) + "` is neither a command nor a repository location"@),
        "write `git grove clone <url>` if you meant to clone it"@,
    )
}

/// A command line with its command: `list` where there is none, which only makes sense inside a
/// grove, and `clone` before a repository's locator.
pub open spec fn normal_run(f: FileSession, argv: Seq<Seq<u8>>, cwd: Seq<u8>) -> (
    FileSession,
    Outcome<Seq<Seq<u8>>>,
) {
    if argv.len() < 2 {
        match discover_run(f, cwd) {
            (f1, Err(e)) => (f1, Err(e)),
            (f1, Ok(_)) => (f1, Ok(argv.push(lit("list")))),
        }
    } else if starts_with(argv[1], lit("-")) || known(argv[1]) {
        (f, Ok(argv))
    } else {
        match locator_run(f, argv[1], cwd) {
            (f1, true) => (f1, Ok(argv.insert(1, lit("clone")))),
            (f1, false) => (f1, Err(unknown_word(argv[1]))),
        }
    }
}

/// Puts in the command that a command line leaves out.
pub fn normalize_from<F: FileSystem + ?Sized>(files: &mut F, argv: Vec<Vec<u8>>, cwd: &[u8]) -> (r:
    Result<Vec<Vec<u8>>>)
    ensures
        (final(files).files(), list_outcome(r)) == normal_run(
            old(files).files(),
            views(argv@),
            cwd@,
        ),
{
    let ghost given = views(argv@);
    let mut line = argv;
    proof {
        assert(given.len() == argv@.len());
    }
    if line.len() < 2 {
        let _ = discover(files, cwd)?;
        line.push(bytes_of("list"));
        proof {
            assert(views(line@) =~= given.push(lit("list")));
        }
        return Ok(line);
    }
    proof {
        assert(given[1] == argv@[1]@);
    }
    if has_prefix(line[1].as_slice(), "-".as_bytes()) || is_known(line[1].as_slice()) {
        return Ok(line);
    }
    if looks_like_locator(files, line[1].as_slice(), cwd) {
        line.insert(1, bytes_of("clone"));
        proof {
            assert(views(line@) =~= given.insert(1, lit("clone")));
        }
        return Ok(line);
    }
    Err(
        GroveError::usage(
            text("`").concat(lossy(line[1].as_slice()).as_str()).concat(
                "` is neither a command nor a repository location",
            ),
        ).with_detail(text("write `git grove clone <url>` if you meant to clone it")),
    )
}

/// Nothing that was written on a command line is lost or moved out of order: a command is added
/// at most.
pub proof fn normalizing_only_adds_a_command(f: FileSession, argv: Seq<Seq<u8>>, cwd: Seq<u8>)
    requires
        normal_run(f, argv, cwd).1 is Ok,
    ensures
        ({
            let line = normal_run(f, argv, cwd).1->Ok_0;
            ||| line == argv
            ||| line == argv.push(lit("list"))
            ||| line == argv.insert(1, lit("clone"))
        }),
{
}

/// A command line that begins with a command or an option is left to the parser, and the file
/// system is not asked.
pub proof fn commands_are_left_alone(f: FileSession, argv: Seq<Seq<u8>>, cwd: Seq<u8>)
    requires
        argv.len() >= 2,
        known(argv[1]) || starts_with(argv[1], lit("-")),
    ensures
        normal_run(f, argv, cwd) == (f, Ok::<Seq<Seq<u8>>, ErrorView>(argv)),
{
}

// ----------------------------------------------------------------- what is to be created

/// An owner and a name, both of which say something, with one slash between them.
pub open spec fn create_target(target: Seq<u8>) -> Option<(Seq<u8>, Seq<u8>)> {
    let parts = split(target, SLASH);
    if parts.len() == 2 && parts[0].len() > 0 && parts[1].len() > 0 {
        Some((parts[0], parts[1]))
    } else {
        None
    }
}

pub open spec fn target_outcome(r: Result<(Vec<u8>, Vec<u8>)>) -> Outcome<(Seq<u8>, Seq<u8>)> {
    match r {
        Ok(pair) => Ok((pair.0@, pair.1@)),
        Err(e) => Err(e@),
    }
}

/// Takes `<owner>/<name>` apart.
pub fn parse_create_target(target: &[u8]) -> (r: Result<(Vec<u8>, Vec<u8>)>)
    ensures
        target_outcome(r) == match create_target(target@) {
            Some(pair) => Ok::<(Seq<u8>, Seq<u8>), ErrorView>(pair),
            None => Err(usage("--create needs <owner>/<name>"@)),
        },
{
    let parts = split_on(target, SLASH);
    let ghost all = views(parts@);
    proof {
        assert(all.len() == parts@.len());
        assert(forall|i: int| 0 <= i < all.len() ==> all[i] == (#[trigger] parts@[i])@);
    }
    if parts.len() == 2 && parts[0].len() > 0 && parts[1].len() > 0 {
        Ok((copied(parts[0].as_slice()), copied(parts[1].as_slice())))
    } else {
        Err(usage_error("--create needs <owner>/<name>"))
    }
}

/// A target is taken apart exactly where it is an owner and a name, each with something in it and
/// no slash, and a slash between the two; and into just these.
pub proof fn create_targets_are_two_names(target: Seq<u8>, owner: Seq<u8>, name: Seq<u8>)
    ensures
        create_target(target) == Some((owner, name)) <==> {
            &&& target == owner.push(SLASH) + name
            &&& owner.len() > 0 && !owner.contains(SLASH)
            &&& name.len() > 0 && !name.contains(SLASH)
        },
{
    lemma_split_fields(target, SLASH);
    let k = find(target, SLASH);
    lemma_find_bounds(target, SLASH, 0);
    if create_target(target) == Some((owner, name)) {
        assert(k < target.len());
        let rest = after(target, k + 1);
        assert(split(target, SLASH) =~= seq![target.subrange(0, k)] + split(rest, SLASH));
        assert(split(rest, SLASH).len() == 1);
        lemma_find_bounds(rest, SLASH, 0);
        if find(rest, SLASH) < rest.len() {
            lemma_split_fields(after(rest, find(rest, SLASH) + 1), SLASH);
        }
        assert(split(rest, SLASH)[0] == rest);
        assert(split(target, SLASH)[0] == owner);
        assert(split(target, SLASH)[1] == name);
        assert(target =~= owner.push(SLASH) + name);
    }
    if target == owner.push(SLASH) + name && owner.len() > 0 && !owner.contains(SLASH) && name.len()
        > 0 && !name.contains(SLASH) {
        lemma_split_joined(owner, name, SLASH);
        lemma_find_bounds(owner, SLASH, 0);
        lemma_find_bounds(name, SLASH, 0);
        assert(split(owner, SLASH) =~= seq![owner]);
        assert(split(name, SLASH) =~= seq![name]);
        assert(split(target, SLASH) =~= seq![owner, name]);
    }
}

/// A command line of the program's name alone asks for a listing, inside a grove; outside, it is
/// refused.
pub proof fn nothing_asks_for_a_listing(f: FileSession, name: Seq<u8>, cwd: Seq<u8>)
    ensures
        ({
            let argv = seq![name];
            let r = normal_run(f, argv, cwd).1;
            &&& discover_run(f, cwd).1 is Ok ==> r == Ok::<Seq<Seq<u8>>, ErrorView>(
                argv.push(lit("list")),
            )
            &&& discover_run(f, cwd).1 is Err ==> r is Err
        }),
{
}

/// Every command can be written out, under its own name and under the other that it goes by.
pub proof fn commands_go_by_these_names(
    f: FileSession,
    argv: Seq<Seq<u8>>,
    cwd: Seq<u8>,
    word: Seq<u8>,
)
    requires
        argv.len() >= 2,
        argv[1] == word,
        word == lit("clone") || word == lit("plant") || word == lit("init") || word == lit("seed")
            || word == lit("add") || word == lit("sprout") || word == lit("adopt") || word == lit(
            "transplant",
        ) || word == lit("list") || word == lit("survey") || word == lit("sync") || word == lit(
            "tend",
        ) || word == lit("publish") || word == lit("propagate") || word == lit("setup") || word
            == lit("hook-guard") || word == lit("completion") || word == lit("help"),
    ensures
        normal_run(f, argv, cwd) == (f, Ok::<Seq<Seq<u8>>, ErrorView>(argv)),
{
}

/// Whether a word begins like none of the commands: with a letter that none of them begins with, or
/// with a sign.
spec fn unlike_commands(word: Seq<u8>) -> bool {
    word.len() > 0 && (word[0] == SLASH || word[0] == DOT || word[0] == 0x7e)
}

proof fn lemma_unlike(word: Seq<u8>)
    requires
        unlike_commands(word),
    ensures
        !known(word),
        !starts_with(word, lit("-")),
{
    reveal_strlit("clone");
    reveal_strlit("plant");
    reveal_strlit("init");
    reveal_strlit("seed");
    reveal_strlit("add");
    reveal_strlit("sprout");
    reveal_strlit("adopt");
    reveal_strlit("transplant");
    reveal_strlit("list");
    reveal_strlit("survey");
    reveal_strlit("sync");
    reveal_strlit("tend");
    reveal_strlit("publish");
    reveal_strlit("propagate");
    reveal_strlit("setup");
    reveal_strlit("hook-guard");
    reveal_strlit("completion");
    reveal_strlit("help");
    reveal_strlit("-");
    vstd::utf8::is_ascii_chars_encode_utf8("clone"@);
    vstd::utf8::is_ascii_chars_encode_utf8("plant"@);
    vstd::utf8::is_ascii_chars_encode_utf8("init"@);
    vstd::utf8::is_ascii_chars_encode_utf8("seed"@);
    vstd::utf8::is_ascii_chars_encode_utf8("add"@);
    vstd::utf8::is_ascii_chars_encode_utf8("sprout"@);
    vstd::utf8::is_ascii_chars_encode_utf8("adopt"@);
    vstd::utf8::is_ascii_chars_encode_utf8("transplant"@);
    vstd::utf8::is_ascii_chars_encode_utf8("list"@);
    vstd::utf8::is_ascii_chars_encode_utf8("survey"@);
    vstd::utf8::is_ascii_chars_encode_utf8("sync"@);
    vstd::utf8::is_ascii_chars_encode_utf8("tend"@);
    vstd::utf8::is_ascii_chars_encode_utf8("publish"@);
    vstd::utf8::is_ascii_chars_encode_utf8("propagate"@);
    vstd::utf8::is_ascii_chars_encode_utf8("setup"@);
    vstd::utf8::is_ascii_chars_encode_utf8("hook-guard"@);
    vstd::utf8::is_ascii_chars_encode_utf8("completion"@);
    vstd::utf8::is_ascii_chars_encode_utf8("help"@);
    vstd::utf8::is_ascii_chars_encode_utf8("-"@);
    if starts_with(word, lit("-")) {
        assert(word.subrange(0, 1)[0] == word[0]);
    }
}

/// A path that is written as one, in the place of a command, is cloned, and the file system is not
/// asked about it.
pub proof fn written_paths_are_cloned(f: FileSession, argv: Seq<Seq<u8>>, cwd: Seq<u8>, rest: Seq<u8>)
    requires
        argv.len() >= 2,
        argv[1] == lit("/") + rest || argv[1] == lit("./") + rest || argv[1] == lit("../") + rest
            || argv[1] == lit("~/") + rest,
    ensures
        normal_run(f, argv, cwd) == (
            f,
            Ok::<Seq<Seq<u8>>, ErrorView>(argv.insert(1, lit("clone"))),
        ),
{
    let word = argv[1];
    reveal_strlit("/");
    reveal_strlit("./");
    reveal_strlit("../");
    reveal_strlit("~/");
    vstd::utf8::is_ascii_chars_encode_utf8("/"@);
    vstd::utf8::is_ascii_chars_encode_utf8("./"@);
    vstd::utf8::is_ascii_chars_encode_utf8("../"@);
    vstd::utf8::is_ascii_chars_encode_utf8("~/"@);
    assert(word[0] == SLASH || word[0] == DOT || word[0] == 0x7e);
    lemma_unlike(word);
    if word == lit("./") + rest {
        assert(word.subrange(0, 2) =~= lit("./"));
    } else if word == lit("../") + rest {
        assert(word.subrange(0, 3) =~= lit("../"));
    } else if word == lit("~/") + rest {
        assert(word.subrange(0, 2) =~= lit("~/"));
    } else {
        assert(word[0] == SLASH);
        assert(absolute(word));
    }
}

/// A word with a scheme before it is cloned, unless it is a command or an option, and the file
/// system is not asked about it.
pub proof fn urls_are_cloned(
    f: FileSession,
    argv: Seq<Seq<u8>>,
    cwd: Seq<u8>,
    front: Seq<u8>,
    rest: Seq<u8>,
)
    requires
        argv.len() >= 2,
        argv[1] == front + lit("://") + rest,
        front.len() > 0,
        forall|i: int|
            0 <= i < front.len() ==> 0x61 <= #[trigger] front[i] <= 0x7a || (i > 0 && (front[i]
                == PLUS || front[i] == DASH || 0x30 <= front[i] <= 0x39)),
    ensures
        normal_run(f, argv, cwd) == (
            f,
            Ok::<Seq<Seq<u8>>, ErrorView>(argv.insert(1, lit("clone"))),
        ),
{
    let word = argv[1];
    reveal_strlit("://");
    vstd::utf8::is_ascii_chars_encode_utf8("://"@);
    let k = front.len() as int;
    assert(0x61 <= front[0] <= 0x7a);
    assert(word[k] == COLON && word[k + 1] == SLASH && word[k + 2] == SLASH);
    assert(scheme_ends_at(word, k));
    assert(word.subrange(0, k) =~= front);
    assert(scheme(front));
    assert forall|j: int| 0 <= j < k implies !#[trigger] scheme_ends_at(word, j) by {
        assert(word[j] == front[j]);
    }
    assert(with_scheme(word));
    lemma_no_command(word, k);
}

proof fn lemma_no_command(word: Seq<u8>, k: int)
    requires
        0 < k < word.len(),
        word[k] == COLON,
        0x61 <= word[0] <= 0x7a,
    ensures
        !known(word),
        !starts_with(word, lit("-")),
{
    lemma_lower("clone"@, word, k);
    lemma_lower("plant"@, word, k);
    lemma_lower("init"@, word, k);
    lemma_lower("seed"@, word, k);
    lemma_lower("add"@, word, k);
    lemma_lower("sprout"@, word, k);
    lemma_lower("adopt"@, word, k);
    lemma_lower("transplant"@, word, k);
    lemma_lower("list"@, word, k);
    lemma_lower("survey"@, word, k);
    lemma_lower("sync"@, word, k);
    lemma_lower("tend"@, word, k);
    lemma_lower("publish"@, word, k);
    lemma_lower("propagate"@, word, k);
    lemma_lower("setup"@, word, k);
    lemma_lower("hook-guard"@, word, k);
    lemma_lower("completion"@, word, k);
    lemma_lower("help"@, word, k);
    reveal_strlit("clone");
    reveal_strlit("plant");
    reveal_strlit("init");
    reveal_strlit("seed");
    reveal_strlit("add");
    reveal_strlit("sprout");
    reveal_strlit("adopt");
    reveal_strlit("transplant");
    reveal_strlit("list");
    reveal_strlit("survey");
    reveal_strlit("sync");
    reveal_strlit("tend");
    reveal_strlit("publish");
    reveal_strlit("propagate");
    reveal_strlit("setup");
    reveal_strlit("hook-guard");
    reveal_strlit("completion");
    reveal_strlit("help");
    reveal_strlit("-");
    vstd::utf8::is_ascii_chars_encode_utf8("-"@);
    if starts_with(word, lit("-")) {
        assert(word.subrange(0, 1)[0] == word[0]);
    }
}

proof fn lemma_lower(name: Seq<char>, word: Seq<u8>, k: int)
    requires
        0 <= k < word.len(),
        word[k] == COLON,
    ensures
        vstd::utf8::is_ascii_chars(name) && (forall|i: int|
            0 <= i < name.len() ==> #[trigger] name[i] != ':') ==> word != vstd::utf8::encode_utf8(
            name,
        ),
{
    if vstd::utf8::is_ascii_chars(name) && word == vstd::utf8::encode_utf8(name) {
        vstd::utf8::is_ascii_chars_encode_utf8(name);
        assert(word[k] == name[k] as u8);
        assert('\0' <= name[k] <= '\u{7f}');
    }
}

/// A word that is neither a command nor an option, and does not look like a locator, is cloned only
/// where a repository is found under it: a `.git`, or a `HEAD` with an object store.
pub proof fn other_words_are_cloned_only_where_a_repository_is(
    f: FileSession,
    argv: Seq<Seq<u8>>,
    cwd: Seq<u8>,
)
    requires
        argv.len() >= 2,
        !starts_with(argv[1], lit("-")),
        !known(argv[1]),
        !with_scheme(argv[1]),
        !scp_locator(argv[1]),
        !explicit_path(argv[1]),
    ensures
        ({
            let (f1, r) = normal_run(f, argv, cwd);
            let place = child(cwd, argv[1]);
            let git = FileRequest::Exists(child(place, lit(".git")));
            let head = FileRequest::IsFile(child(place, lit("HEAD")));
            let store = FileRequest::IsDirectory(child(place, lit("objects")));
            let yes = AnswerView::Found(true);
            let linked = (f.script)(f.calls.push(git)) == yes;
            let bare = (f.script)(f.calls.push(git).push(head)) == yes && (f.script)(
                f.calls.push(git).push(head).push(store),
            ) == yes;
            &&& r is Ok <==> linked || bare
            &&& r is Ok ==> r->Ok_0 == argv.insert(1, lit("clone"))
            &&& r is Err ==> r->Err_0.class == ExitClass::Usage
        }),
{
}

} // verus!
